//! Name resolution behind one interface.
//!
//! Protocol code asks for the addresses of a [`Name`] and does not care
//! whether a static table, DNS or a discovery service answers. The crate
//! holds the data that travels between the two sides ([`Name`], [`Address`],
//! [`IpList`]), the [`Router`](routing::Router) that decides which resolver
//! answers a name, and the small state machines that turn one answer into a
//! subscription or merge several subscriptions into one.
//!
//! Nothing here performs I/O: a resolver is polled by its owner, and what
//! the poll returned is handed to the state machines of this crate.

pub mod addr;
pub mod blocking;
pub mod combinators;
pub mod dns;
pub mod error;
pub mod identity;
pub mod into_stream;
pub mod ip_list;
pub mod ipv6;
pub mod mem;
pub mod mocks;
pub mod name;
pub mod net;
pub mod poll;
mod random;
pub mod resolver;
pub mod routing;
pub mod stream_once;
pub mod table;
pub mod text;
pub mod union;

pub use addr::Address;
pub use blocking::BlockingResolver;
pub use error::Error;
pub use identity::IdentityResolver;
pub use ip_list::IpList;
pub use mem::MemResolver;
pub use mocks::Mock;
pub use name::Name;
pub use net::{IpAddr, SocketAddr};
pub use resolver::{HostSubscribe, Resolve, ResolveHost, Subscribe};
pub use routing::{Router, RouterBuilder};
pub use union::{union_addresses, union_stream, Union};
