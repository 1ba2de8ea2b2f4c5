//! A resolver that answers from a table in memory.
//!
//! It serves tests, and it serves the names that a program wants to resolve
//! without asking anyone: `localhost`, say.
use vstd::prelude::*;
use crate::addr::{Address, Entries};
use crate::error::Error;
use crate::name::Name;
use crate::net::{IpAddr, SocketAddr};
use crate::poll::Async;
use crate::resolver::{Resolve, Subscribe};
use crate::table::Table;
use crate::text::chars_of;

verus! {

/// The subscription that a [`MemResolver`] hands out: it yields the address
/// once, if there is one, and is silent from then on. It never ends.
#[derive(Debug)]
pub struct MemSubscription(pub Option<Address>);

/// A resolver that knows the address of each host of its table, and no other.
pub struct MemResolver {
    names: Table<IpAddr>,
}

impl View for MemResolver {
    type V = Map<Seq<char>, IpAddr>;

    closed spec fn view(&self) -> Map<Seq<char>, IpAddr> {
        self.names@
    }
}

/// What a table answers for a host and the port that comes with the name:
/// without a port there is no address to give, and without an entry there
/// is no such name. The address holds the entry alone, with weight 0.
pub open spec fn mem_answer(
    names: Map<Seq<char>, IpAddr>,
    host: Seq<char>,
    port: Option<u16>,
) -> Result<Seq<Entries>, Error> {
    match port {
        None => Err(Error::NoDefaultPort),
        Some(p) => if names.contains_key(host) {
            Ok(seq![seq![(0u64, SocketAddr { ip: names[host], port: p })]])
        } else {
            Err(Error::NameNotFound)
        },
    }
}

/// Whether `r` is the answer `expected`: the same error, or an address with
/// the same levels.
pub open spec fn is_answer(r: Result<Address, Error>, expected: Result<Seq<Entries>, Error>) -> bool {
    match expected {
        Ok(levels) => r is Ok && r->Ok_0@ == levels,
        Err(e) => r == Err::<Address, Error>(e),
    }
}

impl MemResolver {
    /// The resolver with an empty table.
    pub fn new() -> (r: MemResolver)
        ensures
            r@ == Map::<Seq<char>, IpAddr>::empty(),
    {
        MemResolver { names: Table::new() }
    }

    /// Enters the host `host` with its address, in place of an earlier
    /// entry for it. The host is written without a port.
    pub fn add_host(&mut self, host: &str, address: IpAddr)
        ensures
            final(self)@ == old(self)@.insert(host@, address),
    {
        self.names.insert(chars_of(host), address);
    }

    /// The address entered for the host whose characters are `host`.
    pub(crate) fn lookup(&self, host: &[char]) -> (r: Option<IpAddr>)
        ensures
            match r {
                Some(ip) => self@.contains_key(host@) && ip == self@[host@],
                None => !self@.contains_key(host@),
            },
    {
        match self.names.get(host) {
            Some(ip) => Some(*ip),
            None => None,
        }
    }

    /// Whether the table has an entry for `name`.
    pub fn contains_name(&self, name: &str) -> (r: bool)
        ensures
            r == self@.contains_key(name@),
    {
        let chars = chars_of(name);
        self.names.contains_key(chars.as_slice())
    }

    /// The address of the host of `name`, with the port of `name`.
    pub fn resolve(&self, name: &Name) -> (r: Result<Address, Error>)
        ensures
            is_answer(r, mem_answer(self@, name@.host, name@.port)),
    {
        match name.default_port() {
            Some(port) => {
                let host = chars_of(name.host());
                match self.names.get(host.as_slice()) {
                    Some(ip) => Ok(Address::from((*ip, port))),
                    None => Err(Error::NameNotFound),
                }
            },
            None => Err(Error::NoDefaultPort),
        }
    }

    /// The subscription to `name`: it yields what `resolve` answers where
    /// that is an address, and nothing at all where it is an error.
    pub fn subscribe(&self, name: &Name) -> (r: MemSubscription)
        ensures
            match mem_answer(self@, name@.host, name@.port) {
                Ok(levels) => r.0 is Some && r.0->0@ == levels,
                Err(_) => r.0 is None,
            },
    {
        match self.resolve(name) {
            Ok(address) => MemSubscription(Some(address)),
            Err(_) => MemSubscription(None),
        }
    }
}

impl Resolve for MemResolver {
    type Future = Result<Address, Error>;

    /// The answer is known at once: what the table holds for the host, with
    /// the port of the name.
    open spec fn answer(&self, name: Name, answer: Self::Future) -> bool {
        is_answer(answer, mem_answer(self@, name@.host, name@.port))
    }

    fn resolve(&self, name: &Name) -> (answer: Self::Future) {
        MemResolver::resolve(self, name)
    }
}

impl Subscribe for MemResolver {
    type Stream = MemSubscription;

    /// The subscription holds the address that the table has for the host,
    /// and nothing where it has none or the name has no port.
    open spec fn subscription(&self, name: Name, stream: Self::Stream) -> bool {
        match mem_answer(self@, name@.host, name@.port) {
            Ok(levels) => stream.0 is Some && stream.0->0@ == levels,
            Err(_) => stream.0 is None,
        }
    }

    fn subscribe(&self, name: &Name) -> (stream: Self::Stream) {
        MemResolver::subscribe(self, name)
    }
}

impl MemSubscription {
    /// One poll: the address, if it has not been handed out yet; after that,
    /// and where there never was one, nothing is ready, now or later.
    pub fn poll(&mut self) -> (r: Async<Option<Address>>)
        ensures
            final(self).0 is None,
            match old(self).0 {
                Some(a) => r == Async::Ready(Some(a)),
                None => r is NotReady,
            },
    {
        match self.0.take() {
            Some(a) => Async::Ready(Some(a)),
            None => Async::NotReady,
        }
    }
}

} // verus!
