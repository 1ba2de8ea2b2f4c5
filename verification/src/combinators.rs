//! Resolvers made of other resolvers.
//!
//! A router asks of the resolvers in its slots that they resolve services
//! and hosts, once and by subscription. The wrappers here fill in what a
//! resolver lacks: a resolver of hosts gets a service side that finds
//! nothing, a resolver of services a host side that finds nothing, and a
//! resolver that answers once gets subscriptions that yield its one answer.
use vstd::prelude::*;
use crate::addr::Address;
use crate::error::Error;
use crate::ip_list::IpList;
use crate::name::Name;
use crate::resolver::{HostSubscribe, Resolve, ResolveHost, Subscribe};

pub use crate::stream_once::StreamOnce;

verus! {

/// A subscriber that resolves once and never updates the result.
#[derive(Debug)]
pub struct FrozenSubscriber<R> {
    pub(crate) resolver: R,
}

/// A resolver that resolves hosts as the resolver in it does, and answers
/// `NameNotFound` to every service.
#[derive(Debug)]
pub struct NullResolver<R> {
    pub(crate) resolver: R,
}

/// A resolver that resolves services as the resolver in it does, and
/// answers `NameNotFound` to every host.
#[derive(Debug)]
pub struct NullHostResolver<R> {
    pub(crate) resolver: R,
}

impl<R> FrozenSubscriber<R> {
    /// The resolver that does the work.
    pub closed spec fn inner(&self) -> R {
        self.resolver
    }

    /// Wraps `resolver`.
    pub(crate) fn new(resolver: R) -> (r: Self)
        ensures
            r.inner() == resolver,
    {
        FrozenSubscriber { resolver }
    }
}

impl<R> NullResolver<R> {
    /// The resolver that does the work.
    pub closed spec fn inner(&self) -> R {
        self.resolver
    }

    /// Wraps `resolver`.
    pub(crate) fn new(resolver: R) -> (r: Self)
        ensures
            r.inner() == resolver,
    {
        NullResolver { resolver }
    }
}

impl<R> NullHostResolver<R> {
    /// The resolver that does the work.
    pub closed spec fn inner(&self) -> R {
        self.resolver
    }

    /// Wraps `resolver`.
    pub(crate) fn new(resolver: R) -> (r: Self)
        ensures
            r.inner() == resolver,
    {
        NullHostResolver { resolver }
    }
}

impl<R: Resolve> Resolve for NullHostResolver<R> {
    type Future = R::Future;

    /// The answer of the resolver within.
    open spec fn answer(&self, name: Name, answer: Self::Future) -> bool {
        self.inner().answer(name, answer)
    }

    fn resolve(&self, name: &Name) -> (answer: Self::Future) {
        self.resolver.resolve(name)
    }
}

impl<R> Resolve for NullResolver<R> {
    type Future = Result<Address, Error>;

    /// No service is found, whichever is asked for.
    open spec fn answer(&self, name: Name, answer: Self::Future) -> bool {
        answer == Err::<Address, Error>(Error::NameNotFound)
    }

    fn resolve(&self, _name: &Name) -> (answer: Self::Future) {
        Err(Error::NameNotFound)
    }
}

impl<R: Resolve> Resolve for FrozenSubscriber<R> {
    type Future = R::Future;

    /// The answer of the resolver within.
    open spec fn answer(&self, name: Name, answer: Self::Future) -> bool {
        self.inner().answer(name, answer)
    }

    fn resolve(&self, name: &Name) -> (answer: Self::Future) {
        self.resolver.resolve(name)
    }
}

impl<R: Resolve> Subscribe for FrozenSubscriber<R> {
    type Stream = StreamOnce<R::Future>;

    /// The stream that waits for one answer of the resolver within.
    open spec fn subscription(&self, name: Name, stream: Self::Stream) -> bool {
        stream.future is Some && self.inner().answer(name, stream.future->0)
    }

    fn subscribe(&self, name: &Name) -> (stream: Self::Stream) {
        StreamOnce::new(self.resolver.resolve(name))
    }
}

impl<R: ResolveHost> ResolveHost for NullResolver<R> {
    type FutureHost = R::FutureHost;

    /// The answer of the resolver within.
    open spec fn host_answer(&self, name: Name, answer: Self::FutureHost) -> bool {
        self.inner().host_answer(name, answer)
    }

    fn resolve_host(&self, name: &Name) -> (answer: Self::FutureHost) {
        self.resolver.resolve_host(name)
    }
}

impl<R> ResolveHost for NullHostResolver<R> {
    type FutureHost = Result<IpList, Error>;

    /// No host is found, whichever is asked for.
    open spec fn host_answer(&self, name: Name, answer: Self::FutureHost) -> bool {
        answer == Err::<IpList, Error>(Error::NameNotFound)
    }

    fn resolve_host(&self, _name: &Name) -> (answer: Self::FutureHost) {
        Err(Error::NameNotFound)
    }
}

impl<R: ResolveHost> ResolveHost for FrozenSubscriber<R> {
    type FutureHost = R::FutureHost;

    /// The answer of the resolver within.
    open spec fn host_answer(&self, name: Name, answer: Self::FutureHost) -> bool {
        self.inner().host_answer(name, answer)
    }

    fn resolve_host(&self, name: &Name) -> (answer: Self::FutureHost) {
        self.resolver.resolve_host(name)
    }
}

impl<R: ResolveHost> HostSubscribe for FrozenSubscriber<R> {
    type HostStream = StreamOnce<R::FutureHost>;

    /// The stream that waits for one answer of the resolver within.
    open spec fn host_subscription(&self, name: Name, stream: Self::HostStream) -> bool {
        stream.future is Some && self.inner().host_answer(name, stream.future->0)
    }

    fn subscribe_host(&self, name: &Name) -> (stream: Self::HostStream) {
        StreamOnce::new(self.resolver.resolve_host(name))
    }
}

} // verus!
