//! What a resolver can do, as four traits.
//!
//! A resolver answers with something that is still pending: the caller
//! polls it. What the pending answer is made of is the resolver's own
//! matter, so each trait leaves its type open and says with a predicate
//! which pending answers the resolver may hand out for a name.
use vstd::prelude::*;
use std::sync::Arc;
use crate::combinators::{FrozenSubscriber, NullHostResolver, NullResolver};
use crate::name::Name;

verus! {

/// Resolves the name of a host into its IP addresses, as an `A` or `AAAA`
/// record does. The answer carries neither ports nor weights.
pub trait ResolveHost {
    /// The pending answer: in the end a list of IP addresses or an error.
    type FutureHost;

    /// Whether `answer` is what this resolver hands out for `name`. A
    /// resolver that says nothing of its answers admits every one.
    open spec fn host_answer(&self, name: Name, answer: Self::FutureHost) -> bool {
        true
    }

    /// Resolves `name` once.
    fn resolve_host(&self, name: &Name) -> (answer: Self::FutureHost)
        ensures
            self.host_answer(*name, answer),
    ;

    /// The subscriber that resolves once with this resolver and never
    /// updates what it found.
    fn frozen_host_subscriber(self) -> (r: FrozenSubscriber<Self>) where Self: Sized
        ensures
            r.inner() == self,
    {
        FrozenSubscriber::new(self)
    }

    /// The resolver that resolves hosts as this one does and finds no
    /// service at all.
    fn null_service_resolver(self) -> (r: NullResolver<Self>) where Self: Sized
        ensures
            r.inner() == self,
    {
        NullResolver::new(self)
    }
}

/// Resolves the name of a service into addresses with priorities and
/// weights, as an `SRV` record does.
pub trait Resolve {
    /// The pending answer: in the end an address or an error.
    type Future;

    /// Whether `answer` is what this resolver hands out for `name`. A
    /// resolver that says nothing of its answers admits every one.
    open spec fn answer(&self, name: Name, answer: Self::Future) -> bool {
        true
    }

    /// Resolves `name` once.
    fn resolve(&self, name: &Name) -> (answer: Self::Future)
        ensures
            self.answer(*name, answer),
    ;

    /// The subscriber that resolves once with this resolver and never
    /// updates what it found.
    fn frozen_subscriber(self) -> (r: FrozenSubscriber<Self>) where Self: Sized
        ensures
            r.inner() == self,
    {
        FrozenSubscriber::new(self)
    }

    /// The subscriber that resolves once with this resolver and never
    /// updates what it found.
    fn frozen_service_subscriber(self) -> (r: FrozenSubscriber<Self>) where Self: Sized
        ensures
            r.inner() == self,
    {
        FrozenSubscriber::new(self)
    }

    /// The resolver that resolves services as this one does and finds no
    /// host at all.
    fn null_host_resolver(self) -> (r: NullHostResolver<Self>) where Self: Sized
        ensures
            r.inner() == self,
    {
        NullHostResolver::new(self)
    }
}

/// Resolves the name of a host and reports when its addresses change.
pub trait HostSubscribe {
    /// The subscription: it yields lists of IP addresses. An error ends
    /// its use; the caller may subscribe again after a while.
    type HostStream;

    /// Whether `stream` is what this resolver hands out for `name`. A
    /// resolver that says nothing of its subscriptions admits every one.
    open spec fn host_subscription(&self, name: Name, stream: Self::HostStream) -> bool {
        true
    }

    /// Resolves `name` and subscribes to the updates.
    fn subscribe_host(&self, name: &Name) -> (stream: Self::HostStream)
        ensures
            self.host_subscription(*name, stream),
    ;
}

/// Resolves the name of a service and reports when its addresses change.
pub trait Subscribe {
    /// The subscription: it yields addresses. An error ends its use; the
    /// caller may subscribe again after a while.
    type Stream;

    /// Whether `stream` is what this resolver hands out for `name`. A
    /// resolver that says nothing of its subscriptions admits every one.
    open spec fn subscription(&self, name: Name, stream: Self::Stream) -> bool {
        true
    }

    /// Resolves `name` and subscribes to the updates.
    fn subscribe(&self, name: &Name) -> (stream: Self::Stream)
        ensures
            self.subscription(*name, stream),
    ;
}

impl<T: Resolve> Resolve for Arc<T> {
    type Future = T::Future;

    open spec fn answer(&self, name: Name, answer: Self::Future) -> bool {
        (**self).answer(name, answer)
    }

    fn resolve(&self, name: &Name) -> (answer: Self::Future) {
        (**self).resolve(name)
    }
}

impl<T: ResolveHost> ResolveHost for Arc<T> {
    type FutureHost = T::FutureHost;

    open spec fn host_answer(&self, name: Name, answer: Self::FutureHost) -> bool {
        (**self).host_answer(name, answer)
    }

    fn resolve_host(&self, name: &Name) -> (answer: Self::FutureHost) {
        (**self).resolve_host(name)
    }
}

impl<T: Subscribe> Subscribe for Arc<T> {
    type Stream = T::Stream;

    open spec fn subscription(&self, name: Name, stream: Self::Stream) -> bool {
        (**self).subscription(name, stream)
    }

    fn subscribe(&self, name: &Name) -> (stream: Self::Stream) {
        (**self).subscribe(name)
    }
}

impl<T: HostSubscribe> HostSubscribe for Arc<T> {
    type HostStream = T::HostStream;

    open spec fn host_subscription(&self, name: Name, stream: Self::HostStream) -> bool {
        (**self).host_subscription(name, stream)
    }

    fn subscribe_host(&self, name: &Name) -> (stream: Self::HostStream) {
        (**self).subscribe_host(name)
    }
}

} // verus!
