//! Resolvers that answer at once, while the caller waits.
use vstd::prelude::*;

verus! {

/// A resolver that hands back the answer itself: an address or an error.
pub trait BlockingResolver {
    /// What is resolved.
    type Name;

    /// What a name resolves to.
    type Address;

    /// Why a name does not resolve.
    type Error;

    /// Whether this resolver may be asked for `name`. A resolver that says
    /// nothing may be asked for every name.
    open spec fn accepts(&self, name: Self::Name) -> bool {
        true
    }

    /// Whether `answer` is what this resolver answers for `name`. A
    /// resolver that says nothing of its answers admits every one.
    open spec fn resolves(
        &self,
        name: Self::Name,
        answer: Result<Self::Address, Self::Error>,
    ) -> bool {
        true
    }

    /// Resolves `name`.
    fn resolve(&mut self, name: Self::Name) -> (answer: Result<Self::Address, Self::Error>)
        requires
            old(self).accepts(name),
        ensures
            old(self).resolves(name, answer),
    ;
}

} // verus!
