//! The resolver for names that are addresses already.
use vstd::prelude::*;
use std::marker::PhantomData;
use crate::blocking::BlockingResolver;

verus! {

/// The resolver that resolves every name to itself.
///
/// It serves where a resolver is asked for and the address is known:
/// `IdentityResolver<SocketAddr>` takes the address in place of a name.
pub struct IdentityResolver<T>(PhantomData<T>);

impl<T> IdentityResolver<T> {
    /// The resolver.
    pub fn new() -> (r: IdentityResolver<T>) {
        IdentityResolver(PhantomData)
    }
}

impl<T> BlockingResolver for IdentityResolver<T> {
    type Name = T;

    type Address = T;

    type Error = ();

    /// Every name may be asked for.
    open spec fn accepts(&self, name: T) -> bool {
        true
    }

    /// The answer is the name.
    open spec fn resolves(&self, name: T, answer: Result<T, ()>) -> bool {
        answer == Ok::<T, ()>(name)
    }

    /// Hands the name back. The resolver stays as it is.
    fn resolve(&mut self, name: T) -> (answer: Result<T, ()>)
        ensures
            *final(self) == *old(self),
    {
        Ok(name)
    }
}

} // verus!
