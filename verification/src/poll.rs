//! What one poll of a pending answer or of a subscription brings.
use vstd::prelude::*;

verus! {

/// What a poll found.
#[derive(Debug, Clone, Copy, PartialEq, Eq)]
pub enum Async<T> {
    /// The value is there.
    Ready(T),
    /// Nothing yet: poll again when woken.
    NotReady,
}

/// What a poll returns: what it found, or the error that ends the matter.
/// A subscription polls to an `Option`: `None` says that it has ended.
pub type Poll<T, E> = Result<Async<T>, E>;

impl<T> Async<T> {
    /// Whether the value is there.
    pub fn is_ready(&self) -> (r: bool)
        ensures
            r == (self is Ready),
    {
        match self {
            Async::Ready(_) => true,
            Async::NotReady => false,
        }
    }

    /// Whether nothing is there yet.
    pub fn is_not_ready(&self) -> (r: bool)
        ensures
            r == (self is NotReady),
    {
        !self.is_ready()
    }
}

} // verus!
