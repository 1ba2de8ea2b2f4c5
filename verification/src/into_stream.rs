//! One answer as a subscription that ends after it.
use vstd::prelude::*;
use crate::poll::{Async, Poll};

verus! {

/// The subscription made of one pending answer: it yields what the answer
/// turns out to be, value or error, and then ends.
///
/// The stream does not poll the pending answer itself. Its owner polls
/// `future` while there is one, and hands what came back to
/// [`poll`](IntoStream::poll).
#[derive(Debug)]
pub struct IntoStream<F> {
    /// The pending answer, until it has come.
    pub future: Option<F>,
}

/// The subscription that waits for `future`.
pub fn new<F>(future: F) -> (r: IntoStream<F>)
    ensures
        r.future == Some(future),
{
    IntoStream { future: Some(future) }
}

/// What a poll of the stream yields, given whether it still holds its
/// pending answer and what the poll of that answer brought. Without a
/// pending answer the stream is at its end.
pub open spec fn ending_yields<T, E>(pending: bool, polled: Poll<T, E>) -> Poll<Option<T>, E> {
    if !pending {
        Ok(Async::Ready(None))
    } else {
        match polled {
            Ok(Async::NotReady) => Ok(Async::NotReady),
            Ok(Async::Ready(v)) => Ok(Async::Ready(Some(v))),
            Err(e) => Err(e),
        }
    }
}

impl<F> IntoStream<F> {
    /// One poll of the stream. `polled` is what the poll of the pending
    /// answer brought; it is not looked at where the answer has come before.
    pub fn poll<T, E>(&mut self, polled: Poll<T, E>) -> (r: Poll<Option<T>, E>)
        ensures
            r == ending_yields(old(self).future is Some, polled),
            final(self).future is Some == (old(self).future is Some && polled == Ok::<Async<T>, E>(
                Async::NotReady,
            )),
            final(self).future is Some ==> final(self).future == old(self).future,
    {
        if self.future.is_none() {
            return Ok(Async::Ready(None));
        }
        match polled {
            Ok(Async::NotReady) => Ok(Async::NotReady),
            Ok(Async::Ready(v)) => {
                self.future = None;
                Ok(Async::Ready(Some(v)))
            },
            Err(e) => {
                self.future = None;
                Err(e)
            },
        }
    }
}

} // verus!
