//! One answer as a subscription that never ends.
use vstd::prelude::*;
use crate::poll::{Async, Poll};

verus! {

/// The subscription made of one pending answer: it yields what the answer
/// turns out to be, value or error, and is silent from then on. It never
/// ends, so whoever waits for its end waits for ever.
///
/// The stream does not poll the pending answer itself. Its owner polls
/// `future` while there is one, and hands what came back to
/// [`poll`](StreamOnce::poll).
#[derive(Debug)]
pub struct StreamOnce<F> {
    /// The pending answer, until it has come.
    pub future: Option<F>,
}

/// What a poll of the stream yields, given whether it still holds its
/// pending answer and what the poll of that answer brought.
pub open spec fn once_yields<T, E>(pending: bool, polled: Poll<T, E>) -> Poll<Option<T>, E> {
    if !pending {
        Ok(Async::NotReady)
    } else {
        match polled {
            Ok(Async::NotReady) => Ok(Async::NotReady),
            Ok(Async::Ready(v)) => Ok(Async::Ready(Some(v))),
            Err(e) => Err(e),
        }
    }
}

/// Whether the stream still holds its pending answer after a poll: it does
/// while the answer has not come.
pub open spec fn once_pending<T, E>(pending: bool, polled: Poll<T, E>) -> bool {
    pending && polled == Ok::<Async<T>, E>(Async::NotReady)
}

impl<F> StreamOnce<F> {
    /// The subscription that waits for `future`.
    pub fn new(future: F) -> (r: StreamOnce<F>)
        ensures
            r.future == Some(future),
    {
        StreamOnce { future: Some(future) }
    }

    /// One poll of the stream. `polled` is what the poll of the pending
    /// answer brought; it is not looked at where the answer has come before.
    pub fn poll<T, E>(&mut self, polled: Poll<T, E>) -> (r: Poll<Option<T>, E>)
        ensures
            r == once_yields(old(self).future is Some, polled),
            final(self).future is Some == once_pending(old(self).future is Some, polled),
            final(self).future is Some ==> final(self).future == old(self).future,
    {
        if self.future.is_none() {
            return Ok(Async::NotReady);
        }
        match polled {
            Ok(Async::NotReady) => Ok(Async::NotReady),
            Ok(Async::Ready(v)) => {
                self.future = None;
                Ok(Async::Ready(Some(v)))
            },
            Err(e) => {
                self.future = None;
                Err(e)
            },
        }
    }
}

/// Once the answer has come, the stream has yielded it, and every later poll
/// finds nothing ready, whatever is handed to it: the answer is yielded
/// exactly once, and the stream does not end.
pub proof fn lemma_yields_once<T, E>(first: Poll<T, E>, later: Poll<T, E>)
    requires
        first != Ok::<Async<T>, E>(Async::NotReady),
    ensures
        match first {
            Ok(Async::Ready(v)) => once_yields(true, first) == Ok::<Async<Option<T>>, E>(
                Async::Ready(Some(v)),
            ),
            Ok(Async::NotReady) => false,
            Err(e) => once_yields(true, first) == Err::<Async<Option<T>>, E>(e),
        },
        !once_pending(true, first),
        once_yields(once_pending(true, first), later) == Ok::<Async<Option<T>>, E>(Async::NotReady),
        !once_pending(once_pending(true, first), later),
{
}

/// While the answer has not come, the stream yields nothing and keeps
/// waiting.
pub proof fn lemma_waits<T, E>()
    ensures
        once_yields(true, Ok::<Async<T>, E>(Async::NotReady)) == Ok::<Async<Option<T>>, E>(
            Async::NotReady,
        ),
        once_pending(true, Ok::<Async<T>, E>(Async::NotReady)),
{
}

} // verus!
