//! The one place where chance enters: draws from the thread's generator.
//!
//! Nothing is known of a draw but its range, so whatever is decided from one
//! is decided by a function that takes the number drawn as an argument.
use vstd::prelude::*;
use rand::Rng;
use rand::distributions::IndependentSample;

verus! {

/// `Rng::choose` on `rand::thread_rng()`: one of `values`, and nothing where
/// there are none. That each has the same chance is the generator's matter
/// and no part of what is claimed here.
#[verifier::external_body]
pub(crate) fn one_of<T: Copy>(values: &[T]) -> (r: Option<T>)
    ensures
        values@.len() == 0 ==> r is None,
        values@.len() > 0 ==> r is Some && values@.contains(r->0),
{
    rand::thread_rng().choose(values).copied()
}

/// `Range::new(0, high)` sampled once with `rand::thread_rng()`: a number
/// from 0 up to, not including, `high`. The range cannot be made for
/// `high == 0`. That each number has the same chance is the generator's
/// matter and no part of what is claimed here.
#[verifier::external_body]
pub(crate) fn below(high: u64) -> (n: u64)
    requires
        high > 0,
    ensures
        n < high,
{
    rand::distributions::Range::new(0, high).ind_sample(&mut rand::thread_rng())
}

} // verus!
