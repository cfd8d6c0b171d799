//! The source of random numbers.

use rand::Rng;
use vstd::prelude::*;

verus! {

/// Draws a number from the thread's generator with `rand::thread_rng` and
/// `Rng::gen_range`.
///
/// Not proved: the contract repeats what `gen_range` documents, a value
/// that is at least `low` and less than `high`. It panics unless
/// `low < high`, which the precondition excludes. Which value comes is left
/// open.
#[verifier::external_body]
pub(crate) fn random_in(low: usize, high: usize) -> (r: usize)
    requires
        low < high,
    ensures
        low <= r < high,
{
    rand::thread_rng().gen_range(low, high)
}

} // verus!
