//! Trusted access to the process-wide random number generator.

use vstd::prelude::*;
use rand::Rng;
use rand::seq::SliceRandom;

verus! {

/// Relies on rand's `SliceRandom::choose`: some element of a non-empty slice,
/// picked uniformly.  Which element comes back is not promised.
#[verifier::external_body]
pub(crate) fn choose_from<T: Copy>(values: &Vec<T>) -> (r: T)
    requires
        values@.len() > 0,
    ensures
        values@.contains(r),
{
    *values.choose(&mut rand::thread_rng()).unwrap()
}

/// Relies on rand's `Rng::gen_range`: a value drawn uniformly from
/// `0..high`, which panics only on an empty range.
#[verifier::external_body]
pub(crate) fn rand_below(high: u32) -> (r: u32)
    requires
        high >= 1,
    ensures
        r < high,
{
    rand::thread_rng().gen_range(0..high)
}

/// Relies on rand's `Rng::gen_range`: a draw from `0..den` compared against
/// `num`, so the result is true with probability `num / den`.  Nothing is
/// promised of the outcome.
#[verifier::external_body]
pub(crate) fn chance(num: u64, den: u64) -> bool
    requires
        den >= 1,
{
    rand::thread_rng().gen_range(0..den) < num
}

} // verus!
