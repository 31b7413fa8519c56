//! Randomness, behind trusted wrappers around the `rand` crate.
//!
//! Nothing is assumed of the drawn values beyond what holds of every
//! outcome: a range draw lands in its range, and a weighted draw lands on an
//! index whose weight is positive.

use vstd::prelude::*;

use rand::Rng;

verus! {

/// Relies on rand's `Rng::gen_range`: a draw from a non-empty half-open
/// range lies in that range (`gen_range` panics on an empty one).
#[verifier::external_body]
pub(crate) fn rand_range(lo: i32, hi: i32) -> (r: i32)
    requires
        lo < hi,
    ensures
        lo <= r < hi,
{
    rand::thread_rng().gen_range(lo..hi)
}

/// Relies on rand's `random::<bool>`: a coin flip; nothing is promised of
/// the outcome.
#[verifier::external_body]
pub(crate) fn rand_flip() -> bool {
    rand::random::<bool>()
}

/// Relies on rand's `WeightedIndex`: the sampled index is within range and
/// its weight is positive (an index is drawn with probability proportional
/// to its weight, so zero-weight indices are never drawn). The bounds on the
/// weights keep `WeightedIndex::new` from failing on an all-zero or
/// overflowing total.
#[verifier::external_body]
pub(crate) fn sample_weighted(weights: &Vec<u32>) -> (i: usize)
    requires
        exists|j: int| 0 <= j < weights@.len() && weights@[j] > 0,
        weights@.len() <= 16,
        forall|j: int| 0 <= j < weights@.len() ==> weights@[j] <= 0xffff,
    ensures
        i < weights@.len(),
        weights@[i as int] > 0,
{
    let dist = rand::distributions::WeightedIndex::new(weights).unwrap();
    rand::thread_rng().sample(&dist)
}

} // verus!
