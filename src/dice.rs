//! Random draws.

use rand::distributions::{IndependentSample, Weighted, WeightedChoice};
use rand::Rng;
use vstd::prelude::*;

verus! {

/// The sum of the weights.
pub open spec fn weight_sum(w: Seq<u32>) -> int
    decreases w.len(),
{
    if w.len() == 0 {
        0
    } else {
        weight_sum(w.drop_last()) + w.last()
    }
}

/// Relies on `rand::Rng::gen_range` on the thread-local generator: a value in `[low, high)`;
/// it panics when `low >= high`.
#[verifier::external_body]
pub(crate) fn random_range(low: i32, high: i32) -> (r: i32)
    requires
        low < high,
    ensures
        low <= r < high,
{
    rand::thread_rng().gen_range(low, high)
}

/// Relies on `rand::random::<bool>`: a fair coin.
#[verifier::external_body]
pub(crate) fn coin_flip() -> (r: bool) {
    rand::random::<bool>()
}

/// Relies on `rand::distributions::WeightedChoice`: the index of an entry of positive weight.
/// It panics when the weights sum to zero or past `u32::MAX`.
#[verifier::external_body]
pub(crate) fn weighted_index(weights: &Vec<u32>) -> (r: usize)
    requires
        0 < weight_sum(weights@) <= u32::MAX,
    ensures
        r < weights.len(),
        weights@[r as int] > 0,
{
    let mut items: Vec<Weighted<usize>> = weights.iter().enumerate().map(
        |(i, w)| Weighted { weight: *w, item: i },
    ).collect();
    WeightedChoice::new(&mut items).ind_sample(&mut rand::thread_rng())
}

} // verus!
