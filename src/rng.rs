//! The random source: `rand`'s standard generator, its integer ranges, and
//! its weighted index distribution over `u64` weights.
use rand::distributions::Distribution;
use rand::rngs::StdRng;
use rand::Rng;
use rand_distr::WeightedIndex;
use vstd::prelude::*;

verus! {

/// The sum of all weights.
pub open spec fn weight_total(w: Seq<u64>) -> nat
    decreases w.len(),
{
    if w.len() == 0 {
        0
    } else {
        weight_total(w.drop_last()) + w.last() as nat
    }
}

#[verifier::external_type_specification]
#[verifier::external_body]
pub struct ExStdRng(StdRng);

/// A categorical distribution over the indices of a list of `u64` weights,
/// drawn by `rand`'s `WeightedIndex`.
#[verifier::external_body]
pub struct Categorical {
    index: WeightedIndex<u64>,
}

/// The weights a categorical distribution was built from.
pub uninterp spec fn index_weights(d: Categorical) -> Seq<u64>;

/// Relies on `WeightedIndex::new`: it fails on an empty list and on weights
/// that add up to zero, and otherwise keeps the weights it was given. It adds
/// the weights up in a `u64`, hence the bound on their total.
#[verifier::external_body]
pub(crate) fn weighted_index(weights: &Vec<u64>) -> (r: Option<Categorical>)
    requires
        weight_total(weights@) <= u64::MAX,
    ensures
        r is Some <==> (weights@.len() > 0 && weight_total(weights@) > 0),
        r matches Some(d) ==> index_weights(d) == weights@,
{
    match WeightedIndex::new(weights) {
        Ok(index) => Some(Categorical { index }),
        Err(_) => None,
    }
}

/// Relies on `Distribution::sample` for `WeightedIndex`: it draws a point
/// below the total weight and returns the first index whose cumulative weight
/// lies above it, so the index is in range and its weight is positive.
#[verifier::external_body]
pub(crate) fn sample_index(d: &Categorical, rng: &mut StdRng) -> (r: usize)
    requires
        weight_total(index_weights(*d)) > 0,
    ensures
        r < index_weights(*d).len(),
        index_weights(*d)[r as int] > 0,
{
    d.index.sample(rng)
}

/// Relies on `Rng::gen_range`, which returns a value of the half-open range
/// `min..max` and panics when that range is empty.
#[verifier::external_body]
pub(crate) fn gen_range_i32(rng: &mut StdRng, min: i32, max: i32) -> (r: i32)
    requires
        min < max,
    ensures
        min <= r < max,
{
    rng.gen_range(min..max)
}

} // verus!
