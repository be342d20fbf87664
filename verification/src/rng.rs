//! The trusted boundary to the `rand` crate. Sampling takes the standard
//! RNG by mutable reference, so a caller who seeds it deterministically gets
//! reproducible draws.

use vstd::prelude::*;

use crate::weighted_item::WeightedItem;

verus! {

#[verifier::external_type_specification]
#[verifier::external_body]
pub struct ExStdRng(rand::rngs::StdRng);

/// Relies on rand's `RngExt::random_range` over `0..upper`: a uniformly
/// distributed integer in that range. The call panics only on an empty
/// range, which the precondition rules out.
#[verifier::external_body]
pub(crate) fn draw_below(rng: &mut rand::rngs::StdRng, upper: i64) -> (r: i64)
    requires
        upper > 0,
    ensures
        0 <= r < upper,
{
    rand::RngExt::random_range(rng, 0..upper)
}

/// Relies on rand's `SliceRandom::shuffle`: permutes the slice in place, so
/// the elements afterwards are the same multiset in some order.
#[verifier::external_body]
pub(crate) fn shuffle_items_raw(rng: &mut rand::rngs::StdRng, data: &mut Vec<WeightedItem>)
    ensures
        final(data)@.len() == old(data)@.len(),
        final(data)@.to_multiset() == old(data)@.to_multiset(),
{
    rand::seq::SliceRandom::shuffle(data.as_mut_slice(), rng);
}

/// Relies on rand's `SliceRandom::shuffle`: permutes the slice in place, so
/// the elements afterwards are the same multiset in some order.
#[verifier::external_body]
pub(crate) fn shuffle_weights_raw(rng: &mut rand::rngs::StdRng, weights: &mut Vec<i64>)
    ensures
        final(weights)@.len() == old(weights)@.len(),
        final(weights)@.to_multiset() == old(weights)@.to_multiset(),
{
    rand::seq::SliceRandom::shuffle(weights.as_mut_slice(), rng);
}

} // verus!
