//! The random source of the simulation.
//!
//! Randomness comes from `rand`. A draw is not a function of anything Verus
//! can see, so the contracts here state only what holds of every outcome and
//! the callers are proved for all of them.

use rand::rngs::StdRng;
use rand::seq::SliceRandom;
use rand::Rng;
use vstd::prelude::*;

verus! {

/// `rand::rngs::StdRng`, carried about but never looked into.
#[verifier::external_type_specification]
#[verifier::external_body]
pub struct ExStdRng(StdRng);

/// `SliceRandom::shuffle`: the same coordinates in some other order.
#[verifier::external_body]
pub(crate) fn shuffle(coords: &mut Vec<(usize, usize)>, rng: &mut StdRng)
    ensures
        final(coords)@.to_multiset() == old(coords)@.to_multiset(),
{
    coords.shuffle(rng)
}

/// `Rng::gen_ratio`: true with probability `numerator / denominator`; never
/// true when `numerator` is zero and always true when the two are equal.
#[verifier::external_body]
pub(crate) fn chance(rng: &mut StdRng, numerator: u32, denominator: u32) -> (hit: bool)
    requires
        denominator > 0,
        numerator <= denominator,
    ensures
        numerator == 0 ==> !hit,
        numerator == denominator ==> hit,
{
    rng.gen_ratio(numerator, denominator)
}

} // verus!
