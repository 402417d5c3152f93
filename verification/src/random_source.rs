//! The engine's only sources of randomness, taken from the `rand` crate: a
//! fair coin flip for the branch-and-bound exploration order, and an in-place
//! shuffle for single random draw.  Both act through a caller-supplied
//! thread-local generator.

use vstd::prelude::*;
use rand::Rng;
use rand::seq::SliceRandom;

verus! {

#[verifier::external_type_specification]
#[verifier::external_body]
pub struct ExThreadRng(rand::rngs::ThreadRng);

/// Relies on `rand::Rng::gen` at type `bool` (the `Standard` distribution,
/// which draws one uniformly random boolean).  Nothing is promised of the
/// outcome: callers must be correct whichever way the coin lands.
#[verifier::external_body]
pub(crate) fn coin_flip(rng: &mut rand::rngs::ThreadRng) -> bool {
    rng.gen::<bool>()
}

/// Relies on `rand::seq::SliceRandom::shuffle`: a Fisher-Yates shuffle that
/// rearranges the slice in place purely by swapping elements, so the result
/// holds exactly the same entries as before, in an order nothing is promised
/// about.
#[verifier::external_body]
pub(crate) fn shuffle_order(order: &mut Vec<usize>, rng: &mut rand::rngs::ThreadRng)
    ensures
        final(order)@.to_multiset() == old(order)@.to_multiset(),
{
    order.shuffle(rng);
}

} // verus!
