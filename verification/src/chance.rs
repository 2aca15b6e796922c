//! The places where the game asks for a random outcome.
//!
//! Both functions call the `fastrand` generator. What they return differs
//! from call to call, so their contracts state only what holds of every
//! outcome, and the verifier believes them without seeing the generator.

use vstd::prelude::*;

verus! {

/// `fastrand::Rng::usize` on the range `..bound` of a fresh generator: some
/// index below the bound. The generator refuses an empty range, so the bound
/// must be positive.
#[verifier::external_body]
pub(crate) fn index_below(bound: usize) -> (index: usize)
    requires
        bound > 0,
    ensures
        index < bound,
{
    fastrand::Rng::new().usize(..bound)
}

/// `fastrand::shuffle`: the same handles in some other order. The generator
/// only ever swaps two places of the slice, so nothing is lost or repeated.
#[verifier::external_body]
pub(crate) fn shuffle(ids: &mut Vec<u64>)
    ensures
        final(ids)@.to_multiset() == old(ids)@.to_multiset(),
{
    fastrand::shuffle(ids);
}

} // verus!
