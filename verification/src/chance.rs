//! Draws from the thread's random number generator.

use vstd::prelude::*;
use rand::Rng;
use rand::seq::SliceRandom;

verus! {

/// Calls `rand::Rng::random` for a `bool` on the thread's generator.
/// Nothing is claimed of the result.
#[verifier::external_body]
pub(crate) fn coin() -> (heads: bool)
{
    rand::rng().random::<bool>()
}

/// Calls `rand::seq::SliceRandom::shuffle` on the vector with the thread's generator.
/// The call only exchanges elements, so the vector holds afterwards what it held before,
/// each element as often; nothing is claimed of the order.
#[verifier::external_body]
pub(crate) fn shuffle<T>(items: &mut Vec<T>)
    ensures
        final(items)@.to_multiset() == old(items)@.to_multiset(),
{
    items.shuffle(&mut rand::rng());
}

} // verus!
