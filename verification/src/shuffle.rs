use vstd::prelude::*;

use crate::types::Event;
use rand::seq::SliceRandom;

verus! {

/// Relies on rand's `SliceRandom::shuffle`: an in-place Fisher-Yates
/// permutation of the slice. Which permutation comes out depends on the
/// thread's generator, so only what holds of every outcome is stated: the
/// multiset of elements, and hence the length, is unchanged.
#[verifier::external_body]
pub(crate) fn shuffle_events(v: &mut Vec<Event>)
    ensures
        final(v)@.to_multiset() == old(v)@.to_multiset(),
        final(v)@.map_values(|e: Event| e@).to_multiset() == old(v)@.map_values(
            |e: Event| e@,
        ).to_multiset(),
        final(v)@.len() == old(v)@.len(),
{
    v.shuffle(&mut rand::rng());
}

} // verus!
