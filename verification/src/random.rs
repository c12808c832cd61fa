//! The source of randomness for board generation.

use vstd::prelude::*;
use crate::types::BingoItem;

verus! {

/// The seedable generator of the `rand` crate, as `spacetimedb` hands it on.
/// Nothing is known of its state.
#[verifier::external_type_specification]
#[verifier::external_body]
pub struct ExStdRng(spacetimedb::rand::rngs::StdRng);

/// Shuffles the items in place with `rand::seq::SliceRandom::shuffle`.
///
/// Trusted: the shuffle only swaps elements of the slice, so afterwards the
/// vector holds the same items, each as often as before. Which order comes
/// out depends on the generator and is not stated.
#[verifier::external_body]
pub(crate) fn shuffle_items(items: &mut Vec<BingoItem>, rng: &mut spacetimedb::rand::rngs::StdRng)
    ensures
        final(items)@.to_multiset() == old(items)@.to_multiset(),
{
    spacetimedb::rand::seq::SliceRandom::shuffle(items.as_mut_slice(), rng);
}

} // verus!
