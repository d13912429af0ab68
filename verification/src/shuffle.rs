//! Putting the pending outflows of a turn in a pseudo-random order.

use crate::graph::Node;
use crate::xorshift::XorShift128Plus;
use rand::Rng;
use vstd::prelude::*;

verus! {

/// The order in which `rand`'s `Rng::shuffle` leaves `list` when it draws
/// from an xorshift128+ generator whose state words are `rng`, together with
/// the state words that the generator is left with.
///
/// `Rng::shuffle` walks the list from its end and swaps each element with
/// one at an index drawn below it; an index is drawn by taking numbers from
/// the generator, a whole `usize` at a time, until one is not rejected. So
/// the outcome is the same wherever a `usize` has the same width.
pub uninterp spec fn shuffled(rng: (u64, u64), list: Seq<(usize, usize)>) -> (
    Seq<(usize, usize)>,
    (u64, u64),
);

/// Shuffle `list` with `rand::Rng::shuffle`, drawing from `rng`.
///
/// Not proved: that the outcome is the function `shuffled` of the
/// generator's state and the list, and that it is a rearrangement of the
/// list. `Rng::shuffle` only ever swaps two elements of the slice, and it
/// reads nothing but the slice's length and the numbers that `rng` yields,
/// which `next_u64` and `next_u32` determine from the state words.
#[verifier::external_body]
pub(crate) fn shuffle_pairs(rng: &mut XorShift128Plus, list: &mut Vec<(Node, Node)>)
    ensures
        (final(list)@, final(rng)@) == shuffled(old(rng)@, old(list)@),
        final(list)@.to_multiset() == old(list)@.to_multiset(),
{
    rng.shuffle(list.as_mut_slice());
}

} // verus!
