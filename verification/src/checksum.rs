//! A 64-bit checksum of the varying state of a game, by which replicas
//! detect that they have diverged.

use crate::state::{Board, Cell, Occupied, State};
use vstd::prelude::*;

verus! {

/// The value from which hashing starts.
pub const HASH_BASIS: u64 = 0xcbf29ce484222325;

/// The multiplier of each hashing step.
pub const HASH_PRIME: u64 = 0x100000001b3;

/// The hash after `word` has been absorbed into `hash`.
pub open spec fn mix(hash: u64, word: u64) -> u64 {
    (hash ^ word).wrapping_mul(HASH_PRIME)
}

/// The hash after each of `words`, in order, has been absorbed into `hash`.
pub open spec fn hash_words(hash: u64, words: Seq<u64>) -> u64
    decreases words.len(),
{
    if words.len() == 0 {
        hash
    } else {
        mix(hash_words(hash, words.drop_last()), words.last())
    }
}

/// The words that stand for one node: a zero for a vacant node; for an
/// occupied one a one, the player, the goop, the number of outflows and the
/// outflows in order.
pub open spec fn cell_words(cell: Option<Cell>) -> Seq<u64> {
    match cell {
        None => seq![0u64],
        Some(c) => seq![1u64, c.player.0 as u64, c.goop as u64, c.outflows.len() as u64] + Seq::new(
            c.outflows.len(),
            |k: int| c.outflows[k] as u64,
        ),
    }
}

/// The words that stand for the nodes of a board, in node order.
pub open spec fn node_words(nodes: Seq<Option<Cell>>) -> Seq<u64>
    decreases nodes.len(),
{
    if nodes.len() == 0 {
        Seq::empty()
    } else {
        node_words(nodes.drop_last()) + cell_words(nodes.last())
    }
}

/// The words that stand for a board: its nodes, then the two state words of
/// its random number generator. Neither the map nor the turn is among them.
pub open spec fn board_words(board: Board) -> Seq<u64> {
    node_words(board.nodes) + seq![board.rng.0, board.rng.1]
}

/// The checksum of a board.
pub open spec fn checksum_of(board: Board) -> u64 {
    hash_words(HASH_BASIS, board_words(board))
}

/// Append the words that stand for `cell` to `words`.
fn push_cell_words(words: &mut Vec<u64>, cell: &Option<Occupied>)
    ensures
        final(words)@ == old(words)@ + cell_words(crate::state::cell_view(*cell)),
{
    let ghost before = words@;
    match cell {
        None => {
            words.push(0u64);
            proof {
                assert(words@ =~= before + seq![0u64]);
            }
        },
        Some(occupied) => {
            words.push(1u64);
            words.push(occupied.player.0 as u64);
            words.push(occupied.goop as u64);
            words.push(occupied.outflows.len() as u64);
            let ghost head = seq![
                1u64,
                occupied.player.0 as u64,
                occupied.goop as u64,
                occupied.outflows@.len() as u64,
            ];
            let ghost tail = Seq::new(occupied.outflows@.len(), |k: int| occupied.outflows@[k] as u64);
            proof {
                assert(words@ =~= before + head + tail.take(0));
            }
            let mut k: usize = 0;
            while k < occupied.outflows.len()
                invariant
                    k <= occupied.outflows@.len(),
                    tail == Seq::new(
                        occupied.outflows@.len(),
                        |k: int| occupied.outflows@[k] as u64,
                    ),
                    words@ == before + head + tail.take(k as int),
                decreases occupied.outflows@.len() - k,
            {
                words.push(occupied.outflows[k] as u64);
                proof {
                    assert(words@ =~= before + head + tail.take(k + 1));
                }
                k += 1;
            }
            proof {
                assert(tail.take(k as int) =~= tail);
                assert(words@ =~= before + (head + tail));
            }
        },
    }
}

/// Absorb each of `words`, in order, into `HASH_BASIS`.
fn hash_all(words: &Vec<u64>) -> (hash: u64)
    ensures
        hash == hash_words(HASH_BASIS, words@),
{
    let mut hash: u64 = HASH_BASIS;
    let mut i: usize = 0;
    proof {
        assert(words@.take(0) =~= Seq::<u64>::empty());
    }
    while i < words.len()
        invariant
            i <= words.len(),
            hash == hash_words(HASH_BASIS, words@.take(i as int)),
        decreases words.len() - i,
    {
        proof {
            assert(words@.take(i + 1).drop_last() =~= words@.take(i as int));
        }
        hash = (hash ^ words[i]).wrapping_mul(HASH_PRIME);
        i += 1;
    }
    proof {
        assert(words@.take(i as int) =~= words@);
    }
    hash
}

impl State {
    /// A hash of the nodes and the random number generator, by which two
    /// replicas of a game can tell that they have diverged. The map and the
    /// turn take no part in it.
    pub fn checksum(&self) -> (sum: u64)
        ensures
            sum == checksum_of(self@),
    {
        let ghost cells = self@.nodes;
        let mut words: Vec<u64> = Vec::new();
        let mut i: usize = 0;
        proof {
            assert(cells.take(0) =~= Seq::<Option<Cell>>::empty());
        }
        while i < self.nodes.len()
            invariant
                cells == self@.nodes,
                i <= self.nodes@.len(),
                words@ == node_words(cells.take(i as int)),
            decreases self.nodes@.len() - i,
        {
            proof {
                assert(cells.take(i + 1).drop_last() =~= cells.take(i as int));
            }
            push_cell_words(&mut words, &self.nodes[i]);
            i += 1;
        }
        proof {
            assert(cells.take(i as int) =~= cells);
        }
        let rng: [u64; 2] = self.rng.state();
        words.push(rng[0]);
        words.push(rng[1]);
        proof {
            assert(words@ =~= board_words(self@));
        }
        hash_all(&words)
    }
}

} // verus!
