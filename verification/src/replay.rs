//! What holds of every game: facts about the rules of play that do not
//! depend on the board, the players or the order of the shuffle.

use crate::checksum::{board_words, checksum_of};
use crate::graph::Node;
use crate::sequences::{lemma_filter_all, lemma_filter_members, lemma_filter_push, other_than};
use crate::state::{
    acted, acted_all, acts_on_own, advanced, drain, flowed, not_from, played, step_attacks, step_nodes,
    step_pending, toggled, Action, Board, Cell,
};
use vstd::prelude::*;

verus! {

/// One step of a pass of flow: the pair that was carried out, and whether
/// its origin attacked its destination.
pub struct Step {
    pub pair: (Node, Node),
    pub attacked: bool,
}

/// The steps of a pass of flow over `pending`, in the order in which they
/// are carried out: the last pending pair first, then those of the pass
/// over what is still pending after it.
pub open spec fn carried_out(nodes: Seq<Option<Cell>>, pending: Seq<(Node, Node)>) -> Seq<Step>
    decreases pending.len(),
    via carried_out_decreases
{
    if pending.len() == 0 {
        Seq::empty()
    } else {
        seq![Step { pair: pending.last(), attacked: step_attacks(nodes, pending.last()) }]
            + carried_out(step_nodes(nodes, pending.last()), step_pending(nodes, pending))
    }
}

#[via_fn]
proof fn carried_out_decreases(nodes: Seq<Option<Cell>>, pending: Seq<(Node, Node)>) {
    if pending.len() > 0 {
        lemma_filter_members(pending.drop_last(), not_from(pending.last().1));
    }
}

/// The board after each of `steps`, in order, has been carried out.
pub open spec fn replayed(nodes: Seq<Option<Cell>>, steps: Seq<Step>) -> Seq<Option<Cell>>
    decreases steps.len(),
{
    if steps.len() == 0 {
        nodes
    } else {
        replayed(step_nodes(nodes, steps.first().pair), steps.drop_first())
    }
}

/// A pass of flow leaves the board that its steps lead to.
pub proof fn lemma_drain_is_replay(nodes: Seq<Option<Cell>>, pending: Seq<(Node, Node)>)
    ensures
        drain(nodes, pending) == replayed(nodes, carried_out(nodes, pending)),
    decreases pending.len(),
{
    if pending.len() > 0 {
        let rest = step_pending(nodes, pending);
        let next = step_nodes(nodes, pending.last());
        lemma_filter_members(pending.drop_last(), not_from(pending.last().1));
        lemma_drain_is_replay(next, rest);
        assert(carried_out(nodes, pending).drop_first() =~= carried_out(next, rest));
    }
}

/// Only pending pairs are carried out.
pub proof fn lemma_carried_out_were_pending(nodes: Seq<Option<Cell>>, pending: Seq<(Node, Node)>)
    ensures
        forall|k: int|
            0 <= k < carried_out(nodes, pending).len() ==> pending.contains(
                (#[trigger] carried_out(nodes, pending)[k]).pair,
            ),
    decreases pending.len(),
{
    if pending.len() > 0 {
        let front = pending.drop_last();
        let rest = step_pending(nodes, pending);
        let next = step_nodes(nodes, pending.last());
        lemma_filter_members(front, not_from(pending.last().1));
        lemma_carried_out_were_pending(next, rest);
        let steps = carried_out(nodes, pending);
        let later = carried_out(next, rest);
        assert forall|k: int| 0 <= k < steps.len() implies pending.contains(
            (#[trigger] steps[k]).pair,
        ) by {
            if k == 0 {
                assert(pending[pending.len() - 1] == steps[0].pair);
            } else {
                let pair = later[k - 1].pair;
                assert(steps[k] == later[k - 1]);
                assert(rest.contains(pair));
                assert(front.contains(pair)) by {
                    if !step_attacks(nodes, pending.last()) {
                        assert(rest == front);
                    }
                }
                let j = choose|j: int| 0 <= j < front.len() && front[j] == pair;
                assert(pending[j] == pair);
            }
        }
    }
}

/// Attack suppression: once a node has been attacked in a pass of flow, no
/// pair that starts at that node is carried out in the rest of the pass.
pub proof fn lemma_attacked_node_sends_nothing(
    nodes: Seq<Option<Cell>>,
    pending: Seq<(Node, Node)>,
)
    ensures
        forall|i: int, j: int|
            0 <= i < j < carried_out(nodes, pending).len() && (#[trigger] carried_out(
                nodes,
                pending,
            )[i]).attacked ==> (#[trigger] carried_out(nodes, pending)[j]).pair.0 != carried_out(
                nodes,
                pending,
            )[i].pair.1,
    decreases pending.len(),
{
    if pending.len() > 0 {
        let front = pending.drop_last();
        let rest = step_pending(nodes, pending);
        let next = step_nodes(nodes, pending.last());
        lemma_filter_members(front, not_from(pending.last().1));
        lemma_carried_out_were_pending(next, rest);
        lemma_attacked_node_sends_nothing(next, rest);
        let steps = carried_out(nodes, pending);
        let later = carried_out(next, rest);
        assert forall|i: int, j: int|
            0 <= i < j < steps.len() && (#[trigger] steps[i]).attacked implies (
        #[trigger] steps[j]).pair.0 != steps[i].pair.1 by {
            assert(steps[j] == later[j - 1]);
            if i == 0 {
                assert(rest.contains(later[j - 1].pair));
            } else {
                assert(steps[i] == later[i - 1]);
            }
        }
    }
}

/// Toggling the same outflow twice restores the set of outflows. If the
/// outflow was not set before, it restores the very list.
pub proof fn lemma_toggle_twice(outflows: Seq<Node>, to: Node)
    ensures
        toggled(toggled(outflows, to), to).to_set() == outflows.to_set(),
        !outflows.contains(to) ==> toggled(toggled(outflows, to), to) == outflows,
{
    let once = toggled(outflows, to);
    let twice = toggled(once, to);
    lemma_filter_members(outflows, other_than(to));
    lemma_filter_members(once, other_than(to));
    if outflows.contains(to) {
        assert(!once.contains(to));
        assert forall|x: Node| twice.contains(x) <==> outflows.contains(x) by {
            if twice.contains(x) {
                let i = choose|i: int| 0 <= i < twice.len() && twice[i] == x;
                if i < once.len() {
                    assert(once[i] == x);
                    assert(once.contains(x));
                }
            }
            if outflows.contains(x) {
                if x == to {
                    assert(twice[twice.len() - 1] == x);
                } else {
                    assert(once.contains(x));
                    let i = choose|i: int| 0 <= i < once.len() && once[i] == x;
                    assert(twice[i] == x);
                }
            }
        }
    } else {
        assert(once[once.len() - 1] == to);
        assert(once.contains(to));
        lemma_filter_push(outflows, to, other_than(to));
        lemma_filter_all(outflows, other_than(to));
        assert(twice == outflows);
    }
    assert(twice.to_set() =~= outflows.to_set());
}

/// Toggle pairing: the same action applied twice in succession leaves
/// every node with its player, its goop and its set of outflows.
pub proof fn lemma_action_twice(nodes: Seq<Option<Cell>>, action: Action)
    ensures
        acted(acted(nodes, action), action).len() == nodes.len(),
        forall|i: int|
            0 <= i < nodes.len() ==> match (nodes[i], #[trigger] acted(acted(nodes, action), action)[i]) {
                (None, None) => true,
                (Some(before), Some(after)) => after.player == before.player && after.goop
                    == before.goop && after.outflows.to_set() == before.outflows.to_set(),
                _ => false,
            },
{
    match action {
        Action::ToggleOutflow { player, from, to } => {
            if acts_on_own(nodes, action) {
                let cell = nodes[from as int]->0;
                lemma_toggle_twice(cell.outflows, to);
                assert(acts_on_own(acted(nodes, action), action));
            }
        },
    }
}

/// An action on a node that its player does not occupy changes nothing.
pub proof fn lemma_foreign_action_changes_nothing(nodes: Seq<Option<Cell>>, action: Action)
    requires
        !acts_on_own(nodes, action),
    ensures
        acted(nodes, action) == nodes,
{
}

/// Determinism: the state after a turn, and its checksum, are functions of
/// the state before it and the sources alone.
pub proof fn lemma_advance_is_deterministic(first: Board, second: Board, sources: Seq<Node>)
    requires
        first == second,
    ensures
        advanced(first, sources) == advanced(second, sources),
        checksum_of(advanced(first, sources)) == checksum_of(advanced(second, sources)),
{
}

/// Checksum agreement: two replicas that hold the same nodes and the same
/// generator state have the same checksum after the same actions and a
/// turn, whatever turn each of them counts.
pub proof fn lemma_replicas_agree(
    scheduler: Board,
    replica: Board,
    sources: Seq<Node>,
    actions: Seq<Action>,
)
    requires
        scheduler.nodes == replica.nodes,
        scheduler.rng == replica.rng,
    ensures
        played(scheduler, sources, actions).nodes == played(replica, sources, actions).nodes,
        played(scheduler, sources, actions).rng == played(replica, sources, actions).rng,
        checksum_of(played(scheduler, sources, actions)) == checksum_of(
            played(replica, sources, actions),
        ),
{
    let a = Board { nodes: acted_all(scheduler.nodes, actions), ..scheduler };
    let b = Board { nodes: acted_all(replica.nodes, actions), ..replica };
    assert(flowed(a).nodes == flowed(b).nodes);
    assert(flowed(a).rng == flowed(b).rng);
    assert(board_words(played(scheduler, sources, actions)) == board_words(
        played(replica, sources, actions),
    ));
}

} // verus!
