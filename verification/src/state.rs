//! The dynamic state of the game.
//!
//! The data needed to run a game is split into three categories:
//!
//! - `State` holds all the significant varying state of a game: the amount
//!   of goop in each node, and the outflows the players have chosen.
//!
//! - The graph of nodes and the locations of goop sources are fixed, and are
//!   part of the `GameMap`.
//!
//! - Interface elements enter hover and active states as the user mouses
//!   around; those are part of the `Mouse` type.

use crate::graph::{Graph, Node};
use crate::map::{all_below, sources_on_board, GameMap, MapParameters};
use crate::sequences::{
    copy_of, discard, holds, lemma_filter_members, lemma_filter_push, other_than,
};
use crate::shuffle::{shuffle_pairs, shuffled};
use crate::square::SquareGrid;
use crate::xorshift::XorShift128Plus;
use vstd::prelude::*;

verus! {

/// The most goop a node can hold.
pub const MAX_GOOP: usize = 15;

/// A player id number.
#[derive(Debug, Copy, Clone, Eq, PartialEq, Hash, Structural)]
pub struct Player(pub usize);

/// The state of a node that is occupied by some player.
#[derive(Debug, Hash, PartialEq)]
pub struct Occupied {
    /// The player who controls this node.
    pub player: Player,
    /// Which neighbors of this node it sends goop out to.
    pub outflows: Vec<Node>,
    /// How much goop this node holds. Ranges from 0 to `MAX_GOOP`.
    pub goop: usize,
}

/// What an occupied node holds, as a mathematical value.
pub struct Cell {
    pub player: Player,
    pub outflows: Seq<Node>,
    pub goop: usize,
}

impl View for Occupied {
    type V = Cell;

    open spec fn view(&self) -> Cell {
        Cell { player: self.player, outflows: self.outflows@, goop: self.goop }
    }
}

impl Clone for Occupied {
    fn clone(&self) -> (copy: Self)
        ensures
            copy@ == self@,
    {
        Occupied { player: self.player, outflows: copy_of(&self.outflows), goop: self.goop }
    }
}

/// What a node holds, occupied or vacant, as a mathematical value.
pub open spec fn cell_view(node: Option<Occupied>) -> Option<Cell> {
    match node {
        Some(occupied) => Some(occupied@),
        None => None,
    }
}

/// What each node of a board holds, as mathematical values.
pub open spec fn cells_view(nodes: Seq<Option<Occupied>>) -> Seq<Option<Cell>> {
    Seq::new(nodes.len(), |i: int| cell_view(nodes[i]))
}

/// Actions that can be taken on a `State`.
#[derive(Clone, Copy, Debug, PartialEq, Eq, Structural)]
pub enum Action {
    /// The `player` has requested to toggle the outflow from `from` to `to`.
    ToggleOutflow { player: Player, from: Node, to: Node },
}

/// Return a pair of mutable references to the `i`'th and `j`'th elements of
/// `slice`, where `i != j`.
pub fn index_mut_pair<T>(slice: &mut [T], i: usize, j: usize) -> (pair: (&mut T, &mut T))
    requires
        i != j,
        i < old(slice)@.len(),
        j < old(slice)@.len(),
    ensures
        *pair.0 == old(slice)@[i as int],
        *pair.1 == old(slice)@[j as int],
        final(slice)@ == old(slice)@.update(i as int, *final(pair.0)).update(
            j as int,
            *final(pair.1),
        ),
{
    if i < j {
        let (left, right) = slice.split_at_mut(j);
        (&mut left[i], &mut right[0])
    } else {
        let (left, right) = slice.split_at_mut(i);
        (&mut right[0], &mut left[j])
    }
}

/// What one unit of flow does to the cell it leaves and the cell it enters.
pub struct Flowed {
    /// The origin after the flow.
    pub from: Cell,
    /// The destination after the flow.
    pub to: Option<Cell>,
    /// Whether the origin attacked the destination: the two were held by
    /// different players and goop flowed.
    pub attacked: bool,
}

/// The rule for one unit of goop flowing from `from` towards `to`.
///
/// - An origin without goop has no effect.
/// - Flow into a vacant node claims it for the origin's player, with one
///   unit of goop and no outflows.
/// - Flow into a node of the same player moves one unit, unless the
///   destination is full.
/// - Flow into a node of another player is an attack, which clears the
///   destination's outflows. If the destination holds more than one unit,
///   one unit on each side is cancelled. Otherwise the attacker takes the
///   node over: one left with no goop gets the attacker's unit, and one
///   that had a single unit is left with none.
pub open spec fn flow_step(from: Cell, to: Option<Cell>) -> Flowed {
    let paid = Cell { goop: (from.goop - 1) as usize, ..from };
    if from.goop == 0 {
        Flowed { from, to, attacked: false }
    } else {
        match to {
            None => Flowed {
                from: paid,
                to: Some(Cell { player: from.player, outflows: Seq::empty(), goop: 1 }),
                attacked: false,
            },
            Some(target) => if target.player == from.player {
                if target.goop < MAX_GOOP {
                    Flowed {
                        from: paid,
                        to: Some(Cell { goop: (target.goop + 1) as usize, ..target }),
                        attacked: false,
                    }
                } else {
                    Flowed { from, to, attacked: false }
                }
            } else if target.goop > 1 {
                Flowed {
                    from: paid,
                    to: Some(
                        Cell {
                            player: target.player,
                            outflows: Seq::empty(),
                            goop: (target.goop - 1) as usize,
                        },
                    ),
                    attacked: true,
                }
            } else {
                Flowed {
                    from: paid,
                    to: Some(
                        Cell {
                            player: from.player,
                            outflows: Seq::empty(),
                            goop: (1 - target.goop) as usize,
                        },
                    ),
                    attacked: true,
                }
            },
        }
    }
}

/// Simulate goop flow from a given cell `from_node` to another cell,
/// `to_node`.
///
/// This only simulates flow in that particular direction; if two
/// neighboring cells are both trying to ooze into each other, `State::flow`
/// calls this twice, once for each direction.
///
/// Return true if `from_node` attacked `to_node`: the two nodes are occupied
/// by two different players, and goop flowed. The caller must then stop
/// `to_node`'s outflows.
pub fn simulate_flow(from_node: &mut Option<Occupied>, to_node: &mut Option<Occupied>) -> (attacked:
    bool)
    requires
        *old(from_node) is Some,
    ensures
        cell_view(*final(from_node)) == Some(
            flow_step((*old(from_node))->0@, cell_view(*old(to_node))).from,
        ),
        cell_view(*final(to_node)) == flow_step((*old(from_node))->0@, cell_view(*old(to_node))).to,
        attacked == flow_step((*old(from_node))->0@, cell_view(*old(to_node))).attacked,
{
    match from_node {
        None => false,
        Some(from) => {
            if from.goop == 0 {
                return false;
            }
            match to_node {
                None => {
                    from.goop -= 1;
                    *to_node = Some(Occupied { player: from.player, outflows: Vec::new(), goop: 1 });
                    false
                },
                Some(to) => {
                    if from.player == to.player {
                        if to.goop < MAX_GOOP {
                            from.goop -= 1;
                            to.goop += 1;
                        }
                        false
                    } else if to.goop > 1 {
                        from.goop -= 1;
                        to.goop -= 1;
                        to.outflows.clear();
                        true
                    } else {
                        from.goop -= 1;
                        to.player = from.player;
                        to.outflows.clear();
                        to.goop = 1 - to.goop;
                        true
                    }
                },
            }
        },
    }
}

/// The complete state of a game board.
pub struct State {
    /// The map being played on.
    pub map: GameMap,
    /// Which nodes are occupied, and which are vacant. Indexed by node id.
    pub nodes: Vec<Option<Occupied>>,
    /// The number of turns played so far.
    pub turn: usize,
    /// The random number generator used to drive the goop flow algorithm.
    pub rng: XorShift128Plus,
}

/// The varying part of a `State`, as a mathematical value.
pub struct Board {
    /// What each node holds.
    pub nodes: Seq<Option<Cell>>,
    /// The two state words of the random number generator.
    pub rng: (u64, u64),
    /// The number of turns played so far.
    pub turn: usize,
}

/// Whether a cell holds no more goop than a node can, and sends goop only
/// to neighbors of `node`.
pub open spec fn cell_ok(graph: SquareGrid, node: int, cell: Option<Cell>) -> bool {
    match cell {
        None => true,
        Some(c) => c.goop <= MAX_GOOP && forall|k: int|
            0 <= k < c.outflows.len() ==> graph.adjacent(node as usize, #[trigger] c.outflows[k]),
    }
}

/// Whether `nodes` has a cell for each node of `graph`, and each is `cell_ok`.
pub open spec fn board_ok(graph: SquareGrid, nodes: Seq<Option<Cell>>) -> bool {
    &&& nodes.len() == graph.node_count()
    &&& forall|i: int| 0 <= i < nodes.len() ==> cell_ok(graph, i, #[trigger] nodes[i])
}

/// Whether every one of `sources` is occupied.
pub open spec fn sources_held(nodes: Seq<Option<Cell>>, sources: Seq<Node>) -> bool {
    forall|k: int|
        0 <= k < sources.len() ==> 0 <= (#[trigger] sources[k]) < nodes.len()
            && nodes[sources[k] as int] is Some
}

/// The outflows of a node after the outflow to `to` has been toggled: if
/// `to` was among them it is removed, else it is added at the end.
pub open spec fn toggled(outflows: Seq<Node>, to: Node) -> Seq<Node> {
    if outflows.contains(to) {
        outflows.filter(other_than(to))
    } else {
        outflows.push(to)
    }
}

/// Whether `action` names a node that its player occupies.
pub open spec fn acts_on_own(nodes: Seq<Option<Cell>>, action: Action) -> bool {
    match action {
        Action::ToggleOutflow { player, from, to } => from < nodes.len() && match nodes[from as int] {
            Some(cell) => cell.player == player,
            None => false,
        },
    }
}

/// The board after `action`: nothing changes unless the action's player
/// occupies the node it names, and then only that node's outflows.
pub open spec fn acted(nodes: Seq<Option<Cell>>, action: Action) -> Seq<Option<Cell>> {
    match action {
        Action::ToggleOutflow { player, from, to } => if acts_on_own(nodes, action) {
            let cell = nodes[from as int]->0;
            nodes.update(from as int, Some(Cell { outflows: toggled(cell.outflows, to), ..cell }))
        } else {
            nodes
        },
    }
}

/// The board after each of `actions` in turn.
pub open spec fn acted_all(nodes: Seq<Option<Cell>>, actions: Seq<Action>) -> Seq<Option<Cell>>
    decreases actions.len(),
{
    if actions.len() == 0 {
        nodes
    } else {
        acted(acted_all(nodes, actions.drop_last()), actions.last())
    }
}

/// Toggling an outflow keeps a board well formed when the edge toggled is
/// an edge of the graph.
pub proof fn lemma_acted_ok(graph: SquareGrid, nodes: Seq<Option<Cell>>, action: Action)
    requires
        graph.wf(),
        board_ok(graph, nodes),
        edge_of(graph, action),
    ensures
        board_ok(graph, acted(nodes, action)),
        forall|i: int|
            0 <= i < nodes.len() ==> ((#[trigger] acted(nodes, action)[i]) is Some
                <==> nodes[i] is Some),
{
    match action {
        Action::ToggleOutflow { player, from, to } => {
            if acts_on_own(nodes, action) {
                let cell = nodes[from as int]->0;
                let after = toggled(cell.outflows, to);
                lemma_filter_members(cell.outflows, other_than(to));
                assert(cell_ok(graph, from as int, nodes[from as int]));
                assert forall|k: int| 0 <= k < after.len() implies graph.adjacent(
                    from,
                    #[trigger] after[k],
                ) by {
                    if cell.outflows.contains(to) {
                        assert(after.contains(after[k]));
                        let j = choose|j: int|
                            0 <= j < cell.outflows.len() && cell.outflows[j] == after[k];
                        assert(graph.adjacent(from, cell.outflows[j]));
                    } else if k < cell.outflows.len() {
                        assert(graph.adjacent(from, cell.outflows[k]));
                    }
                }
                let next = acted(nodes, action);
                assert forall|i: int| 0 <= i < next.len() implies cell_ok(
                    graph,
                    i,
                    #[trigger] next[i],
                ) by {
                    assert(cell_ok(graph, i, nodes[i]));
                }
            }
        },
    }
}

/// Whether the edge that `action` names is an edge of `graph`.
pub open spec fn edge_of(graph: SquareGrid, action: Action) -> bool {
    match action {
        Action::ToggleOutflow { player, from, to } => graph.adjacent(from, to),
    }
}

/// The predicate that holds of every pair whose origin is not `origin`.
pub open spec fn not_from(origin: Node) -> spec_fn((Node, Node)) -> bool {
    |pair: (Node, Node)| pair.0 != origin
}

/// The outflows of one node, each as a pair of origin and destination.
pub open spec fn node_pairs(node: Node, cell: Option<Cell>) -> Seq<(Node, Node)> {
    match cell {
        None => Seq::empty(),
        Some(c) => Seq::new(c.outflows.len(), |k: int| (node, c.outflows[k])),
    }
}

/// Every outflow on the board as a pair of origin and destination, by
/// origin, and for one origin in the order of its outflows.
pub open spec fn pairs_of(nodes: Seq<Option<Cell>>) -> Seq<(Node, Node)>
    decreases nodes.len(),
{
    if nodes.len() == 0 {
        Seq::empty()
    } else {
        pairs_of(nodes.drop_last()) + node_pairs((nodes.len() - 1) as usize, nodes.last())
    }
}

/// Whether each pending pair is an edge of the graph whose origin is
/// occupied.
pub open spec fn pending_ok(
    graph: SquareGrid,
    nodes: Seq<Option<Cell>>,
    pending: Seq<(Node, Node)>,
) -> bool {
    forall|k: int|
        0 <= k < pending.len() ==> graph.adjacent((#[trigger] pending[k]).0, pending[k].1)
            && nodes[pending[k].0 as int] is Some
}

/// The board after one unit of goop has flowed along `pair`.
pub open spec fn step_nodes(nodes: Seq<Option<Cell>>, pair: (Node, Node)) -> Seq<Option<Cell>> {
    let out = flow_step(nodes[pair.0 as int]->0, nodes[pair.1 as int]);
    nodes.update(pair.0 as int, Some(out.from)).update(pair.1 as int, out.to)
}

/// Whether flow along `pair` is an attack on its destination.
pub open spec fn step_attacks(nodes: Seq<Option<Cell>>, pair: (Node, Node)) -> bool {
    flow_step(nodes[pair.0 as int]->0, nodes[pair.1 as int]).attacked
}

/// The pairs still pending once the last of `pending` has been carried out:
/// the others, without those that start at a node which was just attacked.
pub open spec fn step_pending(nodes: Seq<Option<Cell>>, pending: Seq<(Node, Node)>) -> Seq<
    (Node, Node),
> {
    if step_attacks(nodes, pending.last()) {
        pending.drop_last().filter(not_from(pending.last().1))
    } else {
        pending.drop_last()
    }
}

/// The board after the pending pairs have been carried out one at a time,
/// the last first, each on the board as the earlier ones left it.
pub open spec fn drain(nodes: Seq<Option<Cell>>, pending: Seq<(Node, Node)>) -> Seq<Option<Cell>>
    decreases pending.len(),
    via drain_decreases
{
    if pending.len() == 0 {
        nodes
    } else {
        drain(step_nodes(nodes, pending.last()), step_pending(nodes, pending))
    }
}

#[via_fn]
proof fn drain_decreases(nodes: Seq<Option<Cell>>, pending: Seq<(Node, Node)>) {
    if pending.len() > 0 {
        lemma_filter_members(pending.drop_last(), not_from(pending.last().1));
    }
}

/// The board after one pass of flow: the outflows are listed, shuffled and
/// carried out, which also advances the random number generator.
pub open spec fn flowed(board: Board) -> Board {
    let order = shuffled(board.rng, pairs_of(board.nodes));
    Board { nodes: drain(board.nodes, order.0), rng: order.1, turn: board.turn }
}

/// Every pair listed for a board starts at an occupied node and ends at one
/// of that node's outflows.
pub proof fn lemma_pairs_members(nodes: Seq<Option<Cell>>, pair: (Node, Node))
    requires
        nodes.len() <= usize::MAX,
        pairs_of(nodes).contains(pair),
    ensures
        pair.0 < nodes.len(),
        nodes[pair.0 as int] is Some,
        (nodes[pair.0 as int]->0).outflows.contains(pair.1),
    decreases nodes.len(),
{
    if nodes.len() > 0 {
        let front = pairs_of(nodes.drop_last());
        let back = node_pairs((nodes.len() - 1) as usize, nodes.last());
        let k = choose|k: int| 0 <= k < pairs_of(nodes).len() && pairs_of(nodes)[k] == pair;
        if k < front.len() {
            assert(front[k] == pair);
            lemma_pairs_members(nodes.drop_last(), pair);
        } else {
            assert(back[k - front.len()] == pair);
            let c = nodes.last()->0;
            assert(c.outflows[k - front.len()] == pair.1);
        }
    }
}

/// The pairs listed for a well-formed board, in any order, are edges of the
/// graph with occupied origins.
pub proof fn lemma_pairs_ok(graph: SquareGrid, nodes: Seq<Option<Cell>>, order: Seq<(Node, Node)>)
    requires
        graph.wf(),
        board_ok(graph, nodes),
        order.to_multiset() == pairs_of(nodes).to_multiset(),
    ensures
        pending_ok(graph, nodes, order),
{
    graph.lemma_count_fits();
    order.to_multiset_ensures();
    pairs_of(nodes).to_multiset_ensures();
    assert forall|k: int| 0 <= k < order.len() implies graph.adjacent(
        (#[trigger] order[k]).0,
        order[k].1,
    ) && nodes[order[k].0 as int] is Some by {
        let pair = order[k];
        assert(order.contains(pair));
        assert(order.to_multiset().count(pair) > 0);
        assert(pairs_of(nodes).to_multiset().count(pair) > 0);
        assert(pairs_of(nodes).contains(pair));
        lemma_pairs_members(nodes, pair);
        let c = nodes[pair.0 as int]->0;
        let j = choose|j: int| 0 <= j < c.outflows.len() && c.outflows[j] == pair.1;
        assert(cell_ok(graph, pair.0 as int, nodes[pair.0 as int]));
        assert(graph.adjacent(pair.0, c.outflows[j]));
    }
}

/// One unit of flow along an edge of the graph keeps a board well formed,
/// and empties no node.
pub proof fn lemma_step_ok(graph: SquareGrid, nodes: Seq<Option<Cell>>, pair: (Node, Node))
    requires
        graph.wf(),
        board_ok(graph, nodes),
        graph.adjacent(pair.0, pair.1),
        nodes[pair.0 as int] is Some,
    ensures
        board_ok(graph, step_nodes(nodes, pair)),
        forall|i: int|
            0 <= i < nodes.len() && nodes[i] is Some ==> (#[trigger] step_nodes(nodes, pair)[i])
                is Some,
{
    graph.lemma_adjacent_is_toward(pair.0, pair.1);
    let next = step_nodes(nodes, pair);
    assert(cell_ok(graph, pair.0 as int, nodes[pair.0 as int]));
    assert(cell_ok(graph, pair.1 as int, nodes[pair.1 as int]));
    assert forall|i: int| 0 <= i < next.len() implies cell_ok(graph, i, #[trigger] next[i]) by {
        assert(cell_ok(graph, i, nodes[i]));
    }
}

/// A pass of flow over edges of the graph keeps a board well formed and
/// empties no node. In particular every node ends the pass with at most
/// `MAX_GOOP`.
pub proof fn lemma_drain_ok(graph: SquareGrid, nodes: Seq<Option<Cell>>, pending: Seq<(Node, Node)>)
    requires
        graph.wf(),
        board_ok(graph, nodes),
        pending_ok(graph, nodes, pending),
    ensures
        board_ok(graph, drain(nodes, pending)),
        forall|i: int|
            0 <= i < nodes.len() && nodes[i] is Some ==> (#[trigger] drain(nodes, pending)[i])
                is Some,
        forall|i: int|
            0 <= i < nodes.len() ==> match #[trigger] drain(nodes, pending)[i] {
                Some(cell) => cell.goop <= MAX_GOOP,
                None => true,
            },
    decreases pending.len(),
{
    if pending.len() > 0 {
        let pair = pending.last();
        let next = step_nodes(nodes, pair);
        let rest = step_pending(nodes, pending);
        lemma_step_ok(graph, nodes, pair);
        lemma_rest_ok(graph, nodes, pending);
        lemma_drain_ok(graph, next, rest);
    }
    assert forall|i: int| 0 <= i < nodes.len() implies match #[trigger] drain(nodes, pending)[i] {
        Some(cell) => cell.goop <= MAX_GOOP,
        None => true,
    } by {
        assert(cell_ok(graph, i, drain(nodes, pending)[i]));
    }
}

/// What is still pending after one step is pending on the board that the
/// step leaves, and is shorter than what was pending before.
pub proof fn lemma_rest_ok(graph: SquareGrid, nodes: Seq<Option<Cell>>, pending: Seq<(Node, Node)>)
    requires
        graph.wf(),
        board_ok(graph, nodes),
        pending_ok(graph, nodes, pending),
        pending.len() > 0,
    ensures
        pending_ok(graph, step_nodes(nodes, pending.last()), step_pending(nodes, pending)),
        step_pending(nodes, pending).len() < pending.len(),
{
    let pair = pending.last();
    let next = step_nodes(nodes, pair);
    let rest = step_pending(nodes, pending);
    let front = pending.drop_last();
    lemma_step_ok(graph, nodes, pair);
    lemma_filter_members(front, not_from(pair.1));
    assert forall|k: int| 0 <= k < rest.len() implies graph.adjacent(
        (#[trigger] rest[k]).0,
        rest[k].1,
    ) && next[rest[k].0 as int] is Some by {
        assert(rest.contains(rest[k]));
        assert(front.contains(rest[k])) by {
            if !step_attacks(nodes, pair) {
                assert(front[k] == rest[k]);
            }
        }
        let j = choose|j: int| 0 <= j < front.len() && front[j] == rest[k];
        assert(pending[j] == rest[k]);
    }
}

/// A source's cell after it has generated goop: one unit more, unless it
/// is full.
pub open spec fn topped_up(cell: Cell) -> Cell {
    Cell {
        goop: if cell.goop < MAX_GOOP {
            (cell.goop + 1) as usize
        } else {
            cell.goop
        },
        ..cell
    }
}

/// The board after each of `sources`, in order, has generated goop.
pub open spec fn generated(nodes: Seq<Option<Cell>>, sources: Seq<Node>) -> Seq<Option<Cell>>
    decreases sources.len(),
{
    if sources.len() == 0 {
        nodes
    } else {
        let before = generated(nodes, sources.drop_last());
        let source = sources.last() as int;
        before.update(source, Some(topped_up(before[source]->0)))
    }
}

/// The state one turn after `board`: goop flows, then the sources generate
/// goop.
pub open spec fn advanced(board: Board, sources: Seq<Node>) -> Board {
    let after = flowed(board);
    Board {
        nodes: generated(after.nodes, sources),
        rng: after.rng,
        turn: (board.turn + 1) as usize,
    }
}

/// The board one turn on, when `actions` are applied in order and the state
/// is then advanced.
pub open spec fn played(board: Board, sources: Seq<Node>, actions: Seq<Action>) -> Board {
    advanced(Board { nodes: acted_all(board.nodes, actions), ..board }, sources)
}

/// Generating goop keeps a board well formed and empties no node.
pub proof fn lemma_generated_ok(graph: SquareGrid, nodes: Seq<Option<Cell>>, sources: Seq<Node>)
    requires
        board_ok(graph, nodes),
        sources_held(nodes, sources),
    ensures
        board_ok(graph, generated(nodes, sources)),
        forall|i: int|
            0 <= i < nodes.len() && nodes[i] is Some ==> (#[trigger] generated(nodes, sources)[i])
                is Some,
    decreases sources.len(),
{
    if sources.len() > 0 {
        let front = sources.drop_last();
        assert forall|k: int| 0 <= k < front.len() implies 0 <= (#[trigger] front[k]) < nodes.len()
            && nodes[front[k] as int] is Some by {
            assert(front[k] == sources[k]);
        }
        lemma_generated_ok(graph, nodes, front);
        let before = generated(nodes, front);
        let after = generated(nodes, sources);
        let source = sources.last() as int;
        assert(sources[sources.len() - 1] == sources.last());
        assert(cell_ok(graph, source, before[source]));
        assert forall|i: int| 0 <= i < after.len() implies cell_ok(graph, i, #[trigger] after[i]) by {
            assert(cell_ok(graph, i, before[i]));
        }
    }
}

/// The first two state words of every new game's random number generator.
pub const SEED_LOW: u64 = 0xcd9d5eaaf04bc9a7;

pub const SEED_HIGH: u64 = 0x4602cc7098d01ef9;

/// The board on which each of `sources` has been given to the player of
/// its index, with no goop and no outflows.
pub open spec fn claimed(nodes: Seq<Option<Cell>>, sources: Seq<Node>) -> Seq<Option<Cell>>
    decreases sources.len(),
{
    if sources.len() == 0 {
        nodes
    } else {
        claimed(nodes, sources.drop_last()).update(
            sources.last() as int,
            Some(
                Cell {
                    player: Player((sources.len() - 1) as usize),
                    outflows: Seq::empty(),
                    goop: 0,
                },
            ),
        )
    }
}

/// The board at the start of a game with `count` nodes: every node vacant
/// but the sources, the generator seeded with the fixed seed.
pub open spec fn initial_board(count: nat, sources: Seq<Node>) -> Board {
    Board {
        nodes: claimed(Seq::new(count, |i: int| None), sources),
        rng: (SEED_LOW, SEED_HIGH),
        turn: 0,
    }
}

/// Whether two maps have the same graph, sources and colors.
pub open spec fn same_map(a: GameMap, b: GameMap) -> bool {
    &&& a.graph == b.graph
    &&& a.sources@ == b.sources@
    &&& a.player_colors@ == b.player_colors@
}

/// A set of parameters that can be used to initialize a game.
pub struct GameParameters {
    /// The dimensions of the board, rows first.
    pub board: (usize, usize),
    /// The position of the sources on the board. The number of players is the
    /// length of this vector.
    pub sources: Vec<Node>,
    /// The color assigned to each player, as an RGB triplet. This must be the
    /// same length as `sources`.
    pub colors: Vec<(u8, u8, u8)>,
}

impl GameParameters {
    /// Whether these parameters describe a game: the board has at least one
    /// node and is small enough to index, there is one color for each
    /// source, and every source lies on the board.
    pub open spec fn valid(&self) -> bool {
        &&& SquareGrid::fits(self.board.0 as nat, self.board.1 as nat)
        &&& self.sources@.len() == self.colors@.len()
        &&& sources_on_board(self.sources@, self.board.0 as nat * self.board.1 as nat)
    }

    /// Whether these parameters describe a game.
    pub fn is_valid(&self) -> (ok: bool)
        ensures
            ok == self.valid(),
    {
        if !SquareGrid::dimensions_fit(self.board.0, self.board.1) {
            return false;
        }
        if self.sources.len() != self.colors.len() {
            return false;
        }
        let graph: SquareGrid = SquareGrid::new(self.board.0, self.board.1);
        all_below(&self.sources, graph.nodes())
    }
}

/// Everything needed to recreate a `State` elsewhere: the map, the nodes,
/// the generator and the turn.
pub struct SerializableState {
    pub map: GameMap,
    pub nodes: Vec<Option<Occupied>>,
    pub rng: XorShift128Plus,
    pub turn: usize,
}

impl View for SerializableState {
    type V = Board;

    open spec fn view(&self) -> Board {
        Board { nodes: cells_view(self.nodes@), rng: self.rng@, turn: self.turn }
    }
}

/// A copy of `nodes`.
pub fn copy_nodes(nodes: &Vec<Option<Occupied>>) -> (copy: Vec<Option<Occupied>>)
    ensures
        cells_view(copy@) == cells_view(nodes@),
{
    let mut copy: Vec<Option<Occupied>> = Vec::new();
    let mut i: usize = 0;
    while i < nodes.len()
        invariant
            i <= nodes.len(),
            copy@.len() == i,
            forall|j: int| 0 <= j < i ==> cell_view(copy@[j]) == cell_view(nodes@[j]),
        decreases nodes.len() - i,
    {
        let cell: Option<Occupied> = match &nodes[i] {
            None => None,
            Some(occupied) => Some(occupied.clone()),
        };
        copy.push(cell);
        i += 1;
    }
    proof {
        assert(cells_view(copy@) =~= cells_view(nodes@));
    }
    copy
}

/// Remove from `list` every pair whose origin is `origin`, keeping the
/// order of the rest.
pub fn drop_origin(list: &mut Vec<(Node, Node)>, origin: Node)
    ensures
        final(list)@ == old(list)@.filter(not_from(origin)),
{
    let ghost pred = not_from(origin);
    let ghost before = list@;
    let mut kept: Vec<(Node, Node)> = Vec::new();
    let mut i: usize = 0;
    proof {
        assert(before.take(0) =~= Seq::<(Node, Node)>::empty());
        reveal(Seq::filter);
    }
    while i < list.len()
        invariant
            list@ == before,
            i <= list.len(),
            kept@ == before.take(i as int).filter(pred),
            pred == not_from(origin),
        decreases list.len() - i,
    {
        let pair: (Node, Node) = list[i];
        proof {
            lemma_filter_push(before.take(i as int), pair, pred);
            assert(before.take(i as int).push(pair) =~= before.take(i + 1));
        }
        if pair.0 != origin {
            kept.push(pair);
        }
        i += 1;
    }
    proof {
        assert(before.take(i as int) =~= before);
    }
    *list = kept;
}

/// Whether each of `actions` toggles an edge of `graph`.
pub open spec fn all_edges(graph: SquareGrid, actions: Seq<Action>) -> bool {
    forall|k: int| 0 <= k < actions.len() ==> edge_of(graph, #[trigger] actions[k])
}

impl Clone for State {
    fn clone(&self) -> (copy: Self)
        ensures
            copy@ == self@,
            same_map(copy.map, self.map),
            self.wf() ==> copy.wf(),
    {
        State {
            map: self.map.clone(),
            nodes: copy_nodes(&self.nodes),
            turn: self.turn,
            rng: self.rng.clone(),
        }
    }
}

impl View for State {
    type V = Board;

    open spec fn view(&self) -> Board {
        Board { nodes: cells_view(self.nodes@), rng: self.rng@, turn: self.turn }
    }
}

impl State {
    /// Whether the map is well formed, every node has a cell that holds at
    /// most `MAX_GOOP` and flows out only along edges of the graph, and
    /// every source is occupied.
    pub open spec fn wf(&self) -> bool {
        &&& self.map.wf()
        &&& board_ok(self.map.graph, self@.nodes)
        &&& sources_held(self@.nodes, self.map.sources@)
    }

    /// Whether `action` toggles an edge of this state's graph.
    pub open spec fn admits(&self, action: Action) -> bool {
        edge_of(self.map.graph, action)
    }

    /// Whether the cell of `node` holds no more goop than a node can and
    /// sends goop only to neighbors of `node`.
    fn cell_is_ok(&self, node: usize) -> (ok: bool)
        requires
            self.map.wf(),
            node < self.nodes@.len(),
        ensures
            ok == cell_ok(self.map.graph, node as int, self@.nodes[node as int]),
    {
        match &self.nodes[node] {
            None => true,
            Some(occupied) => {
                if occupied.goop > MAX_GOOP {
                    return false;
                }
                let mut k: usize = 0;
                while k < occupied.outflows.len()
                    invariant
                        self.map.wf(),
                        node < self.nodes@.len(),
                        self.nodes@[node as int] == Some(*occupied),
                        k <= occupied.outflows@.len(),
                        forall|j: int|
                            0 <= j < k ==> self.map.graph.adjacent(
                                node,
                                #[trigger] occupied.outflows@[j],
                            ),
                    decreases occupied.outflows@.len() - k,
                {
                    if !self.map.graph.is_edge(node, occupied.outflows[k]) {
                        proof {
                            let cell = self@.nodes[node as int]->0;
                            assert(cell.outflows[k as int] == occupied.outflows@[k as int]);
                        }
                        return false;
                    }
                    k += 1;
                }
                true
            },
        }
    }

    /// Whether this state is well formed. A state that comes from elsewhere
    /// is to be tested before anything is done with it.
    pub fn is_well_formed(&self) -> (ok: bool)
        ensures
            ok == self.wf(),
    {
        if !self.map.is_well_formed() {
            return false;
        }
        if self.nodes.len() != self.map.graph.nodes() {
            return false;
        }
        let mut node: usize = 0;
        while node < self.nodes.len()
            invariant
                self.map.wf(),
                node <= self.nodes@.len(),
                forall|i: int|
                    0 <= i < node ==> cell_ok(self.map.graph, i, #[trigger] self@.nodes[i]),
            decreases self.nodes@.len() - node,
        {
            if !self.cell_is_ok(node) {
                return false;
            }
            node += 1;
        }
        let mut k: usize = 0;
        while k < self.map.sources.len()
            invariant
                self.map.wf(),
                self.nodes@.len() == self.map.graph.node_count(),
                k <= self.map.sources@.len(),
                forall|j: int|
                    0 <= j < k ==> 0 <= (#[trigger] self.map.sources@[j]) < self@.nodes.len()
                        && self@.nodes[self.map.sources@[j] as int] is Some,
            decreases self.map.sources@.len() - k,
        {
            if self.nodes[self.map.sources[k]].is_none() {
                assert(self@.nodes[self.map.sources@[k as int] as int] is None);
                return false;
            }
            k += 1;
        }
        true
    }

    /// Whether `action` toggles an edge of this state's graph. Only such
    /// actions may be applied to the state.
    pub fn is_admissible(&self, action: &Action) -> (ok: bool)
        requires
            self.map.wf(),
        ensures
            ok == self.admits(*action),
    {
        match action {
            Action::ToggleOutflow { player, from, to } => self.map.graph.is_edge(*from, *to),
        }
    }

    /// The state at the start of the game that `params` describes. Every
    /// source is occupied by the player of its index, without goop.
    pub fn new(params: GameParameters) -> (state: State)
        requires
            params.valid(),
        ensures
            state.wf(),
            state.map.graph.rows() == params.board.0,
            state.map.graph.cols() == params.board.1,
            state.map.sources@ == params.sources@,
            state.map.player_colors@ == params.colors@,
            state@ == initial_board(state.map.graph.node_count(), params.sources@),
    {
        let map: GameMap = GameMap::new(
            MapParameters {
                size: params.board,
                sources: params.sources,
                player_colors: params.colors,
            },
        );
        let count: usize = map.graph.nodes();
        let mut nodes: Vec<Option<Occupied>> = Vec::new();
        let mut i: usize = 0;
        while i < count
            invariant
                i <= count,
                nodes@.len() == i,
                forall|j: int| 0 <= j < i ==> nodes@[j] is None,
            decreases count - i,
        {
            nodes.push(None);
            i += 1;
        }
        let ghost vacant = Seq::new(count as nat, |i: int| None::<Cell>);
        proof {
            assert(cells_view(nodes@) =~= vacant);
        }
        let mut player: usize = 0;
        while player < map.sources.len()
            invariant
                map.wf(),
                count == map.graph.node_count(),
                player <= map.sources@.len(),
                cells_view(nodes@) == claimed(vacant, map.sources@.take(player as int)),
                board_ok(map.graph, cells_view(nodes@)),
                sources_held(cells_view(nodes@), map.sources@.take(player as int)),
            decreases map.sources@.len() - player,
        {
            let source: Node = map.sources[player];
            let ghost before = cells_view(nodes@);
            nodes[source] = Some(Occupied { player: Player(player), outflows: Vec::new(), goop: 0 });
            proof {
                let taken = map.sources@.take(player + 1);
                assert(taken.drop_last() =~= map.sources@.take(player as int));
                assert(cells_view(nodes@) =~= claimed(vacant, taken));
                assert forall|i: int| 0 <= i < nodes@.len() implies cell_ok(
                    map.graph,
                    i,
                    #[trigger] cells_view(nodes@)[i],
                ) by {
                    assert(cell_ok(map.graph, i, before[i]));
                }
                assert forall|k: int| 0 <= k < taken.len() implies 0 <= (#[trigger] taken[k])
                    < nodes@.len() && cells_view(nodes@)[taken[k] as int] is Some by {
                    if k < player {
                        assert(map.sources@.take(player as int)[k] == taken[k]);
                    }
                }
            }
            player += 1;
        }
        proof {
            assert(map.sources@.take(player as int) =~= map.sources@);
        }
        State { map, nodes, turn: 0, rng: XorShift128Plus::new([SEED_LOW, SEED_HIGH]) }
    }

    /// The number of seats in this game.
    pub fn max_players(&self) -> (n: usize)
        ensures
            n == self.map.sources@.len(),
    {
        self.map.max_players()
    }

    /// Return a `SerializableState` that can be used to recreate this state.
    pub fn serializable(&self) -> (snapshot: SerializableState)
        ensures
            snapshot@ == self@,
            same_map(snapshot.map, self.map),
    {
        SerializableState {
            map: self.map.clone(),
            nodes: copy_nodes(&self.nodes),
            rng: self.rng.clone(),
            turn: self.turn,
        }
    }

    /// Reconstitute a `State` from a `SerializableState`.
    pub fn from_serializable(ser: SerializableState) -> (state: State)
        ensures
            state@ == ser@,
            state.map == ser.map,
    {
        State { map: ser.map, nodes: ser.nodes, turn: ser.turn, rng: ser.rng }
    }

    /// List every outflow on the board as a pair of origin and destination,
    /// by origin, and for one origin in the order of its outflows.
    pub fn outflow_list(&self) -> (list: Vec<(Node, Node)>)
        ensures
            list@ == pairs_of(self@.nodes),
    {
        let ghost cells = self@.nodes;
        let mut list: Vec<(Node, Node)> = Vec::new();
        let mut node: usize = 0;
        proof {
            assert(cells.take(0) =~= Seq::<Option<Cell>>::empty());
        }
        while node < self.nodes.len()
            invariant
                cells == self@.nodes,
                node <= self.nodes@.len(),
                list@ == pairs_of(cells.take(node as int)),
            decreases self.nodes@.len() - node,
        {
            let ghost front = list@;
            let ghost here = node_pairs(node, cells[node as int]);
            if let Some(occupied) = &self.nodes[node] {
                let mut k: usize = 0;
                while k < occupied.outflows.len()
                    invariant
                        k <= occupied.outflows@.len(),
                        here == node_pairs(node, Some(occupied@)),
                        list@ == front + here.take(k as int),
                    decreases occupied.outflows@.len() - k,
                {
                    list.push((node, occupied.outflows[k]));
                    proof {
                        assert(here.take(k as int).push(here[k as int]) =~= here.take(k + 1));
                        assert(list@ =~= front + here.take(k + 1));
                    }
                    k += 1;
                }
                proof {
                    assert(here.take(k as int) =~= here);
                }
            }
            proof {
                assert(list@ =~= front + here);
                assert(cells.take(node + 1).drop_last() =~= cells.take(node as int));
            }
            node += 1;
        }
        proof {
            assert(cells.take(node as int) =~= cells);
        }
        list
    }

    /// Carry out the pending outflows one at a time, the last first: a unit
    /// of goop flows along each if the rule of flow permits it, and when a
    /// node is attacked, the pairs that start there are struck off the list.
    pub fn carry_out(&mut self, pending: Vec<(Node, Node)>)
        requires
            old(self).wf(),
            pending_ok(old(self).map.graph, old(self)@.nodes, pending@),
        ensures
            final(self).wf(),
            final(self).map == old(self).map,
            final(self)@ == (Board { nodes: drain(old(self)@.nodes, pending@), ..old(self)@ }),
            forall|i: int|
                0 <= i < old(self)@.nodes.len() && old(self)@.nodes[i] is Some ==> (
                #[trigger] final(self)@.nodes[i]) is Some,
            forall|i: int|
                0 <= i < final(self)@.nodes.len() ==> match #[trigger] final(self)@.nodes[i] {
                    Some(cell) => cell.goop <= MAX_GOOP,
                    None => true,
                },
    {
        let mut list: Vec<(Node, Node)> = pending;
        let ghost start = self@.nodes;
        let ghost order = list@;
        proof {
            lemma_drain_ok(self.map.graph, start, order);
        }
        while list.len() > 0
            invariant
                self.map == old(self).map,
                self.map.wf(),
                self.turn == old(self).turn,
                self.rng == old(self).rng,
                board_ok(self.map.graph, self@.nodes),
                pending_ok(self.map.graph, self@.nodes, list@),
                drain(self@.nodes, list@) == drain(start, order),
            decreases list@.len(),
        {
            let ghost before = self@.nodes;
            let ghost pending = list@;
            let pair: (Node, Node) = list.pop().unwrap();
            let from: Node = pair.0;
            let to: Node = pair.1;
            proof {
                assert(pending[pending.len() - 1] == pair);
                self.map.graph.lemma_adjacent_is_toward(from, to);
                lemma_rest_ok(self.map.graph, before, pending);
                lemma_step_ok(self.map.graph, before, pair);
            }
            let (from_node, to_node) = index_mut_pair(self.nodes.as_mut_slice(), from, to);
            let attacked: bool = simulate_flow(from_node, to_node);
            if attacked {
                // `to` is being attacked. Disregard any outflows from it
                // this turn.
                drop_origin(&mut list, to);
            }
            proof {
                assert(self@.nodes =~= step_nodes(before, pair));
                assert(list@ == step_pending(before, pending));
            }
        }
        proof {
            let ghost sources = self.map.sources@;
            assert forall|k: int| 0 <= k < sources.len() implies 0 <= (#[trigger] sources[k])
                < self@.nodes.len() && self@.nodes[sources[k] as int] is Some by {
                assert(start[sources[k] as int] is Some);
            }
        }
    }

    /// Let one unit of goop flow through each outflow.
    ///
    /// There are algorithms for finding the flow through a graph precisely,
    /// but something simpler will do here: every outgoing edge is visited
    /// once, in a pseudo-random order, and a unit of goop is propagated if
    /// the destination permits it. A node that is attacked sends out no
    /// goop for the rest of the pass.
    pub fn flow(&mut self)
        requires
            old(self).wf(),
        ensures
            final(self).wf(),
            final(self).map == old(self).map,
            final(self)@ == flowed(old(self)@),
            forall|i: int|
                0 <= i < old(self)@.nodes.len() && old(self)@.nodes[i] is Some ==> (
                #[trigger] final(self)@.nodes[i]) is Some,
            forall|i: int|
                0 <= i < final(self)@.nodes.len() ==> match #[trigger] final(self)@.nodes[i] {
                    Some(cell) => cell.goop <= MAX_GOOP,
                    None => true,
                },
    {
        let mut list: Vec<(Node, Node)> = self.outflow_list();
        shuffle_pairs(&mut self.rng, &mut list);
        proof {
            lemma_pairs_ok(self.map.graph, self@.nodes, list@);
        }
        self.carry_out(list);
    }

    /// Let sources generate new goop: each gains one unit, unless it is full.
    pub fn generate_goop(&mut self)
        requires
            old(self).wf(),
        ensures
            final(self).wf(),
            final(self).map == old(self).map,
            final(self)@ == (Board {
                nodes: generated(old(self)@.nodes, old(self).map.sources@),
                ..old(self)@
            }),
            forall|i: int|
                0 <= i < old(self)@.nodes.len() && old(self)@.nodes[i] is Some ==> (
                #[trigger] final(self)@.nodes[i]) is Some,
    {
        let ghost start = self@.nodes;
        let ghost sources = self.map.sources@;
        proof {
            lemma_generated_ok(self.map.graph, start, sources);
        }
        let mut k: usize = 0;
        while k < self.map.sources.len()
            invariant
                self.map == old(self).map,
                self.turn == old(self).turn,
                self.rng == old(self).rng,
                sources == self.map.sources@,
                k <= sources.len(),
                sources_held(start, sources),
                board_ok(self.map.graph, start),
                self@.nodes == generated(start, sources.take(k as int)),
            decreases sources.len() - k,
        {
            let source: Node = self.map.sources[k];
            proof {
                let taken = sources.take(k as int);
                assert forall|j: int| 0 <= j < taken.len() implies 0 <= (#[trigger] taken[j])
                    < start.len() && start[taken[j] as int] is Some by {
                    assert(taken[j] == sources[j]);
                }
                lemma_generated_ok(self.map.graph, start, taken);
                assert(sources.take(k + 1).drop_last() =~= taken);
                assert(start[sources[k as int] as int] is Some);
            }
            let ghost before = self@.nodes;
            match &mut self.nodes[source] {
                None => {},
                Some(occupied) => {
                    if occupied.goop < MAX_GOOP {
                        occupied.goop += 1;
                    }
                },
            }
            proof {
                assert(self@.nodes =~= before.update(
                    source as int,
                    Some(topped_up(before[source as int]->0)),
                ));
            }
            k += 1;
        }
        proof {
            assert(sources.take(k as int) =~= sources);
        }
    }

    /// Advance `self` to the next state: goop flows, then the sources
    /// generate goop, and the turn is counted.
    pub fn advance(&mut self)
        requires
            old(self).wf(),
            old(self).turn < usize::MAX,
        ensures
            final(self).wf(),
            final(self).map == old(self).map,
            final(self)@ == advanced(old(self)@, old(self).map.sources@),
            forall|i: int|
                0 <= i < old(self)@.nodes.len() && old(self)@.nodes[i] is Some ==> (
                #[trigger] final(self)@.nodes[i]) is Some,
    {
        self.flow();
        self.generate_goop();
        self.turn += 1;
    }

    /// Whether every one of `actions` toggles an edge of this state's graph.
    pub fn admits_all(&self, actions: &Vec<Action>) -> (ok: bool)
        requires
            self.map.wf(),
        ensures
            ok == all_edges(self.map.graph, actions@),
    {
        let mut k: usize = 0;
        while k < actions.len()
            invariant
                self.map.wf(),
                k <= actions.len(),
                forall|j: int| 0 <= j < k ==> edge_of(self.map.graph, #[trigger] actions@[j]),
            decreases actions.len() - k,
        {
            if !self.is_admissible(&actions[k]) {
                return false;
            }
            k += 1;
        }
        true
    }

    /// Apply each of `actions` to this state, in order.
    pub fn apply_all(&mut self, actions: &Vec<Action>)
        requires
            old(self).wf(),
            all_edges(old(self).map.graph, actions@),
        ensures
            final(self).wf(),
            final(self).map == old(self).map,
            final(self)@ == (Board { nodes: acted_all(old(self)@.nodes, actions@), ..old(self)@ }),
    {
        let ghost start = self@.nodes;
        let mut k: usize = 0;
        proof {
            assert(actions@.take(0) =~= Seq::<Action>::empty());
        }
        while k < actions.len()
            invariant
                self.wf(),
                self.map == old(self).map,
                self.turn == old(self).turn,
                self.rng@ == old(self).rng@,
                all_edges(self.map.graph, actions@),
                k <= actions.len(),
                self@.nodes == acted_all(start, actions@.take(k as int)),
            decreases actions.len() - k,
        {
            proof {
                assert(actions@.take(k + 1).drop_last() =~= actions@.take(k as int));
            }
            self.take_action(&actions[k]);
            k += 1;
        }
        proof {
            assert(actions@.take(k as int) =~= actions@);
        }
    }

    /// Apply `action` to this state.
    ///
    /// An action on a vacant node, or on a node that another player
    /// occupies, changes nothing. Otherwise the outflow is toggled.
    pub fn take_action(&mut self, action: &Action)
        requires
            old(self).wf(),
            old(self).admits(*action),
        ensures
            final(self).wf(),
            final(self).map == old(self).map,
            final(self)@ == (Board { nodes: acted(old(self)@.nodes, *action), ..old(self)@ }),
            !acts_on_own(old(self)@.nodes, *action) ==> final(self)@ == old(self)@,
    {
        proof {
            lemma_acted_ok(self.map.graph, self@.nodes, *action);
        }
        match action {
            Action::ToggleOutflow { player, from, to } => {
                match &mut self.nodes[*from] {
                    None => {},
                    Some(occupied) => {
                        if occupied.player == *player {
                            if holds(&occupied.outflows, *to) {
                                discard(&mut occupied.outflows, *to);
                            } else {
                                occupied.outflows.push(*to);
                            }
                        }
                    },
                }
            },
        }
        proof {
            assert(self@.nodes =~= acted(old(self)@.nodes, *action));
        }
    }
}

} // verus!
