//! The fixed part of a game: the board and its goop sources.

use crate::graph::{Graph, Node};
use crate::sequences::copy_of;
use crate::square::SquareGrid;
use vstd::prelude::*;

verus! {

/// A map on which a game is played.
///
/// A `GameMap` holds everything that does not change over the course of a game:
/// a graph, the nodes of it that have goop sources, and the players' colors.
#[derive(Debug)]
pub struct GameMap {
    /// The graph of nodes comprising this map's territory.
    pub graph: SquareGrid,
    /// The nodes of `graph` that contain goop sources. The `i`'th source
    /// belongs to player `i`.
    pub sources: Vec<Node>,
    /// The color of each player's goop, indexed by player number.
    pub player_colors: Vec<(u8, u8, u8)>,
}

/// A set of parameters that can be used to initialize a map.
pub struct MapParameters {
    /// The dimensions of the board, rows first.
    pub size: (usize, usize),
    /// The position of the sources on the board. The number of players is the
    /// length of this vector.
    pub sources: Vec<Node>,
    /// The color assigned to each player, as an RGB triplet. This must be the
    /// same length as `sources`.
    pub player_colors: Vec<(u8, u8, u8)>,
}

/// Whether every one of `sources` is a node of a board with `count` nodes.
pub open spec fn sources_on_board(sources: Seq<Node>, count: nat) -> bool {
    forall|k: int| 0 <= k < sources.len() ==> (#[trigger] sources[k]) < count
}

/// Whether every one of `sources` is less than `count`.
pub fn all_below(sources: &Vec<Node>, count: usize) -> (ok: bool)
    ensures
        ok == sources_on_board(sources@, count as nat),
{
    let mut k: usize = 0;
    while k < sources.len()
        invariant
            k <= sources.len(),
            forall|j: int| 0 <= j < k ==> (#[trigger] sources@[j]) < count,
        decreases sources.len() - k,
    {
        if sources[k] >= count {
            return false;
        }
        k += 1;
    }
    true
}

impl MapParameters {
    /// Whether these parameters describe a map: the board has at least one
    /// node and is small enough to index, there is one color for each
    /// source, and every source lies on the board.
    pub open spec fn valid(&self) -> bool {
        &&& SquareGrid::fits(self.size.0 as nat, self.size.1 as nat)
        &&& self.sources@.len() == self.player_colors@.len()
        &&& sources_on_board(self.sources@, self.size.0 as nat * self.size.1 as nat)
    }

    /// Whether these parameters describe a map.
    pub fn is_valid(&self) -> (ok: bool)
        ensures
            ok == self.valid(),
    {
        if !SquareGrid::dimensions_fit(self.size.0, self.size.1) {
            return false;
        }
        if self.sources.len() != self.player_colors.len() {
            return false;
        }
        let graph: SquareGrid = SquareGrid::new(self.size.0, self.size.1);
        all_below(&self.sources, graph.nodes())
    }
}

impl GameMap {
    /// Whether the graph is well formed, every source is one of its nodes,
    /// and there is one color for each source.
    pub open spec fn wf(&self) -> bool {
        &&& self.graph.wf()
        &&& self.sources@.len() == self.player_colors@.len()
        &&& sources_on_board(self.sources@, self.graph.node_count())
    }

    /// Build the map that `params` describes.
    pub fn new(params: MapParameters) -> (map: GameMap)
        requires
            params.valid(),
        ensures
            map.wf(),
            map.graph.rows() == params.size.0,
            map.graph.cols() == params.size.1,
            map.sources@ == params.sources@,
            map.player_colors@ == params.player_colors@,
    {
        let graph: SquareGrid = SquareGrid::new(params.size.0, params.size.1);
        GameMap { graph, sources: params.sources, player_colors: params.player_colors }
    }

    /// Whether this map is well formed.
    pub fn is_well_formed(&self) -> (ok: bool)
        ensures
            ok == self.wf(),
    {
        if !SquareGrid::dimensions_fit(self.graph.row_count(), self.graph.col_count()) {
            return false;
        }
        if self.sources.len() != self.player_colors.len() {
            return false;
        }
        all_below(&self.sources, self.graph.nodes())
    }

    /// The number of seats in a game on this map.
    pub fn max_players(&self) -> (n: usize)
        ensures
            n == self.sources@.len(),
    {
        self.sources.len()
    }
}

impl Clone for GameMap {
    fn clone(&self) -> (copy: Self)
        ensures
            copy.graph == self.graph,
            copy.sources@ == self.sources@,
            copy.player_colors@ == self.player_colors@,
    {
        GameMap {
            graph: self.graph,
            sources: copy_of(&self.sources),
            player_colors: copy_of(&self.player_colors),
        }
    }
}

} // verus!
