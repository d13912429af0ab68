//! A game state with the player it belongs to, advanced by its owner.

use crate::state::{acted, advanced, same_map, Action, Board, GameParameters, Player, State, initial_board};
use crate::graph::Graph;
use vstd::prelude::*;

verus! {

/// A `SynchronizedState` is the server's own seat at a game: player 0 and
/// the state of the game, on which actions are carried out at once.
pub struct SynchronizedState {
    /// The player this state represents.
    pub player: Player,
    /// The current state of the game.
    pub state: State,
}

impl SynchronizedState {
    /// Create the server's seat at a new game, using `parameters` to
    /// construct the initial game state.
    pub fn new_server(parameters: GameParameters) -> (seat: SynchronizedState)
        requires
            parameters.valid(),
        ensures
            seat.player == Player(0),
            seat.state.wf(),
            seat.state.map.sources@ == parameters.sources@,
            seat.state@ == initial_board(seat.state.map.graph.node_count(), parameters.sources@),
    {
        SynchronizedState { player: Player(0), state: State::new(parameters) }
    }

    /// Return a snapshot of the current state.
    pub fn snapshot(&self) -> (copy: State)
        ensures
            copy@ == self.state@,
            same_map(copy.map, self.state.map),
            self.state.wf() ==> copy.wf(),
    {
        self.state.clone()
    }

    /// Return the player number of this seat.
    pub fn get_player(&self) -> (player: Player)
        ensures
            player == self.player,
    {
        self.player
    }

    /// Carry out `action` on the state.
    pub fn request_action(&mut self, action: Action)
        requires
            old(self).state.wf(),
            old(self).state.admits(action),
        ensures
            final(self).state.wf(),
            final(self).player == old(self).player,
            final(self).state.map == old(self).state.map,
            final(self).state@ == (Board {
                nodes: acted(old(self).state@.nodes, action),
                ..old(self).state@
            }),
    {
        self.state.take_action(&action);
    }

    /// Advance the state by one turn.
    pub fn advance(&mut self)
        requires
            old(self).state.wf(),
            old(self).state.turn < usize::MAX,
        ensures
            final(self).state.wf(),
            final(self).player == old(self).player,
            final(self).state.map == old(self).state.map,
            final(self).state@ == advanced(old(self).state@, old(self).state.map.sources@),
    {
        self.state.advance();
    }
}

} // verus!
