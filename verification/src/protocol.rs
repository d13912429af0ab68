//! The part each participant plays in the game protocol.
//!
//! All hosts participating in a game have a complete copy of the state, and
//! the algorithm for evolving the state from one moment to the next is
//! strictly deterministic. Given an initial state, and a record of which
//! actions were applied by which players on which turns, the progression of
//! the game can be recreated exactly.
//!
//! The protocol therefore only gathers the players' actions and hands them
//! out in a way that lets everyone apply them consistently. The only record
//! of the game state that is handed out with them is a checksum, by which a
//! participant detects that it has diverged, which ends the game.

use crate::checksum::checksum_of;
use crate::scheduler::{CollectedActions, PlayerActions, Submission};
use crate::state::{all_edges, played, same_map, Action, Player, State};
use vstd::prelude::*;

verus! {

/// Why a participant could not follow the collected actions of a turn.
#[derive(Debug, Clone, Copy, PartialEq, Eq, Structural)]
pub enum SyncError {
    /// The collected actions are not those of the turn after the
    /// participant's own.
    OutOfOrder,
    /// One of the actions toggles something that is no edge of the graph.
    InvalidAction,
    /// The participant's state, after the actions, does not have the
    /// checksum that came with them.
    Diverged,
}

/// What a participant keeps: its own copy of the game and the actions that
/// its player has asked for since it last submitted.
pub struct Shared {
    /// The player this state represents. Assigned by the server.
    pub player: Player,
    /// The current state of the game.
    pub state: State,
    /// The queue of actions to be sent to the scheduler on the next turn.
    pub pending: Vec<Action>,
}

impl Shared {
    /// Whether the participant's state is well formed.
    pub open spec fn wf(&self) -> bool {
        self.state.wf()
    }

    /// A participant who plays `player`, starts from `state` and has asked
    /// for nothing yet.
    pub fn new(player: Player, state: State) -> (shared: Shared)
        ensures
            shared.player == player,
            shared.state == state,
            shared.pending@.len() == 0,
    {
        Shared { player, state, pending: Vec::new() }
    }

    /// Return a snapshot of the current state.
    pub fn snapshot(&self) -> (copy: State)
        ensures
            copy@ == self.state@,
            same_map(copy.map, self.state.map),
            self.wf() ==> copy.wf(),
    {
        self.state.clone()
    }

    /// Return the player number of this participant.
    pub fn get_player(&self) -> (player: Player)
        ensures
            player == self.player,
    {
        self.player
    }

    /// Submit `action` to be performed as soon as possible: it joins the
    /// queue that goes out with the next turn, and the state stays as it is.
    pub fn request_action(&mut self, action: Action)
        ensures
            final(self).pending@ == old(self).pending@.push(action),
            final(self).state == old(self).state,
            final(self).player == old(self).player,
    {
        self.pending.push(action);
    }

    /// Follow the scheduler through one turn.
    ///
    /// The collected actions must be those of the turn after this
    /// participant's, and each must toggle an edge of the graph; if not,
    /// nothing changes. They are applied in order and the state is
    /// advanced. If the state then has the checksum that came with the
    /// actions, the actions queued so far are returned as this player's
    /// submission for the new turn, and the queue is emptied. If it has not,
    /// the participant has diverged.
    pub fn apply_collected_actions(&mut self, collected_actions: CollectedActions) -> (out: Result<
        PlayerActions,
        SyncError,
    >)
        requires
            old(self).wf(),
        ensures
            final(self).wf(),
            final(self).player == old(self).player,
            final(self).state.map == old(self).state.map,
            match out {
                Err(SyncError::OutOfOrder) => {
                    &&& collected_actions.turn != old(self).state.turn + 1
                    &&& *final(self) == *old(self)
                },
                Err(SyncError::InvalidAction) => {
                    &&& collected_actions.turn == old(self).state.turn + 1
                    &&& !all_edges(old(self).state.map.graph, collected_actions.actions@)
                    &&& *final(self) == *old(self)
                },
                Err(SyncError::Diverged) => {
                    &&& collected_actions.turn == old(self).state.turn + 1
                    &&& all_edges(old(self).state.map.graph, collected_actions.actions@)
                    &&& final(self).state@ == played(
                        old(self).state@,
                        old(self).state.map.sources@,
                        collected_actions.actions@,
                    )
                    &&& checksum_of(final(self).state@) != collected_actions.state_checksum
                    &&& final(self).pending == old(self).pending
                },
                Ok(next) => {
                    &&& collected_actions.turn == old(self).state.turn + 1
                    &&& all_edges(old(self).state.map.graph, collected_actions.actions@)
                    &&& final(self).state@ == played(
                        old(self).state@,
                        old(self).state.map.sources@,
                        collected_actions.actions@,
                    )
                    &&& checksum_of(final(self).state@) == collected_actions.state_checksum
                    &&& next@ == (Submission {
                        player: old(self).player,
                        turn: collected_actions.turn,
                        actions: old(self).pending@,
                    })
                    &&& final(self).pending@ == Seq::<Action>::empty()
                },
            },
    {
        if self.state.turn == usize::MAX || self.state.turn + 1 != collected_actions.turn {
            return Err(SyncError::OutOfOrder);
        }
        if !self.state.admits_all(&collected_actions.actions) {
            return Err(SyncError::InvalidAction);
        }
        self.state.apply_all(&collected_actions.actions);
        self.state.advance();
        if self.state.checksum() != collected_actions.state_checksum {
            return Err(SyncError::Diverged);
        }
        let mut queued: Vec<Action> = Vec::new();
        core::mem::swap(&mut queued, &mut self.pending);
        Ok(PlayerActions { player: self.player, turn: self.state.turn, actions: queued })
    }
}

} // verus!
