//! Scheduling game play.
//!
//! A `Scheduler` collects actions from all players, and hands out the full
//! list once everyone has submitted their moves for that turn.

use crate::sequences::copy_of;
use crate::state::{all_edges, played, same_map, Action, Board, Player, SerializableState, State};
use crate::checksum::checksum_of;
use vstd::prelude::*;

verus! {

/// The shortest amount of time a turn is allowed to take, in nanoseconds.
pub const MIN_DELAY_NS: u32 = 16_000_000;

/// How long to wait before a turn may be broadcast, in nanoseconds, when
/// the time since the last broadcast is `secs` whole seconds and
/// `subsec_nanos` nanoseconds: what is missing to `MIN_DELAY_NS`, if
/// anything.
pub fn turn_delay(secs: u64, subsec_nanos: u32) -> (wait: u32)
    ensures
        wait == if secs == 0 && subsec_nanos < MIN_DELAY_NS {
            MIN_DELAY_NS - subsec_nanos
        } else {
            0
        },
{
    if secs == 0 && subsec_nanos < MIN_DELAY_NS {
        MIN_DELAY_NS - subsec_nanos
    } else {
        0
    }
}

/// A set of actions submitted by a single player on a single turn.
#[derive(Debug)]
pub struct PlayerActions {
    /// The player submitting these actions.
    pub player: Player,
    /// The turn number they believe they're on.
    pub turn: usize,
    /// The actions they wish to submit.
    pub actions: Vec<Action>,
}

/// A player's actions for a turn, as a mathematical value.
pub struct Submission {
    pub player: Player,
    pub turn: usize,
    pub actions: Seq<Action>,
}

impl View for PlayerActions {
    type V = Submission;

    open spec fn view(&self) -> Submission {
        Submission { player: self.player, turn: self.turn, actions: self.actions@ }
    }
}

impl Clone for PlayerActions {
    fn clone(&self) -> (copy: Self)
        ensures
            copy@ == self@,
    {
        PlayerActions { player: self.player, turn: self.turn, actions: copy_of(&self.actions) }
    }
}

/// A collection of all actions submitted by all players.
#[derive(Debug)]
pub struct CollectedActions {
    /// The turn these moves produce when applied.
    pub turn: usize,
    /// The actions to apply to the prior state.
    pub actions: Vec<Action>,
    /// The checksum of the state that should result.
    pub state_checksum: u64,
}

/// The collected actions of a turn, as a mathematical value.
pub struct Collected {
    pub turn: usize,
    pub actions: Seq<Action>,
    pub state_checksum: u64,
}

impl View for CollectedActions {
    type V = Collected;

    open spec fn view(&self) -> Collected {
        Collected { turn: self.turn, actions: self.actions@, state_checksum: self.state_checksum }
    }
}

impl Clone for CollectedActions {
    fn clone(&self) -> (copy: Self)
        ensures
            copy@ == self@,
    {
        CollectedActions {
            turn: self.turn,
            actions: copy_of(&self.actions),
            state_checksum: self.state_checksum,
        }
    }
}

/// Why a scheduler turned a submission away.
#[derive(Debug, Clone, Copy, PartialEq, Eq, Structural)]
pub enum SubmitError {
    /// The submission is for another turn than the one being collected.
    WrongTurn,
    /// The submission names a player who has not joined.
    UnknownPlayer,
    /// The player has already submitted for this turn.
    DuplicateSubmission,
    /// One of the actions toggles something that is no edge of the graph.
    InvalidAction,
}

/// What a slot of the scheduler holds, as a mathematical value.
pub open spec fn slot_view(slot: Option<PlayerActions>) -> Option<Submission> {
    match slot {
        Some(actions) => Some(actions@),
        None => None,
    }
}

/// What the slots of the scheduler hold, as mathematical values.
pub open spec fn slots_view(slots: Seq<Option<PlayerActions>>) -> Seq<Option<Submission>> {
    Seq::new(slots.len(), |i: int| slot_view(slots[i]))
}

/// Whether every slot is filled.
pub open spec fn all_in(slots: Seq<Option<Submission>>) -> bool {
    forall|i: int| 0 <= i < slots.len() ==> (#[trigger] slots[i]) is Some
}

/// The actions of all slots in one list: by player, in increasing order of
/// the player's number, and for one player in the order of submission.
pub open spec fn gathered(slots: Seq<Option<Submission>>) -> Seq<Action>
    decreases slots.len(),
{
    if slots.len() == 0 {
        Seq::empty()
    } else {
        gathered(slots.drop_last()) + match slots.last() {
            Some(submission) => submission.actions,
            None => Seq::empty(),
        }
    }
}

/// Whether every slot is filled.
pub fn all_submitted(slots: &Vec<Option<PlayerActions>>) -> (yes: bool)
    ensures
        yes == all_in(slots_view(slots@)),
{
    let mut i: usize = 0;
    while i < slots.len()
        invariant
            i <= slots.len(),
            forall|j: int| 0 <= j < i ==> (#[trigger] slots_view(slots@)[j]) is Some,
        decreases slots.len() - i,
    {
        if slots[i].is_none() {
            assert(slots_view(slots@)[i as int] is None);
            return false;
        }
        i += 1;
    }
    true
}

/// Something that can notify a player of a turn's actions when they have
/// been collected. Whoever runs a scheduler keeps one for each submission
/// and hands each the collected actions of the turn.
pub trait Notifier {
    fn notify(self: Box<Self>, turn: CollectedActions);
}

/// A `Scheduler` collects actions from all players, and hands out the full
/// list once everyone has submitted their moves for that turn.
pub struct Scheduler {
    /// The number of the turn being collected.
    pub turn: usize,
    /// A scheduler maintains its own copy of the game state, for generating
    /// the checksums that the players compare theirs with.
    pub state: State,
    /// The actions submitted so far for this turn by every joined player;
    /// the `i`'th element is for `Player(i)`.
    pub pending_actions: Vec<Option<PlayerActions>>,
}

impl Scheduler {
    /// What the slots hold.
    pub open spec fn slots(&self) -> Seq<Option<Submission>> {
        slots_view(self.pending_actions@)
    }

    /// Whether the state is well formed and at the scheduler's turn, no
    /// more players have joined than the map has seats, and each filled slot
    /// holds a submission of its own player for this turn whose actions
    /// toggle edges of the graph.
    pub open spec fn wf(&self) -> bool {
        &&& self.state.wf()
        &&& self.state.turn == self.turn
        &&& self.pending_actions@.len() <= self.state.map.sources@.len()
        &&& forall|i: int|
            0 <= i < self.slots().len() ==> match #[trigger] self.slots()[i] {
                Some(submission) => submission.player.0 == i && submission.turn == self.turn
                    && all_edges(self.state.map.graph, submission.actions),
                None => true,
            }
    }

    /// Why `submission` is turned away, if it is: the first of the reasons
    /// that applies, in the order of `SubmitError`.
    pub open spec fn rejection(&self, submission: Submission) -> Option<SubmitError> {
        if submission.turn != self.turn {
            Some(SubmitError::WrongTurn)
        } else if submission.player.0 >= self.pending_actions@.len() {
            Some(SubmitError::UnknownPlayer)
        } else if self.slots()[submission.player.0 as int] is Some {
            Some(SubmitError::DuplicateSubmission)
        } else if !all_edges(self.state.map.graph, submission.actions) {
            Some(SubmitError::InvalidAction)
        } else {
            None
        }
    }

    /// A scheduler for a game that starts at `initial_state`, with no player
    /// joined yet.
    pub fn new(initial_state: State) -> (scheduler: Scheduler)
        requires
            initial_state.wf(),
            initial_state.turn == 0,
        ensures
            scheduler.wf(),
            scheduler.turn == 0,
            scheduler.state == initial_state,
            scheduler.pending_actions@.len() == 0,
    {
        Scheduler { turn: 0, state: initial_state, pending_actions: Vec::new() }
    }

    /// Add another player to the game. If there is room, return the
    /// player's number and a representation of the current game state.
    /// Return `None` if there is no room for more players.
    pub fn player_join(&mut self) -> (welcome: Option<(Player, SerializableState)>)
        requires
            old(self).wf(),
        ensures
            final(self).wf(),
            final(self).turn == old(self).turn,
            final(self).state == old(self).state,
            match welcome {
                Some((player, snapshot)) => {
                    &&& old(self).pending_actions@.len() < old(self).state.map.sources@.len()
                    &&& player.0 == old(self).pending_actions@.len()
                    &&& snapshot@ == old(self).state@
                    &&& same_map(snapshot.map, old(self).state.map)
                    &&& final(self).slots() == old(self).slots().push(None)
                    &&& final(self).pending_actions@.len() == old(self).pending_actions@.len() + 1
                },
                None => {
                    &&& old(self).pending_actions@.len() >= old(self).state.map.sources@.len()
                    &&& final(self).pending_actions == old(self).pending_actions
                },
            },
    {
        if self.pending_actions.len() >= self.state.max_players() {
            None
        } else {
            let ghost before = self.slots();
            self.pending_actions.push(None);
            proof {
                assert(self.slots() =~= before.push(None));
                assert forall|i: int| 0 <= i < self.slots().len() implies match #[trigger] self.slots()[i] {
                    Some(submission) => submission.player.0 == i && submission.turn == self.turn
                        && all_edges(self.state.map.graph, submission.actions),
                    None => true,
                } by {
                    if i < before.len() {
                        assert(self.slots()[i] == before[i]);
                    }
                }
            }
            Some((Player(self.pending_actions.len() - 1), self.state.serializable()))
        }
    }

    /// The actions of all slots in one list, by player.
    fn gather(&self) -> (actions: Vec<Action>)
        requires
            self.wf(),
        ensures
            actions@ == gathered(self.slots()),
            all_edges(self.state.map.graph, actions@),
    {
        let ghost slots = self.slots();
        let mut actions: Vec<Action> = Vec::new();
        let mut p: usize = 0;
        proof {
            assert(slots.take(0) =~= Seq::<Option<Submission>>::empty());
        }
        while p < self.pending_actions.len()
            invariant
                self.wf(),
                slots == self.slots(),
                p <= self.pending_actions@.len(),
                actions@ == gathered(slots.take(p as int)),
                all_edges(self.state.map.graph, actions@),
            decreases self.pending_actions@.len() - p,
        {
            let ghost front = actions@;
            proof {
                assert(slots.take(p + 1).drop_last() =~= slots.take(p as int));
                assert(slots.take(p + 1).last() == slots[p as int]);
            }
            match &self.pending_actions[p] {
                None => {
                    proof {
                        assert(slots[p as int] is None);
                        assert(front + Seq::<Action>::empty() =~= front);
                    }
                },
                Some(submitted) => {
                    proof {
                        assert(slots[p as int] == Some(submitted@));
                    }
                    let mut k: usize = 0;
                    while k < submitted.actions.len()
                        invariant
                            k <= submitted.actions@.len(),
                            all_edges(self.state.map.graph, submitted.actions@),
                            all_edges(self.state.map.graph, actions@),
                            actions@ == front + submitted.actions@.take(k as int),
                        decreases submitted.actions@.len() - k,
                    {
                        actions.push(submitted.actions[k]);
                        proof {
                            assert(actions@ =~= front + submitted.actions@.take(k + 1));
                        }
                        k += 1;
                    }
                    proof {
                        assert(submitted.actions@.take(k as int) =~= submitted.actions@);
                    }
                },
            }
            p += 1;
        }
        proof {
            assert(slots.take(p as int) =~= slots);
        }
        actions
    }

    /// Submit `actions` to be carried out as soon as possible.
    ///
    /// A submission for another turn, from a player who has not joined or
    /// has already submitted, or with an action on something that is no
    /// edge, is turned away and changes nothing. Otherwise it is stored.
    /// Once every joined player has submitted, all the actions are applied
    /// to the scheduler's state, by player and for each player in the order
    /// submitted, the state is advanced, and the collected actions are
    /// returned with the new turn's number and the new state's checksum;
    /// the slots are emptied for the next turn. Until then the result is
    /// `Ok(None)`.
    pub fn submit_actions(&mut self, actions: PlayerActions) -> (out: Result<
        Option<CollectedActions>,
        SubmitError,
    >)
        requires
            old(self).wf(),
            old(self).turn < usize::MAX,
        ensures
            final(self).wf(),
            final(self).state.map == old(self).state.map,
            final(self).pending_actions@.len() == old(self).pending_actions@.len(),
            match out {
                Err(reason) => {
                    &&& old(self).rejection(actions@) == Some(reason)
                    &&& *final(self) == *old(self)
                },
                Ok(None) => {
                    &&& old(self).rejection(actions@) is None
                    &&& !all_in(old(self).slots().update(actions.player.0 as int, Some(actions@)))
                    &&& final(self).slots() == old(self).slots().update(
                        actions.player.0 as int,
                        Some(actions@),
                    )
                    &&& final(self).state == old(self).state
                    &&& final(self).turn == old(self).turn
                },
                Ok(Some(collected)) => {
                    let stored = old(self).slots().update(actions.player.0 as int, Some(actions@));
                    &&& old(self).rejection(actions@) is None
                    &&& all_in(stored)
                    &&& final(self).turn == old(self).turn + 1
                    &&& final(self)@ == played(
                        old(self)@,
                        old(self).state.map.sources@,
                        gathered(stored),
                    )
                    &&& collected@ == (Collected {
                        turn: final(self).turn,
                        actions: gathered(stored),
                        state_checksum: checksum_of(final(self)@),
                    })
                    &&& final(self).slots() == Seq::new(
                        old(self).slots().len(),
                        |i: int| None::<Submission>,
                    )
                },
            },
    {
        if actions.turn != self.turn {
            return Err(SubmitError::WrongTurn);
        }
        let player: usize = actions.player.0;
        if player >= self.pending_actions.len() {
            return Err(SubmitError::UnknownPlayer);
        }
        if self.pending_actions[player].is_some() {
            assert(self.slots()[player as int] is Some);
            return Err(SubmitError::DuplicateSubmission);
        }
        assert(self.slots()[player as int] is None);
        if !self.state.admits_all(&actions.actions) {
            return Err(SubmitError::InvalidAction);
        }
        let ghost before = self.slots();
        let ghost submission = actions@;
        self.pending_actions[player] = Some(actions);
        proof {
            assert(self.slots() =~= before.update(player as int, Some(submission)));
            assert forall|i: int| 0 <= i < self.slots().len() implies match #[trigger] self.slots()[i] {
                Some(s) => s.player.0 == i && s.turn == self.turn && all_edges(
                    self.state.map.graph,
                    s.actions,
                ),
                None => true,
            } by {
                if i != player {
                    assert(self.slots()[i] == before[i]);
                }
            }
        }
        if !all_submitted(&self.pending_actions) {
            return Ok(None);
        }
        let collected_actions: Vec<Action> = self.gather();
        self.state.apply_all(&collected_actions);
        self.state.advance();
        let state_checksum: u64 = self.state.checksum();
        self.turn += 1;
        let joined: usize = self.pending_actions.len();
        let mut cleared: Vec<Option<PlayerActions>> = Vec::new();
        while cleared.len() < joined
            invariant
                cleared@.len() <= joined,
                forall|j: int| 0 <= j < cleared@.len() ==> cleared@[j] is None,
            decreases joined - cleared@.len(),
        {
            cleared.push(None);
        }
        self.pending_actions = cleared;
        proof {
            assert(self.slots() =~= Seq::new(before.len(), |i: int| None::<Submission>));
        }
        Ok(Some(CollectedActions { turn: self.turn, actions: collected_actions, state_checksum }))
    }
}

impl View for Scheduler {
    type V = Board;

    /// The board of the scheduler's own state.
    open spec fn view(&self) -> Board {
        self.state@
    }
}

} // verus!
