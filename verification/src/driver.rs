//! The decisions of the match driver: whether the match goes on, what the next move is,
//! whose response fills which slot of the action array, and who has won.

use vstd::prelude::*;
use crate::config::{MatchLimits, NUM_PLAYERS, TOTAL_PLAYERS};
use crate::possession::team_of;
use crate::state::GameState;
use crate::team::{Team, TeamPair};

verus! {

/// What the driver does next.
#[derive(Clone, Copy, Debug, PartialEq, Eq, Structural)]
pub enum DriverMove {
    /// Ask both bots for a formation, reset the field, then play a tick.
    ResetThenTick,
    /// Play a tick.
    Tick,
    /// End the match; `winner` is `None` for a tie.
    Finish { winner: Option<Team> },
}

/// Where one entry of the engine's action array comes from.
#[derive(Clone, Copy, Debug, PartialEq, Eq, Structural)]
pub struct ActionSource {
    /// The bot that returned the action.
    pub team: Team,
    /// Position of the action in that bot's response.
    pub index: u32,
    /// Whether the action is given in team B's view and has to be mirrored back.
    pub mirrored: bool,
}

/// The match goes on through regular play, and beyond it through the endgame for as long
/// as the score is level.
pub open spec fn goes_on(tick: u32, score: TeamPair<u32>, limits: MatchLimits) -> bool {
    tick < limits.max_ticks || (tick < limits.max_ticks + limits.endgame_ticks && score.a
        == score.b)
}

/// The team with the higher score, if there is one.
pub open spec fn leader(score: TeamPair<u32>) -> Option<Team> {
    if score.a > score.b {
        Some(Team::A)
    } else if score.a < score.b {
        Some(Team::B)
    } else {
        None
    }
}

/// Whether another tick is to be played.
pub fn match_goes_on(state: &GameState, limits: &MatchLimits) -> (r: bool)
    ensures
        r == goes_on(state.tick, state.score, *limits),
{
    state.tick < limits.max_ticks || ((state.tick as u64) < limits.max_ticks as u64
        + limits.endgame_ticks as u64 && state.score.a == state.score.b)
}

/// The winner by score, or `None` for a tie.
pub fn winner(score: &TeamPair<u32>) -> (r: Option<Team>)
    ensures
        r == leader(*score),
{
    if score.a > score.b {
        Some(Team::A)
    } else if score.a < score.b {
        Some(Team::B)
    } else {
        None
    }
}

/// The driver's next move, given whether the last tick asked for a reset.
pub fn next_move(state: &GameState, needs_reset: bool, limits: &MatchLimits) -> (r: DriverMove)
    ensures
        r == (if !goes_on(state.tick, state.score, *limits) {
            DriverMove::Finish { winner: leader(state.score) }
        } else if needs_reset {
            DriverMove::ResetThenTick
        } else {
            DriverMove::Tick
        }),
{
    if !match_goes_on(state, limits) {
        DriverMove::Finish { winner: winner(&state.score) }
    } else if needs_reset {
        DriverMove::ResetThenTick
    } else {
        DriverMove::Tick
    }
}

/// The source of entry `slot` of the action array: team A's response fills the first
/// half as it stands, team B's the second half, mirrored back.
pub fn action_source(slot: u32) -> (r: ActionSource)
    requires
        slot < TOTAL_PLAYERS,
    ensures
        r.team == team_of(slot),
        r.index < NUM_PLAYERS,
        r.index == (if slot < NUM_PLAYERS {
            slot as int
        } else {
            slot - NUM_PLAYERS
        }),
        r.mirrored == (r.team == Team::B),
{
    if slot < NUM_PLAYERS {
        ActionSource { team: Team::A, index: slot, mirrored: false }
    } else {
        ActionSource { team: Team::B, index: slot - NUM_PLAYERS, mirrored: true }
    }
}

/// A match ends: once the tick count has reached regular play and endgame together, no
/// score keeps it going; and a match that has reached the end of regular play with a leader
/// is over.
pub proof fn lemma_match_ends(tick: u32, score: TeamPair<u32>, limits: MatchLimits)
    ensures
        tick >= limits.max_ticks + limits.endgame_ticks ==> !goes_on(tick, score, limits),
        tick >= limits.max_ticks && leader(score).is_some() ==> !goes_on(tick, score, limits),
        tick < limits.max_ticks ==> goes_on(tick, score, limits),
{
}

/// The formation and the score that team B is shown are those of the engine with the
/// sides exchanged, so what is a lead for one side is a lead for the other in its own view.
pub proof fn lemma_leader_mirrors(score: TeamPair<u32>)
    ensures
        leader(score.spec_swapped()) == (match leader(score) {
            Some(team) => Some(team.other()),
            None => None,
        }),
{
}

} // verus!
