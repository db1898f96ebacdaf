//! The counted part of the game state, and what closes a tick: scoring and stagnation.
//!
//! Where the ball lies is measured outside this module; what it reads is whether the
//! ball stands in a goal and whether it rests where it was.

use vstd::prelude::*;
use crate::config::{MatchLimits, TOTAL_PLAYERS};
use crate::possession::{player_team, team_of, BallPossessionState, PlayerId};
use crate::team::{Team, TeamPair};

verus! {

/// Counts the consecutive ticks that the ball has stayed near one place.
#[derive(Clone, Copy, Debug, PartialEq, Eq, Structural)]
pub struct BallStagnationState {
    pub ticks: u32,
}

/// Where the ball stands to the goals at the end of a tick.
#[derive(Clone, Copy, Debug, PartialEq, Eq, Structural)]
pub struct GoalSighting {
    /// The ball is level with the goal opening.
    pub in_mouth: bool,
    /// The ball has crossed the goal line that team A defends.
    pub past_left: bool,
    /// The ball has crossed the goal line that team B defends.
    pub past_right: bool,
}

/// How a tick ended.
#[derive(Clone, Copy, Debug, PartialEq, Eq, Structural)]
pub enum TickEnd {
    /// Play goes on.
    Play,
    /// `team` scored; the field is to be reset.
    Goal { team: Team },
    /// The ball rested too long; the field is to be reset.
    Stagnant,
}

impl GoalSighting {
    pub open spec fn spec_mirror(self) -> GoalSighting {
        GoalSighting { in_mouth: self.in_mouth, past_left: self.past_right, past_right: self.past_left }
    }

    /// The same sighting as team B sees it: the goals exchanged.
    #[verifier::when_used_as_spec(spec_mirror)]
    pub fn mirror(self) -> (r: GoalSighting)
        ensures
            r == self.spec_mirror(),
    {
        GoalSighting { in_mouth: self.in_mouth, past_left: self.past_right, past_right: self.past_left }
    }
}

impl TickEnd {
    /// The same end as team B sees it.
    pub open spec fn spec_mirror(self) -> TickEnd {
        match self {
            TickEnd::Goal { team } => TickEnd::Goal { team: team.other() },
            _ => self,
        }
    }

    pub open spec fn spec_needs_reset(self) -> bool {
        !(self is Play)
    }

    /// Whether the field is to be reset before the next tick.
    #[verifier::when_used_as_spec(spec_needs_reset)]
    pub fn needs_reset(self) -> (r: bool)
        ensures
            r == self.spec_needs_reset(),
    {
        match self {
            TickEnd::Play => false,
            _ => true,
        }
    }
}

/// The state of a match, as far as it is counted.
#[derive(Clone, Copy, Debug, PartialEq, Eq)]
pub struct GameState {
    pub tick: u32,
    pub ball_possession: BallPossessionState,
    pub ball_stagnation: BallStagnationState,
    pub score: TeamPair<u32>,
}

/// The team that scores on a sighting, if one does. The left goal is looked at first.
pub open spec fn scorer(goal: GoalSighting) -> Option<Team> {
    if !goal.in_mouth {
        None
    } else if goal.past_left {
        Some(Team::B)
    } else if goal.past_right {
        Some(Team::A)
    } else {
        None
    }
}

/// The stagnation count after a tick in which the ball rested or did not.
pub open spec fn stagnation_after(ticks: u32, resting: bool) -> int {
    if resting {
        ticks + 1
    } else {
        0
    }
}

/// How a tick ends: a goal comes before stagnation.
pub open spec fn tick_end(state: GameState, goal: GoalSighting, resting: bool, limits: MatchLimits) -> TickEnd {
    match scorer(goal) {
        Some(team) => TickEnd::Goal { team },
        None => if stagnation_after(state.ball_stagnation.ticks, resting) >= limits.stagnation_ticks {
            TickEnd::Stagnant
        } else {
            TickEnd::Play
        },
    }
}

/// The state after a tick has been closed. On a goal the stagnation count is left alone.
pub open spec fn ticked(state: GameState, goal: GoalSighting, resting: bool) -> GameState {
    GameState {
        tick: (state.tick + 1) as u32,
        ball_possession: state.ball_possession,
        ball_stagnation: match scorer(goal) {
            Some(_) => state.ball_stagnation,
            None => BallStagnationState {
                ticks: stagnation_after(state.ball_stagnation.ticks, resting) as u32,
            },
        },
        score: match scorer(goal) {
            Some(Team::A) => TeamPair { a: (state.score.a + 1) as u32, b: state.score.b },
            Some(Team::B) => TeamPair { a: state.score.a, b: (state.score.b + 1) as u32 },
            None => state.score,
        },
    }
}

/// The state after the field has been reset: the ball is free and has not rested yet.
pub open spec fn reset(state: GameState) -> GameState {
    GameState {
        tick: state.tick,
        ball_possession: BallPossessionState::Free,
        ball_stagnation: BallStagnationState { ticks: 0 },
        score: state.score,
    }
}

impl GameState {
    /// No more goals have been scored than ticks were played, the ball has not rested
    /// longer than the match has run, and the owner of the ball is a player of its team.
    pub open spec fn wf(self) -> bool {
        &&& self.ball_possession.wf()
        &&& self.score.a + self.score.b <= self.tick
        &&& self.ball_stagnation.ticks <= self.tick
    }

    /// The same state as team B sees it: the sides of the score exchanged, the owner of the ball
    /// renumbered.
    pub open spec fn spec_mirror(self) -> GameState {
        GameState {
            tick: self.tick,
            ball_possession: self.ball_possession.spec_mirror(),
            ball_stagnation: self.ball_stagnation,
            score: self.score.spec_swapped(),
        }
    }

    /// The state before the first tick: a free ball, no score.
    pub fn new() -> (r: GameState)
        ensures
            r.tick == 0,
            r.ball_possession == BallPossessionState::Free,
            r.ball_stagnation.ticks == 0,
            r.score == (TeamPair { a: 0u32, b: 0u32 }),
            r.wf(),
    {
        GameState {
            tick: 0,
            ball_possession: BallPossessionState::Free,
            ball_stagnation: BallStagnationState { ticks: 0 },
            score: TeamPair::new(0, 0),
        }
    }

    pub fn is_ball_free(&self) -> (r: bool)
        ensures
            r == (self.ball_possession is Free),
    {
        self.ball_possession.is_free()
    }

    pub fn ball_owner(&self) -> (r: Option<PlayerId>)
        ensures
            r == self.ball_possession.spec_owner(),
    {
        self.ball_possession.owner()
    }

    /// Whether player `id` holds the ball, and so moves at the slower pace of an owner.
    pub fn owns_ball(&self, id: PlayerId) -> (r: bool)
        ensures
            r == (self.ball_possession.spec_owner() == Some(id)),
    {
        match self.ball_possession {
            BallPossessionState::Possessed { owner, .. } => owner == id,
            _ => false,
        }
    }

    /// The team of a player index, or `None` for an index that is not on the field.
    pub fn player_team(&self, id: PlayerId) -> (r: Option<Team>)
        ensures
            r == (if id < TOTAL_PLAYERS {
                Some(team_of(id))
            } else {
                None
            }),
    {
        player_team(id)
    }

    /// The same state as team B sees it.
    pub fn mirror(&self) -> (r: GameState)
        requires
            self.wf(),
        ensures
            r == self.spec_mirror(),
            r.wf(),
    {
        GameState {
            tick: self.tick,
            ball_possession: self.ball_possession.mirror(),
            ball_stagnation: self.ball_stagnation,
            score: self.score.swapped(),
        }
    }

    /// Counts a goal if the ball stands in one, and says who scored.
    pub fn handle_scoring(&mut self, goal: GoalSighting) -> (r: Option<Team>)
        requires
            old(self).score.a < u32::MAX,
            old(self).score.b < u32::MAX,
        ensures
            r == scorer(goal),
            final(self).tick == old(self).tick,
            final(self).ball_possession == old(self).ball_possession,
            final(self).ball_stagnation == old(self).ball_stagnation,
            final(self).score == ticked(*old(self), goal, false).score,
    {
        if !goal.in_mouth {
            return None;
        }
        if goal.past_left {
            self.score.b += 1;
            return Some(Team::B);
        }
        if goal.past_right {
            self.score.a += 1;
            return Some(Team::A);
        }
        None
    }

    /// Counts a tick of rest or starts the count anew, and says whether the ball has
    /// rested for `limit` ticks.
    pub fn handle_ball_stagnation(&mut self, resting: bool, limit: u32) -> (r: bool)
        requires
            old(self).ball_stagnation.ticks < u32::MAX,
        ensures
            final(self).ball_stagnation.ticks == stagnation_after(
                old(self).ball_stagnation.ticks,
                resting,
            ),
            r == (final(self).ball_stagnation.ticks >= limit),
            final(self).tick == old(self).tick,
            final(self).ball_possession == old(self).ball_possession,
            final(self).score == old(self).score,
    {
        if resting {
            self.ball_stagnation.ticks += 1;
        } else {
            self.ball_stagnation.ticks = 0;
        }
        self.ball_stagnation.ticks >= limit
    }

    /// Closes a tick: counts it, then counts a goal, then looks for stagnation.
    pub fn finish_tick(&mut self, goal: GoalSighting, resting: bool, limits: &MatchLimits) -> (r: TickEnd)
        requires
            old(self).wf(),
            old(self).tick < u32::MAX,
        ensures
            r == tick_end(*old(self), goal, resting, *limits),
            *final(self) == ticked(*old(self), goal, resting),
            final(self).wf(),
            final(self).tick == old(self).tick + 1,
            final(self).score.a + final(self).score.b == old(self).score.a + old(self).score.b + (
            if r is Goal {
                1int
            } else {
                0int
            }),
    {
        self.tick += 1;
        match self.handle_scoring(goal) {
            Some(team) => TickEnd::Goal { team },
            None => {
                if self.handle_ball_stagnation(resting, limits.stagnation_ticks) {
                    TickEnd::Stagnant
                } else {
                    TickEnd::Play
                }
            },
        }
    }

    /// Resets the counted part of the field: the ball is free and has not rested.
    /// The tick count and the score stay.
    pub fn reset_ball(&mut self)
        ensures
            *final(self) == reset(*old(self)),
            old(self).wf() ==> final(self).wf(),
    {
        self.ball_possession = BallPossessionState::Free;
        self.ball_stagnation = BallStagnationState { ticks: 0 };
    }
}

/// What happens to the counted state between two looks at it.
pub enum Event {
    /// A tick was closed on these sightings.
    Tick { goal: GoalSighting, resting: bool },
    /// The field was reset.
    Reset,
}

/// The state after a run of events.
pub open spec fn after(state: GameState, events: Seq<Event>) -> GameState
    decreases events.len(),
{
    if events.len() == 0 {
        state
    } else {
        let before = after(state, events.drop_last());
        match events.last() {
            Event::Tick { goal, resting } => ticked(before, goal, resting),
            Event::Reset => reset(before),
        }
    }
}

/// The ticks among the events.
pub open spec fn ticks_in(events: Seq<Event>) -> nat
    decreases events.len(),
{
    if events.len() == 0 {
        0
    } else {
        ticks_in(events.drop_last()) + (if events.last() is Tick {
            1nat
        } else {
            0nat
        })
    }
}

/// The ticks among the events that ended with a goal.
pub open spec fn goals_in(events: Seq<Event>) -> nat
    decreases events.len(),
{
    if events.len() == 0 {
        0
    } else {
        goals_in(events.drop_last()) + (match events.last() {
            Event::Tick { goal, .. } => if scorer(goal).is_some() {
                1nat
            } else {
                0nat
            },
            Event::Reset => 0nat,
        })
    }
}

/// Over any run of ticks and resets the tick count grows by the number of ticks, resets
/// leaving it alone; the two scores together grow by the number of ticks that ended with
/// a goal, stagnation adding nothing; neither score ever falls; and the state stays
/// well formed.
pub proof fn lemma_counts(state: GameState, events: Seq<Event>)
    requires
        state.wf(),
        state.tick + ticks_in(events) <= u32::MAX,
    ensures
        after(state, events).wf(),
        after(state, events).tick == state.tick + ticks_in(events),
        after(state, events).score.a + after(state, events).score.b == state.score.a
            + state.score.b + goals_in(events),
        after(state, events).score.a >= state.score.a,
        after(state, events).score.b >= state.score.b,
        goals_in(events) <= ticks_in(events),
    decreases events.len(),
{
    if events.len() > 0 {
        lemma_counts(state, events.drop_last());
    }
}

/// The state after `n` ticks without a goal in which the ball rested.
pub open spec fn rested(state: GameState, n: nat) -> GameState
    decreases n,
{
    if n == 0 {
        state
    } else {
        ticked(
            rested(state, (n - 1) as nat),
            GoalSighting { in_mouth: false, past_left: false, past_right: false },
            true,
        )
    }
}

/// A ball that rests brings the reset after as many ticks as the limit says and not
/// before: each tick of rest without a goal adds one to the count, changes no score, and
/// ends stagnant exactly when the count has reached the limit.
pub proof fn lemma_rest_brings_reset(state: GameState, n: nat, limits: MatchLimits)
    requires
        state.wf(),
        n >= 1,
        state.tick + n <= u32::MAX,
    ensures
        rested(state, n).ball_stagnation.ticks == state.ball_stagnation.ticks + n,
        rested(state, n).tick == state.tick + n,
        rested(state, n).score == state.score,
        rested(state, n).wf(),
        tick_end(
            rested(state, (n - 1) as nat),
            GoalSighting { in_mouth: false, past_left: false, past_right: false },
            true,
            limits,
        ) == (if state.ball_stagnation.ticks + n >= limits.stagnation_ticks {
            TickEnd::Stagnant
        } else {
            TickEnd::Play
        }),
    decreases n,
{
    if n > 1 {
        lemma_rest_brings_reset(state, (n - 1) as nat, limits);
    }
}

/// Seen by team B and then mirrored back, a state is what it was.
pub proof fn lemma_mirror_involution(state: GameState)
    requires
        state.wf(),
    ensures
        state.spec_mirror().wf(),
        state.spec_mirror().spec_mirror() == state,
{
    crate::possession::lemma_mirror_involution(state.ball_possession);
}

/// Closing a tick treats both teams alike: on the mirrored state and the mirrored
/// sighting it gives the mirrored state and the mirrored end. This holds of a ball that
/// has not crossed both goal lines at once.
pub proof fn lemma_tick_mirrors(state: GameState, goal: GoalSighting, resting: bool, limits: MatchLimits)
    requires
        state.wf(),
        !(goal.past_left && goal.past_right),
    ensures
        ticked(state.spec_mirror(), goal.spec_mirror(), resting) == ticked(
            state,
            goal,
            resting,
        ).spec_mirror(),
        tick_end(state.spec_mirror(), goal.spec_mirror(), resting, limits) == tick_end(
            state,
            goal,
            resting,
            limits,
        ).spec_mirror(),
        reset(state.spec_mirror()) == reset(state).spec_mirror(),
{
}

} // verus!
