//! The ball possession machine: who holds the ball, and how that changes within a tick.
//!
//! Distances are measured outside this module. What it reads of them is a `Sighting`:
//! for each player an integer that orders the players by how far the ball lies beyond
//! their pickup circle, and whether that circle covers the ball.

use vstd::prelude::*;
use crate::chance::{coin, shuffle};
use crate::config::{NUM_PLAYERS, TOTAL_PLAYERS};
use crate::team::Team;

verus! {

/// Index of a player: team A holds `0..NUM_PLAYERS`, team B the next `NUM_PLAYERS`.
pub type PlayerId = u32;

/// The team that a player index belongs to, for indices on the field.
pub open spec fn team_of(id: PlayerId) -> Team {
    if id < NUM_PLAYERS {
        Team::A
    } else {
        Team::B
    }
}

/// First player index of a team.
pub open spec fn spec_team_start(team: Team) -> u32 {
    match team {
        Team::A => 0,
        Team::B => NUM_PLAYERS,
    }
}

/// First player index of a team; the team ends `NUM_PLAYERS` later.
#[verifier::when_used_as_spec(spec_team_start)]
pub fn team_start(team: Team) -> (r: u32)
    ensures
        r == spec_team_start(team),
{
    match team {
        Team::A => 0,
        Team::B => NUM_PLAYERS,
    }
}

/// The index that a player has in the other team's view of the field.
pub open spec fn spec_mirror_id(id: PlayerId) -> PlayerId {
    if id < NUM_PLAYERS {
        (id + NUM_PLAYERS) as u32
    } else {
        (id - NUM_PLAYERS) as u32
    }
}

/// The index that a player has in the other team's view of the field.
#[verifier::when_used_as_spec(spec_mirror_id)]
pub fn mirror_id(id: PlayerId) -> (r: PlayerId)
    requires
        id < TOTAL_PLAYERS,
    ensures
        r == spec_mirror_id(id),
        r < TOTAL_PLAYERS,
        team_of(r) == team_of(id).other(),
{
    if id < NUM_PLAYERS {
        id + NUM_PLAYERS
    } else {
        id - NUM_PLAYERS
    }
}

/// Who holds the ball.
#[derive(Clone, Copy, Debug, PartialEq, Eq, Structural)]
pub enum BallPossessionState {
    /// The ball is glued to `owner`; `capture_ticks` counts the opponents' pressure.
    Possessed { owner: PlayerId, team: Team, capture_ticks: u32 },
    /// The ball was passed by `team` and has not left its players yet.
    Passing { team: Team },
    /// Anyone may take the ball.
    Free,
}

impl BallPossessionState {
    /// An owner is a player on the field and plays for the team that is named with it.
    pub open spec fn wf(self) -> bool {
        match self {
            BallPossessionState::Possessed { owner, team, .. } => owner < TOTAL_PLAYERS && team
                == team_of(owner),
            _ => true,
        }
    }

    pub open spec fn spec_is_free(self) -> bool {
        self is Free
    }

    pub open spec fn spec_owner(self) -> Option<PlayerId> {
        match self {
            BallPossessionState::Possessed { owner, .. } => Some(owner),
            _ => None,
        }
    }

    /// The same state as the other team sees it.
    pub open spec fn spec_mirror(self) -> Self {
        match self {
            BallPossessionState::Possessed {
                owner,
                team,
                capture_ticks,
            } => BallPossessionState::Possessed {
                owner: spec_mirror_id(owner),
                team: team.other(),
                capture_ticks,
            },
            BallPossessionState::Passing { team } => BallPossessionState::Passing {
                team: team.other(),
            },
            BallPossessionState::Free => BallPossessionState::Free,
        }
    }

    /// Whether nobody holds the ball and no pass is under way.
    #[verifier::when_used_as_spec(spec_is_free)]
    pub fn is_free(self) -> (r: bool)
        ensures
            r == self.spec_is_free(),
    {
        match self {
            BallPossessionState::Free => true,
            _ => false,
        }
    }

    /// The player that holds the ball, if one does.
    #[verifier::when_used_as_spec(spec_owner)]
    pub fn owner(self) -> (r: Option<PlayerId>)
        ensures
            r == self.spec_owner(),
    {
        match self {
            BallPossessionState::Possessed { owner, .. } => Some(owner),
            _ => None,
        }
    }

    /// The same state as the other team sees it.
    #[verifier::when_used_as_spec(spec_mirror)]
    pub fn mirror(self) -> (r: Self)
        requires
            self.wf(),
        ensures
            r == self.spec_mirror(),
            r.wf(),
    {
        match self {
            BallPossessionState::Possessed {
                owner,
                team,
                capture_ticks,
            } => BallPossessionState::Possessed {
                owner: mirror_id(owner),
                team: team.other(),
                capture_ticks,
            },
            BallPossessionState::Passing { team } => BallPossessionState::Passing {
                team: team.other(),
            },
            BallPossessionState::Free => BallPossessionState::Free,
        }
    }
}

/// The team of a player index, or `None` for an index that is not on the field.
pub fn player_team(id: PlayerId) -> (r: Option<Team>)
    ensures
        r == (if id < TOTAL_PLAYERS {
            Some(team_of(id))
        } else {
            None
        }),
{
    if id < NUM_PLAYERS {
        Some(Team::A)
    } else if id < NUM_PLAYERS * 2 {
        Some(Team::B)
    } else {
        None
    }
}

/// The ball as one player stands to it.
#[derive(Clone, Copy, Debug, PartialEq, Eq, Structural)]
pub struct Reach {
    /// Orders the players by the distance from the ball to their pickup circle:
    /// a smaller value is a closer player.
    pub margin: i32,
    /// Whether the pickup circle covers the ball.
    pub covers: bool,
}

/// The ball as all players stand to it at one moment.
#[derive(Clone, Copy, Debug, PartialEq, Eq)]
pub struct Sighting {
    /// One entry for each player, by index.
    pub reach: [Reach; 8],
    /// Margins up to this one count as equally close.
    pub tie: i32,
}

impl Sighting {
    /// Whether player `id` is so close that chance decides between it and its like.
    pub open spec fn near(self, id: int) -> bool {
        self.reach@[id].margin <= self.tie
    }

    /// Whether `p` may come out as the closest of the players `lo..hi`: it is within the
    /// tie margin, or nobody is and none has a smaller margin.
    pub open spec fn may_pick(self, lo: int, hi: int, p: int) -> bool {
        &&& lo <= p < hi
        &&& (self.near(p) || forall|q: int|
            lo <= q < hi ==> !self.near(q) && self.reach@[p].margin <= (
            #[trigger] self.reach@[q]).margin)
    }

    /// Whether `p` may come out as the closest of the players `lo..hi` that cover the
    /// ball: it covers the ball, and it is within the tie margin, or none of those that
    /// cover the ball is and none of them has a smaller margin.
    pub open spec fn may_take(self, lo: int, hi: int, p: int) -> bool {
        &&& lo <= p < hi
        &&& self.reach@[p].covers
        &&& (self.near(p) || forall|q: int|
            lo <= q < hi && (#[trigger] self.reach@[q]).covers ==> !self.near(q)
                && self.reach@[p].margin <= self.reach@[q].margin)
    }

    /// Whether `taker` may come out of a draw among the players `lo..hi` that cover the
    /// ball: a player that may be taken, or nobody where nobody covers the ball.
    pub open spec fn fair_taker(self, lo: int, hi: int, taker: Option<PlayerId>) -> bool {
        match taker {
            Some(p) => self.may_take(lo, hi, p as int),
            None => self.covering(lo, hi) == 0,
        }
    }

    /// Whether `p` may come out as the closest of a group of players: it belongs to the
    /// group, and it is within the tie margin, or nobody in the group is and none has a
    /// smaller margin.
    pub open spec fn closest_in(self, group: Seq<u32>, p: u32) -> bool {
        &&& group.contains(p)
        &&& (self.near(p as int) || forall|j: int|
            0 <= j < group.len() ==> !self.near(#[trigger] group[j] as int)
                && self.reach@[p as int].margin <= self.reach@[group[j] as int].margin)
    }

    /// How many of the players `lo..hi` cover the ball.
    pub open spec fn covering(self, lo: int, hi: int) -> nat
        decreases hi - lo,
    {
        if hi <= lo {
            0
        } else {
            self.covering(lo, hi - 1) + (if self.reach@[hi - 1].covers {
                1nat
            } else {
                0nat
            })
        }
    }
}

/// Whether the second player takes the place of the first as the closer one.
/// Between two players within the tie margin a coin decides.
pub fn closer_pickup(a: Reach, b: Reach, tie: i32) -> (second: bool)
    ensures
        !(a.margin <= tie && b.margin <= tie) ==> second == (b.margin < a.margin),
{
    if a.margin <= tie && b.margin <= tie {
        coin()
    } else {
        b.margin < a.margin
    }
}

/// The closest of a group of players, visited in random order, with ties broken by chance.
fn closest_of(sight: &Sighting, group: Vec<u32>) -> (p: PlayerId)
    requires
        group@.len() > 0,
        forall|j: int| 0 <= j < group@.len() ==> #[trigger] group@[j] < TOTAL_PLAYERS,
    ensures
        sight.closest_in(group@, p),
{
    let ghost before = group@;
    let mut order = group;
    shuffle(&mut order);
    proof {
        before.to_multiset_ensures();
        order@.to_multiset_ensures();
        assert forall|j: int| 0 <= j < before.len() implies order@.contains(#[trigger] before[j]) by {
            assert(before.contains(before[j]));
            assert(before.to_multiset().count(before[j]) > 0);
            assert(order@.to_multiset().count(before[j]) > 0);
        }
        assert forall|k: int| 0 <= k < order@.len() implies before.contains(#[trigger] order@[k]) by {
            assert(order@.contains(order@[k]));
            assert(order@.to_multiset().count(order@[k]) > 0);
            assert(before.to_multiset().count(order@[k]) > 0);
        }
        assert forall|k: int| 0 <= k < order@.len() implies #[trigger] order@[k] < TOTAL_PLAYERS by {
            assert(before.contains(order@[k]));
        }
    }
    let mut best: u32 = order[0];
    let mut k: usize = 1;
    while k < order.len()
        invariant
            1 <= k <= order@.len(),
            best < TOTAL_PLAYERS,
            before.contains(best),
            forall|j: int| 0 <= j < order@.len() ==> #[trigger] order@[j] < TOTAL_PLAYERS,
            forall|j: int| 0 <= j < order@.len() ==> before.contains(#[trigger] order@[j]),
            sight.near(best as int) || forall|j: int|
                0 <= j < k ==> !sight.near(#[trigger] order@[j] as int) && sight.reach@[best as int].margin
                    <= sight.reach@[order@[j] as int].margin,
        decreases order@.len() - k,
    {
        let next: u32 = order[k];
        if closer_pickup(sight.reach[best as usize], sight.reach[next as usize], sight.tie) {
            best = next;
        }
        k += 1;
    }
    proof {
        if !sight.near(best as int) {
            assert forall|j: int| 0 <= j < before.len() implies !sight.near(
                #[trigger] before[j] as int,
            ) && sight.reach@[best as int].margin <= sight.reach@[before[j] as int].margin by {
                assert(order@.contains(before[j]));
                let i = choose|i: int| 0 <= i < order@.len() && order@[i] == before[j];
                assert(!sight.near(order@[i] as int));
            }
        }
    }
    best
}

/// The closest of the players `lo..hi`, visited in random order, with ties broken by chance.
pub fn closest_by_pickup(sight: &Sighting, lo: u32, hi: u32) -> (p: PlayerId)
    requires
        lo < hi <= TOTAL_PLAYERS,
    ensures
        sight.may_pick(lo as int, hi as int, p as int),
{
    let mut group: Vec<u32> = Vec::new();
    let mut i: u32 = lo;
    while i < hi
        invariant
            lo <= i <= hi <= TOTAL_PLAYERS,
            group@.len() == i - lo,
            forall|k: int| 0 <= k < group@.len() ==> #[trigger] group@[k] == lo + k,
        decreases hi - i,
    {
        group.push(i);
        i += 1;
    }
    let ghost players = group@;
    let p = closest_of(sight, group);
    proof {
        let at = choose|k: int| 0 <= k < players.len() && players[k] == p;
        assert(lo <= p < hi);
        if !sight.near(p as int) {
            assert forall|q: int| lo <= q < hi implies !sight.near(q) && sight.reach@[p as int].margin
                <= (#[trigger] sight.reach@[q]).margin by {
                assert(players[q - lo] == q as u32);
            }
        }
    }
    p
}

/// Counts the players `lo..hi` that cover the ball.
pub fn count_covering(sight: &Sighting, lo: u32, hi: u32) -> (n: u32)
    requires
        lo <= hi <= TOTAL_PLAYERS,
    ensures
        n == sight.covering(lo as int, hi as int),
        n <= hi - lo,
{
    let mut n: u32 = 0;
    let mut i: u32 = lo;
    while i < hi
        invariant
            lo <= i <= hi <= TOTAL_PLAYERS,
            n == sight.covering(lo as int, i as int),
            n <= i - lo,
        decreases hi - i,
    {
        if sight.reach[i as usize].covers {
            n += 1;
        }
        i += 1;
    }
    n
}

/// The closest of the players `lo..hi` that cover the ball, visited in random order, with
/// ties broken by chance; nobody where none of them covers the ball.
pub fn closest_covering(sight: &Sighting, lo: u32, hi: u32) -> (taker: Option<PlayerId>)
    requires
        lo <= hi <= TOTAL_PLAYERS,
    ensures
        sight.fair_taker(lo as int, hi as int, taker),
{
    let mut group: Vec<u32> = Vec::new();
    let mut i: u32 = lo;
    while i < hi
        invariant
            lo <= i <= hi <= TOTAL_PLAYERS,
            group@.len() == sight.covering(lo as int, i as int),
            forall|k: int|
                0 <= k < group@.len() ==> lo <= #[trigger] group@[k] < i && sight.reach@[group@[k] as int].covers,
            forall|q: u32| lo <= q < i && sight.reach@[q as int].covers ==> #[trigger] group@.contains(q),
        decreases hi - i,
    {
        if sight.reach[i as usize].covers {
            let ghost before = group@;
            group.push(i);
            proof {
                assert(group@[before.len() as int] == i);
                assert forall|q: u32|
                    lo <= q < i + 1 && sight.reach@[q as int].covers implies #[trigger] group@.contains(
                    q,
                ) by {
                    if q < i {
                        assert(before.contains(q));
                        let k = choose|k: int| 0 <= k < before.len() && before[k] == q;
                        assert(group@[k] == q);
                    }
                }
            }
        }
        i += 1;
    }
    if group.len() == 0 {
        None
    } else {
        let ghost covering = group@;
        let p = closest_of(sight, group);
        proof {
            let at = choose|k: int| 0 <= k < covering.len() && covering[k] == p;
            assert(lo <= covering[at] < hi);
            if !sight.near(p as int) {
                assert forall|q: int|
                    lo <= q < hi && (#[trigger] sight.reach@[q]).covers implies !sight.near(q)
                    && sight.reach@[p as int].margin <= sight.reach@[q].margin by {
                    assert(covering.contains(q as u32));
                    let k = choose|k: int| 0 <= k < covering.len() && covering[k] == q as u32;
                    assert(!sight.near(covering[k] as int));
                }
            }
        }
        Some(p)
    }
}

/// What the owner of the ball asks for in its action.
#[derive(Clone, Copy, Debug, PartialEq, Eq, Structural)]
pub enum PassRequest {
    /// The action holds no pass.
    Absent,
    /// The action holds a pass of length zero: it is used up and moves nothing.
    Zero,
    /// The action holds a pass with a direction.
    Aimed,
}

/// What a step of the machine asks to be done to the ball and to the actions.
#[derive(Clone, Copy, Debug, PartialEq, Eq, Structural)]
pub enum BallEffect {
    /// Nothing moves.
    Keep,
    /// The pass in the owner's action is cleared.
    DropPass { owner: PlayerId },
    /// The pass in the owner's action is cleared, and the ball leaves the owner's
    /// attachment point at pass speed.
    Launch { owner: PlayerId },
}

/// The players that chance named, each within its group.
#[derive(Clone, Copy, Debug, PartialEq, Eq, Structural)]
pub struct Picks {
    /// Closest among the opponents of the team that holds the ball: the player that the
    /// ball goes to when it is captured.
    pub heir: PlayerId,
    /// Closest among the opponents of the passing team that cover the ball, if one does.
    pub opponent: Option<PlayerId>,
    /// Closest among all players that cover the ball, if one does.
    pub anyone: Option<PlayerId>,
}

/// Result of one step of the machine.
#[derive(Clone, Copy, Debug, PartialEq, Eq, Structural)]
pub struct Step {
    pub state: BallPossessionState,
    pub effect: BallEffect,
    /// Whether the machine has come to rest for this tick.
    pub resolved: bool,
}

/// The capture count after the opponents' pressure of one tick: one more for each
/// opponent that covers the ball, one less, down to zero, when none does.
pub open spec fn swept(state: BallPossessionState, sight: Sighting) -> BallPossessionState {
    match state {
        BallPossessionState::Possessed { owner, team, capture_ticks } => {
            let lo = team_start(team.other()) as int;
            let n = sight.covering(lo, lo + NUM_PLAYERS);
            let ticks = if n > 0 {
                capture_ticks + n
            } else if capture_ticks > 0 {
                capture_ticks - 1
            } else {
                0
            };
            BallPossessionState::Possessed { owner, team, capture_ticks: ticks as u32 }
        },
        _ => state,
    }
}

/// One step of the machine, given the players that chance named.
///
/// A possessed ball is passed on the owner's request, and goes to the heir once the
/// capture count has passed the limit. A passed ball goes to an opponent that covers it;
/// where none does, it is free as soon as no player of the passing team covers it. A free
/// ball goes to a player that covers it.
pub open spec fn next_step(
    state: BallPossessionState,
    pass: PassRequest,
    limit: u32,
    sight: Sighting,
    picks: Picks,
) -> Step {
    match state {
        BallPossessionState::Possessed { owner, team, capture_ticks } => match pass {
            PassRequest::Aimed => Step {
                state: BallPossessionState::Passing { team },
                effect: BallEffect::Launch { owner },
                resolved: false,
            },
            PassRequest::Zero => Step {
                state,
                effect: BallEffect::DropPass { owner },
                resolved: false,
            },
            PassRequest::Absent => if capture_ticks > limit {
                Step {
                    state: BallPossessionState::Possessed {
                        owner: picks.heir,
                        team: team.other(),
                        capture_ticks: 0,
                    },
                    effect: BallEffect::Keep,
                    resolved: false,
                }
            } else {
                Step { state, effect: BallEffect::Keep, resolved: true }
            },
        },
        BallPossessionState::Passing { team } => match picks.opponent {
            Some(taker) => Step {
                state: BallPossessionState::Possessed {
                    owner: taker,
                    team: team.other(),
                    capture_ticks: 0,
                },
                effect: BallEffect::Keep,
                resolved: false,
            },
            None => if sight.covering(team_start(team) as int, team_start(team) + NUM_PLAYERS) == 0 {
                Step { state: BallPossessionState::Free, effect: BallEffect::Keep, resolved: false }
            } else {
                Step { state, effect: BallEffect::Keep, resolved: true }
            },
        },
        BallPossessionState::Free => match picks.anyone {
            Some(taker) => Step {
                state: BallPossessionState::Possessed {
                    owner: taker,
                    team: team_of(taker),
                    capture_ticks: 0,
                },
                effect: BallEffect::Keep,
                resolved: false,
            },
            None => Step { state, effect: BallEffect::Keep, resolved: true },
        },
    }
}

/// Whether the pick that the step reads is one that the draw may give: the heir one that
/// `closest_by_pickup` may give among the opponents, a taker one that `closest_covering`
/// may give for its group.
pub open spec fn fair_picks(
    state: BallPossessionState,
    pass: PassRequest,
    limit: u32,
    sight: Sighting,
    picks: Picks,
) -> bool {
    match state {
        BallPossessionState::Possessed { team, capture_ticks, .. } => {
            let lo = team_start(team.other()) as int;
            pass == PassRequest::Absent && capture_ticks > limit ==> sight.may_pick(
                lo,
                lo + NUM_PLAYERS,
                picks.heir as int,
            )
        },
        BallPossessionState::Passing { team } => {
            let lo = team_start(team.other()) as int;
            sight.fair_taker(lo, lo + NUM_PLAYERS, picks.opponent)
        },
        BallPossessionState::Free => sight.fair_taker(0, TOTAL_PLAYERS as int, picks.anyone),
    }
}

/// An upper bound on the steps that the machine still takes in this tick, where `pending`
/// actions hold a pass.
pub open spec fn steps_left(state: BallPossessionState, pending: nat, limit: u32) -> nat {
    4 * pending + match state {
        BallPossessionState::Passing { .. } => 3nat,
        BallPossessionState::Free => 2nat,
        BallPossessionState::Possessed { capture_ticks, .. } => if capture_ticks > limit {
            1nat
        } else {
            0nat
        },
    }
}

/// Applies the opponents' pressure of one tick to the capture count.
pub fn sweep(state: BallPossessionState, sight: &Sighting) -> (r: BallPossessionState)
    requires
        match state {
            BallPossessionState::Possessed { capture_ticks, .. } => capture_ticks + NUM_PLAYERS
                <= u32::MAX,
            _ => true,
        },
    ensures
        r == swept(state, *sight),
        state.wf() ==> r.wf(),
{
    match state {
        BallPossessionState::Possessed { owner, team, capture_ticks } => {
            let lo: u32 = team_start(team.other());
            let capturing: u32 = count_covering(sight, lo, lo + NUM_PLAYERS);
            let ticks: u32 = if capturing > 0 {
                capture_ticks + capturing
            } else if capture_ticks > 0 {
                capture_ticks - 1
            } else {
                0
            };
            BallPossessionState::Possessed { owner, team, capture_ticks: ticks }
        },
        _ => state,
    }
}

/// One step of the machine for given picks.
pub fn decide(
    state: BallPossessionState,
    pass: PassRequest,
    limit: u32,
    sight: &Sighting,
    picks: Picks,
) -> (r: Step)
    ensures
        r == next_step(state, pass, limit, *sight, picks),
{
    match state {
        BallPossessionState::Possessed { owner, team, capture_ticks } => match pass {
            PassRequest::Aimed => Step {
                state: BallPossessionState::Passing { team },
                effect: BallEffect::Launch { owner },
                resolved: false,
            },
            PassRequest::Zero => Step {
                state,
                effect: BallEffect::DropPass { owner },
                resolved: false,
            },
            PassRequest::Absent => {
                if capture_ticks > limit {
                    Step {
                        state: BallPossessionState::Possessed {
                            owner: picks.heir,
                            team: team.other(),
                            capture_ticks: 0,
                        },
                        effect: BallEffect::Keep,
                        resolved: false,
                    }
                } else {
                    Step { state, effect: BallEffect::Keep, resolved: true }
                }
            },
        },
        BallPossessionState::Passing { team } => match picks.opponent {
            Some(taker) => Step {
                state: BallPossessionState::Possessed {
                    owner: taker,
                    team: team.other(),
                    capture_ticks: 0,
                },
                effect: BallEffect::Keep,
                resolved: false,
            },
            None => {
                let own: u32 = team_start(team);
                if count_covering(sight, own, own + NUM_PLAYERS) == 0 {
                    Step {
                        state: BallPossessionState::Free,
                        effect: BallEffect::Keep,
                        resolved: false,
                    }
                } else {
                    Step { state, effect: BallEffect::Keep, resolved: true }
                }
            },
        },
        BallPossessionState::Free => match picks.anyone {
            Some(taker) => {
                let team = if taker < NUM_PLAYERS {
                    Team::A
                } else {
                    Team::B
                };
                Step {
                    state: BallPossessionState::Possessed { owner: taker, team, capture_ticks: 0 },
                    effect: BallEffect::Keep,
                    resolved: false,
                }
            },
            None => Step { state, effect: BallEffect::Keep, resolved: true },
        },
    }
}

/// One step of the machine: draws the player that the state asks for and decides.
/// It is to be repeated, each time on a fresh sighting and with the owner's request, until
/// a step comes back resolved.
pub fn possession_step(
    state: BallPossessionState,
    pass: PassRequest,
    limit: u32,
    sight: &Sighting,
) -> (r: Step)
    ensures
        exists|picks: Picks|
            fair_picks(state, pass, limit, *sight, picks) && r == #[trigger] next_step(
                state,
                pass,
                limit,
                *sight,
                picks,
            ),
        state.wf() ==> r.state.wf(),
{
    let mut picks = Picks { heir: 0, opponent: None, anyone: None };
    match state {
        BallPossessionState::Possessed { team, capture_ticks, .. } => {
            if pass == PassRequest::Absent && capture_ticks > limit {
                let lo: u32 = team_start(team.other());
                picks.heir = closest_by_pickup(sight, lo, lo + NUM_PLAYERS);
            }
        },
        BallPossessionState::Passing { team } => {
            let lo: u32 = team_start(team.other());
            picks.opponent = closest_covering(sight, lo, lo + NUM_PLAYERS);
        },
        BallPossessionState::Free => {
            picks.anyone = closest_covering(sight, 0, TOTAL_PLAYERS);
        },
    }
    let r = decide(state, pass, limit, sight, picks);
    proof {
        assert(fair_picks(state, pass, limit, *sight, picks));
        assert(r == next_step(state, pass, limit, *sight, picks));
    }
    r
}

/// Every state is exactly one of free, possessed and passing.
pub proof fn lemma_one_variant(state: BallPossessionState)
    ensures
        (state is Free) || (state is Possessed) || (state is Passing),
        !((state is Free) && (state is Possessed)),
        !((state is Free) && (state is Passing)),
        !((state is Possessed) && (state is Passing)),
        state.spec_is_free() <==> state.spec_owner().is_none() && !(state is Passing),
{
}

/// Seen from the other team and then from the first again, a state is what it was.
pub proof fn lemma_mirror_involution(state: BallPossessionState)
    requires
        state.wf(),
    ensures
        state.spec_mirror().wf(),
        state.spec_mirror().spec_mirror() == state,
{
}

/// A step with fair picks keeps the owner on the field and on the team named with it.
pub proof fn lemma_step_keeps_wf(
    state: BallPossessionState,
    pass: PassRequest,
    limit: u32,
    sight: Sighting,
    picks: Picks,
)
    requires
        state.wf(),
        fair_picks(state, pass, limit, sight, picks),
    ensures
        next_step(state, pass, limit, sight, picks).state.wf(),
{
}

/// The release rule and its companions. A passed ball that an opponent covers is caught
/// by an opponent that covers it; one that nobody covers is free; one that only players
/// of the passing team cover stays in the pass, so the passing team does not catch its
/// own pass before the ball has left all of its players. A free ball goes to a player
/// that covers it and stays free where nobody does. A team loses the ball only to a
/// player of the other team.
pub proof fn lemma_release_rule(
    state: BallPossessionState,
    pass: PassRequest,
    limit: u32,
    sight: Sighting,
    picks: Picks,
)
    requires
        state.wf(),
        fair_picks(state, pass, limit, sight, picks),
    ensures
        ({
            let out = next_step(state, pass, limit, sight, picks);
            match state {
                BallPossessionState::Passing { team } => {
                    let theirs = sight.covering(
                        team_start(team.other()) as int,
                        team_start(team.other()) + NUM_PLAYERS,
                    );
                    let ours = sight.covering(team_start(team) as int, team_start(team) + NUM_PLAYERS);
                    match out.state {
                        BallPossessionState::Possessed { owner, team: taker, capture_ticks } => {
                            &&& theirs > 0
                            &&& taker == team.other()
                            &&& team_of(owner) == taker
                            &&& sight.reach@[owner as int].covers
                            &&& capture_ticks == 0
                        },
                        BallPossessionState::Free => theirs == 0 && ours == 0,
                        BallPossessionState::Passing { team: still } => theirs == 0 && ours > 0
                            && still == team && out.resolved,
                    }
                },
                BallPossessionState::Free => match out.state {
                    BallPossessionState::Possessed { owner, team: taker, capture_ticks } => {
                        &&& sight.covering(0, TOTAL_PLAYERS as int) > 0
                        &&& sight.reach@[owner as int].covers
                        &&& team_of(owner) == taker
                        &&& capture_ticks == 0
                    },
                    BallPossessionState::Free => sight.covering(0, TOTAL_PLAYERS as int) == 0
                        && out.resolved,
                    BallPossessionState::Passing { .. } => false,
                },
                BallPossessionState::Possessed { owner, team, .. } => match out.state {
                    BallPossessionState::Possessed { owner: next, team: taker, .. } => (next == owner
                        && taker == team) || (taker == team.other() && team_of(next) == taker),
                    BallPossessionState::Passing { team: passer } => passer == team,
                    BallPossessionState::Free => false,
                },
            }
        }),
{
    match state {
        BallPossessionState::Passing { team } => {
            let lo = team_start(team.other()) as int;
            match picks.opponent {
                Some(taker) => {
                    lemma_covering_counts(sight, lo, lo + NUM_PLAYERS, taker as int);
                },
                None => {},
            }
        },
        BallPossessionState::Free => {
            match picks.anyone {
                Some(taker) => {
                    lemma_covering_counts(sight, 0, TOTAL_PLAYERS as int, taker as int);
                },
                None => {},
            }
        },
        _ => {},
    }
}

/// A ball that has just been released from a pass is not taken on the same sighting: the
/// step after the release finds nobody who covers the ball and brings the machine to rest.
pub proof fn lemma_release_rests(
    team: Team,
    pass: PassRequest,
    limit: u32,
    sight: Sighting,
    first: Picks,
    second: Picks,
)
    requires
        fair_picks(BallPossessionState::Passing { team }, pass, limit, sight, first),
        next_step(BallPossessionState::Passing { team }, pass, limit, sight, first).state
            == BallPossessionState::Free,
        fair_picks(BallPossessionState::Free, pass, limit, sight, second),
    ensures
        next_step(BallPossessionState::Free, pass, limit, sight, second) == (Step {
            state: BallPossessionState::Free,
            effect: BallEffect::Keep,
            resolved: true,
        }),
{
    lemma_covering_splits(sight, 0, NUM_PLAYERS as int, TOTAL_PLAYERS as int);
    match second.anyone {
        Some(taker) => {
            lemma_covering_counts(sight, 0, TOTAL_PLAYERS as int, taker as int);
        },
        None => {},
    }
}

/// A group with a player that covers the ball counts at least one such player.
pub proof fn lemma_covering_counts(sight: Sighting, lo: int, hi: int, p: int)
    requires
        lo <= p < hi,
        sight.reach@[p].covers,
    ensures
        sight.covering(lo, hi) > 0,
    decreases hi - lo,
{
    if p < hi - 1 {
        lemma_covering_counts(sight, lo, hi - 1, p);
    }
}

/// A step that does not resolve the machine brings it closer to rest: a pass is used up,
/// or the state moves down from passing over free to possessed. So the machine rests
/// after at most `steps_left` steps.
pub proof fn lemma_step_progress(
    state: BallPossessionState,
    pass: PassRequest,
    limit: u32,
    sight: Sighting,
    picks: Picks,
    pending: nat,
)
    requires
        (state is Possessed) && pass != PassRequest::Absent ==> pending >= 1,
    ensures
        ({
            let out = next_step(state, pass, limit, sight, picks);
            let used: nat = if out.effect == BallEffect::Keep {
                0
            } else {
                1
            };
            &&& used <= pending
            &&& !out.resolved ==> steps_left(out.state, (pending - used) as nat, limit)
                < steps_left(state, pending, limit)
        }),
{
}

/// When the machine rests with the ball possessed, the capture count is within the limit;
/// and one tick of pressure adds at most one for each opposing player. With a limit of at
/// least the number of players on a team, the count therefore stays within twice the limit.
pub proof fn lemma_capture_bounded(
    state: BallPossessionState,
    pass: PassRequest,
    limit: u32,
    sight: Sighting,
    picks: Picks,
)
    requires
        limit >= NUM_PLAYERS,
    ensures
        ({
            let out = next_step(state, pass, limit, sight, picks);
            out.resolved ==> match out.state {
                BallPossessionState::Possessed { capture_ticks, .. } => capture_ticks <= limit,
                _ => true,
            }
        }),
        match (state, swept(state, sight)) {
            (
                BallPossessionState::Possessed { capture_ticks: before, .. },
                BallPossessionState::Possessed { capture_ticks: after, .. },
            ) => before <= limit && before + NUM_PLAYERS <= u32::MAX ==> 0 <= after <= 2 * limit,
            _ => true,
        },
{
    match state {
        BallPossessionState::Possessed { team, .. } => {
            let lo = team_start(team.other()) as int;
            lemma_covering_bound(sight, lo, lo + NUM_PLAYERS);
        },
        _ => {},
    }
}

/// There are no more covering players in a group than players.
pub proof fn lemma_covering_bound(sight: Sighting, lo: int, hi: int)
    requires
        lo <= hi,
    ensures
        sight.covering(lo, hi) <= hi - lo,
    decreases hi - lo,
{
    if lo < hi {
        lemma_covering_bound(sight, lo, hi - 1);
    }
}

/// The sightings at every spot where the ball may lie within one tick: where it lies when
/// the tick begins, and at the attachment point of each player, from where a pass starts.
#[derive(Clone, Copy, Debug, PartialEq, Eq)]
pub struct Sightings {
    pub now: Sighting,
    /// One sighting for each player, by index.
    pub attached: [Sighting; 8],
}

/// The machine and what it reads within one tick.
pub struct Machine {
    pub state: BallPossessionState,
    /// The request in each player's action.
    pub passes: Seq<PassRequest>,
    /// The player from whose attachment point the ball was last launched in this tick.
    pub launched: Option<PlayerId>,
}

/// What the machine leaves behind when it has come to rest.
#[derive(Clone, Copy, Debug, PartialEq, Eq)]
pub struct BallOutcome {
    pub state: BallPossessionState,
    /// The requests that are left: those that were used are cleared.
    pub passes: [PassRequest; 8],
    /// The player from whose attachment point the ball was last launched, if it was.
    pub launched: Option<PlayerId>,
}

impl BallOutcome {
    pub open spec fn view(self) -> Machine {
        Machine { state: self.state, passes: self.passes@, launched: self.launched }
    }
}

impl Machine {
    /// The requests cover the field, and whoever is named is a player on it.
    pub open spec fn wf(self) -> bool {
        &&& self.state.wf()
        &&& self.passes.len() == TOTAL_PLAYERS
        &&& match self.launched {
            Some(p) => p < TOTAL_PLAYERS,
            None => true,
        }
    }

    /// The request of the owner of the ball; without an owner there is none.
    pub open spec fn request(self) -> PassRequest {
        match self.state {
            BallPossessionState::Possessed { owner, .. } => self.passes[owner as int],
            _ => PassRequest::Absent,
        }
    }

    /// The sighting at the spot where the ball lies.
    pub open spec fn sight(self, table: Sightings) -> Sighting {
        match self.launched {
            Some(p) => table.attached@[p as int],
            None => table.now,
        }
    }

    /// The step that the machine takes for given picks.
    pub open spec fn step(self, limit: u32, table: Sightings, picks: Picks) -> Step {
        next_step(self.state, self.request(), limit, self.sight(table), picks)
    }

    /// Whether the picks are fair for the step that the machine takes.
    pub open spec fn fair(self, limit: u32, table: Sightings, picks: Picks) -> bool {
        fair_picks(self.state, self.request(), limit, self.sight(table), picks)
    }

    /// The machine after a step: a used pass is cleared, a launched ball lies at its
    /// owner's attachment point.
    pub open spec fn after(self, out: Step) -> Machine {
        Machine {
            state: out.state,
            passes: match out.effect {
                BallEffect::Keep => self.passes,
                BallEffect::DropPass { owner } => self.passes.update(owner as int, PassRequest::Absent),
                BallEffect::Launch { owner } => self.passes.update(owner as int, PassRequest::Absent),
            },
            launched: match out.effect {
                BallEffect::Launch { owner } => Some(owner),
                _ => self.launched,
            },
        }
    }

    /// The machine after one step for each of the picks.
    pub open spec fn run(self, limit: u32, table: Sightings, picks: Seq<Picks>) -> Machine
        decreases picks.len(),
    {
        if picks.len() == 0 {
            self
        } else {
            let before = self.run(limit, table, picks.drop_last());
            before.after(before.step(limit, table, picks.last()))
        }
    }

    /// Whether each of the picks is fair where it is used, and none of the steps brings
    /// the machine to rest.
    pub open spec fn unresolved_run(self, limit: u32, table: Sightings, picks: Seq<Picks>) -> bool
        decreases picks.len(),
    {
        if picks.len() == 0 {
            true
        } else {
            let before = self.run(limit, table, picks.drop_last());
            &&& self.unresolved_run(limit, table, picks.drop_last())
            &&& before.fair(limit, table, picks.last())
            &&& !before.step(limit, table, picks.last()).resolved
        }
    }

    /// Whether the machine is at rest: a step with these fair picks changes nothing.
    pub open spec fn at_rest(self, limit: u32, table: Sightings, picks: Picks) -> bool {
        &&& self.fair(limit, table, picks)
        &&& self.step(limit, table, picks).resolved
    }

    /// The actions that hold a pass.
    pub open spec fn pending(self) -> nat {
        pending_in(self.passes)
    }
}

/// The requests that are not absent.
pub open spec fn pending_in(passes: Seq<PassRequest>) -> nat
    decreases passes.len(),
{
    if passes.len() == 0 {
        0
    } else {
        pending_in(passes.drop_last()) + (if passes.last() == PassRequest::Absent {
            0nat
        } else {
            1nat
        })
    }
}

/// Clearing a request takes one from the pending requests if it was one, and none if not.
pub proof fn lemma_pending_cleared(passes: Seq<PassRequest>, i: int)
    requires
        0 <= i < passes.len(),
    ensures
        pending_in(passes) == pending_in(passes.update(i, PassRequest::Absent)) + (if passes[i]
            == PassRequest::Absent {
            0nat
        } else {
            1nat
        }),
    decreases passes.len(),
{
    let cleared = passes.update(i, PassRequest::Absent);
    if i == passes.len() - 1 {
        assert(cleared.drop_last() == passes.drop_last());
    } else {
        lemma_pending_cleared(passes.drop_last(), i);
        assert(cleared.drop_last() == passes.drop_last().update(i, PassRequest::Absent));
    }
}

/// There are no more pending requests than players.
pub proof fn lemma_pending_bound(passes: Seq<PassRequest>)
    ensures
        pending_in(passes) <= passes.len(),
    decreases passes.len(),
{
    if passes.len() > 0 {
        lemma_pending_bound(passes.drop_last());
    }
}

/// The ball state machine of one tick: the opponents' pressure first, then step after step
/// until the machine rests. Each step reads the sighting at the spot where the ball lies
/// by then: where the tick found it, or the attachment point of the player that launched
/// it last.
///
/// The result is one that a run of fair picks leads to, it is at rest, and it came about
/// in no more steps than `steps_left` allows.
pub fn handle_ball_state(
    state: BallPossessionState,
    passes: [PassRequest; 8],
    limit: u32,
    table: &Sightings,
) -> (r: BallOutcome)
    requires
        state.wf(),
        match state {
            BallPossessionState::Possessed { capture_ticks, .. } => capture_ticks + NUM_PLAYERS
                <= u32::MAX,
            _ => true,
        },
    ensures
        r@.wf(),
        ({
            let start = Machine { state: swept(state, table.now), passes: passes@, launched: None };
            exists|picks: Seq<Picks>, last: Picks|
                {
                    &&& #[trigger] start.unresolved_run(limit, *table, picks)
                    &&& r@ == start.run(limit, *table, picks)
                    &&& #[trigger] r@.at_rest(limit, *table, last)
                    &&& picks.len() <= steps_left(start.state, start.pending(), limit)
                }
        }),
        match r.state {
            BallPossessionState::Possessed { owner, capture_ticks, .. } => capture_ticks <= limit
                && r.passes@[owner as int] == PassRequest::Absent,
            _ => true,
        },
{
    let mut current = sweep(state, &table.now);
    let mut passes = passes;
    let mut launched: Option<PlayerId> = None;
    let mut resolved = false;
    let ghost start = Machine { state: current, passes: passes@, launched: None };
    let ghost mut trace: Seq<Picks> = Seq::empty();
    let ghost mut last: Picks = Picks { heir: 0, opponent: None, anyone: None };
    while !resolved
        invariant
            start.wf(),
            (Machine { state: current, passes: passes@, launched }).wf(),
            start.unresolved_run(limit, *table, trace),
            (Machine { state: current, passes: passes@, launched }) == start.run(limit, *table, trace),
            trace.len() + steps_left(current, pending_in(passes@), limit) <= steps_left(
                start.state,
                start.pending(),
                limit,
            ),
            resolved ==> (Machine { state: current, passes: passes@, launched }).at_rest(
                limit,
                *table,
                last,
            ),
        decreases
            (if resolved {
                0
            } else {
                1 + steps_left(current, pending_in(passes@), limit)
            }),
    {
        let ghost machine = Machine { state: current, passes: passes@, launched };
        let request = match current {
            BallPossessionState::Possessed { owner, .. } => passes[owner as usize],
            _ => PassRequest::Absent,
        };
        let out = match launched {
            Some(p) => possession_step(current, request, limit, &table.attached[p as usize]),
            None => possession_step(current, request, limit, &table.now),
        };
        proof {
            let picks = choose|picks: Picks|
                fair_picks(current, request, limit, machine.sight(*table), picks) && out
                    == #[trigger] next_step(current, request, limit, machine.sight(*table), picks);
            match current {
                BallPossessionState::Possessed { owner, .. } => {
                    lemma_pending_cleared(passes@, owner as int);
                },
                _ => {},
            }
            lemma_step_progress(
                current,
                request,
                limit,
                machine.sight(*table),
                picks,
                pending_in(passes@),
            );
            if out.resolved {
                last = picks;
            } else {
                let longer = trace.push(picks);
                assert(longer.drop_last() == trace);
                assert(longer.last() == picks);
                trace = longer;
            }
        }
        match out.effect {
            BallEffect::Keep => {},
            BallEffect::DropPass { owner } => {
                passes[owner as usize] = PassRequest::Absent;
            },
            BallEffect::Launch { owner } => {
                passes[owner as usize] = PassRequest::Absent;
                launched = Some(owner);
            },
        }
        current = out.state;
        resolved = out.resolved;
    }
    BallOutcome { state: current, passes, launched }
}

/// The machine rests after at most four steps for each player and three more.
pub proof fn lemma_steps_bound(state: BallPossessionState, passes: Seq<PassRequest>, limit: u32)
    ensures
        steps_left(state, pending_in(passes), limit) <= 4 * passes.len() + 3,
{
    lemma_pending_bound(passes);
}

/// Whether `seen` is `sight` as the other team sees it: each player stands under the
/// index that it has in the other team's view.
pub open spec fn mirrors(sight: Sighting, seen: Sighting) -> bool {
    &&& seen.tie == sight.tie
    &&& forall|i: int|
        0 <= i < TOTAL_PLAYERS ==> (#[trigger] seen.reach@[i]) == sight.reach@[spec_mirror_id(
            i as u32,
        ) as int]
}

impl Sighting {
    /// The same sighting as the other team sees it.
    pub fn mirror(&self) -> (seen: Sighting)
        ensures
            mirrors(*self, seen),
    {
        let mut reach = self.reach;
        let mut i: u32 = 0;
        while i < TOTAL_PLAYERS
            invariant
                i <= TOTAL_PLAYERS,
                forall|k: int|
                    0 <= k < i ==> (#[trigger] reach@[k]) == self.reach@[spec_mirror_id(k as u32) as int],
            decreases TOTAL_PLAYERS - i,
        {
            reach[i as usize] = self.reach[mirror_id(i) as usize];
            i += 1;
        }
        Sighting { reach, tie: self.tie }
    }
}

impl Picks {
    /// Whoever is named is a player on the field.
    pub open spec fn wf(self) -> bool {
        &&& self.heir < TOTAL_PLAYERS
        &&& match self.opponent {
            Some(p) => p < TOTAL_PLAYERS,
            None => true,
        }
        &&& match self.anyone {
            Some(p) => p < TOTAL_PLAYERS,
            None => true,
        }
    }

    /// The same picks under the indices of the other team's view.
    pub open spec fn spec_mirror(self) -> Picks {
        Picks {
            heir: spec_mirror_id(self.heir),
            opponent: match self.opponent {
                Some(p) => Some(spec_mirror_id(p)),
                None => None,
            },
            anyone: match self.anyone {
                Some(p) => Some(spec_mirror_id(p)),
                None => None,
            },
        }
    }
}

impl Step {
    /// The same step as the other team sees it.
    pub open spec fn spec_mirror(self) -> Step {
        Step {
            state: self.state.spec_mirror(),
            effect: match self.effect {
                BallEffect::Keep => BallEffect::Keep,
                BallEffect::DropPass { owner } => BallEffect::DropPass { owner: spec_mirror_id(owner) },
                BallEffect::Launch { owner } => BallEffect::Launch { owner: spec_mirror_id(owner) },
            },
            resolved: self.resolved,
        }
    }
}

/// A pick that is fair in one view is fair in the other, within the mirrored group.
pub proof fn lemma_pick_mirrors(sight: Sighting, seen: Sighting, lo: int, p: int)
    requires
        mirrors(sight, seen),
        lo == 0 || lo == NUM_PLAYERS,
        sight.may_pick(lo, lo + NUM_PLAYERS, p),
    ensures
        seen.may_pick(
            spec_mirror_id(lo as u32) as int,
            spec_mirror_id(lo as u32) + NUM_PLAYERS,
            spec_mirror_id(p as u32) as int,
        ),
{
    let there = spec_mirror_id(lo as u32) as int;
    let q0 = spec_mirror_id(p as u32) as int;
    assert(seen.reach@[q0] == sight.reach@[p]);
    if !seen.near(q0) {
        assert forall|q: int| there <= q < there + NUM_PLAYERS implies !seen.near(q)
            && seen.reach@[q0].margin <= (#[trigger] seen.reach@[q]).margin by {
            let back = spec_mirror_id(q as u32) as int;
            assert(seen.reach@[q] == sight.reach@[back]);
            assert(lo <= back < lo + NUM_PLAYERS);
            assert(!sight.near(back) && sight.reach@[p].margin <= sight.reach@[back].margin);
        }
    }
}

/// A taker that is fair in one view is fair in the other, within the mirrored group.
pub proof fn lemma_take_mirrors(sight: Sighting, seen: Sighting, lo: int, p: int)
    requires
        mirrors(sight, seen),
        lo == 0 || lo == NUM_PLAYERS,
        sight.may_take(lo, lo + NUM_PLAYERS, p),
    ensures
        seen.may_take(
            spec_mirror_id(lo as u32) as int,
            spec_mirror_id(lo as u32) + NUM_PLAYERS,
            spec_mirror_id(p as u32) as int,
        ),
{
    let there = spec_mirror_id(lo as u32) as int;
    let q0 = spec_mirror_id(p as u32) as int;
    assert(seen.reach@[q0] == sight.reach@[p]);
    if !seen.near(q0) {
        assert forall|q: int|
            there <= q < there + NUM_PLAYERS && (#[trigger] seen.reach@[q]).covers implies !seen.near(
            q,
        ) && seen.reach@[q0].margin <= seen.reach@[q].margin by {
            let back = spec_mirror_id(q as u32) as int;
            assert(seen.reach@[q] == sight.reach@[back]);
            assert(lo <= back < lo + NUM_PLAYERS);
            assert(sight.reach@[back].covers);
        }
    }
}

/// A taker among all players that is fair in one view is fair in the other.
pub proof fn lemma_take_anyone_mirrors(sight: Sighting, seen: Sighting, p: int)
    requires
        mirrors(sight, seen),
        sight.may_take(0, TOTAL_PLAYERS as int, p),
    ensures
        seen.may_take(0, TOTAL_PLAYERS as int, spec_mirror_id(p as u32) as int),
{
    let q0 = spec_mirror_id(p as u32) as int;
    assert(seen.reach@[q0] == sight.reach@[p]);
    if !seen.near(q0) {
        assert forall|q: int|
            0 <= q < TOTAL_PLAYERS && (#[trigger] seen.reach@[q]).covers implies !seen.near(q)
            && seen.reach@[q0].margin <= seen.reach@[q].margin by {
            let back = spec_mirror_id(q as u32) as int;
            assert(seen.reach@[q] == sight.reach@[back]);
            assert(sight.reach@[back].covers);
        }
    }
}

/// The players that cover the ball in a group are those of its two parts.
pub proof fn lemma_covering_splits(sight: Sighting, lo: int, mid: int, hi: int)
    requires
        lo <= mid <= hi,
    ensures
        sight.covering(lo, hi) == sight.covering(lo, mid) + sight.covering(mid, hi),
    decreases hi - mid,
{
    if mid < hi {
        lemma_covering_splits(sight, lo, mid, hi - 1);
    }
}

/// As many players of a team cover the ball in one view as in the other.
pub proof fn lemma_covering_mirrors(sight: Sighting, seen: Sighting, lo: int, n: int)
    requires
        mirrors(sight, seen),
        lo == 0 || lo == NUM_PLAYERS,
        0 <= n <= NUM_PLAYERS,
    ensures
        seen.covering(spec_mirror_id(lo as u32) as int, spec_mirror_id(lo as u32) + n)
            == sight.covering(lo, lo + n),
    decreases n,
{
    if n > 0 {
        lemma_covering_mirrors(sight, seen, lo, n - 1);
        let there = spec_mirror_id(lo as u32) as int;
        assert(seen.reach@[there + n - 1] == sight.reach@[spec_mirror_id((there + n - 1) as u32) as int]);
    }
}

/// The machine treats both teams alike: a team that is shown the mirrored state and the
/// mirrored sighting sees the machine do to it what it does to the other team in the
/// engine's view. Pressure, fair picks and steps all carry over.
pub proof fn lemma_machine_mirrors(
    state: BallPossessionState,
    pass: PassRequest,
    limit: u32,
    sight: Sighting,
    seen: Sighting,
    picks: Picks,
)
    requires
        state.wf(),
        picks.wf(),
        mirrors(sight, seen),
    ensures
        swept(state.spec_mirror(), seen) == swept(state, sight).spec_mirror(),
        next_step(state.spec_mirror(), pass, limit, seen, picks.spec_mirror()) == next_step(
            state,
            pass,
            limit,
            sight,
            picks,
        ).spec_mirror(),
        fair_picks(state, pass, limit, sight, picks) ==> fair_picks(
            state.spec_mirror(),
            pass,
            limit,
            seen,
            picks.spec_mirror(),
        ),
{
    lemma_covering_mirrors(sight, seen, 0, NUM_PLAYERS as int);
    lemma_covering_mirrors(sight, seen, NUM_PLAYERS as int, NUM_PLAYERS as int);
    lemma_covering_splits(sight, 0, NUM_PLAYERS as int, TOTAL_PLAYERS as int);
    lemma_covering_splits(seen, 0, NUM_PLAYERS as int, TOTAL_PLAYERS as int);
    match state {
        BallPossessionState::Possessed { team, capture_ticks, .. } => {
            let lo = team_start(team.other()) as int;
            if fair_picks(state, pass, limit, sight, picks) && pass == PassRequest::Absent
                && capture_ticks > limit {
                lemma_pick_mirrors(sight, seen, lo, picks.heir as int);
            }
        },
        BallPossessionState::Passing { team } => {
            if fair_picks(state, pass, limit, sight, picks) {
                match picks.opponent {
                    Some(taker) => {
                        lemma_take_mirrors(sight, seen, team_start(team.other()) as int, taker as int);
                    },
                    None => {},
                }
            }
        },
        BallPossessionState::Free => {
            if fair_picks(state, pass, limit, sight, picks) {
                match picks.anyone {
                    Some(taker) => {
                        lemma_take_anyone_mirrors(sight, seen, taker as int);
                    },
                    None => {},
                }
            }
        },
    }
}

} // verus!
