use mm_engine::config::MatchLimits;
use mm_engine::driver::{action_source, match_goes_on, next_move, winner, ActionSource, DriverMove};
use mm_engine::possession::{
    possession_step, BallPossessionState, PassRequest, Reach, Sighting,
};
use mm_engine::state::{BallStagnationState, GameState, GoalSighting, TickEnd};
use mm_engine::team::{Team, TeamPair};

const LIMITS: MatchLimits =
    MatchLimits { max_ticks: 7200, endgame_ticks: 1000, capture_ticks: 50, stagnation_ticks: 150 };

const NO_GOAL: GoalSighting = GoalSighting { in_mouth: false, past_left: false, past_right: false };

fn state_at(tick: u32, a: u32, b: u32) -> GameState {
    GameState {
        tick,
        ball_possession: BallPossessionState::Free,
        ball_stagnation: BallStagnationState { ticks: 0 },
        score: TeamPair::new(a, b),
    }
}

#[test]
fn new_state_is_empty() {
    let state = GameState::new();
    assert_eq!(state.tick, 0);
    assert!(state.is_ball_free());
    assert_eq!(state.ball_owner(), None);
    assert_eq!(state.ball_stagnation.ticks, 0);
    assert_eq!((state.score.a, state.score.b), (0, 0));
}

#[test]
fn state_answers_for_its_ball() {
    let mut state = GameState::new();
    state.ball_possession =
        BallPossessionState::Possessed { owner: 6, team: Team::B, capture_ticks: 2 };
    assert!(!state.is_ball_free());
    assert_eq!(state.ball_owner(), Some(6));
    state.ball_possession = BallPossessionState::Passing { team: Team::B };
    assert!(!state.is_ball_free());
    assert_eq!(state.ball_owner(), None);
    assert!(state.player_team(3) == Some(Team::A));
    assert!(state.player_team(4) == Some(Team::B));
    assert!(state.player_team(8) == None);
}

#[test]
fn every_tick_is_counted() {
    let mut state = GameState::new();
    for n in 1..=10u32 {
        let end = state.finish_tick(NO_GOAL, false, &LIMITS);
        assert!(end == TickEnd::Play);
        assert!(!end.needs_reset());
        assert_eq!(state.tick, n);
    }
    state.reset_ball();
    assert_eq!(state.tick, 10);
}

#[test]
fn goal_on_the_right_counts_for_team_a() {
    let mut state = state_at(20, 1, 2);
    let end = state.finish_tick(
        GoalSighting { in_mouth: true, past_left: false, past_right: true },
        true,
        &LIMITS,
    );
    assert!(end == TickEnd::Goal { team: Team::A });
    assert!(end.needs_reset());
    assert_eq!((state.score.a, state.score.b), (2, 2));
    assert_eq!(state.tick, 21);
    assert_eq!(state.ball_stagnation.ticks, 0);
}

#[test]
fn goal_on_the_left_counts_for_team_b() {
    let mut state = state_at(20, 1, 2);
    let end = state.finish_tick(
        GoalSighting { in_mouth: true, past_left: true, past_right: true },
        false,
        &LIMITS,
    );
    assert!(end == TickEnd::Goal { team: Team::B });
    assert_eq!((state.score.a, state.score.b), (1, 3));
}

#[test]
fn no_goal_beside_the_mouth() {
    let mut state = state_at(20, 1, 2);
    let end = state.finish_tick(
        GoalSighting { in_mouth: false, past_left: true, past_right: true },
        false,
        &LIMITS,
    );
    assert!(end == TickEnd::Play);
    assert_eq!((state.score.a, state.score.b), (1, 2));
    assert_eq!(state.handle_scoring(GoalSighting { in_mouth: true, past_left: false, past_right: false }), None);
    assert_eq!((state.score.a, state.score.b), (1, 2));
}

#[test]
fn stagnation_counts_rest_and_starts_anew() {
    let mut state = state_at(500, 0, 0);
    assert!(!state.handle_ball_stagnation(true, 3));
    assert!(!state.handle_ball_stagnation(true, 3));
    assert_eq!(state.ball_stagnation.ticks, 2);
    assert!(!state.handle_ball_stagnation(false, 3));
    assert_eq!(state.ball_stagnation.ticks, 0);
    assert!(!state.handle_ball_stagnation(true, 3));
    assert!(!state.handle_ball_stagnation(true, 3));
    assert!(state.handle_ball_stagnation(true, 3));
    assert_eq!(state.ball_stagnation.ticks, 3);
}

#[test]
fn reset_frees_the_ball_and_keeps_the_counts() {
    let mut state = state_at(300, 2, 1);
    state.ball_possession =
        BallPossessionState::Possessed { owner: 1, team: Team::A, capture_ticks: 9 };
    state.ball_stagnation = BallStagnationState { ticks: 140 };
    state.reset_ball();
    assert!(state.is_ball_free());
    assert_eq!(state.ball_stagnation.ticks, 0);
    assert_eq!(state.tick, 300);
    assert_eq!((state.score.a, state.score.b), (2, 1));
}

#[test]
fn state_mirror_is_an_involution() {
    let mut state = state_at(300, 2, 1);
    state.ball_possession =
        BallPossessionState::Possessed { owner: 1, team: Team::A, capture_ticks: 9 };
    let seen = state.mirror();
    assert_eq!((seen.score.a, seen.score.b), (1, 2));
    assert!(
        seen.ball_possession
            == BallPossessionState::Possessed { owner: 5, team: Team::B, capture_ticks: 9 }
    );
    assert_eq!(seen.tick, 300);
    assert!(seen.mirror() == state);
}

#[test]
fn null_bots() {
    let mut state = GameState::new();
    let mut needs_reset = true;
    let mut resets = 0;
    let mut first_stagnation = None;
    let mut goals = 0;
    loop {
        match next_move(&state, needs_reset, &LIMITS) {
            DriverMove::Finish { winner } => {
                assert!(winner == None);
                break;
            }
            DriverMove::ResetThenTick => {
                state.reset_ball();
                resets += 1;
            }
            DriverMove::Tick => {}
        }
        let end = state.finish_tick(NO_GOAL, true, &LIMITS);
        needs_reset = end.needs_reset();
        if end == TickEnd::Stagnant && first_stagnation.is_none() {
            first_stagnation = Some(state.tick);
        }
        if let TickEnd::Goal { .. } = end {
            goals += 1;
        }
    }
    assert_eq!(first_stagnation, Some(150));
    assert_eq!(goals, 0);
    assert_eq!(state.tick, 8200);
    assert_eq!((state.score.a, state.score.b), (0, 0));
    assert_eq!(resets, 1 + 8199 / 150);
}

#[test]
fn fast_walk_in() {
    let far = Reach { margin: 1000, covers: false };
    let mut sight = Sighting { reach: [far; 8], tie: 10 };
    let mut state = GameState::new();
    let mut end = TickEnd::Play;
    for tick in 0..400u32 {
        sight.reach[1] =
            if tick >= 60 { Reach { margin: -5, covers: true } } else { Reach { margin: 500, covers: false } };
        loop {
            let out = possession_step(state.ball_possession, PassRequest::Absent, 50, &sight);
            state.ball_possession = out.state;
            if out.resolved {
                break;
            }
        }
        let in_goal = tick >= 300;
        end = state.finish_tick(
            GoalSighting { in_mouth: true, past_left: false, past_right: in_goal },
            false,
            &LIMITS,
        );
        if end.needs_reset() {
            break;
        }
        if tick >= 60 {
            assert_eq!(state.ball_owner(), Some(1));
        }
    }
    assert!(end == TickEnd::Goal { team: Team::A });
    assert_eq!((state.score.a, state.score.b), (1, 0));
    assert!(state.tick <= 400);
    assert!(winner(&state.score) == Some(Team::A));
}

#[test]
fn match_runs_through_regular_play() {
    assert!(match_goes_on(&state_at(0, 0, 0), &LIMITS));
    assert!(match_goes_on(&state_at(7199, 5, 0), &LIMITS));
    assert!(!match_goes_on(&state_at(7200, 5, 0), &LIMITS));
    assert!(match_goes_on(&state_at(7200, 5, 5), &LIMITS));
    assert!(match_goes_on(&state_at(8199, 5, 5), &LIMITS));
    assert!(!match_goes_on(&state_at(8200, 5, 5), &LIMITS));
    assert!(!match_goes_on(&state_at(8000, 5, 6), &LIMITS));
}

#[test]
fn match_limits_do_not_overflow() {
    let limits = MatchLimits {
        max_ticks: u32::MAX,
        endgame_ticks: u32::MAX,
        capture_ticks: 50,
        stagnation_ticks: 150,
    };
    assert!(match_goes_on(&state_at(u32::MAX, 1, 1), &limits));
    assert!(!match_goes_on(&state_at(u32::MAX, 1, 2), &limits));
}

#[test]
fn winner_is_the_higher_score() {
    assert!(winner(&TeamPair::new(2, 1)) == Some(Team::A));
    assert!(winner(&TeamPair::new(1, 2)) == Some(Team::B));
    assert!(winner(&TeamPair::new(3, 3)) == None);
}

#[test]
fn next_move_resets_before_it_ticks() {
    assert!(next_move(&state_at(10, 0, 0), true, &LIMITS) == DriverMove::ResetThenTick);
    assert!(next_move(&state_at(10, 0, 0), false, &LIMITS) == DriverMove::Tick);
    assert!(
        next_move(&state_at(7200, 1, 0), true, &LIMITS)
            == DriverMove::Finish { winner: Some(Team::A) }
    );
    assert!(next_move(&state_at(8200, 1, 1), false, &LIMITS) == DriverMove::Finish { winner: None });
}

#[test]
fn action_slots_come_from_both_bots() {
    assert!(action_source(0) == ActionSource { team: Team::A, index: 0, mirrored: false });
    assert!(action_source(3) == ActionSource { team: Team::A, index: 3, mirrored: false });
    assert!(action_source(4) == ActionSource { team: Team::B, index: 0, mirrored: true });
    assert!(action_source(7) == ActionSource { team: Team::B, index: 3, mirrored: true });
}

#[test]
fn owner_of_the_ball_is_told_apart() {
    let mut state = GameState::new();
    assert!(!state.owns_ball(0));
    state.ball_possession =
        BallPossessionState::Possessed { owner: 3, team: Team::A, capture_ticks: 0 };
    assert!(state.owns_ball(3));
    assert!(!state.owns_ball(2));
    state.ball_possession = BallPossessionState::Passing { team: Team::A };
    assert!(!state.owns_ball(3));
}

#[test]
fn closing_a_tick_treats_both_teams_alike() {
    let goal = GoalSighting { in_mouth: true, past_left: false, past_right: true };
    assert!(goal.mirror() == GoalSighting { in_mouth: true, past_left: true, past_right: false });
    let mut here = state_at(40, 2, 1);
    let mut there = here.mirror();
    let end_here = here.finish_tick(goal, false, &LIMITS);
    let end_there = there.finish_tick(goal.mirror(), false, &LIMITS);
    assert!(end_here == TickEnd::Goal { team: Team::A });
    assert!(end_there == TickEnd::Goal { team: Team::B });
    assert!(there == here.mirror());
}

#[test]
fn scores_count_the_goals_only() {
    let mut state = GameState::new();
    let mut goals = 0;
    for n in 0..1000u32 {
        let goal = GoalSighting { in_mouth: n % 7 == 0, past_left: n % 3 == 0, past_right: n % 5 == 0 };
        let end = state.finish_tick(goal, n % 2 == 0, &LIMITS);
        if let TickEnd::Goal { .. } = end {
            goals += 1;
        }
        if end.needs_reset() {
            state.reset_ball();
        }
        assert_eq!(state.score.a + state.score.b, goals);
        assert_eq!(state.tick, n + 1);
    }
    assert!(goals > 0);
}
