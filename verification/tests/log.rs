use mm_engine::log::{
    bot_line, handshake_failure_line, request_failure_line, team_name, tick_line, winner_line,
};
use mm_engine::state::TickEnd;
use mm_engine::team::Team;

#[test]
fn winner_lines() {
    assert_eq!(winner_line(Some(Team::A)), "# Winner: Bot A");
    assert_eq!(winner_line(Some(Team::B)), "# Winner: Bot B");
    assert_eq!(winner_line(None), "# TIE");
}

#[test]
fn tick_lines() {
    assert_eq!(tick_line(TickEnd::Play), None);
    assert_eq!(tick_line(TickEnd::Goal { team: Team::A }), Some("# Bot A scored"));
    assert_eq!(tick_line(TickEnd::Goal { team: Team::B }), Some("# Bot B scored"));
    assert_eq!(
        tick_line(TickEnd::Stagnant),
        Some("# Ball stayed stagnant for too long! Resetting field...")
    );
}

#[test]
fn bot_lines_carry_the_name() {
    assert_eq!(team_name(Team::A), "A");
    assert_eq!(team_name(Team::B), "B");
    assert_eq!(bot_line("A", "hello", false), "#[A]: hello");
    assert_eq!(bot_line("B", "oops", true), "#[B] ERR: oops");
    assert_eq!(bot_line("", "", false), "#[]: ");
}

#[test]
fn failure_lines() {
    assert_eq!(
        handshake_failure_line("A", "expected 7, got 0"),
        "### FATAL ERROR: bot A failed handshake: expected 7, got 0"
    );
    assert_eq!(
        request_failure_line("B", "on tick", "response timed out"),
        "### [bot B] error on tick: response timed out"
    );
    assert_eq!(
        request_failure_line("A", "resetting", "malformed response"),
        "### [bot A] error resetting: malformed response"
    );
}
