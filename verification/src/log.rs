//! The lines that the engine writes to the game log besides the serialized states.

use vstd::prelude::*;
use vstd::string::*;
use crate::state::TickEnd;
use crate::team::Team;

verus! {

/// The letter that names a team in the log.
pub open spec fn team_letter(team: Team) -> Seq<char> {
    match team {
        Team::A => "A"@,
        Team::B => "B"@,
    }
}

/// The line that tells how a match ended.
pub open spec fn winner_text(winner: Option<Team>) -> Seq<char> {
    match winner {
        Some(Team::A) => "# Winner: Bot A"@,
        Some(Team::B) => "# Winner: Bot B"@,
        None => "# TIE"@,
    }
}

/// The line that tells why the field is reset, if it is.
pub open spec fn tick_text(end: TickEnd) -> Option<Seq<char>> {
    match end {
        TickEnd::Play => None,
        TickEnd::Goal { team: Team::A } => Some("# Bot A scored"@),
        TickEnd::Goal { team: Team::B } => Some("# Bot B scored"@),
        TickEnd::Stagnant => Some("# Ball stayed stagnant for too long! Resetting field..."@),
    }
}

/// The letter that names a team in the log.
pub fn team_name(team: Team) -> (r: &'static str)
    ensures
        r@ == team_letter(team),
{
    match team {
        Team::A => "A",
        Team::B => "B",
    }
}

/// The line that tells how a match ended.
pub fn winner_line(winner: Option<Team>) -> (r: &'static str)
    ensures
        r@ == winner_text(winner),
{
    match winner {
        Some(Team::A) => "# Winner: Bot A",
        Some(Team::B) => "# Winner: Bot B",
        None => "# TIE",
    }
}

/// The line that tells why the field is reset, if it is.
pub fn tick_line(end: TickEnd) -> (r: Option<&'static str>)
    ensures
        match r {
            Some(line) => tick_text(end) == Some(line@),
            None => tick_text(end).is_none(),
        },
{
    match end {
        TickEnd::Play => None,
        TickEnd::Goal { team: Team::A } => Some("# Bot A scored"),
        TickEnd::Goal { team: Team::B } => Some("# Bot B scored"),
        TickEnd::Stagnant => Some("# Ball stayed stagnant for too long! Resetting field..."),
    }
}

/// A line that a bot wrote, tagged with the bot's name; lines from its error stream are
/// marked.
pub fn bot_line(name: &str, line: &str, error_stream: bool) -> (r: String)
    ensures
        r@ == "#["@ + name@ + (if error_stream {
            "] ERR: "@
        } else {
            "]: "@
        }) + line@,
{
    let mut r = String::from_str("#[");
    r.append(name);
    if error_stream {
        r.append("] ERR: ");
    } else {
        r.append("]: ");
    }
    r.append(line);
    r
}

/// The line for a bot that failed its handshake, with the reason.
pub fn handshake_failure_line(name: &str, reason: &str) -> (r: String)
    ensures
        r@ == "### FATAL ERROR: bot "@ + name@ + " failed handshake: "@ + reason@,
{
    let mut r = String::from_str("### FATAL ERROR: bot ");
    r.append(name);
    r.append(" failed handshake: ");
    r.append(reason);
    r
}

/// The line for a request that failed: `what` is `resetting` or `on tick`.
pub fn request_failure_line(name: &str, what: &str, reason: &str) -> (r: String)
    ensures
        r@ == "### [bot "@ + name@ + "] error "@ + what@ + ": "@ + reason@,
{
    let mut r = String::from_str("### [bot ");
    r.append(name);
    r.append("] error ");
    r.append(what);
    r.append(": ");
    r.append(reason);
    r
}

} // verus!
