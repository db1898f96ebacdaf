//! Verified core of a harness that plays a soccer match between two bot processes.
//!
//! The crate holds the rules that are decided on counts and states: the ball possession
//! machine, the close of a tick with scoring and stagnation, the schedule of collision
//! rounds, the protocol on the shared region between the engine and a bot, the compute
//! budget of a bot, the baseline tick, the moves of the match driver, and the routing of
//! output. Positions and velocities are kept and measured by the program around it, which
//! hands over what it has measured: which players cover the ball and how close they are,
//! whether the ball stands in a goal, whether it rests.

pub mod args;
pub mod baseline;
pub mod budget;
mod chance;
pub mod collision;
pub mod config;
pub mod driver;
pub mod ipc;
pub mod log;
pub mod output;
pub mod possession;
pub mod state;
pub mod team;
