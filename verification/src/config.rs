//! Constants of the game and the integer part of its configuration.

use vstd::prelude::*;

verus! {

/// Players on each team.
pub const NUM_PLAYERS: u32 = 4;

/// Players on the field.
pub const TOTAL_PLAYERS: u32 = 8;

/// Rounds of collision resolution after which a pile-up is left as it is.
pub const COLLISION_MAX_ITERATIONS: u32 = 100;

/// Size of the field.
#[derive(Clone, Copy, Debug, PartialEq, Eq, Structural)]
pub struct FieldConfig {
    pub width: u32,
    pub height: u32,
}

/// Geometry of a goal and of the penalty box in front of it.
#[derive(Clone, Copy, Debug, PartialEq, Eq, Structural)]
pub struct GoalConfig {
    pub normal_height: u32,
    pub thickness: u32,
    pub penalty_box_width: u32,
    pub penalty_box_height: u32,
    pub penalty_box_radius: u32,
}

/// The tick counts that bound a match and time the ball.
#[derive(Clone, Copy, Debug, PartialEq, Eq, Structural)]
pub struct MatchLimits {
    /// Ticks of regular play.
    pub max_ticks: u32,
    /// Further ticks that are played while the score is level.
    pub endgame_ticks: u32,
    /// Capture count above which the ball changes owner.
    pub capture_ticks: u32,
    /// Ticks that the ball may rest in one place before the field is reset.
    pub stagnation_ticks: u32,
}

} // verus!
