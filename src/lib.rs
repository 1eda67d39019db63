//! A small entity-component engine for a fixed-timestep 2D loop: entities
//! carry positions, velocities, sprites and tags; a movement pass integrates
//! velocities with per-axis screen clamping and a draw pass rasterizes sprites
//! into a flat pixel buffer.
use vstd::prelude::*;

pub mod ecs;
pub mod frame;
pub mod player;
pub mod store;

verus! {

/// Screen width in pixels.
pub const WIDTH: usize = 1920;

/// Screen height in pixels.
pub const HEIGHT: usize = 1080;

/// Player speed in pixels per tick.
pub const PLAYER_SPEED: i32 = 12;

/// Player speed in pixels per tick while boosting.
pub const PLAYER_BOOST_SPEED: i32 = 24;

} // verus!
