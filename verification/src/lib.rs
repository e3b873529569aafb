//! In-process runtime for a real-time tile-based simulation.
//!
//! The library owns the data and the clock of the simulation: a table of
//! entities with one column of optional component values per component kind
//! ([`ecs::World`]), a singleton-per-kind resource registry on the same
//! store, runtime-checked shared/exclusive guards over both, and a
//! fixed-timestep scheduler driving registered systems at two cadences
//! ([`systems::SystemContainer`]).  Around that core sit the simulation's
//! own data types and the pixel-exact drawing routines.
//!
//! Windowing, input events, asset decoding and the gameplay systems are the
//! host's business; they drive this library through plain values.

pub mod components;
pub mod draw;
pub mod ecs;
pub mod fps_counter;
pub mod input;
pub mod ivec2;
pub mod movement_util;
pub mod resource;
pub mod spritesheet;
pub mod systems;
pub mod tile;

use vstd::prelude::*;

verus! {

/// Logical width of the output frame in pixels.
pub const SCREEN_WIDTH: u32 = 160;

/// Logical height of the output frame in pixels.
pub const SCREEN_HEIGHT: u32 = 144;

/// Side length of one square tile in pixels.
pub const TILE_SIZE: u32 = 16;

/// Ratio between the window surface and the logical frame.
pub const SCALE_FACTOR: u32 = 4;

} // verus!
