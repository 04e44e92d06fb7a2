//! Core rules of a grid-based puzzle game in which many small rooms are
//! arranged in a meta-grid. A single primary-controlled avatar moves through
//! its room; whenever it moves, the occupant of every neighboring room
//! attempts the identical move, and rooms can be dragged to swap their
//! positions within the meta-grid.
//!
//! This crate holds the decision logic only: which moves are permitted, how
//! positions and queues change, when goals are satisfied and the stage
//! advances, and which boundary arrows are visible. Rendering, asset loading
//! and input devices are collaborators that sit outside the crate and talk to
//! it through plain values.

use vstd::prelude::*;

pub mod boundary;
pub mod drag;
pub mod level;
pub mod player;
pub mod puzzle;
pub mod util;

verus! {

/// Side length of one square tile, in pixels.
pub const GRID_SIZE: i32 = 32;

/// Width of the game window, in pixels.
pub const WIDTH: i32 = 960;

/// Height of the game window, in pixels.
pub const HEIGHT: i32 = 720;

/// Stage loaded when the game begins.
pub const STARTING_LEVEL: i32 = 0;

} // verus!
