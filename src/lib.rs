//! Rules of a falling-block puzzle game: piece shapes and turns with wall
//! kicks, the board and its collision test, gravity and lock delay, the
//! clearing of full rows, the score and level, and the bag randomiser.

use vstd::prelude::*;

pub mod geometry;
pub mod grid;
pub mod timer;
pub mod progress;
pub mod generator;
pub mod game;

verus! {

/// Columns of the board.
pub const GRID_WIDTH: u8 = 10;

/// Rows of the board, the two spawn rows above the visible field included.
pub const GRID_HEIGHT: u8 = 22;

/// Rows of the visible field.
pub const GRID_VISIBLE_HEIGHT: u8 = 20;

} // verus!
