//! Core engine of a falling-block puzzle game.
//!
//! The library owns the game logic alone: the well of landed cells, the
//! tetromino shapes and their rotation, collision and landing rules, line
//! clearing and compaction, scoring and leveling, and the tick-driven session
//! state machine.  Rendering, audio and input devices stay outside; a host
//! loop feeds the session abstract commands and ticks and reads its fields
//! back to draw the scene.

use vstd::prelude::*;

pub mod board;
pub mod cell;
pub mod collision;
pub mod laws;
pub mod session;
pub mod shape;
pub mod viewport;

pub use board::clear_completed_rows;
pub use board::is_row_full;
pub use board::rows_complete;
pub use cell::color_of;
pub use cell::is_pivot_cell;
pub use collision::can_move_left;
pub use collision::can_move_piece;
pub use collision::can_move_right;
pub use collision::can_rotate_cw;
pub use collision::land_piece;
pub use collision::piece_will_land;
pub use collision::piece_will_lose;
pub use session::apply_command;
pub use session::on_piece_landed;
pub use session::step_piece;
pub use session::tick;
pub use session::Command;
pub use session::GameState;
pub use session::State;
pub use shape::find_pivot_offset;
pub use shape::piece_from_draw;
pub use shape::random_piece;
pub use shape::rotated_cw;
pub use viewport::clip;

verus! {

} // verus!
