//! Rules engine of a falling-block puzzle game: the grid, the active piece,
//! collision, rotation, locking, line clearing, scoring and the piece supply.

pub mod block;
pub mod rect;
pub mod piece;
pub mod grid;
pub mod supply;
pub mod game_handler;
pub mod laws;
