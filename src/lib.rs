//! Game-state engine of a falling-block puzzle: shape table, grid,
//! active piece and the per-frame state machine.

pub mod shapes;
pub mod piece;
pub mod board;
pub mod game;
