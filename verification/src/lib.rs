//! Chessboard model and pseudo-legal move generation, verified with Verus.

pub mod board;
pub mod game;
pub mod move_laws;
pub mod pieces;
pub mod render;
