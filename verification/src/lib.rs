//! Core logic of a falling-block puzzle game on a fixed 10 x 20 board:
//! the seven-piece catalogue with its rotation model, collision detection,
//! the game state machine (move / rotate / drop / lock / clear / reset),
//! scoring, command dispatch, and deterministic rendering of the state
//! into a bounded byte buffer.

pub mod game;
pub mod piece;
pub mod render;
