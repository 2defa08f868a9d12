//! Playfield engine of a falling-block puzzle game: rotatable block shapes,
//! a fixed-size grid with one active block, collision-checked moves, and a
//! command handler that applies moves one at a time.

pub mod block;
pub mod board;
pub mod game;
pub mod manager;
