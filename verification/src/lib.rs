//! Core model of a falling-block puzzle game: tetromino pieces on a 3x3
//! local mask, a settled board grid, full-row detection and row clearing.
//!
//! Rendering, input polling and frame timing are left to a thin driver
//! around this crate; everything here is plain data and verified logic.

pub mod board;
pub mod game;
pub mod piece;
