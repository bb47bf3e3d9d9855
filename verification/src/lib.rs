//! Core of a two-dimensional chess-style board game.
//!
//! The crate tracks piece placement on an 8x8 grid, computes the
//! pseudo-legal destination tiles of a selected piece, and applies moves
//! (including captures) while keeping the board, the pieces and the
//! click-driven selection state consistent.  Rules beyond movement
//! geometry (check, turn order, castling, promotion) are out of scope.

pub mod board;
pub mod moves;
pub mod piece;
pub mod state;
