//! Turn-based selection and move resolution for a chessboard.
//!
//! The library holds the board's squares, the live pieces, the two selection
//! slots and the side to move, and runs one click through an ordered pipeline:
//! square selection, piece selection, move resolution, capture removal and
//! selection reset. Whether a move is allowed by the piece's movement rules is
//! decided outside and handed in as a verdict.

pub mod board;
pub mod laws;
pub mod movement;
pub mod pieces;
pub mod ui;
