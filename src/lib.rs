//! A chess position and rules engine: bitboards, attack tables, legal move generation and
//! reversible make/unmake of moves.

pub mod bitboard;
pub mod moves;
pub mod mailbox;
pub mod hist_state;
pub mod board;
pub mod fen;
pub mod magical;
pub mod normal;
pub mod tables;
pub mod generator;
