//! Bitboard chess rules and fixed-depth search: legal move generation, move
//! application and plain minimax over positions held as twelve 64-bit piece sets.

pub mod bitboard;
pub mod board;
pub mod castling;
pub mod evaluation;
pub mod fen;
pub mod fenstring;
pub mod chessmove;
pub mod display;
pub mod interface;
pub mod movegen;
pub mod movemasks;
pub mod perft;
pub mod piece;
pub mod position;
pub mod random;
pub mod search;
pub mod simple;
pub mod text;
