//! A bitboard chess engine: board representation, move generation, evaluation and search.
pub mod colors;
pub mod squares;
pub mod text;
pub mod pieces;
pub mod bitboard;
pub mod sliding;
pub mod movements;
pub mod moves;
pub mod castling;
pub mod zobrist;
pub mod board;
pub mod attacks;
pub mod update;
pub mod move_gen;
pub mod eval;
pub mod perft;
pub mod fen;
pub mod notation;
pub mod game;
pub mod search;
pub mod laws;
