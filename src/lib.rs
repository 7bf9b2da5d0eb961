//! A chess move-generation core on bitboards, with incremental Zobrist hashing.
//!
//! The library is organised leaves first: chess values ([`model`]), bit
//! kernels ([`binary`]), attack provision ([`vision`]), castling data
//! ([`castling`]), hashing ([`hash`]), board layouts ([`board`]), the
//! make/unmake engine ([`moving`]), move generation ([`movegen`]), the
//! node counter ([`perft`]) and square-by-square setup ([`setup`]).

pub mod model;
pub mod binary;
pub mod castling;
pub mod hash;
pub mod board;
pub mod moving;
pub mod vision;
pub mod movegen;
pub mod perft;
pub mod setup;
