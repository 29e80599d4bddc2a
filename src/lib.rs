//! Position and move core of a chess engine: square mapping, piece tables, bitboards,
//! position fingerprints, attack detection, pseudo-legal move generation, make/undo with
//! incremental bookkeeping, a position reader and an invariant checker, with their contracts
//! proved.

pub mod attack;
pub mod audit;
pub mod bitboard;
pub mod board;
pub mod counting;
pub mod fen;
pub mod gamemove;
pub mod hashkeys;
pub mod lists;
pub mod movegen;
pub mod notation;
pub mod pieces;
pub mod position;
pub mod search;
pub mod squares;

