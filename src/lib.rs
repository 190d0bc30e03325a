pub mod bits;
pub mod piece;
pub mod board;
pub mod apply;
pub mod movegen;
pub mod attack;
pub mod laws;
pub mod fen;
pub mod bitboards;
