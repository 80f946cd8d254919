pub mod attacks;
pub mod board;
pub mod fen;
pub mod moves;
pub mod types;
pub mod zobrist;
