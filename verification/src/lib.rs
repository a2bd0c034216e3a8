pub mod bitboard;
pub mod exchange;
pub mod generator;
pub mod laws;
pub mod move_;
pub mod move_order;
pub mod moveboard;
pub mod outcome;
pub mod piece;
pub mod position;
pub mod rules;
pub mod square;
pub mod text;
