pub mod board;
pub mod game;
pub mod movegen;
pub mod piece;
pub mod utils;
