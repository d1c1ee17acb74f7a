pub mod board;
pub mod game;
pub mod moves;
pub mod pieces;
