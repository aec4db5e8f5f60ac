//! A two-player tic-tac-toe engine on a 3x3 board: the board model, turn
//! validation, win and tie detection, and a text rendering of the board.

pub mod board;
pub mod game;
pub mod render;
