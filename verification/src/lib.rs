//! Game logic of a hexagonal Reversi: the board, the capture rule, move
//! scoring for the computer player, the turn and pass rules, and the text
//! that the interface shows about them.

pub mod player;
pub mod board;
pub mod rules;
pub mod random;
pub mod scoring;
pub mod text;
pub mod game;
pub mod presentation;
pub mod session;
pub mod laws;
