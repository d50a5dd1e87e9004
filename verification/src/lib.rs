//! Sudoku Royale: the board layout, the solving techniques and the
//! two-player game rules of a competitive Sudoku server.

pub mod layout;
pub mod game;
pub mod solve;
pub mod generation;
pub mod user;
pub mod game_match;
pub mod match_state;
pub mod api;
pub mod io;
