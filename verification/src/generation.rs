//! Making puzzles: complete solutions filled at random, and the givens
//! kept of them.

pub mod generator;
pub mod finder;
