//! The shapes of requests and responses.

pub mod game;
pub mod matches;
