//! The data that the server's routes exchange with clients, and the
//! translation between it and the game's own types.

pub mod dto;
pub mod convert;
