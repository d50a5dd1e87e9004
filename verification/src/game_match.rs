//! Matches between two users: who is in a match, where it stands, and the
//! services that create, join, leave and start matches and play their moves.

pub mod clock;
pub mod model;
pub mod repository;

pub mod services;
