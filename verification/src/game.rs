//! The rules of a two-player game on one puzzle: moves, mistakes,
//! revisions, winning and losing.

pub mod time;
pub mod puzzle;
pub mod player;
pub mod state;
pub mod outcome;
pub mod player_move;
pub mod view;
pub mod game;

pub use game::Game;
pub use outcome::{AppliedMove, MoveOutcome, PenaltyReason, RejectReason};
pub use player::{PlayerId, PlayerState, MAX_MISTAKES};
pub use player_move::Move;
pub use puzzle::Puzzle;
pub use state::{GameState, LoseReason};
pub use time::TimeControl;
pub use view::{GameView, OpponentProgress};
