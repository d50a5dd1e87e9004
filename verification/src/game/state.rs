use vstd::prelude::*;

use crate::game::player::PlayerId;

verus! {

/// Where a game stands.
#[derive(Clone, Copy, Debug, PartialEq, Eq, Structural)]
pub enum GameState {
    Waiting,
    InProgress,
    Won { player: PlayerId },
    Lost { loser: PlayerId, winner: PlayerId, reason: LoseReason },
}

#[derive(Clone, Copy, Debug, PartialEq, Eq, Structural)]
pub enum LoseReason {
    TooManyMistakes,
    TimeExpired,
    OpponentSolved,
}

} // verus!
