use vstd::prelude::*;

use crate::game::state::GameState;
use crate::layout::grid::Grid;

verus! {

/// What one player sees of a game.
#[derive(Clone, Debug)]
pub struct GameView {
    pub revision: u64,
    pub state: GameState,
    pub givens: Grid,
    pub current: Grid,
    pub mistakes_left: u8,
    /// Milliseconds left on the player's clock.
    pub remaining_time: u64,
    pub opponent_progress: Option<OpponentProgress>,
}

/// What a player sees of the opponent.
#[derive(Clone, Copy, Debug)]
pub struct OpponentProgress {
    pub filled: u8,
    pub mistakes_left: u8,
    /// Milliseconds left on the opponent's clock.
    pub remaining_time: u64,
}

} // verus!
