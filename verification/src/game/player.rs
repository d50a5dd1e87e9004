use vstd::prelude::*;

use crate::game::puzzle::Puzzle;
use crate::game::time::TimeControl;
use crate::layout::grid::Grid;

verus! {

/// A player loses on this many wrong digits.
pub const MAX_MISTAKES: u8 = 3;

#[derive(Clone, Copy, Debug, PartialEq, Eq, Structural, Hash)]
pub enum PlayerId {
    PlayerA,
    PlayerB,
}

/// The other player.
pub open spec fn other_player(p: PlayerId) -> PlayerId {
    match p {
        PlayerId::PlayerA => PlayerId::PlayerB,
        PlayerId::PlayerB => PlayerId::PlayerA,
    }
}

impl PlayerId {
    /// The other player.
    pub fn opponent(self) -> (r: PlayerId)
        ensures
            r == other_player(self),
    {
        match self {
            PlayerId::PlayerA => PlayerId::PlayerB,
            PlayerId::PlayerB => PlayerId::PlayerA,
        }
    }
}

/// One player's side of a game: mistakes made, clock and grid.
#[derive(Clone, Debug)]
pub struct PlayerState {
    pub mistakes: u8,
    pub time: TimeControl,
    pub current: Grid,
}

impl PlayerState {
    /// A player with no mistakes, an unstarted clock of `time_limit`
    /// milliseconds and the puzzle's givens as grid.
    pub fn new(puzzle: &Puzzle, time_limit: u64) -> (r: Self)
        ensures
            r.mistakes == 0,
            r.time.limit == time_limit,
            r.time.started_at is None,
            r.current@ == puzzle.givens_spec(),
    {
        PlayerState { mistakes: 0, time: TimeControl::new(time_limit), current: puzzle.givens().copy() }
    }

    /// Counts one mistake, never beyond the maximum, and tells whether the
    /// maximum is reached.
    pub fn register_mistake(&mut self) -> (lost: bool)
        ensures
            final(self).mistakes == if old(self).mistakes < MAX_MISTAKES {
                (old(self).mistakes + 1) as u8
            } else {
                old(self).mistakes
            },
            final(self).time == old(self).time,
            final(self).current == old(self).current,
            lost == (final(self).mistakes >= MAX_MISTAKES),
    {
        if self.mistakes < MAX_MISTAKES {
            self.mistakes = self.mistakes + 1;
        }
        self.mistakes >= MAX_MISTAKES
    }

    /// How many more mistakes the player may make.
    pub fn mistakes_left(&self) -> (r: u8)
        requires
            self.mistakes <= MAX_MISTAKES,
        ensures
            r == MAX_MISTAKES - self.mistakes,
    {
        MAX_MISTAKES - self.mistakes
    }
}

} // verus!
