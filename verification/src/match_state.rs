use vstd::prelude::*;

use crate::game::game::Game;
use crate::game::player::PlayerId;
use crate::game::puzzle::Puzzle;
use crate::game::state::GameState;
use crate::game_match::clock::now_millis;
use crate::game_match::model::{GameMatch, MatchStatus};

verus! {

/// A match together with its game, once started, and the time of its last
/// activity.
#[derive(Clone, Debug)]
pub struct GameSession {
    pub meta: GameMatch,
    pub game: Option<Game>,
    pub last_activity_at: u64,
}

/// The player that a user is in a match: the first user plays A, the
/// second B.
pub open spec fn player_of(meta: GameMatch, user_id: u128) -> Option<PlayerId> {
    if meta.player1_id == user_id {
        Some(PlayerId::PlayerA)
    } else if meta.player2_id == Some(user_id) {
        Some(PlayerId::PlayerB)
    } else {
        None
    }
}

/// A match can be started: it is ready and has a second player.
pub open spec fn can_start(meta: GameMatch) -> bool {
    meta.status == MatchStatus::Ready && meta.player2_id is Some
}

/// `after` is `before` with a game of the puzzle started at `now`, each
/// player with `time_limit` milliseconds, and the match in progress.
pub open spec fn started(before: GameSession, after: GameSession, puzzle: Puzzle, time_limit: u64, now: u64) -> bool {
    &&& after.meta == (GameMatch { status: MatchStatus::InProgress, started_at: after.meta.started_at, ..before.meta })
    &&& after.meta.started_at is Some
    &&& after.game matches Some(g) && {
        &&& g.puzzle_spec() == puzzle
        &&& g.state_spec() == GameState::InProgress
        &&& g.start_at_spec() == Some(now)
        &&& g.revision_spec() == 1
        &&& forall|p: PlayerId|
            {
                &&& #[trigger] g.player_spec(p).mistakes == 0
                &&& g.player_spec(p).current@ == puzzle.givens_spec()
                &&& g.player_spec(p).time.limit == time_limit
                &&& g.player_spec(p).time.started_at == Some(now)
            }
    }
}

impl GameSession {
    /// The game, if there is one, keeps the rules of a game.
    pub open spec fn wf(&self) -> bool {
        self.game matches Some(g) ==> g.wf()
    }

    /// A session for a new match of `player1_id`, without a game.
    pub fn new(player1_id: u128) -> (r: Self)
        ensures
            r.wf(),
            r.meta.player1_id == player1_id,
            r.meta.player2_id is None,
            r.meta.status == MatchStatus::Waiting,
            r.meta.started_at is None,
            r.game is None,
    {
        Self::from_match(GameMatch::new(player1_id))
    }

    /// A session for the match, without a game, active now.
    pub fn from_match(meta: GameMatch) -> (r: Self)
        ensures
            r.wf(),
            r.meta == meta,
            r.game is None,
    {
        GameSession { meta, game: None, last_activity_at: now_millis() }
    }

    /// The player that the user is in this match, if any.
    pub fn player_for_user(&self, user_id: u128) -> (r: Option<PlayerId>)
        ensures
            r == player_of(self.meta, user_id),
    {
        if self.meta.player1_id == user_id {
            return Some(PlayerId::PlayerA);
        }
        if self.meta.player2_id == Some(user_id) {
            return Some(PlayerId::PlayerB);
        }
        None
    }

    /// Records activity now.
    pub fn touch(&mut self)
        ensures
            final(self).meta == old(self).meta,
            final(self).game == old(self).game,
    {
        self.last_activity_at = now_millis();
    }

    /// Starts a game of the puzzle at `now` on the game clock, each player
    /// with `time_limit` milliseconds, when the match is ready and has a
    /// second player; the match goes in progress, and its start and last
    /// activity are stamped with the wall clock. Otherwise nothing changes.
    pub fn start_game(&mut self, puzzle: Puzzle, time_limit: u64, now: u64) -> (r: bool)
        ensures
            r == can_start(old(self).meta),
            old(self).wf() ==> final(self).wf(),
            r ==> started(*old(self), *final(self), puzzle, time_limit, now),
            !r ==> *final(self) == *old(self),
    {
        if self.meta.status != MatchStatus::Ready {
            return false;
        }
        if self.meta.player2_id.is_none() {
            return false;
        }
        let mut game = Game::new(puzzle, time_limit);
        game.start(now);
        self.game = Some(game);
        self.meta.status = MatchStatus::InProgress;
        self.meta.started_at = Some(now_millis());
        self.touch();
        true
    }
}

} // verus!
