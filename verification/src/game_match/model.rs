use vstd::prelude::*;

use crate::game_match::clock::{new_uuid, now_millis};

verus! {

/// Where a match stands.
#[derive(Clone, Copy, Debug, PartialEq, Eq, Structural)]
pub enum MatchStatus {
    /// Created, waiting for a second player.
    Waiting,
    /// Two players are in; the first may start.
    Ready,
    /// The game is being played.
    InProgress,
    /// The game is over.
    Finished,
}

/// Who is in a match and where it stands. Users and matches are known by
/// their 128-bit identifiers; times are milliseconds since the Unix epoch.
#[derive(Clone, Copy, Debug, PartialEq, Eq, Structural)]
pub struct GameMatch {
    pub id: u128,
    pub player1_id: u128,
    pub player2_id: Option<u128>,
    pub status: MatchStatus,
    pub created_at: u64,
    pub started_at: Option<u64>,
}

impl GameMatch {
    /// A new match with a fresh identifier, created now by `player1_id` and
    /// waiting for a second player.
    pub fn new(player1_id: u128) -> (r: Self)
        ensures
            r.player1_id == player1_id,
            r.player2_id is None,
            r.status == MatchStatus::Waiting,
            r.started_at is None,
    {
        let id = new_uuid();
        let now = now_millis();
        Self::with_id(id, player1_id, now)
    }

    /// The match `id`, created at `created_at` by `player1_id` and waiting
    /// for a second player.
    pub fn with_id(id: u128, player1_id: u128, created_at: u64) -> (r: Self)
        ensures
            r == (GameMatch {
                id,
                player1_id,
                player2_id: None,
                status: MatchStatus::Waiting,
                created_at,
                started_at: None,
            }),
    {
        GameMatch {
            id,
            player1_id,
            player2_id: None,
            status: MatchStatus::Waiting,
            created_at,
            started_at: None,
        }
    }
}

/// The name of a status, as the match information gives it.
pub open spec fn status_text(s: MatchStatus) -> Seq<char> {
    match s {
        MatchStatus::Waiting => "Waiting"@,
        MatchStatus::Ready => "Ready"@,
        MatchStatus::InProgress => "InProgress"@,
        MatchStatus::Finished => "Finished"@,
    }
}

impl MatchStatus {
    /// The name of the status.
    pub fn label(self) -> (r: &'static str)
        ensures
            r@ == status_text(self),
    {
        match self {
            MatchStatus::Waiting => "Waiting",
            MatchStatus::Ready => "Ready",
            MatchStatus::InProgress => "InProgress",
            MatchStatus::Finished => "Finished",
        }
    }
}

} // verus!
