use vstd::prelude::*;

verus! {

/// A player as the client names it.
#[derive(Clone, Copy, Debug, PartialEq, Eq, Structural)]
pub enum PlayerIdDto {
    PlayerA,
    PlayerB,
}

/// A move as the client sends it: a cell index and a digit.
#[derive(Clone, Copy, Debug, PartialEq, Eq, Structural)]
pub enum MoveDto {
    Place { cell: u8, value: u8 },
    Clear { cell: u8 },
}

/// A move request: who moves, the revision the player saw, an identifier
/// of the request, and the move.
#[derive(Clone, Debug)]
pub struct ApplyMoveRequest {
    pub player_id: PlayerIdDto,
    pub expected_revision: u64,
    pub move_id: String,
    pub mv: MoveDto,
}

/// The answer to a move request.
#[derive(Clone, Debug)]
pub struct ApplyMoveResponse {
    pub outcome: MoveOutcomeDto,
    pub view: Option<GameViewDto>,
    pub replay: bool,
}

/// The outcome of a move as the client reads it.
#[derive(Clone, Copy, Debug, PartialEq, Eq, Structural)]
pub enum MoveOutcomeDto {
    Applied { revision: u64, applied: AppliedMoveDto },
    Rejected { reason: RejectReasonDto, revision: u64 },
    Penalty { reason: PenaltyReasonDto, mistakes_left: u8, revision: u64 },
    Won { revision: u64 },
    Lost { revision: u64, reason: LoseReasonDto },
}

#[derive(Clone, Copy, Debug, PartialEq, Eq, Structural)]
pub enum AppliedMoveDto {
    Placed,
    Cleared,
}

#[derive(Clone, Copy, Debug, PartialEq, Eq, Structural)]
pub enum RejectReasonDto {
    NotInProgress,
    UnknownPlayer,
    RevisionMismatch { expected: u64, actual: u64 },
    GivenCell,
    InvalidValue,
}

#[derive(Clone, Copy, Debug, PartialEq, Eq, Structural)]
pub enum PenaltyReasonDto {
    WrongValue,
}

#[derive(Clone, Copy, Debug, PartialEq, Eq, Structural)]
pub enum LoseReasonDto {
    Timeout,
    TooManyMistakes,
    OpponentWon,
}

/// What a player sees of a game, as the client reads it: the grids as 81
/// numbers each (0 for an empty cell), times in milliseconds.
#[derive(Clone, Debug)]
pub struct GameViewDto {
    pub revision: u64,
    pub state: String,
    pub givens: Vec<u8>,
    pub current: Vec<u8>,
    pub mistakes_left: u8,
    pub remaining_ms: u64,
    pub opponent_progress: Option<OpponentProgressDto>,
}

/// What a player sees of the opponent.
#[derive(Clone, Copy, Debug, PartialEq, Eq, Structural)]
pub struct OpponentProgressDto {
    pub filled: u8,
    pub mistakes_left: u8,
    pub remaining_ms: u64,
}

} // verus!
