use vstd::prelude::*;

use crate::game::state::LoseReason;

verus! {

/// Why a move was not applied.
#[derive(Clone, Copy, Debug, PartialEq, Eq, Structural)]
pub enum RejectReason {
    NotInProgress,
    UnknownPlayer,
    RevisionMismatch { expected: u64, actual: u64 },
    GivenCell,
    InvalidValue,
}

#[derive(Clone, Copy, Debug, PartialEq, Eq, Structural)]
pub enum PenaltyReason {
    WrongValue,
}

/// What an applied move did.
#[derive(Clone, Copy, Debug, PartialEq, Eq, Structural)]
pub enum AppliedMove {
    Placed,
    Cleared,
}

/// The answer to a move.
#[derive(Clone, Copy, Debug, PartialEq, Eq, Structural)]
pub enum MoveOutcome {
    Applied { revision: u64, applied: AppliedMove },
    Rejected { reason: RejectReason },
    Penalty { reason: PenaltyReason, mistakes_left: u8, revision: u64 },
    Won { revision: u64 },
    Lost { revision: u64, reason: LoseReason },
}

} // verus!
