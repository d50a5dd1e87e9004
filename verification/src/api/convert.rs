use vstd::arithmetic::power2::pow2;
use vstd::prelude::*;

use crate::api::dto::game::{
    AppliedMoveDto, GameViewDto, LoseReasonDto, MoveDto, MoveOutcomeDto, OpponentProgressDto,
    PenaltyReasonDto, RejectReasonDto,
};
use crate::api::dto::matches::MatchInfoResponse;
use crate::game::outcome::{AppliedMove, MoveOutcome, PenaltyReason, RejectReason};
use crate::game::player::PlayerId;
use crate::game::player_move::Move;
use crate::game::state::{GameState, LoseReason};
use crate::game::view::GameView;
use crate::game_match::model::{status_text, GameMatch};
use crate::layout::cell::Cell;
use crate::layout::grid::Grid;
use crate::layout::value::Value;
use crate::solve::action::push_str;

verus! {

/// The lower-case hexadecimal digit of `n` (below 16).
pub open spec fn hex_char(n: nat) -> char {
    if n < 10 {
        (('0' as nat) + n) as char
    } else {
        (('a' as nat) + n - 10) as char
    }
}

/// The `k`-th of the 32 hexadecimal digits of `id`, the most significant
/// first.
pub open spec fn nibble(id: u128, k: int) -> nat {
    ((id as nat) / pow2((4 * (31 - k)) as nat)) % 16
}

/// How many hyphens come before position `i` of a UUID's text.
pub open spec fn hyphens_before(i: int) -> int {
    if i < 9 {
        0
    } else if i < 14 {
        1
    } else if i < 19 {
        2
    } else if i < 24 {
        3
    } else {
        4
    }
}

/// The text of a UUID: its 32 hexadecimal digits, most significant first,
/// in groups of 8, 4, 4, 4 and 12 joined by hyphens.
pub open spec fn uuid_text(id: u128) -> Seq<char> {
    Seq::new(
        36,
        |i: int|
            if i == 8 || i == 13 || i == 18 || i == 23 {
                '-'
            } else {
                hex_char(nibble(id, i - hyphens_before(i)))
            },
    )
}

/// What `uuid::Uuid::parse_str` gives for `text`: the 128-bit value of
/// the UUID it writes, or `None` when it writes none.
pub uninterp spec fn uuid_parsed(text: Seq<char>) -> Option<u128>;

/// The text of the UUID with the 128-bit value `id`
/// (`uuid::Uuid::from_u128(id).to_string()`).
///
/// Trusted: the contract claims the hyphenated lower-case form that the
/// crate's `Display` writes (`format_hyphenated` in its source), and that
/// `uuid::Uuid::parse_str` reads that form back as `id` (its parser takes
/// the hyphenated form with hexadecimal digits of either case).
#[verifier::external_body]
fn uuid_string(id: u128) -> (r: String)
    ensures
        r@ == uuid_text(id),
        uuid_parsed(r@) == Some(id),
{
    uuid::Uuid::from_u128(id).to_string()
}

/// The UUID that `text` writes (`uuid::Uuid::parse_str`), as its 128-bit
/// value.
///
/// Trusted: the contract names the result; which forms the crate accepts
/// (hyphenated, simple, braced, URN) is left to the name.
#[verifier::external_body]
fn uuid_parse_str(text: &str) -> (r: Option<u128>)
    ensures
        r == uuid_parsed(text@),
{
    match uuid::Uuid::parse_str(text) {
        Ok(id) => Some(id.as_u128()),
        Err(_) => None,
    }
}

/// The match, user or session identifier that `text` writes, or `None`
/// when it writes no UUID.
pub fn parse_uuid(text: &str) -> (r: Option<u128>)
    ensures
        r == uuid_parsed(text@),
{
    uuid_parse_str(text)
}

/// The game's move for a client's move; `None` for a cell beyond the 81st
/// or, when placing, a digit outside 1 to 9.
pub fn move_dto_to_domain(dto: &MoveDto) -> (r: Option<Move>)
    ensures
        match *dto {
            MoveDto::Clear { cell } => if cell > 80 {
                r is None
            } else {
                r matches Some(Move::Clear { cell: c }) && c@ == cell
            },
            MoveDto::Place { cell, value } => if cell > 80 || value < 1 || value > 9 {
                r is None
            } else {
                r matches Some(Move::Place { cell: c, value: v }) && c@ == cell && v@ == value
            },
        },
{
    match dto {
        MoveDto::Clear { cell } => {
            if *cell > 80 {
                return None;
            }
            Some(Move::Clear { cell: Cell::new(*cell) })
        },
        MoveDto::Place { cell, value } => {
            if *cell > 80 {
                return None;
            }
            if *value < 1 || *value > 9 {
                return None;
            }
            Some(Move::Place { cell: Cell::new(*cell), value: Value::new(*value) })
        },
    }
}

/// The 81 values of a grid in cell order.
pub fn grid_to_vec(grid: &Grid) -> (r: Vec<u8>)
    ensures
        r@.len() == 81,
        forall|i: int| 0 <= i < 81 ==> #[trigger] r@[i] as nat == grid@[i],
{
    grid.to_vec()
}

/// The name of a player.
pub open spec fn player_text(p: PlayerId) -> Seq<char> {
    match p {
        PlayerId::PlayerA => "PlayerA"@,
        PlayerId::PlayerB => "PlayerB"@,
    }
}

/// The name of a reason for losing.
pub open spec fn lose_text(r: LoseReason) -> Seq<char> {
    match r {
        LoseReason::TooManyMistakes => "TooManyMistakes"@,
        LoseReason::TimeExpired => "TimeExpired"@,
        LoseReason::OpponentSolved => "OpponentSolved"@,
    }
}

/// The text of a game state, as `Debug` writes it.
pub open spec fn state_text(s: GameState) -> Seq<char> {
    match s {
        GameState::Waiting => "Waiting"@,
        GameState::InProgress => "InProgress"@,
        GameState::Won { player } => "Won { player: "@ + player_text(player) + " }"@,
        GameState::Lost { loser, winner, reason } => "Lost { loser: "@ + player_text(loser) + ", winner: "@
            + player_text(winner) + ", reason: "@ + lose_text(reason) + " }"@,
    }
}

fn player_label(p: PlayerId) -> (r: &'static str)
    ensures
        r@ == player_text(p),
{
    match p {
        PlayerId::PlayerA => "PlayerA",
        PlayerId::PlayerB => "PlayerB",
    }
}

fn lose_label(reason: LoseReason) -> (r: &'static str)
    ensures
        r@ == lose_text(reason),
{
    match reason {
        LoseReason::TooManyMistakes => "TooManyMistakes",
        LoseReason::TimeExpired => "TimeExpired",
        LoseReason::OpponentSolved => "OpponentSolved",
    }
}

/// The text of a game state.
pub fn state_string(s: GameState) -> (r: String)
    ensures
        r@ == state_text(s),
{
    let mut out = String::new();
    match s {
        GameState::Waiting => push_str(&mut out, "Waiting"),
        GameState::InProgress => push_str(&mut out, "InProgress"),
        GameState::Won { player } => {
            push_str(&mut out, "Won { player: ");
            push_str(&mut out, player_label(player));
            push_str(&mut out, " }");
        },
        GameState::Lost { loser, winner, reason } => {
            push_str(&mut out, "Lost { loser: ");
            push_str(&mut out, player_label(loser));
            push_str(&mut out, ", winner: ");
            push_str(&mut out, player_label(winner));
            push_str(&mut out, ", reason: ");
            push_str(&mut out, lose_label(reason));
            push_str(&mut out, " }");
        },
    }
    assert(out@ =~= state_text(s));
    out
}

/// A player's view of the game as the client reads it.
pub fn game_view_to_dto(view: GameView) -> (r: GameViewDto)
    ensures
        r.revision == view.revision,
        r.state@ == state_text(view.state),
        r.givens@.len() == 81,
        r.current@.len() == 81,
        forall|i: int| 0 <= i < 81 ==> #[trigger] r.givens@[i] as nat == view.givens@[i],
        forall|i: int| 0 <= i < 81 ==> #[trigger] r.current@[i] as nat == view.current@[i],
        r.mistakes_left == view.mistakes_left,
        r.remaining_ms == view.remaining_time,
        r.opponent_progress == match view.opponent_progress {
            Some(op) => Some(
                OpponentProgressDto {
                    filled: op.filled,
                    mistakes_left: op.mistakes_left,
                    remaining_ms: op.remaining_time,
                },
            ),
            None => None,
        },
{
    let opponent_progress = match view.opponent_progress {
        Some(op) => Some(
            OpponentProgressDto {
                filled: op.filled,
                mistakes_left: op.mistakes_left,
                remaining_ms: op.remaining_time,
            },
        ),
        None => None,
    };
    GameViewDto {
        revision: view.revision,
        state: state_string(view.state),
        givens: grid_to_vec(&view.givens),
        current: grid_to_vec(&view.current),
        mistakes_left: view.mistakes_left,
        remaining_ms: view.remaining_time,
        opponent_progress,
    }
}

/// Whether a move was turned down for a stale revision.
pub fn matches_revision_mismatch(outcome: &MoveOutcome) -> (r: bool)
    ensures
        r == (*outcome matches MoveOutcome::Rejected { reason: RejectReason::RevisionMismatch { .. } }),
{
    matches!(outcome, MoveOutcome::Rejected { reason: RejectReason::RevisionMismatch { .. } })
}

/// The client's form of a move's outcome. A rejection carries the current
/// revision when the revision was stale, and 0 otherwise.
pub open spec fn outcome_dto(outcome: MoveOutcome) -> MoveOutcomeDto {
    match outcome {
        MoveOutcome::Applied { revision, applied } => MoveOutcomeDto::Applied {
            revision,
            applied: match applied {
                AppliedMove::Placed => AppliedMoveDto::Placed,
                AppliedMove::Cleared => AppliedMoveDto::Cleared,
            },
        },
        MoveOutcome::Rejected { reason } => match reason {
            RejectReason::NotInProgress => MoveOutcomeDto::Rejected {
                reason: RejectReasonDto::NotInProgress,
                revision: 0,
            },
            RejectReason::UnknownPlayer => MoveOutcomeDto::Rejected {
                reason: RejectReasonDto::UnknownPlayer,
                revision: 0,
            },
            RejectReason::GivenCell => MoveOutcomeDto::Rejected {
                reason: RejectReasonDto::GivenCell,
                revision: 0,
            },
            RejectReason::InvalidValue => MoveOutcomeDto::Rejected {
                reason: RejectReasonDto::InvalidValue,
                revision: 0,
            },
            RejectReason::RevisionMismatch { expected, actual } => MoveOutcomeDto::Rejected {
                reason: RejectReasonDto::RevisionMismatch { expected, actual },
                revision: actual,
            },
        },
        MoveOutcome::Penalty { reason, mistakes_left, revision } => MoveOutcomeDto::Penalty {
            reason: match reason {
                PenaltyReason::WrongValue => PenaltyReasonDto::WrongValue,
            },
            mistakes_left,
            revision,
        },
        MoveOutcome::Won { revision } => MoveOutcomeDto::Won { revision },
        MoveOutcome::Lost { revision, reason } => MoveOutcomeDto::Lost {
            revision,
            reason: match reason {
                LoseReason::TimeExpired => LoseReasonDto::Timeout,
                LoseReason::TooManyMistakes => LoseReasonDto::TooManyMistakes,
                LoseReason::OpponentSolved => LoseReasonDto::OpponentWon,
            },
        },
    }
}

/// What ended a lost game: 0 too many mistakes, 1 the clock, 2 the
/// opponent's solution.
pub open spec fn loss_cause(r: LoseReason) -> nat {
    match r {
        LoseReason::TooManyMistakes => 0,
        LoseReason::TimeExpired => 1,
        LoseReason::OpponentSolved => 2,
    }
}

/// What the client is told ended a lost game: 0 too many mistakes, 1 the
/// clock running out, 2 the opponent winning.
pub open spec fn told_loss_cause(d: LoseReasonDto) -> nat {
    match d {
        LoseReasonDto::TooManyMistakes => 0,
        LoseReasonDto::Timeout => 1,
        LoseReasonDto::OpponentWon => 2,
    }
}

/// The client's form `d` tells the same as the outcome: the same kind of
/// outcome, the same revision (for a refusal, the one the client missed,
/// if any), the same refusal, penalty, mistakes left, kind of move and
/// cause of a loss.
pub open spec fn tells_the_same(outcome: MoveOutcome, d: MoveOutcomeDto) -> bool {
    match outcome {
        MoveOutcome::Applied { revision, applied } => d matches MoveOutcomeDto::Applied { revision: rv, applied: a }
            && rv == revision && ((applied is Placed) <==> (a is Placed)),
        MoveOutcome::Rejected { reason } => d matches MoveOutcomeDto::Rejected { reason: dr, revision: rv } && {
            &&& (reason is NotInProgress) <==> (dr is NotInProgress)
            &&& (reason is UnknownPlayer) <==> (dr is UnknownPlayer)
            &&& (reason is GivenCell) <==> (dr is GivenCell)
            &&& (reason is InvalidValue) <==> (dr is InvalidValue)
            &&& match reason {
                RejectReason::RevisionMismatch { expected, actual } => dr == (RejectReasonDto::RevisionMismatch {
                    expected,
                    actual,
                }) && rv == actual,
                _ => rv == 0,
            }
        },
        MoveOutcome::Penalty { reason, mistakes_left, revision } => d matches MoveOutcomeDto::Penalty {
            reason: _,
            mistakes_left: m,
            revision: rv,
        } && m == mistakes_left && rv == revision,
        MoveOutcome::Won { revision } => d matches MoveOutcomeDto::Won { revision: rv } && rv == revision,
        MoveOutcome::Lost { revision, reason } => d matches MoveOutcomeDto::Lost { revision: rv, reason: dr } && rv
            == revision && told_loss_cause(dr) == loss_cause(reason),
    }
}

/// The client's form of an outcome tells the same as the outcome: in
/// particular a loss is reported with its real cause.
pub proof fn lemma_outcome_dto_tells_the_same(outcome: MoveOutcome)
    ensures
        tells_the_same(outcome, outcome_dto(outcome)),
{
}

/// The client's form of a move's outcome.
pub fn move_outcome_to_dto(outcome: MoveOutcome) -> (r: MoveOutcomeDto)
    ensures
        r == outcome_dto(outcome),
        tells_the_same(outcome, r),
{
    match outcome {
        MoveOutcome::Applied { revision, applied } => MoveOutcomeDto::Applied {
            revision,
            applied: match applied {
                AppliedMove::Placed => AppliedMoveDto::Placed,
                AppliedMove::Cleared => AppliedMoveDto::Cleared,
            },
        },
        MoveOutcome::Rejected { reason } => {
            let (reason_dto, revision) = match reason {
                RejectReason::NotInProgress => (RejectReasonDto::NotInProgress, 0),
                RejectReason::UnknownPlayer => (RejectReasonDto::UnknownPlayer, 0),
                RejectReason::GivenCell => (RejectReasonDto::GivenCell, 0),
                RejectReason::InvalidValue => (RejectReasonDto::InvalidValue, 0),
                RejectReason::RevisionMismatch { expected, actual } => (
                    RejectReasonDto::RevisionMismatch { expected, actual },
                    actual,
                ),
            };
            MoveOutcomeDto::Rejected { reason: reason_dto, revision }
        },
        MoveOutcome::Penalty { reason, mistakes_left, revision } => MoveOutcomeDto::Penalty {
            reason: match reason {
                PenaltyReason::WrongValue => PenaltyReasonDto::WrongValue,
            },
            mistakes_left,
            revision,
        },
        MoveOutcome::Won { revision } => MoveOutcomeDto::Won { revision },
        MoveOutcome::Lost { revision, reason } => MoveOutcomeDto::Lost {
            revision,
            reason: match reason {
                LoseReason::TimeExpired => LoseReasonDto::Timeout,
                LoseReason::TooManyMistakes => LoseReasonDto::TooManyMistakes,
                LoseReason::OpponentSolved => LoseReasonDto::OpponentWon,
            },
        },
    }
}

/// The text of a match identifier.
pub fn match_id_string(id: u128) -> (r: String)
    ensures
        r@ == uuid_text(id),
        uuid_parsed(r@) == Some(id),
{
    uuid_string(id)
}

/// Who is in a match and where it stands, identifiers as text.
pub fn match_info(m: &GameMatch) -> (r: MatchInfoResponse)
    ensures
        r.match_id@ == uuid_text(m.id),
        r.status@ == status_text(m.status),
        r.player1_id@ == uuid_text(m.player1_id),
        match m.player2_id {
            Some(p) => r.player2_id matches Some(t) && t@ == uuid_text(p),
            None => r.player2_id is None,
        },
{
    let mut status = String::new();
    push_str(&mut status, m.status.label());
    assert(status@ =~= status_text(m.status));
    let player2_id = match m.player2_id {
        Some(p) => Some(uuid_string(p)),
        None => None,
    };
    MatchInfoResponse {
        match_id: uuid_string(m.id),
        status,
        player1_id: uuid_string(m.player1_id),
        player2_id,
    }
}

} // verus!
