use sudokuroyale::api::convert::{
    game_view_to_dto, match_id_string, match_info, matches_revision_mismatch, move_dto_to_domain,
    move_outcome_to_dto, state_string,
};
use sudokuroyale::api::dto::game::{
    AppliedMoveDto, LoseReasonDto, MoveDto, MoveOutcomeDto, PenaltyReasonDto, RejectReasonDto,
};
use sudokuroyale::game::outcome::{AppliedMove, MoveOutcome, PenaltyReason, RejectReason};
use sudokuroyale::game::player::PlayerId;
use sudokuroyale::game::player_move::Move;
use sudokuroyale::game::state::{GameState, LoseReason};
use sudokuroyale::game::view::{GameView, OpponentProgress};
use sudokuroyale::game_match::model::{GameMatch, MatchStatus};
use sudokuroyale::layout::cell::Cell;
use sudokuroyale::layout::grid::Grid;
use sudokuroyale::layout::value::Value;

#[test]
fn client_moves_become_game_moves() {
    assert_eq!(
        move_dto_to_domain(&MoveDto::Place { cell: 3, value: 7 }),
        Some(Move::Place { cell: Cell::new(3), value: Value::new(7) })
    );
    assert_eq!(
        move_dto_to_domain(&MoveDto::Clear { cell: 80 }),
        Some(Move::Clear { cell: Cell::new(80) })
    );
    assert_eq!(move_dto_to_domain(&MoveDto::Clear { cell: 81 }), None);
    assert_eq!(move_dto_to_domain(&MoveDto::Place { cell: 81, value: 1 }), None);
    assert_eq!(move_dto_to_domain(&MoveDto::Place { cell: 0, value: 0 }), None);
    assert_eq!(move_dto_to_domain(&MoveDto::Place { cell: 0, value: 10 }), None);
}

#[test]
fn outcomes_become_client_outcomes() {
    assert_eq!(
        move_outcome_to_dto(MoveOutcome::Applied { revision: 4, applied: AppliedMove::Cleared }),
        MoveOutcomeDto::Applied { revision: 4, applied: AppliedMoveDto::Cleared }
    );
    assert_eq!(
        move_outcome_to_dto(MoveOutcome::Rejected {
            reason: RejectReason::RevisionMismatch { expected: 2, actual: 5 }
        }),
        MoveOutcomeDto::Rejected {
            reason: RejectReasonDto::RevisionMismatch { expected: 2, actual: 5 },
            revision: 5
        }
    );
    assert_eq!(
        move_outcome_to_dto(MoveOutcome::Rejected { reason: RejectReason::GivenCell }),
        MoveOutcomeDto::Rejected { reason: RejectReasonDto::GivenCell, revision: 0 }
    );
    assert_eq!(
        move_outcome_to_dto(MoveOutcome::Penalty {
            reason: PenaltyReason::WrongValue,
            mistakes_left: 1,
            revision: 9
        }),
        MoveOutcomeDto::Penalty { reason: PenaltyReasonDto::WrongValue, mistakes_left: 1, revision: 9 }
    );
    assert_eq!(
        move_outcome_to_dto(MoveOutcome::Lost { revision: 3, reason: LoseReason::TimeExpired }),
        MoveOutcomeDto::Lost { revision: 3, reason: LoseReasonDto::Timeout }
    );
    assert_eq!(
        move_outcome_to_dto(MoveOutcome::Won { revision: 8 }),
        MoveOutcomeDto::Won { revision: 8 }
    );
}

#[test]
fn only_stale_revisions_are_mismatches() {
    assert!(matches_revision_mismatch(&MoveOutcome::Rejected {
        reason: RejectReason::RevisionMismatch { expected: 1, actual: 2 }
    }));
    assert!(!matches_revision_mismatch(&MoveOutcome::Rejected {
        reason: RejectReason::NotInProgress
    }));
    assert!(!matches_revision_mismatch(&MoveOutcome::Won { revision: 1 }));
}

#[test]
fn states_are_written_as_debug_writes_them() {
    let states = [
        GameState::Waiting,
        GameState::InProgress,
        GameState::Won { player: PlayerId::PlayerB },
        GameState::Lost {
            loser: PlayerId::PlayerA,
            winner: PlayerId::PlayerB,
            reason: LoseReason::TooManyMistakes,
        },
    ];
    for s in states {
        assert_eq!(state_string(s), format!("{:?}", s));
    }
}

#[test]
fn views_become_client_views() {
    let mut givens = Grid::new();
    givens.set(Cell::new(0), Value::new(5));
    let mut current = Grid::new();
    current.set(Cell::new(0), Value::new(5));
    current.set(Cell::new(80), Value::new(9));
    let view = GameView {
        revision: 7,
        state: GameState::InProgress,
        givens,
        current,
        mistakes_left: 2,
        remaining_time: 1234,
        opponent_progress: Some(OpponentProgress { filled: 30, mistakes_left: 3, remaining_time: 99 }),
    };
    let dto = game_view_to_dto(view);
    assert_eq!(dto.revision, 7);
    assert_eq!(dto.state, "InProgress");
    assert_eq!(dto.givens.len(), 81);
    assert_eq!(dto.givens[0], 5);
    assert_eq!(dto.current[80], 9);
    assert_eq!(dto.mistakes_left, 2);
    assert_eq!(dto.remaining_ms, 1234);
    let op = dto.opponent_progress.unwrap();
    assert_eq!((op.filled, op.mistakes_left, op.remaining_ms), (30, 3, 99));
}

#[test]
fn match_ids_are_written_as_uuids() {
    assert_eq!(match_id_string(1), "00000000-0000-0000-0000-000000000001");
    assert_eq!(
        match_id_string(0x0123_4567_89ab_cdef_fedc_ba98_7654_3210),
        "01234567-89ab-cdef-fedc-ba9876543210"
    );
}

#[test]
fn match_information_names_status_and_players() {
    let mut m = GameMatch::with_id(0xff, 0x10, 0);
    m.player2_id = Some(0x20);
    m.status = MatchStatus::Ready;
    let info = match_info(&m);
    assert_eq!(info.match_id, "00000000-0000-0000-0000-0000000000ff");
    assert_eq!(info.status, "Ready");
    assert_eq!(info.player1_id, "00000000-0000-0000-0000-000000000010");
    assert_eq!(info.player2_id, Some("00000000-0000-0000-0000-000000000020".to_string()));
}
