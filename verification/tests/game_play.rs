use sudokuroyale::game::game::Game;
use sudokuroyale::game::outcome::{AppliedMove, MoveOutcome, PenaltyReason, RejectReason};
use sudokuroyale::game::player::{PlayerId, MAX_MISTAKES};
use sudokuroyale::game::player_move::Move;
use sudokuroyale::game::puzzle::Puzzle;
use sudokuroyale::game::state::{GameState, LoseReason};
use sudokuroyale::layout::cell::Cell;
use sudokuroyale::layout::grid::Grid;
use sudokuroyale::layout::value::Value;

const SOLUTION: &str =
    "534678912672195348198342567859761423426853791713924856961537284287419635345286179";

fn grid_of(digits: &str, blank: &[usize]) -> Grid {
    let mut g = Grid::new();
    for (i, ch) in digits.chars().enumerate() {
        if !blank.contains(&i) {
            let d = ch.to_digit(10).unwrap() as u8;
            g.set(Cell::new(i as u8), Value::new(d));
        }
    }
    g
}

fn puzzle(blank: &[usize]) -> Puzzle {
    Puzzle::new(grid_of(SOLUTION, blank), grid_of(SOLUTION, &[]))
}

fn started_game(blank: &[usize]) -> Game {
    let mut game = Game::new(puzzle(blank), 60_000);
    game.start(1_000);
    game
}

fn place(cell: u8, value: u8) -> Move {
    Move::Place { cell: Cell::new(cell), value: Value::new(value) }
}

#[test]
fn a_new_game_waits_and_rejects_moves() {
    let mut game = Game::new(puzzle(&[0]), 60_000);
    assert_eq!(*game.state(), GameState::Waiting);
    assert_eq!(game.revision(), 0);
    let outcome = game.apply_move(PlayerId::PlayerA, 0, place(0, 5), 0);
    assert_eq!(outcome, MoveOutcome::Rejected { reason: RejectReason::NotInProgress });
    assert_eq!(game.revision(), 0);
}

#[test]
fn starting_opens_the_game_and_raises_the_revision() {
    let game = started_game(&[0]);
    assert_eq!(*game.state(), GameState::InProgress);
    assert_eq!(game.revision(), 1);
    assert_eq!(game.start_at(), Some(1_000));
}

#[test]
fn a_stale_revision_is_turned_down() {
    let mut game = started_game(&[0, 1]);
    let outcome = game.apply_move(PlayerId::PlayerA, 0, place(0, 5), 2_000);
    assert_eq!(
        outcome,
        MoveOutcome::Rejected { reason: RejectReason::RevisionMismatch { expected: 0, actual: 1 } }
    );
    assert_eq!(game.revision(), 1);
}

#[test]
fn a_given_cell_cannot_be_changed() {
    let mut game = started_game(&[0]);
    let outcome = game.apply_move(PlayerId::PlayerA, 1, place(1, 3), 2_000);
    assert_eq!(outcome, MoveOutcome::Rejected { reason: RejectReason::GivenCell });
    let clear = game.apply_move(PlayerId::PlayerA, 1, Move::Clear { cell: Cell::new(1) }, 2_000);
    assert_eq!(clear, MoveOutcome::Rejected { reason: RejectReason::GivenCell });
}

#[test]
fn placing_no_digit_is_an_invalid_value() {
    let mut game = started_game(&[0]);
    let outcome = game.apply_move(PlayerId::PlayerA, 1, place(0, 0), 2_000);
    assert_eq!(outcome, MoveOutcome::Rejected { reason: RejectReason::InvalidValue });
}

#[test]
fn a_right_digit_is_placed_and_a_wrong_one_costs_a_mistake() {
    let mut game = started_game(&[0, 1]);
    let ok = game.apply_move(PlayerId::PlayerA, 1, place(0, 5), 2_000);
    assert_eq!(ok, MoveOutcome::Applied { revision: 2, applied: AppliedMove::Placed });
    let wrong = game.apply_move(PlayerId::PlayerA, 2, place(1, 9), 2_000);
    assert_eq!(
        wrong,
        MoveOutcome::Penalty {
            reason: PenaltyReason::WrongValue,
            mistakes_left: MAX_MISTAKES - 1,
            revision: 3
        }
    );
    assert_eq!(game.player(PlayerId::PlayerA).mistakes, 1);
    assert_eq!(game.player(PlayerId::PlayerB).mistakes, 0);
}

#[test]
fn the_last_allowed_mistake_loses_the_game() {
    let mut game = started_game(&[0, 1]);
    let mut revision = game.revision();
    let mut last = None;
    for _ in 0..MAX_MISTAKES {
        let outcome = game.apply_move(PlayerId::PlayerB, revision, place(1, 9), 2_000);
        revision = game.revision();
        last = Some(outcome);
    }
    assert_eq!(
        last,
        Some(MoveOutcome::Lost { revision, reason: LoseReason::TooManyMistakes })
    );
    assert_eq!(
        *game.state(),
        GameState::Lost {
            loser: PlayerId::PlayerB,
            winner: PlayerId::PlayerA,
            reason: LoseReason::TooManyMistakes
        }
    );
    let after = game.apply_move(PlayerId::PlayerA, revision, place(0, 5), 2_000);
    assert_eq!(after, MoveOutcome::Rejected { reason: RejectReason::NotInProgress });
}

#[test]
fn completing_the_solution_wins() {
    let mut game = started_game(&[0, 1]);
    game.apply_move(PlayerId::PlayerA, 1, place(0, 5), 2_000);
    let outcome = game.apply_move(PlayerId::PlayerA, 2, place(1, 3), 2_000);
    assert_eq!(outcome, MoveOutcome::Won { revision: 3 });
    assert_eq!(*game.state(), GameState::Won { player: PlayerId::PlayerA });
}

#[test]
fn clearing_empties_the_cell() {
    let mut game = started_game(&[0, 1]);
    game.apply_move(PlayerId::PlayerA, 1, place(0, 5), 2_000);
    let outcome = game.apply_move(PlayerId::PlayerA, 2, Move::Clear { cell: Cell::new(0) }, 2_000);
    assert_eq!(outcome, MoveOutcome::Applied { revision: 3, applied: AppliedMove::Cleared });
    assert_eq!(game.player(PlayerId::PlayerA).current.get(Cell::new(0)).value(), 0);
}

#[test]
fn the_view_shows_own_grid_and_opponent_progress() {
    let mut game = started_game(&[0, 1]);
    game.apply_move(PlayerId::PlayerA, 1, place(0, 5), 2_000);
    let view = game.view_for(PlayerId::PlayerB, 11_000);
    assert_eq!(view.revision, 2);
    assert_eq!(view.mistakes_left, MAX_MISTAKES);
    assert_eq!(view.remaining_time, 50_000);
    assert_eq!(view.current.get(Cell::new(0)).value(), 0);
    let op = view.opponent_progress.unwrap();
    assert_eq!(op.filled, 80);
    assert_eq!(op.mistakes_left, MAX_MISTAKES);
    assert_eq!(op.remaining_time, 50_000);
}

#[test]
fn starting_twice_keeps_the_first_start() {
    let mut game = started_game(&[0]);
    game.start(5_000);
    assert_eq!(game.revision(), 1);
    assert_eq!(game.start_at(), Some(1_000));
    assert_eq!(*game.state(), GameState::InProgress);
}

#[test]
fn a_won_game_refuses_moves_and_keeps_its_revision() {
    let mut game = started_game(&[0]);
    let won = game.apply_move(PlayerId::PlayerA, 1, place(0, 5), 2_000);
    assert_eq!(won, MoveOutcome::Won { revision: 2 });
    let after = game.apply_move(PlayerId::PlayerB, 2, place(0, 5), 2_000);
    assert_eq!(after, MoveOutcome::Rejected { reason: RejectReason::NotInProgress });
    assert_eq!(game.revision(), 2);
}
