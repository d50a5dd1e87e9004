use sudokuroyale::game::outcome::{AppliedMove, MoveOutcome};
use sudokuroyale::game::player::PlayerId;
use sudokuroyale::game::player_move::Move;
use sudokuroyale::game::puzzle::Puzzle;
use sudokuroyale::game::state::GameState;
use sudokuroyale::game_match::model::{GameMatch, MatchStatus};
use sudokuroyale::game_match::repository::MatchRepository;
use sudokuroyale::game_match::services::{
    apply_move_for_user, apply_move_for_user_at, create_match, get_match_state_for_user,
    get_match_state_for_user_at, join_match, leave_match_by_user, start_match_by_user,
    start_match_with_puzzle, GAME_TIME_LIMIT_MS,
};
use sudokuroyale::layout::cell::Cell;
use sudokuroyale::layout::grid::Grid;
use sudokuroyale::layout::value::Value;
use sudokuroyale::match_state::GameSession;

const SOLUTION: &str =
    "534678912672195348198342567859761423426853791713924856961537284287419635345286179";

const ALICE: u128 = 1;
const BOB: u128 = 2;
const CAROL: u128 = 3;

fn grid_of(blank: &[usize]) -> Grid {
    let mut g = Grid::new();
    for (i, ch) in SOLUTION.chars().enumerate() {
        if !blank.contains(&i) {
            g.set(Cell::new(i as u8), Value::new(ch.to_digit(10).unwrap() as u8));
        }
    }
    g
}

fn puzzle() -> Puzzle {
    Puzzle::new(grid_of(&[0, 1]), grid_of(&[]))
}

fn ready_match(repo: &mut MatchRepository) -> u128 {
    let id = create_match(repo, ALICE);
    assert!(join_match(repo, BOB, id));
    id
}

#[test]
fn a_created_match_waits_for_a_second_player() {
    let mut repo = MatchRepository::new();
    let id = create_match(&mut repo, ALICE);
    let m = repo.find_by_id(id).unwrap();
    assert_eq!(m.player1_id, ALICE);
    assert_eq!(m.player2_id, None);
    assert_eq!(m.status, MatchStatus::Waiting);
    assert!(repo.find_session_by_id(id).unwrap().game.is_none());
}

#[test]
fn the_creator_cannot_join_the_own_match() {
    let mut repo = MatchRepository::new();
    let id = create_match(&mut repo, ALICE);
    assert!(!join_match(&mut repo, ALICE, id));
    assert_eq!(repo.find_by_id(id).unwrap().status, MatchStatus::Waiting);
}

#[test]
fn joining_makes_the_match_ready_and_a_third_user_is_turned_away() {
    let mut repo = MatchRepository::new();
    let id = ready_match(&mut repo);
    let m = repo.find_by_id(id).unwrap();
    assert_eq!(m.player2_id, Some(BOB));
    assert_eq!(m.status, MatchStatus::Ready);
    assert!(!join_match(&mut repo, CAROL, id));
    assert_eq!(repo.find_by_id(id).unwrap().player2_id, Some(BOB));
}

#[test]
fn joining_an_unknown_match_fails() {
    let mut repo = MatchRepository::new();
    assert!(!join_match(&mut repo, BOB, 42));
}

#[test]
fn the_second_player_leaving_sets_the_match_back_to_waiting() {
    let mut repo = MatchRepository::new();
    let id = ready_match(&mut repo);
    assert!(leave_match_by_user(&mut repo, BOB, id));
    let m = repo.find_by_id(id).unwrap();
    assert_eq!(m.player2_id, None);
    assert_eq!(m.status, MatchStatus::Waiting);
    assert!(join_match(&mut repo, CAROL, id));
}

#[test]
fn the_creator_leaving_removes_the_match() {
    let mut repo = MatchRepository::new();
    let id = ready_match(&mut repo);
    let other = create_match(&mut repo, CAROL);
    assert!(leave_match_by_user(&mut repo, ALICE, id));
    assert!(repo.find_by_id(id).is_none());
    assert!(repo.find_by_id(other).is_some());
    assert!(!leave_match_by_user(&mut repo, ALICE, id));
}

#[test]
fn a_stranger_cannot_leave() {
    let mut repo = MatchRepository::new();
    let id = ready_match(&mut repo);
    assert!(!leave_match_by_user(&mut repo, CAROL, id));
    assert_eq!(repo.find_by_id(id).unwrap().status, MatchStatus::Ready);
}

#[test]
fn only_the_creator_starts_a_ready_match() {
    let mut repo = MatchRepository::new();
    let id = create_match(&mut repo, ALICE);
    assert!(!start_match_with_puzzle(&mut repo, ALICE, id, puzzle(), 5_000));
    assert!(join_match(&mut repo, BOB, id));
    assert!(!start_match_with_puzzle(&mut repo, BOB, id, puzzle(), 5_000));
    assert!(start_match_with_puzzle(&mut repo, ALICE, id, puzzle(), 5_000));
    let session = repo.find_session_by_id(id).unwrap();
    assert_eq!(session.meta.status, MatchStatus::InProgress);
    assert!(session.meta.started_at.is_some());
    let game = session.game.as_ref().unwrap();
    assert_eq!(*game.state(), GameState::InProgress);
    assert_eq!(game.player(PlayerId::PlayerA).time.limit, GAME_TIME_LIMIT_MS);
    assert!(!start_match_with_puzzle(&mut repo, ALICE, id, puzzle(), 6_000));
}

#[test]
fn players_see_and_play_the_started_game() {
    let mut repo = MatchRepository::new();
    let id = ready_match(&mut repo);
    assert!(start_match_with_puzzle(&mut repo, ALICE, id, puzzle(), 5_000));

    let view = get_match_state_for_user_at(&mut repo, BOB, id, 6_000).unwrap();
    assert_eq!(view.revision, 1);
    assert_eq!(view.remaining_time, GAME_TIME_LIMIT_MS - 1_000);
    assert!(get_match_state_for_user_at(&mut repo, CAROL, id, 6_000).is_none());

    let mv = Move::Place { cell: Cell::new(0), value: Value::new(5) };
    let (outcome, view) = apply_move_for_user_at(&mut repo, ALICE, id, 1, mv, 7_000).unwrap();
    assert_eq!(outcome, MoveOutcome::Applied { revision: 2, applied: AppliedMove::Placed });
    assert_eq!(view.current.get(Cell::new(0)).value(), 5);
    assert!(apply_move_for_user_at(&mut repo, CAROL, id, 2, mv, 7_000).is_none());

    let (_, now_view) = apply_move_for_user(&mut repo, BOB, id, 2, mv).unwrap();
    assert_eq!(now_view.revision, 3);
    assert!(get_match_state_for_user(&mut repo, ALICE, id).is_some());
}

#[test]
fn a_match_without_a_game_has_no_state() {
    let mut repo = MatchRepository::new();
    let id = ready_match(&mut repo);
    assert!(get_match_state_for_user(&mut repo, ALICE, id).is_none());
    let mv = Move::Clear { cell: Cell::new(0) };
    assert!(apply_move_for_user(&mut repo, ALICE, id, 0, mv).is_none());
}

#[test]
fn starting_by_user_checks_before_generating() {
    let mut repo = MatchRepository::new();
    let id = create_match(&mut repo, ALICE);
    assert!(!start_match_by_user(&mut repo, ALICE, id));
    assert!(!start_match_by_user(&mut repo, ALICE, 99));
    assert_eq!(repo.find_by_id(id).unwrap().status, MatchStatus::Waiting);
}

#[test]
fn sessions_know_their_players() {
    let mut session = GameSession::from_match(GameMatch::with_id(7, ALICE, 0));
    assert_eq!(session.player_for_user(ALICE), Some(PlayerId::PlayerA));
    assert_eq!(session.player_for_user(BOB), None);
    session.meta.player2_id = Some(BOB);
    assert_eq!(session.player_for_user(BOB), Some(PlayerId::PlayerB));
    assert!(!session.start_game(puzzle(), 1_000, 0));
    session.meta.status = MatchStatus::Ready;
    assert!(session.start_game(puzzle(), 1_000, 0));
    assert_eq!(session.meta.status, MatchStatus::InProgress);
}

#[test]
fn removing_an_unknown_match_changes_nothing() {
    let mut repo = MatchRepository::new();
    let id = create_match(&mut repo, ALICE);
    assert!(!repo.remove_match(id.wrapping_add(1)));
    assert!(repo.find_by_id(id).is_some());
    assert!(repo.remove_match(id));
    assert!(repo.find_by_id(id).is_none());
}

#[test]
fn the_creator_starts_a_ready_match_with_a_generated_puzzle() {
    let mut repo = MatchRepository::new();
    let id = ready_match(&mut repo);
    assert!(start_match_by_user(&mut repo, ALICE, id));
    let session = repo.find_session_by_id(id).unwrap();
    assert_eq!(session.meta.status, MatchStatus::InProgress);
    let game = session.game.as_ref().unwrap();
    let givens = game.puzzle().givens();
    let solution = game.puzzle().solution();
    assert_eq!(solution.known_count(), 81);
    assert!(givens.known_count() >= 17);
    for c in Cell::all() {
        let g = givens.get(c).value();
        assert!(g == 0 || g == solution.get(c).value());
    }
}

#[test]
fn joining_and_leaving_restores_the_match() {
    let mut repo = MatchRepository::new();
    let id = create_match(&mut repo, ALICE);
    let before = *repo.find_by_id(id).unwrap();
    assert!(join_match(&mut repo, BOB, id));
    assert!(leave_match_by_user(&mut repo, BOB, id));
    assert_eq!(*repo.find_by_id(id).unwrap(), before);
}

#[test]
fn timestamps_before_the_epoch_count_as_zero() {
    assert_eq!(sudokuroyale::game_match::clock::millis_since_epoch(None), 0);
    assert_eq!(sudokuroyale::game_match::clock::millis_since_epoch(Some(0)), 0);
    assert_eq!(sudokuroyale::game_match::clock::millis_since_epoch(Some(1_700_000_000_123)), 1_700_000_000_123);
    assert_eq!(sudokuroyale::game_match::clock::millis_since_epoch(Some(u128::MAX)), u64::MAX);
}
