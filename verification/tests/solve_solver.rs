use sudokuroyale::layout::cell::Cell;
use sudokuroyale::layout::known::Known;
use sudokuroyale::solve::algorithms::singles::{find_hidden_singles, find_naked_singles};
use sudokuroyale::solve::board::Board;
use sudokuroyale::solve::effects::Effects;
use sudokuroyale::solve::solver::{technique_step, Resolution, Solver, TechniqueStep, Timings};
use sudokuroyale::solve::strategy::{Difficulty, Strategy};

const SOLUTION: &str =
    "534678912672195348198342567859761423426853791713924856961537284287419635345286179";

// A well-known easy puzzle whose solution is SOLUTION.
const PUZZLE: &str =
    "530070000600195000098000060800060003400803001700020006060000280000419005000080079";

fn board_from(digits: &str) -> Board {
    let mut board = Board::new();
    let mut eff = Effects::new();
    for (i, ch) in digits.chars().enumerate() {
        if ch != '0' {
            board.set_known(Cell::new(i as u8), Known::from_char(ch), &mut eff);
        }
    }
    assert!(!eff.has_errors());
    board
}

#[test]
fn the_solver_solves_an_easy_puzzle() {
    let solver = Solver::new(false);
    let start = board_from(PUZZLE);
    let mut timings = Timings::new();
    let resolution = solver.solve(&start, &Effects::new(), &mut timings);
    assert!(resolution.is_solved());
    assert!(!resolution.is_canceled());
    match resolution {
        Resolution::Solved(board, applied, difficulty) => {
            for (i, ch) in SOLUTION.chars().enumerate() {
                assert_eq!(board.value(Cell::new(i as u8)).known(), Some(Known::from_char(ch)));
            }
            assert!(applied.action_count() > 0);
            assert_eq!(difficulty, Difficulty::Basic);
        }
        _ => panic!("expected a solution"),
    }
    let (calls, found) = timings.counts(Strategy::NakedSingle);
    assert!(calls > 0);
    assert!(found > 0);
}

#[test]
fn the_solver_reports_a_solved_board_at_once() {
    let solver = Solver::new(true);
    let start = board_from(SOLUTION);
    let mut timings = Timings::new();
    let resolution = solver.solve(&start, &Effects::new(), &mut timings);
    match resolution {
        Resolution::Solved(_, applied, difficulty) => {
            assert_eq!(applied.action_count(), 0);
            assert_eq!(difficulty, Difficulty::Basic);
        }
        _ => panic!("expected a solution"),
    }
    assert_eq!(timings.counts(Strategy::NakedSingle), (0, 0));
}

#[test]
fn an_empty_board_stays_unsolved() {
    let solver = Solver::new(false);
    let mut timings = Timings::new();
    let resolution = solver.solve(&Board::new(), &Effects::new(), &mut timings);
    assert!(matches!(resolution, Resolution::Unsolved(..)));
    assert_eq!(timings.counts(Strategy::Bug), (1, 0));
}

#[test]
fn naked_singles_set_the_only_candidate() {
    let board = board_from(&SOLUTION.replacen('5', "0", 1));
    let found = find_naked_singles(&board, false).unwrap();
    assert_eq!(found.action_count(), 1);
    assert!(found.actions()[0].sets(Cell::new(0), Known::from_char('5')));
    assert!(find_naked_singles(&Board::new(), false).is_none());
}

#[test]
fn hidden_singles_find_the_only_place_of_a_digit() {
    let board = board_from(PUZZLE);
    let found = find_hidden_singles(&board, true).unwrap();
    assert_eq!(found.action_count(), 1);
    assert_eq!(found.actions()[0].strategy(), Strategy::HiddenSingle);
    assert!(find_hidden_singles(&Board::new(), false).is_none());
}

#[test]
fn timings_count_tries_and_finds() {
    let mut t = Timings::new();
    t.add(Strategy::NakedPair, 2);
    t.add(Strategy::NakedPair, 0);
    t.add(Strategy::Bug, 1);
    assert_eq!(t.counts(Strategy::NakedPair), (2, 2));
    assert_eq!(t.counts(Strategy::Bug), (1, 1));
    assert_eq!(t.counts(Strategy::Skyscraper), (0, 0));
}

#[test]
fn a_solved_board_is_solved_at_once() {
    let solver = Solver::new(false);
    let mut timings = Timings::new();
    let start = board_from(SOLUTION);
    match solver.solve(&start, &Effects::new(), &mut timings) {
        Resolution::Solved(b, applied, _) => {
            assert_eq!(b.known_count(), 81);
            assert!(!applied.has_actions());
        },
        _ => panic!("a solved board must come back solved"),
    }
}

#[test]
fn a_raised_flag_stops_the_step_before_the_technique() {
    let board = board_from(PUZZLE);
    let mut difficulty = Difficulty::Basic;
    let mut timings = Timings::new();
    let r = technique_step(0, &board, true, &mut difficulty, &mut timings);
    assert!(matches!(r, TechniqueStep::Canceled));
    assert_eq!(difficulty, Difficulty::Basic);
}

#[test]
fn a_step_finds_the_techniques_first_action() {
    let board = board_from(PUZZLE);
    let mut difficulty = Difficulty::Basic;
    let mut timings = Timings::new();
    match technique_step(1, &board, false, &mut difficulty, &mut timings) {
        TechniqueStep::Found(a) => assert_eq!(a.strategy(), Strategy::HiddenSingle),
        _ => panic!("the puzzle has a hidden single"),
    }
    let empty = Board::new();
    let r = technique_step(0, &empty, false, &mut difficulty, &mut timings);
    assert!(matches!(r, TechniqueStep::Nothing));
}
