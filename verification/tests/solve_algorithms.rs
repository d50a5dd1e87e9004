use sudokuroyale::layout::cell::Cell;
use sudokuroyale::layout::cell_set::CellSet;
use sudokuroyale::layout::house::House;
use sudokuroyale::layout::known::Known;
use sudokuroyale::layout::known_set::KnownSet;
use sudokuroyale::solve::algorithms::brute_force::{
    find_brute_force, BruteForceResult, BruteForceSolver, DEFAULT_MAXIMUM_SOLUTIONS,
};
use sudokuroyale::solve::algorithms::bugs::{find_bugs, BugSolver};
use sudokuroyale::solve::algorithms::empty_rectangles::{
    find_empty_rectangles, fit_row_column, EmptyRectangleSolver,
};
use sudokuroyale::solve::algorithms::fireworks::{find_fireworks, FireworksSolver};
use sudokuroyale::solve::algorithms::naked_tuples::{
    find_naked_pairs, find_naked_quads, find_naked_triples, find_naked_tuples,
};
use sudokuroyale::solve::algorithms::peers::{find_peers, PeerSolver};
use sudokuroyale::solve::algorithms::skyscrapers::{find_skyscrapers, SkyscraperSolver};
use sudokuroyale::solve::algorithms::unique_rectangles::{
    find_unique_rectangles, UniqueRectangleSolver,
};
use sudokuroyale::solve::algorithms::wxyz_wings::{find_wxyz_wings, WXYZWingSolver};
use sudokuroyale::solve::algorithms::xyz_wings::{find_xyz_wings, XYZWingSolver};
use sudokuroyale::solve::algorithms::Solver;
use sudokuroyale::solve::board::Board;
use sudokuroyale::solve::effects::Effects;
use sudokuroyale::solve::strategy::Strategy;

fn cell(label: &str) -> Cell {
    Cell::from_str(label)
}

fn known(label: &str) -> Known {
    Known::from_str(label)
}

fn knowns(labels: &str) -> KnownSet {
    let mut ks = KnownSet::empty();
    for part in labels.split_whitespace() {
        ks.add(Known::from_str(part));
    }
    ks
}

fn cells(labels: &str) -> CellSet {
    CellSet::from_str(labels)
}

// ---- peers

#[test]
fn no_knowns_returns_none() {
    let board = Board::new();
    assert!(find_peers(&board, false).is_none());
}

#[test]
fn peers_solver_delegates_to_find() {
    let board = Board::new();
    let solver = PeerSolver;

    let via_solver = solver.apply(&board, true);
    let via_fn = find_peers(&board, true);

    assert_eq!(via_solver.is_some(), via_fn.is_some());
}

#[test]
fn peers_single_mode_returns_at_most_one_action() {
    let mut board = Board::new();
    let mut eff = Effects::new();

    board.set_known(cell("A1"), known("5"), &mut eff);
    assert!(!eff.has_errors());

    if let Some(found) = find_peers(&board, true) {
        assert!(found.actions().len() <= 1);
    }
}

#[test]
fn set_known_removes_known_from_peers_candidates() {
    let mut board = Board::new();
    let mut eff = Effects::new();

    board.set_known(cell("A1"), known("5"), &mut eff);
    assert!(!eff.has_errors());

    for p in cell("A1").peers().to_vec() {
        assert!(!board.candidates(p).has(known("5")));
    }
}

// ---- bugs

#[test]
fn bugs_empty_board_returns_none() {
    let board = Board::new();
    assert!(find_bugs(&board, true).is_none());
}

#[test]
fn no_pairs_returns_none() {
    let mut board = Board::new();
    let mut eff = Effects::new();
    board.set_known(cell("A1"), known("1"), &mut eff);

    assert!(find_bugs(&board, true).is_none());
}

#[test]
fn bug_solver_delegates_to_find_bugs() {
    let board = Board::new();
    let solver = BugSolver;
    let a = solver.apply(&board, true);
    let b = find_bugs(&board, true);
    assert_eq!(a.is_some(), b.is_some());
}

// ---- empty rectangles

#[test]
fn empty_rectangles_empty_board_returns_none() {
    let board = Board::new();
    assert!(find_empty_rectangles(&board, true).is_none());
}

#[test]
fn empty_rectangles_solver_delegates_to_find() {
    let board = Board::new();
    let solver = EmptyRectangleSolver;

    let a = solver.apply(&board, true);
    let b = find_empty_rectangles(&board, true);

    assert_eq!(a.is_some(), b.is_some());
}

#[test]
fn fit_row_column_returns_none_for_degenerate_candidate_count() {
    let board = Board::new();

    let known = Known::iter().next().unwrap();
    let block = House::blocks_iter().next().unwrap();

    assert!(fit_row_column(&board, block, known).is_none());
}

#[test]
fn empty_rectangles_single_mode_never_returns_more_than_one_action() {
    let board = Board::new();
    if let Some(effects) = find_empty_rectangles(&board, true) {
        assert!(effects.actions().len() <= 1);
    }
}

// ---- fireworks

#[test]
fn fireworks_empty_board_returns_none() {
    let board = Board::new();
    assert!(find_fireworks(&board, true).is_none());
}

#[test]
fn solver_delegates_to_find_fireworks() {
    let board = Board::new();
    let solver = FireworksSolver;

    let via_solver = solver.apply(&board, true);
    let via_fn = find_fireworks(&board, true);

    assert_eq!(via_solver.is_some(), via_fn.is_some());
}

#[test]
fn fireworks_single_mode_never_returns_more_than_one_action() {
    let board = Board::new();
    if let Some(effects) = find_fireworks(&board, true) {
        assert!(effects.actions().len() <= 1);
    }
}

#[test]
fn no_false_positives_with_small_noise() {
    let mut board = Board::new();
    let mut eff = Effects::new();

    board.set_known(cell("A1"), known("1"), &mut eff);
    board.set_known(cell("B2"), known("2"), &mut eff);
    board.set_known(cell("C3"), known("3"), &mut eff);

    assert!(!eff.has_errors());
    assert!(find_fireworks(&board, false).is_none());
}

// ---- naked tuples

#[test]
fn naked_pairs() {
    let mut board = Board::new();
    let mut effects = Effects::new();

    let removed = knowns("1 2 3 4 5 6 7");
    board.remove_candidates_from_cells(cells("A1 A2"), removed, &mut effects);

    let found = find_naked_tuples(&board, false, 2, Strategy::NakedPair).unwrap();
    found.apply_all(&mut board);

    assert_eq!(KnownSet::full().minus(removed), board.candidates(cell("A1")));
    assert_eq!(KnownSet::full().minus(removed), board.candidates(cell("A2")));

    assert_ne!(KnownSet::full(), board.candidates(cell("A5")));
}

#[test]
fn naked_triples() {
    let mut board = Board::new();
    let mut effects = Effects::new();

    let removed = knowns("1 2 3 4 5 6");
    board.remove_candidates_from_cells(cells("A1 A2 A5"), removed, &mut effects);

    let found = find_naked_tuples(&board, false, 3, Strategy::NakedTriple).unwrap();
    found.apply_all(&mut board);

    assert_eq!(KnownSet::full().minus(removed), board.candidates(cell("A1")));
    assert_eq!(KnownSet::full().minus(removed), board.candidates(cell("A2")));
    assert_eq!(KnownSet::full().minus(removed), board.candidates(cell("A5")));

    assert_ne!(KnownSet::full(), board.candidates(cell("A8")));
}

#[test]
fn naked_quads() {
    let mut board = Board::new();
    let mut effects = Effects::new();

    let removed = knowns("1 2 3 4 5");
    board.remove_candidates_from_cells(cells("A1 A2 A5 A8"), removed, &mut effects);

    let found = find_naked_tuples(&board, false, 4, Strategy::NakedQuad).unwrap();
    found.apply_all(&mut board);

    assert_eq!(KnownSet::full().minus(removed), board.candidates(cell("A1")));
    assert_eq!(KnownSet::full().minus(removed), board.candidates(cell("A2")));
    assert_eq!(KnownSet::full().minus(removed), board.candidates(cell("A5")));
    assert_eq!(KnownSet::full().minus(removed), board.candidates(cell("A8")));

    assert_ne!(KnownSet::full(), board.candidates(cell("A9")));
}

#[test]
fn naked_tuples_single_mode_returns_at_most_one_action() {
    let board = Board::new();
    if let Some(effects) = find_naked_pairs(&board, true) {
        assert!(effects.actions().len() <= 1);
    }
}

#[test]
fn naked_tuples_empty_board_returns_none() {
    let board = Board::new();
    assert!(find_naked_pairs(&board, false).is_none());
    assert!(find_naked_triples(&board, false).is_none());
    assert!(find_naked_quads(&board, false).is_none());
}

#[test]
fn naked_pair_erases_pair_digits_from_the_rest_of_the_row() {
    let mut board = Board::new();
    let mut effects = Effects::new();
    let removed = knowns("1 2 3 4 5 6 7");
    board.remove_candidates_from_cells(cells("A1 A2"), removed, &mut effects);

    let found = find_naked_pairs(&board, false).unwrap();
    found.apply_all(&mut board);

    for label in ["A3", "A4", "A5", "A6", "A7", "A8", "A9"] {
        assert!(!board.candidates(cell(label)).has(known("8")));
        assert!(!board.candidates(cell(label)).has(known("9")));
        assert!(board.candidates(cell(label)).has(known("1")));
    }
    assert!(board.candidates(cell("J1")).has(known("8")));
}

#[test]
fn naked_pair_single_mode_finds_one_action() {
    let mut board = Board::new();
    let mut effects = Effects::new();
    board.remove_candidates_from_cells(cells("A1 A2"), knowns("1 2 3 4 5 6 7"), &mut effects);

    let found = find_naked_pairs(&board, true).unwrap();
    assert_eq!(found.actions().len(), 1);
    assert_eq!(found.actions()[0].strategy(), Strategy::NakedPair);
}

// ---- skyscrapers

#[test]
fn skyscrapers_empty_board_returns_none() {
    let board = Board::new();
    let solver = SkyscraperSolver;

    assert!(solver.apply(&board, false).is_none());
    assert!(solver.apply(&board, true).is_none());
}

#[test]
fn solver_delegates_and_matches_free_function() {
    let board = Board::new();
    let solver = SkyscraperSolver;

    let via_solver = solver.apply(&board, false);
    let via_fn = find_skyscrapers(&board, false);

    assert_eq!(via_solver.is_some(), via_fn.is_some());
}

#[test]
fn skyscrapers_single_mode_never_returns_more_than_one_action() {
    let board = Board::new();
    let solver = SkyscraperSolver;

    if let Some(effects) = solver.apply(&board, true) {
        assert!(effects.actions().len() <= 1);
    }
}

#[test]
fn does_not_panic_on_trivial_board() {
    let board = Board::new();
    let solver = SkyscraperSolver;

    let eff = Effects::new();

    let _ = eff;

    let _ = solver.apply(&board, false);
}

// ---- unique rectangles

#[test]
fn unique_rectangles_empty_board_returns_none() {
    let board = Board::new();
    assert!(find_unique_rectangles(&board, false).is_none());
}

#[test]
fn solver_delegates_to_find_unique_rectangles() {
    let board = Board::new();
    let solver = UniqueRectangleSolver;

    let via_solver = solver.apply(&board, false);
    let via_fn = find_unique_rectangles(&board, false);

    assert_eq!(via_solver.is_some(), via_fn.is_some());
}

#[test]
fn unique_rectangles_single_mode_never_returns_more_than_one_action() {
    let board = Board::new();

    if let Some(effects) = find_unique_rectangles(&board, true) {
        assert!(effects.actions().len() <= 1);
    }
}

#[test]
fn no_false_positive_with_some_knowns() {
    let mut board = Board::new();
    let mut eff = Effects::new();

    board.set_known(cell("A1"), known("1"), &mut eff);
    board.set_known(cell("B2"), known("2"), &mut eff);
    board.set_known(cell("C3"), known("3"), &mut eff);
    board.set_known(cell("D4"), known("4"), &mut eff);

    assert!(!eff.has_errors());
    assert!(find_unique_rectangles(&board, false).is_none());
}

#[test]
fn unique_rectangles_type_one_is_found() {
    let mut board = Board::new();
    let mut eff = Effects::new();
    for label in ["A1", "A4", "B1"] {
        board.remove_candidates(cell(label), knowns("3 4 5 6 7 8 9"), &mut eff);
    }
    assert!(!eff.has_errors());

    let found = find_unique_rectangles(&board, true).expect("a type one rectangle");
    assert_eq!(found.actions().len(), 1);
    assert!(find_unique_rectangles(&board, false).is_some());
}

#[test]
fn unique_rectangle_type_one_erases_the_pair_from_the_fourth_corner() {
    let mut board = Board::new();
    let mut eff = Effects::new();
    for label in ["A1", "A4", "B1"] {
        board.remove_candidates(cell(label), knowns("3 4 5 6 7 8 9"), &mut eff);
    }
    let found = find_unique_rectangles(&board, true).expect("a type one rectangle");
    found.apply_all(&mut board);
    assert!(!board.candidates(cell("B4")).has(known("1")));
    assert!(!board.candidates(cell("B4")).has(known("2")));
    assert!(board.candidates(cell("B4")).has(known("3")));
    assert_eq!(board.candidates(cell("A1")), knowns("1 2"));
    assert!(board.candidates(cell("B5")).has(known("1")));
}

#[test]
fn unique_rectangle_type_two_erases_the_extra_digit_from_cells_seeing_the_roof() {
    let mut board = Board::new();
    let mut eff = Effects::new();
    for label in ["A1", "A4"] {
        board.remove_candidates(cell(label), knowns("3 4 5 6 7 8 9"), &mut eff);
    }
    for label in ["B1", "B4"] {
        board.remove_candidates(cell(label), knowns("4 5 6 7 8 9"), &mut eff);
    }
    assert!(!eff.has_errors());
    let found = find_unique_rectangles(&board, false).expect("a type two rectangle");
    found.apply_all(&mut board);
    assert!(!board.candidates(cell("B9")).has(known("3")));
    assert!(board.candidates(cell("B9")).has(known("1")));
    assert!(board.candidates(cell("B1")).has(known("3")));
    assert!(board.candidates(cell("C9")).has(known("3")));
}

#[test]
fn no_unique_rectangle_without_two_bivalue_twins() {
    let mut board = Board::new();
    let mut eff = Effects::new();
    board.remove_candidates(cell("A1"), knowns("3 4 5 6 7 8 9"), &mut eff);
    assert!(find_unique_rectangles(&board, false).is_none());
}

// ---- WXYZ wings

#[test]
fn wxyz_wing_of_a_quad_and_three_bivalue_cells_is_found() {
    let mut board = Board::new();
    let mut eff = Effects::new();
    board.remove_candidates(cell("A1"), knowns("5 6 7 8 9"), &mut eff);
    board.remove_candidates(cell("A5"), knowns("2 3 5 6 7 8 9"), &mut eff);
    board.remove_candidates(cell("B2"), knowns("1 3 5 6 7 8 9"), &mut eff);
    board.remove_candidates(cell("C3"), knowns("1 2 5 6 7 8 9"), &mut eff);
    assert!(!eff.has_errors());

    let found = find_wxyz_wings(&board, true).expect("a WXYZ-wing");
    assert_eq!(found.actions().len(), 1);
    assert!(find_wxyz_wings(&board, false).is_some());
}

#[test]
fn wxyz_wing_of_two_quads_and_two_bivalue_cells_is_found() {
    let mut board = Board::new();
    let mut eff = Effects::new();
    board.remove_candidates(cell("A1"), knowns("5 6 7 8 9"), &mut eff);
    board.remove_candidates(cell("A2"), knowns("5 6 7 8 9"), &mut eff);
    board.remove_candidates(cell("A5"), knowns("2 3 5 6 7 8 9"), &mut eff);
    board.remove_candidates(cell("B3"), knowns("1 3 5 6 7 8 9"), &mut eff);
    assert!(!eff.has_errors());

    let found = find_wxyz_wings(&board, true).expect("a WXYZ-wing");
    assert_eq!(found.actions().len(), 1);
}

#[test]
fn wxyz_wings_empty_board_returns_none() {
    let board = Board::new();
    assert!(find_wxyz_wings(&board, false).is_none());
}

#[test]
fn wxyz_wings_solver_delegates_to_find() {
    let board = Board::new();
    let solver = WXYZWingSolver;

    let via_solver = solver.apply(&board, false);
    let via_fn = find_wxyz_wings(&board, false);

    assert_eq!(via_solver.is_some(), via_fn.is_some());
}

#[test]
fn wxyz_wings_single_mode_never_returns_more_than_one_action() {
    let board = Board::new();

    if let Some(effects) = find_wxyz_wings(&board, true) {
        assert!(
            effects.actions().len() <= 1,
            "single=true darf höchstens eine Action liefern"
        );
    }
}

#[test]
fn wxyz_wings_no_panic_on_empty_board_multiple_mode() {
    let board = Board::new();
    let _ = find_wxyz_wings(&board, false);
}

// ---- XYZ wings

#[test]
fn xyz_wings_empty_board_returns_none() {
    let board = Board::new();
    assert!(find_xyz_wings(&board, false).is_none());
}

#[test]
fn xyz_wings_solver_delegates_to_find() {
    let board = Board::new();
    let solver = XYZWingSolver;

    let via_solver = solver.apply(&board, false);
    let via_fn = find_xyz_wings(&board, false);

    assert_eq!(via_solver.is_some(), via_fn.is_some());
}

#[test]
fn xyz_wings_single_mode_never_returns_more_than_one_action() {
    let board = Board::new();

    if let Some(effects) = find_xyz_wings(&board, true) {
        assert!(
            effects.actions().len() <= 1,
            "single=true darf höchstens eine Action liefern"
        );
    }
}

#[test]
fn xyz_wings_no_panic_on_empty_board_multiple_mode() {
    let board = Board::new();
    let _ = find_xyz_wings(&board, false);
}

#[test]
fn xyz_wing_erases_the_shared_digit_from_the_cells_seeing_all_three() {
    let mut board = Board::new();
    let mut eff = Effects::new();
    board.remove_candidates(cell("A1"), knowns("4 5 6 7 8 9"), &mut eff);
    board.remove_candidates(cell("B2"), knowns("2 4 5 6 7 8 9"), &mut eff);
    board.remove_candidates(cell("A5"), knowns("1 4 5 6 7 8 9"), &mut eff);
    assert!(!eff.has_errors());
    let found = find_xyz_wings(&board, false).expect("an XYZ-wing");
    assert_eq!(found.actions().len(), 1);
    found.apply_all(&mut board);
    assert!(!board.candidates(cell("A2")).has(known("3")));
    assert!(!board.candidates(cell("A3")).has(known("3")));
    assert!(board.candidates(cell("A2")).has(known("1")));
    assert!(board.candidates(cell("A9")).has(known("3")));
    assert!(board.candidates(cell("C3")).has(known("3")));
}

// ---- brute force

fn solved_board() -> Board {
    Board::new()
}

fn discr(r: BruteForceResult) -> &'static str {
    match r {
        BruteForceResult::AlreadySolved => "AlreadySolved",
        BruteForceResult::TooFewKnowns => "TooFewKnowns",
        BruteForceResult::UnsolvableCells(_) => "UnsolvableCells",
        BruteForceResult::Canceled => "Canceled",
        BruteForceResult::Unsolvable => "Unsolvable",
        BruteForceResult::Solved(_) => "Solved",
        BruteForceResult::MultipleSolutions(_) => "MultipleSolutions",
    }
}

#[test]
fn too_few_knowns_returns_too_few_knowns() {
    let board = Board::new();
    let solver = BruteForceSolver::new(false, 0, 100);

    match solver.find_brute_force(&board, true) {
        BruteForceResult::TooFewKnowns => {}
        other => panic!("Expected TooFewKnowns, got {:?}", discr(other)),
    }
}

#[test]
fn max_solutions_is_clamped_to_default_when_out_of_range() {
    let solver = BruteForceSolver::new(false, 0, 0);
    assert_eq!(solver.max_solutions, DEFAULT_MAXIMUM_SOLUTIONS);
}

#[test]
fn already_solved_board_returns_already_solved() {
    let board = solved_board();
    let solver = BruteForceSolver::new(false, 0, 100);

    if board.is_fully_solved() {
        match solver.find_brute_force(&board, true) {
            BruteForceResult::AlreadySolved => {}
            _ => panic!("Expected AlreadySolved"),
        }
    }
}

#[test]
fn find_brute_force_function_matches_solver_method_for_simple_case() {
    let board = Board::new();
    let solver = BruteForceSolver::new(false, 0, DEFAULT_MAXIMUM_SOLUTIONS);

    let a = solver.find_brute_force(&board, true);
    let b = find_brute_force(&board, true);

    assert!(matches!(a, BruteForceResult::TooFewKnowns));
    assert!(matches!(b, BruteForceResult::TooFewKnowns));
}

const SOLUTION: &str =
    "534678912672195348198342567859761423426853791713924856961537284287419635345286179";

fn board_from(digits: &str, blank: &[usize]) -> Board {
    let mut board = Board::new();
    let mut eff = Effects::new();
    for (i, ch) in digits.chars().enumerate() {
        if !blank.contains(&i) {
            board.set_known(Cell::new(i as u8), Known::from_char(ch), &mut eff);
        }
    }
    assert!(!eff.has_errors());
    board
}

#[test]
fn brute_force_fills_the_missing_cells_of_a_nearly_solved_board() {
    let board = board_from(SOLUTION, &[0, 10, 40, 80]);
    let solver = BruteForceSolver::new(false, 0, 10);
    match solver.find_brute_force(&board, true) {
        BruteForceResult::Solved(solved) => {
            assert!(solved.is_fully_solved());
            assert_eq!(solved.value(Cell::new(0)).known(), Some(Known::from_char('5')));
            assert_eq!(solved.value(Cell::new(80)).known(), Some(Known::from_char('9')));
        }
        other => panic!("Expected Solved, got {:?}", discr(other)),
    }
}

#[test]
fn brute_force_reports_a_fully_solved_board() {
    let board = board_from(SOLUTION, &[]);
    let solver = BruteForceSolver::new(false, 0, 10);
    assert!(matches!(solver.find_brute_force(&board, true), BruteForceResult::AlreadySolved));
}

// ---- patterns found on constructed boards

#[test]
fn skyscraper_on_two_rows_erases_the_cells_seeing_both_tops() {
    let mut board = Board::new();
    let mut effects = Effects::new();
    board.remove_candidates_from_cells(cells("A2 A3 A4 A6 A7 A8 A9"), knowns("1"), &mut effects);
    board.remove_candidates_from_cells(cells("E2 E3 E4 E5 E7 E8 E9"), knowns("1"), &mut effects);

    let found = find_skyscrapers(&board, false).unwrap();
    assert!(found.actions().len() >= 1);
    found.apply_all(&mut board);

    for label in ["B6", "C6", "D5", "F5"] {
        assert!(!board.candidates(cell(label)).has(known("1")));
    }
    assert!(board.candidates(cell("J9")).has(known("1")));
}

#[test]
fn empty_rectangle_erases_the_cell_where_its_lines_meet() {
    let mut board = Board::new();
    let mut effects = Effects::new();
    board.remove_candidates_from_cells(cells("A3 B2 B3 C2 C3"), knowns("1"), &mut effects);
    board.remove_candidates_from_cells(cells("B4 C4 D4 F4 G4 H4 J4"), knowns("1"), &mut effects);

    let found = find_empty_rectangles(&board, false).unwrap();
    assert_eq!(found.actions().len(), 1);
    found.apply_all(&mut board);

    assert!(!board.candidates(cell("E1")).has(known("1")));
    assert!(board.candidates(cell("D1")).has(known("1")));
}

#[test]
fn brute_force_finds_the_one_completion_of_a_board_missing_a_few_cells() {
    let board = board_from(SOLUTION, &[0, 10, 40, 80]);
    let solver = BruteForceSolver::new(false, 0, 10);
    match solver.find_brute_force(&board, false) {
        BruteForceResult::Solved(solved) => {
            for (i, ch) in SOLUTION.chars().enumerate() {
                assert_eq!(solved.value(Cell::new(i as u8)).known(), Some(Known::from_char(ch)));
            }
        }
        other => panic!("Expected Solved, got {:?}", discr(other)),
    }
}

#[test]
fn brute_force_reports_both_completions_of_a_deadly_rectangle() {
    let board = board_from(SOLUTION, &[32, 35, 41, 44]);
    let solver = BruteForceSolver::new(false, 0, 10);
    match solver.find_brute_force(&board, false) {
        BruteForceResult::MultipleSolutions(found) => assert_eq!(found.len(), 2),
        other => panic!("Expected MultipleSolutions, got {:?}", discr(other)),
    }
}
