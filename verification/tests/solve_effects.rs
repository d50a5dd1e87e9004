use sudokuroyale::layout::cell::Cell;
use sudokuroyale::layout::known::Known;
use sudokuroyale::solve::action::Action;
use sudokuroyale::solve::board::Board;
use sudokuroyale::solve::change::Change;
use sudokuroyale::solve::effects::Effects;
use sudokuroyale::solve::error::Error;
use sudokuroyale::solve::strategy::Strategy;

fn cell(i: usize) -> Cell {
    Cell::new(i as u8)
}

fn known(n: u8) -> Known {
    Known::new(n)
}

fn action_set(c: Cell, k: Known) -> Action {
    Action::new_set(Strategy::NakedSingle, c, k)
}

fn action_erase(c: Cell, k: Known) -> Action {
    Action::new_erase(Strategy::IntersectionRemoval, c, k)
}

#[test]
fn new_effects_empty() {
    let effects = Effects::new();
    assert!(effects.is_empty());
    assert!(!effects.has_errors());
    assert!(!effects.has_actions());
}

#[test]
fn add_action_nonempty() {
    let mut effects = Effects::new();
    let action = action_set(cell(0), known(1));

    let added = effects.add_action(action.clone());
    assert!(added);
    assert!(effects.has_actions());
    assert_eq!(effects.actions().len(), 1);
    assert_eq!(effects.actions()[0], action);
}

#[test]
fn add_action_empty_returns_false() {
    let mut effects = Effects::new();
    let empty_action = Action::new(Strategy::NakedSingle);

    let added = effects.add_action(empty_action);
    assert!(!added);
    assert!(!effects.has_actions());
}

#[test]
fn add_error_and_clear() {
    let mut effects = Effects::new();
    let error = Error::UnsolvableCell(cell(0));
    effects.add_error(error.clone());

    assert!(effects.has_errors());
    assert_eq!(effects.error_count(), 1);
    assert_eq!(effects.errors()[0], error);

    effects.clear_errors();
    assert!(!effects.has_errors());
    assert_eq!(effects.error_count(), 0);
}

#[test]
fn add_set_and_erase_shortcuts() {
    let mut effects = Effects::new();
    effects.add_set(Strategy::NakedSingle, cell(0), known(1));
    effects.add_erase(Strategy::IntersectionRemoval, cell(1), known(2));

    assert_eq!(effects.actions().len(), 2);
    assert!(effects.actions()[0].sets(cell(0), known(1)));
    assert!(effects.actions()[1].erases(cell(1), known(2)));
}

#[test]
fn affecting_cell_and_known_filters_actions() {
    let mut effects = Effects::new();
    effects.add_set(Strategy::NakedSingle, cell(0), known(1));
    effects.add_erase(Strategy::IntersectionRemoval, cell(1), known(2));

    let cell_effects = effects.affecting_cell(cell(0));
    assert_eq!(cell_effects.actions().len(), 1);
    assert!(cell_effects.actions()[0].sets(cell(0), known(1)));

    let known_effects = effects.affecting_known(known(2));
    assert_eq!(known_effects.actions().len(), 1);
    assert!(known_effects.actions()[0].erases(cell(1), known(2)));
}

#[test]
fn without_action_removes_action_by_index() {
    let mut effects = Effects::new();
    effects.add_set(Strategy::NakedSingle, cell(0), known(1));
    effects.add_erase(Strategy::IntersectionRemoval, cell(1), known(2));

    let new_effects = effects.without_action(0);
    assert_eq!(new_effects.actions().len(), 1);
    assert!(new_effects.actions()[0].erases(cell(1), known(2)));
}

#[test]
fn take_actions_appends_from_other_effects() {
    let mut effects1 = Effects::new();
    effects1.add_set(Strategy::NakedSingle, cell(0), known(1));

    let mut effects2 = Effects::new();
    effects2.add_erase(Strategy::IntersectionRemoval, cell(1), known(2));

    effects1.take_actions(effects2);
    assert_eq!(effects1.actions().len(), 2);
}

#[test]
fn apply_actions_returns_valid() {
    let mut board = Board::new();
    let mut effects = Effects::new();
    let mut applied_effects = Effects::new();

    effects.add_set(Strategy::NakedSingle, cell(0), known(1));

    let change = effects.apply(&mut board, &mut applied_effects);
    assert_eq!(change, Change::Valid);
    assert!(board.is_known(cell(0)));
    assert_eq!(board.value(cell(0)).known(), Some(known(1)));
}

#[test]
fn apply_strategy_applies_only_matching_strategy() {
    let mut board = Board::new();
    let mut effects = Effects::new();
    effects.add_set(Strategy::NakedSingle, cell(0), known(1));
    effects.add_set(Strategy::HiddenSingle, cell(1), known(2));

    let mut applied = Effects::new();
    let change = effects.apply_strategy(&mut board, Strategy::NakedSingle, &mut applied);

    assert_eq!(change, Change::Valid);
    assert!(board.is_known(cell(0)));
    assert!(!board.is_known(cell(1)));
}

#[test]
fn apply_all_returns_some_if_errors() {
    let mut effects = Effects::new();
    effects.add_error(Error::UnsolvableCell(cell(0)));
    let mut board = Board::new();

    let result = effects.apply_all(&mut board);
    assert!(result.is_some());
    assert!(result.unwrap().has_errors());
}

#[test]
fn apply_all_strategy_loops_and_applies_correctly() {
    let mut board = Board::new();
    let mut effects = Effects::new();
    effects.add_set(Strategy::NakedSingle, cell(0), known(1));

    let result = effects.apply_all_strategy(&mut board, Strategy::NakedSingle);
    assert!(result.is_none());
    assert!(board.is_known(cell(0)));
}

#[test]
fn display_outputs_actions_and_errors() {
    let mut effects = Effects::new();
    effects.add_error(Error::UnsolvableCell(cell(0)));
    effects.add_set(Strategy::NakedSingle, cell(1), known(2));

    let output = effects.display_string();
    assert!(output.contains("Errors:"));
    assert!(output.contains("Actions:"));
    assert!(output.contains(&cell(1).label()));
}

#[test]
fn helpers_compile() {
    let _ = action_set(cell(0), known(1));
    let _ = action_erase(cell(1), known(2));
}

#[test]
fn apply_set_removes_digit_from_peers() {
    let mut board = Board::new();
    let mut effects = Effects::new();
    effects.add_set(Strategy::NakedSingle, cell(0), known(5));
    let mut applied = Effects::new();
    assert_eq!(effects.apply(&mut board, &mut applied), Change::Valid);
    assert!(!board.is_candidate(cell(1), known(5)));
    assert!(!board.is_candidate(cell(9), known(5)));
    assert!(!board.is_candidate(cell(10), known(5)));
    assert!(board.is_candidate(cell(80), known(5)));
    assert_eq!(board.known_count(), 1);
}

#[test]
fn apply_erase_of_last_candidate_reports_unsolvable_cell() {
    let mut board = Board::new();
    let mut effects = Effects::new();
    let mut all_but_one = sudokuroyale::layout::known_set::KnownSet::full();
    all_but_one.remove(known(9));
    effects.add_erase_knowns(Strategy::NakedSingle, cell(4), all_but_one);
    effects.add_erase(Strategy::NakedSingle, cell(4), known(9));
    let result = effects.apply_all(&mut board);
    assert!(result.is_some());
    let errors = result.unwrap();
    assert_eq!(errors.errors()[0], Error::UnsolvableCell(cell(4)));
}

#[test]
fn applying_nothing_changes_nothing() {
    let mut board = Board::new();
    let effects = Effects::new();
    let mut applied = Effects::new();
    assert_eq!(effects.apply(&mut board, &mut applied), Change::Nothing);
    assert_eq!(board.known_count(), 0);
}

#[test]
fn change_and_combines() {
    assert_eq!(Change::Nothing.and(Change::Nothing), Change::Nothing);
    assert_eq!(Change::Nothing.and(Change::Valid), Change::Valid);
    assert_eq!(Change::Valid.and(Change::Invalid), Change::Invalid);
    assert_eq!(Change::Invalid.and(Change::Nothing), Change::Invalid);
}

#[test]
fn action_counts_group_by_strategy() {
    let mut effects = Effects::new();
    effects.add_set(Strategy::NakedSingle, cell(0), known(1));
    effects.add_set(Strategy::NakedSingle, cell(20), known(2));
    effects.add_erase(Strategy::HiddenSingle, cell(1), known(2));
    let counts = effects.action_counts();
    assert!(counts.contains(&(Strategy::NakedSingle, 2)));
    assert!(counts.contains(&(Strategy::HiddenSingle, 1)));
    assert_eq!(counts.len(), 2);
}
