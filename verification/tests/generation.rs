use sudokuroyale::generation::generator::Generator;
use sudokuroyale::layout::cell::Cell;
use sudokuroyale::layout::known::Known;
use sudokuroyale::layout::known_set::KnownSet;
use sudokuroyale::solve::board::Board;
use sudokuroyale::solve::cancelable::Cancelable;
use sudokuroyale::solve::changer::{ChangeResult, Changer, Options};
use sudokuroyale::solve::strategy::Strategy;

#[test]
fn test_generate_returns_some_board() {
    let mut generator = Generator::new(false, false);

    let changer = Changer::new(Options::errors());

    let cancelable = Cancelable::new();

    let board = generator.generate(&changer, &cancelable);
    assert!(
        board.is_some(),
        "Generator should return a board (or partial board) in normal operation"
    );
}

#[test]
fn test_shuffle_candidates_is_permutation() {
    let mut generator = Generator::new(true, false);

    let candidates = KnownSet::full();
    let shuffled = generator.shuffle_candidates(candidates);

    assert_eq!(shuffled.len(), KnownSet::full().len());

    let mut a = shuffled.clone();
    a.sort();

    let mut b: Vec<Known> = KnownSet::full().to_vec();
    b.sort();

    assert_eq!(a, b, "Shuffled candidates should contain exactly the same values");
}

#[test]
fn test_generate_returns_fully_solved_board_when_not_canceled() {
    let mut generator = Generator::new(false, false);
    let changer = Changer::new(Options::errors());
    let cancelable = Cancelable::new();

    let board = generator.generate(&changer, &cancelable).expect("expected Some(board)");

    assert_eq!(board.known_count(), 81, "generated board should have 81 known cells");
    assert!(board.is_fully_solved(), "generated board should be fully solved");
}

#[test]
fn test_pick_next_cell_on_empty_board_returns_some_cell() {
    let mut generator = Generator::new(false, false);
    let board = Board::new();

    let cell = generator.pick_next_cell(&board).expect("empty board should have a next cell");
    assert!(board.is_unknown(cell));
    assert!(board.candidates(cell).len() > 0);
}

#[test]
fn test_pick_next_cell_prefers_cell_with_single_candidate() {
    let changer = Changer::new(Options::errors());
    let mut board = Board::new();

    for col in 0u8..8u8 {
        let cell = Cell::new(col);
        let known = Known::new(col + 1);

        board = match changer.set_known(&board, Strategy::BruteForce, cell, known) {
            ChangeResult::Valid(after, _) => after,
            _other => panic!("expected Valid when setting known, got unexpected result"),
        };
    }

    let mut generator = Generator::new(false, false);
    let picked = generator.pick_next_cell(&board).expect("should pick a next cell");

    let expected = Cell::new(8);
    assert_eq!(
        picked, expected,
        "generator should pick the cell with the fewest candidates (here: 1 candidate)"
    );

    let cands = board.candidates(picked);
    assert_eq!(cands.len(), 1, "expected exactly 1 candidate for the picked cell");
    let only = cands.first().unwrap();
    assert_eq!(only, Known::new(9), "expected the only candidate to be 9");
}

#[test]
fn test_shuffle_candidates_subset_is_permutation_of_subset() {
    let mut generator = Generator::new(true, false);

    let subset = KnownSet::empty()
        .with(Known::new(2))
        .with(Known::new(5))
        .with(Known::new(9));
    let shuffled = generator.shuffle_candidates(subset);

    assert_eq!(shuffled.len(), 3);

    let mut a = shuffled.clone();
    a.sort();

    let mut b = vec![Known::new(2), Known::new(5), Known::new(9)];
    b.sort();

    assert_eq!(a, b, "shuffled subset should contain exactly the same elements");
}

#[test]
fn test_generate_board_has_no_unknown_cells() {
    let mut generator = Generator::new(false, false);
    let changer = Changer::new(Options::errors());
    let cancelable = Cancelable::new();

    let board = generator.generate(&changer, &cancelable).expect("expected Some(board)");

    for cell in Cell::all() {
        assert!(board.is_known(cell), "cell {:?} should be known", cell);
    }
}

#[test]
fn generate_returns_the_start_board_when_canceled_before_it_begins() {
    let mut generator = Generator::new(false, false);
    let changer = Changer::new(Options::errors());
    let cancelable = Cancelable::new();
    cancelable.cancel();

    let board = generator.generate(&changer, &cancelable).expect("expected Some(board)");
    assert_eq!(board.known_count(), 0);
}

#[test]
fn pick_next_cell_on_a_full_board_returns_none() {
    let mut generator = Generator::new(false, false);
    let changer = Changer::new(Options::errors());
    let cancelable = Cancelable::new();
    let board = generator.generate(&changer, &cancelable).unwrap();
    assert!(generator.pick_next_cell(&board).is_none());
}

#[test]
fn a_generated_board_repeats_no_digit_among_peers() {
    let mut generator = Generator::new(false, false);
    let changer = Changer::new(Options::errors());
    let cancelable = Cancelable::new();
    let board = generator.generate(&changer, &cancelable).unwrap();
    for c in Cell::all() {
        let v = board.value(c).value();
        for p in c.peers().to_vec() {
            assert_ne!(board.value(p).value(), v);
        }
    }
}

#[test]
fn generate_with_a_changer_that_does_not_stop_on_errors_still_gives_a_board() {
    let mut generator = Generator::new(false, false);
    let changer = Changer::new(Options::none());
    let cancelable = Cancelable::new();
    assert!(generator.generate(&changer, &cancelable).is_some());
}
