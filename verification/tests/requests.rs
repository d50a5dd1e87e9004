use sudokuroyale::api::convert::{match_id_string, parse_uuid};
use sudokuroyale::game_match::repository::MatchRepository;
use sudokuroyale::game_match::services::{check_start, create_match, match_state_by_text, RequestError};
use sudokuroyale::generation::generator::Generator;
use sudokuroyale::layout::cell_set::CellSet;
use sudokuroyale::solve::cancelable::Cancelable;
use sudokuroyale::solve::changer::{Changer, Options};

#[test]
fn parse_uuid_reads_the_hyphenated_form() {
    let id = 0x0123_4567_89ab_cdef_0123_4567_89ab_cdefu128;
    assert_eq!(parse_uuid("01234567-89ab-cdef-0123-456789abcdef"), Some(id));
    assert_eq!(parse_uuid("not a uuid"), None);
    assert_eq!(parse_uuid(""), None);
}

#[test]
fn match_id_text_parses_back() {
    let id = 0xdead_beef_0000_1111_2222_3333_4444_5555u128;
    let text = match_id_string(id);
    assert_eq!(text, "deadbeef-0000-1111-2222-333344445555");
    assert_eq!(parse_uuid(&text), Some(id));
}

#[test]
fn check_start_refuses_bad_and_unknown_ids() {
    let mut repo = MatchRepository::new();
    let user = 7u128;
    let match_id = create_match(&mut repo, user);
    assert_eq!(check_start(&repo, user, "garbage"), Err(RequestError::BadId));
    assert_eq!(
        check_start(&repo, user, &match_id_string(match_id ^ 1)),
        Err(RequestError::NotFound)
    );
    // The creator may not start before a second player joined.
    assert_eq!(check_start(&repo, user, &match_id_string(match_id)), Ok((match_id, false)));
}

#[test]
fn match_state_by_text_refuses_bad_ids() {
    let mut repo = MatchRepository::new();
    let user = 7u128;
    let match_id = create_match(&mut repo, user);
    assert!(matches!(match_state_by_text(&mut repo, user, "garbage", 0), Err(RequestError::BadId)));
    // No game has started, so there is no state to show.
    assert!(matches!(
        match_state_by_text(&mut repo, user, &match_id_string(match_id), 0),
        Err(RequestError::NotFound)
    ));
}

#[test]
fn generate_without_cancel_gives_a_complete_grid() {
    let mut generator = Generator::new(false, false);
    let changer = Changer::new(Options::errors());
    let cancelable = Cancelable::new();
    let (board, stopped) = generator.generate_or_stop(&changer, &cancelable);
    assert!(!stopped);
    let board = board.expect("a board");
    assert_eq!(board.known_count(), 81);
    assert!(board.is_fully_solved());
}

#[test]
fn generate_stops_on_a_raised_flag() {
    let mut generator = Generator::new(false, false);
    let changer = Changer::new(Options::errors());
    let cancelable = Cancelable::new();
    cancelable.cancel();
    let (board, stopped) = generator.generate_or_stop(&changer, &cancelable);
    assert!(stopped);
    assert!(board.is_some());
}

#[test]
fn inverted_set_counts_the_rest() {
    let s = CellSet::from_str("A1 B2 C3");
    assert_eq!(s.inverted().len(), 78);
    assert_eq!(CellSet::empty().inverted().len(), 81);
    assert!(CellSet::from_str("A1 B2").equals(&CellSet::from_str("B2 A1")));
    assert_eq!(CellSet::from_str("A1 B2"), CellSet::from_str("B2 A1"));
}
