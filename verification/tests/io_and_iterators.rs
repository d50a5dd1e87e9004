use sudokuroyale::io::{format_for_fancy_console, format_number, print_all_and_single_candidates, show_progress};
use sudokuroyale::layout::any_house::{
    AnyHouse, AnyHouseIter, BlockIter, ColumnIter, HouseIterator, RowIter,
};
use sudokuroyale::layout::cell::Cell;
use sudokuroyale::layout::house::{Block, Column, HouseLike, Row};
use sudokuroyale::layout::known::Known;
use sudokuroyale::layout::shape::Shape;
use sudokuroyale::solve::board::Board;
use sudokuroyale::solve::effects::Effects;
use sudokuroyale::solve::error::Error;

#[test]
fn numbers_are_written_in_decimal() {
    assert_eq!(format_number(0), "0");
    assert_eq!(format_number(7), "7");
    assert_eq!(format_number(10), "10");
    assert_eq!(format_number(1234567), "1234567");
    assert_eq!(format_number(usize::MAX), usize::MAX.to_string());
}

#[test]
fn the_console_form_packs_the_values() {
    let mut board = Board::new();
    let mut eff = Effects::new();
    board.set_known(Cell::new(0), Known::new(4), &mut eff);
    let text = format_for_fancy_console(&board);
    assert_eq!(text.len(), 81);
    assert!(text.starts_with("4."));
    show_progress(1, 2);
    print_all_and_single_candidates(&board);
}

#[test]
fn errors_can_be_walked_in_order() {
    let mut eff = Effects::new();
    eff.add_error(Error::UnsolvableCell(Cell::new(3)));
    eff.add_error(Error::UnsolvableCell(Cell::new(5)));
    let all: Vec<Error> = eff.errors_iter().copied().collect();
    assert_eq!(all, vec![Error::UnsolvableCell(Cell::new(3)), Error::UnsolvableCell(Cell::new(5))]);
}

#[test]
fn house_iterators_walk_their_houses() {
    let mut rows = RowIter::new();
    let first = rows.next().unwrap();
    assert_eq!(first.shape(), Shape::Row);
    assert_eq!(first.coord().u8(), 0);
    let mut n = 1;
    while rows.next().is_some() {
        n += 1;
    }
    assert_eq!(n, 9);
    assert!(ColumnIter::new().next().unwrap().is_column());
    assert!(BlockIter::new().next().unwrap().is_block());

    let mut any = AnyHouseIter::new();
    let mut shapes = Vec::new();
    while let Some(h) = any.next() {
        shapes.push(h.shape());
    }
    assert_eq!(shapes.len(), 27);
    assert_eq!(shapes[8], Shape::Row);
    assert_eq!(shapes[9], Shape::Column);
    assert_eq!(shapes[18], Shape::Block);
}

#[test]
fn every_kind_lists_its_houses() {
    assert_eq!(Row::all_houses().len(), 9);
    assert_eq!(Column::all_houses()[4].coord().u8(), 4);
    assert_eq!(Block::all_houses()[8].cells().len(), 9);
    let all = AnyHouse::all_houses();
    assert_eq!(all.len(), 27);
    assert_eq!(all[26].label(), "Box 9");
}
