use sudokuroyale::layout::cell::Cell;
use sudokuroyale::layout::cell_set::CellSet;
use sudokuroyale::layout::coord::Coord;
use sudokuroyale::layout::house::{House, HouseIter, HousesIter};
use sudokuroyale::layout::house_set::{HouseSet, HouseSetLike};
use sudokuroyale::layout::shape::{Shape, ShapeCells, ShapeTrait};

#[test]
fn shape_label_and_index() {
    assert_eq!(ShapeTrait::label(&Shape::Row), "Row");
    assert_eq!(ShapeTrait::label(&Shape::Column), "Col");
    assert_eq!(ShapeTrait::label(&Shape::Block), "Box");

    assert_eq!(ShapeTrait::index(&Shape::Row), 0);
    assert_eq!(ShapeTrait::index(&Shape::Column), 1);
    assert_eq!(ShapeTrait::index(&Shape::Block), 2);
}

#[test]
fn shape_from_char() {
    assert_eq!(Shape::from_char('R'), Shape::Row);
    assert_eq!(Shape::from_char('C'), Shape::Column);
    assert_eq!(Shape::from_char('B'), Shape::Block);
}

#[test]
fn shape_new_index() {
    assert_eq!(Shape::new(0), Shape::Row);
    assert_eq!(Shape::new(1), Shape::Column);
    assert_eq!(Shape::new(2), Shape::Block);
}

#[test]
fn cell_at_correct() {
    let c = Shape::Row.cell(Coord::new(1), Coord::new(5));
    assert_eq!(c.index(), 14);

    let c = Shape::Column.cell(Coord::new(2), Coord::new(3));
    assert_eq!(c.index(), 29);
}

#[test]
fn cells_row_column_block_first_house() {
    for i in 0..9u8 {
        let cell = Shape::Row.cell(Coord::new(0), Coord::new(i));
        assert_eq!(cell.index(), i);
    }

    for i in 0..9u8 {
        let cell = Shape::Column.cell(Coord::new(0), Coord::new(i));
        assert_eq!(cell.index(), i * 9);
    }

    assert_eq!(Shape::Block.cell(Coord::new(0), Coord::new(0)).index(), 0);
    assert_eq!(Shape::Block.cell(Coord::new(0), Coord::new(1)).index(), 1);
    assert_eq!(Shape::Block.cell(Coord::new(0), Coord::new(2)).index(), 2);
}

#[test]
fn cell_sets_length() {
    assert_eq!(Shape::Row.cell_sets().len(), 9);
    assert_eq!(Shape::Column.cell_sets().len(), 9);
    assert_eq!(Shape::Block.cell_sets().len(), 9);
}

#[test]
fn house_and_house_iter() {
    let house = ShapeTrait::house(&Shape::Row, Coord::new(3));
    assert_eq!(house.coord().index(), 3);
    assert!(house.shape().is_row());

    let mut iter = Shape::Row.house_iter();
    for i in 0..9u8 {
        let h = iter.next().unwrap();
        assert_eq!(h.coord().index(), i);
        assert!(h.shape().is_row());
    }
    assert!(iter.next().is_none());
}

#[test]
fn shape_iter() {
    let mut iter = <Shape as ShapeTrait>::iter();
    assert_eq!(iter.next(), Some(Shape::Row));
    assert_eq!(iter.next(), Some(Shape::Column));
    assert_eq!(iter.next(), Some(Shape::Block));
    assert_eq!(iter.next(), None);
}

#[test]
fn house_type_checks() {
    let row = Shape::Row;
    let col = Shape::Column;
    let block = Shape::Block;

    assert!(row.is_row());
    assert!(!row.is_column());
    assert!(!row.is_block());

    assert!(col.is_column());
    assert!(!col.is_row());
    assert!(!col.is_block());

    assert!(block.is_block());
    assert!(!block.is_row());
    assert!(!block.is_column());
}

#[test]
fn display_and_debug() {
    assert_eq!(ShapeTrait::label(&Shape::Row), "Row");
    assert_eq!(Shape::Block.debug_string(), "Shape::Box");
}

#[test]
fn coord_and_cell_debug() {
    let coord = Coord::new(7);
    let cell = Cell::new(42);

    let coord_dbg = format!("{:?}", coord);
    let cell_dbg = format!("{:?}", cell);

    assert!(coord_dbg.contains("7"));
    assert!(cell_dbg.contains("42"));
}

#[test]
fn house_iterators() {
    let mut iter = HouseIter::new(Shape::Row);

    for i in 0..9u8 {
        let h = iter.next().unwrap();
        assert!(h.is_row());
        assert_eq!(h.coord(), Coord::new(i));
    }

    assert!(iter.next().is_none());

    let mut all = HousesIter::new();
    let mut count = 0;

    while let Some(h) = all.next() {
        assert!(matches!(h.shape(), Shape::Row | Shape::Column | Shape::Block));
        count += 1;
    }

    assert_eq!(count, 27);
}

#[test]
fn empty_and_full_sets() {
    let empty = HouseSet::empty(Shape::Row);
    assert!(empty.is_empty());
    assert!(!empty.is_full());
    assert_eq!(empty.len(), 0);

    let full = HouseSet::full(Shape::Row);
    assert!(!full.is_empty());
    assert!(full.is_full());
    assert_eq!(full.len(), 9);
}

#[test]
fn add_and_remove_houses() {
    let r1 = House::row(Coord::new(0));
    let r2 = House::row(Coord::new(1));

    let mut set = HouseSet::empty(Shape::Row);
    set.add(r1);
    assert!(set.has(r1));
    assert_eq!(set.len(), 1);

    set.add(r2);
    assert!(set.has(r2));
    assert_eq!(set.len(), 2);

    set.remove(r1);
    assert!(!set.has(r1));
    assert_eq!(set.len(), 1);
}

#[test]
fn union_and_intersect() {
    let r1 = House::row(Coord::new(0));
    let r2 = House::row(Coord::new(1));

    let set1 = HouseSet::empty(Shape::Row).with(r1);
    let set2 = HouseSet::empty(Shape::Row).with(r2);

    let union = set1.union(set2);
    assert!(union.has(r1));
    assert!(union.has(r2));
    assert_eq!(union.len(), 2);

    let intersect = union.intersect(set1);
    assert!(intersect.has(r1));
    assert!(!intersect.has(r2));
    assert_eq!(intersect.len(), 1);
}

#[test]
fn minus_and_inverted() {
    let r1 = House::row(Coord::new(0));
    let r2 = House::row(Coord::new(1));

    let full = HouseSet::full(Shape::Row);

    let minus_set = full.minus(HouseSet::empty(Shape::Row).with(r1));
    assert!(!minus_set.has(r1));
    assert!(minus_set.has(r2));
    assert_eq!(minus_set.len(), 8);

    let inv = minus_set.inverted();
    assert!(inv.has(r1));
    assert!(!inv.has(r2));
    assert_eq!(inv.len(), 1);
}

#[test]
fn iter_and_from_iter() {
    let r1 = House::row(Coord::new(0));
    let r2 = House::row(Coord::new(1));

    let mut set = HouseSet::empty(Shape::Row);
    for h in vec![r1, r2] {
        set.add(h);
    }

    let mut iterated: Vec<House> = Vec::new();
    let mut iter = set.iter();
    while let Some(h) = iter.next() {
        iterated.push(h);
    }
    assert_eq!(iterated.len(), 2);
    assert!(iterated.contains(&r1));
    assert!(iterated.contains(&r2));
}

#[test]
fn from_labels() {
    let set = HouseSet::from_labels(Shape::Row, "R1 R2");

    assert!(set.has(House::row(Coord::new(0))));
    assert!(set.has(House::row(Coord::new(1))));
    assert_eq!(set.len(), 2);
}

#[test]
fn as_single_pair_triple() {
    let r1 = House::row(Coord::new(0));
    let r2 = House::row(Coord::new(1));
    let r3 = House::row(Coord::new(2));

    let set1 = HouseSet::empty(Shape::Row).with(r1);
    assert_eq!(set1.as_single(), Some(r1));

    let set2 = HouseSet::empty(Shape::Row).with(r1).with(r2);
    assert_eq!(set2.as_pair(), Some((r1, r2)));

    let set3 = HouseSet::empty(Shape::Row).with(r1).with(r2).with(r3);
    assert_eq!(set3.as_triple(), Some((r1, r2, r3)));
}

#[test]
fn cells_union_of_houses() {
    let r1 = House::row(Coord::new(0));
    let r2 = House::row(Coord::new(1));

    let set = HouseSet::empty(Shape::Row).with(r1).with(r2);
    let cells = set.cells();

    for c in r1.cells().to_vec() {
        assert!(cells.has(c));
    }
    for c in r2.cells().to_vec() {
        assert!(cells.has(c));
    }
}

#[test]
fn house_labels_from_str() {
    let h = House::from_str("C5");
    assert!(h.is_column());
    assert_eq!(h.coord().index(), 4);
    assert_eq!(h.label(), "Col 5");
}

#[test]
fn house_creation_and_basic_properties() {
    let r = House::row(Coord::new(0));
    let c = House::column(Coord::new(1));
    let b = House::block(Coord::new(2));

    assert!(r.is_row());
    assert!(!r.is_column());
    assert!(!r.is_block());
    assert_eq!(r.coord(), Coord::new(0));

    assert!(c.is_column());
    assert_eq!(c.coord(), Coord::new(1));

    assert!(b.is_block());
    assert_eq!(b.coord(), Coord::new(2));
}

#[test]
fn labels_and_console_labels() {
    let r = House::row(Coord::new(0));
    let c = House::column(Coord::new(1));
    let b = House::block(Coord::new(2));

    assert_eq!(r.label(), "Row A");
    assert_eq!(r.console_label(), 'A');

    assert_eq!(c.label(), "Col 2");
    assert_eq!(c.console_label(), '2');

    assert_eq!(b.label(), "Box 3");
    assert_eq!(b.console_label(), '❸');
}

#[test]
fn row_cells_are_correct() {
    let r = House::row(Coord::new(1));
    let mut expected = CellSet::empty();
    for col in 0..9 {
        expected.add(Cell::from_row(Coord::new(1), Coord::new(col)));
    }
    assert_eq!(r.cells(), expected);
}

#[test]
fn column_cells_are_correct() {
    let c = House::column(Coord::new(2));
    let mut expected = CellSet::empty();
    for row in 0..9 {
        expected.add(Cell::from_column(Coord::new(2), Coord::new(row)));
    }
    assert_eq!(c.cells(), expected);
}

#[test]
fn block_cells_are_correct() {
    let b = House::block(Coord::new(0));
    let mut expected = CellSet::empty();
    for i in 0..9 {
        expected.add(Cell::from_block(b, Coord::new(i)));
    }
    assert_eq!(b.cells(), expected);
}

#[test]
fn cell_access_matches_cells() {
    let r = House::row(Coord::new(3));
    for i in 0..9 {
        let cell = r.cell(Coord::new(i));
        assert!(r.has(cell));
    }
}

#[test]
fn house_from_str() {
    let r = House::from_str("R1");
    let c = House::from_str("C5");
    let b = House::from_str("B9");

    assert_eq!(r, House::row(Coord::new(0)));
    assert_eq!(c, House::column(Coord::new(4)));
    assert_eq!(b, House::block(Coord::new(8)));
}

#[test]
fn house_intersections() {
    let row = House::row(Coord::new(0));
    let block = House::block(Coord::new(0));
    let col = House::column(Coord::new(0));

    let rb = row.intersect(block);
    let mut expected_rb = CellSet::empty();
    expected_rb.add(Cell::from_row(Coord::new(0), Coord::new(0)));
    expected_rb.add(Cell::from_row(Coord::new(0), Coord::new(1)));
    expected_rb.add(Cell::from_row(Coord::new(0), Coord::new(2)));
    assert_eq!(rb, expected_rb);

    let cb = col.intersect(block);
    let mut expected_cb = CellSet::empty();
    expected_cb.add(Cell::from_column(Coord::new(0), Coord::new(0)));
    expected_cb.add(Cell::from_column(Coord::new(0), Coord::new(1)));
    expected_cb.add(Cell::from_column(Coord::new(0), Coord::new(2)));
    assert_eq!(cb, expected_cb);
}

#[test]
fn crossing_houses_row_to_columns() {
    let row = House::row(Coord::new(1));
    let mut cells = CellSet::empty();
    cells.add(Cell::from_row(Coord::new(1), Coord::new(0)));
    cells.add(Cell::from_row(Coord::new(1), Coord::new(1)));

    let houses = row.crossing_houses(cells);

    let mut expected = HouseSet::empty(Shape::Column);
    expected.add(House::column(Coord::new(0)));
    expected.add(House::column(Coord::new(1)));
    assert_eq!(houses, expected);
}

#[test]
fn crossing_houses_column_to_rows() {
    let col = House::column(Coord::new(5));
    let mut cells = CellSet::empty();
    cells.add(Cell::from_column(Coord::new(5), Coord::new(2)));
    cells.add(Cell::from_column(Coord::new(5), Coord::new(5)));

    let houses = col.crossing_houses(cells);

    let mut expected = HouseSet::empty(Shape::Row);
    expected.add(House::row(Coord::new(2)));
    expected.add(House::row(Coord::new(5)));
    assert_eq!(houses, expected);
}

#[test]
fn ordering_of_houses() {
    let r0 = House::row(Coord::new(0));
    let r1 = House::row(Coord::new(1));
    let c0 = House::column(Coord::new(0));

    assert!(r0.lt(&r1));
    assert!(r1.lt(&c0));
}
