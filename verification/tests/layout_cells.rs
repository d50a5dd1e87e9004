use sudokuroyale::layout::cell::Cell;
use sudokuroyale::layout::cell_set::CellSet;
use sudokuroyale::layout::house_set::HouseSetLike;
use sudokuroyale::layout::rectangle::Rectangle;
use sudokuroyale::layout::shape::Shape;

fn collect(set: CellSet) -> Vec<Cell> {
    let mut out = Vec::new();
    let mut iter = set.iter();
    while let Some(c) = iter.next() {
        out.push(c);
    }
    out
}

#[test]
fn empty() {
    let set = CellSet::empty();

    assert!(set.is_empty());
    assert_eq!(0, set.len());
    for i in 0..81u8 {
        assert!(!set.has(Cell::new(i)));
    }
}

#[test]
fn full() {
    let set = CellSet::full();

    assert!(!set.is_empty());
    assert_eq!(Cell::COUNT, set.len() as u8);
    for i in 0..81u8 {
        assert!(set.has(Cell::new(i)));
    }
}

#[test]
fn new_from_pattern() {
    let set = CellSet::new_from_pattern(
        "
            7..1....9
            .2.3..7..
            4.9......
            .6.8..2..
            .........
            .7...1.5.
            .....49..
            .46..5..2
            .1...68..
        ",
    );

    assert_eq!(
        CellSet::from_str("A1 A4 A9 B2 B4 B7 C1 C3 D2 D4 D7 F2 F6 F8 G6 G7 H2 H3 H6 H9 J2 J6 J7"),
        set
    );
}

#[test]
fn iter_order() {
    let set = CellSet::from_str("D3 G5 H2");
    let got = collect(set);

    assert_eq!(got, vec![Cell::from_str("D3"), Cell::from_str("G5"), Cell::from_str("H2")]);
}

#[test]
fn pattern_string() {
    assert_eq!(
        ".................................................................................",
        CellSet::empty().pattern_string()
    );
    assert_eq!(
        "................1....1...........................1..............1................",
        CellSet::from_str("B8 C4 F5 H2").pattern_string()
    );
}

#[test]
fn test_add_and_remove() {
    let mut set = CellSet::empty();
    let c1 = Cell::new(0);
    let c2 = Cell::new(10);

    CellSet::add(&mut set, c1);
    assert!(set.has(c1));
    CellSet::add(&mut set, c2);
    assert!(set.has(c2));
    assert_eq!(set.len(), 2);

    set.remove(c1);
    assert!(!set.has(c1));
    assert_eq!(set.len(), 1);
}

#[test]
fn test_with_and_without() {
    let set = CellSet::empty();
    let c = Cell::new(5);
    let set2 = set.with(c);
    assert!(set2.has(c));
    let set3 = set2.without(c);
    assert!(!set3.has(c));
}

#[test]
fn test_union_intersect_minus_invert() {
    let c1 = Cell::new(1);
    let c2 = Cell::new(2);
    let c3 = Cell::new(3);

    let set1 = CellSet::empty().with(c1).with(c2);
    let set2 = CellSet::empty().with(c2).with(c3);

    let union = set1.union(set2);
    assert!(union.has(c1));
    assert!(union.has(c2));
    assert!(union.has(c3));

    let intersect = set1.intersect(set2);
    assert!(intersect.has(c2));
    assert_eq!(intersect.len(), 1);

    let minus = set1.minus(set2);
    assert!(minus.has(c1));
    assert!(!minus.has(c2));

    let inverted = set1.inverted();
    assert!(!inverted.has(c1));
    assert!(!inverted.has(c2));
    assert!(inverted.has(c3));
}

#[test]
fn test_operator_traits() {
    let mut set = CellSet::empty();
    set.add(Cell::new(0));
    set.add(Cell::new(1));
    assert!(set.has(Cell::new(0)));
    assert!(set.has(Cell::new(1)));

    let set2 = CellSet::empty().with(Cell::new(1)).with(Cell::new(2));
    let union = set.union(set2);
    assert!(union.has(Cell::new(0)));
    assert!(union.has(Cell::new(1)));
    assert!(union.has(Cell::new(2)));

    let intersect = set.intersect(set2);
    assert!(intersect.has(Cell::new(1)));
    assert_eq!(intersect.len(), 1);

    let diff = set2.minus(set);
    assert!(diff.has(Cell::new(2)));
    assert!(!diff.has(Cell::new(1)));

    let inverted = set.inverted();
    assert!(!inverted.has(Cell::new(0)));
    assert!(inverted.has(Cell::new(2)));
}

#[test]
fn test_as_single_pair_triple_first_pop() {
    let single = CellSet::empty().with(Cell::new(5));
    assert_eq!(single.as_single(), Some(Cell::new(5)));
    assert_eq!(single.as_pair(), None);
    assert_eq!(single.as_triple(), None);

    let pair = CellSet::empty().with(Cell::new(1)).with(Cell::new(3));
    assert_eq!(pair.as_single(), None);
    assert_eq!(pair.as_pair(), Some((Cell::new(1), Cell::new(3))));
    assert_eq!(pair.as_triple(), None);

    let triple = CellSet::empty().with(Cell::new(0)).with(Cell::new(2)).with(Cell::new(4));
    assert_eq!(triple.as_triple(), Some((Cell::new(0), Cell::new(2), Cell::new(4))));

    let mut pop_set = triple;
    let popped = pop_set.pop();
    assert_eq!(popped, Some(Cell::new(0)));
    assert_eq!(pop_set.len(), 2);
}

#[test]
fn test_iter_and_bit_iter() {
    let set = CellSet::empty().with(Cell::new(1)).with(Cell::new(3)).with(Cell::new(5));

    let cells = collect(set);
    assert_eq!(cells, vec![Cell::new(1), Cell::new(3), Cell::new(5)]);

    let mut bits = Vec::new();
    let mut iter = set.bit_iter();
    while let Some(b) = iter.next() {
        bits.push(b.cell());
    }
    assert_eq!(bits, cells);
}

#[test]
fn test_share_house_and_rows_columns_blocks() {
    let set = CellSet::empty().with(Cell::new(0)).with(Cell::new(1));
    assert!(set.share_row());
    assert!(!set.share_column());
    assert!(set.share_block());
    assert!(set.share_house(Shape::Row));
    assert!(!set.share_house(Shape::Column));

    let rows = set.rows();
    assert_eq!(rows.len(), 1);

    let columns = set.columns();
    assert_eq!(columns.len(), 2);
}

#[test]
fn test_peers() {
    let cell = Cell::new(0);
    let set = CellSet::empty().with(cell);
    let peers = set.peers();
    assert!(!peers.has(cell));
    assert_eq!(peers.len(), 20);
}

#[test]
fn test_pattern_string_display_debug() {
    let set = CellSet::empty().with(Cell::new(0)).with(Cell::new(80));
    let pattern = set.pattern_string();
    assert_eq!(pattern.chars().nth(0), Some('1'));
    assert_eq!(pattern.chars().nth(80), Some('1'));

    let display = set.label_string();
    assert!(display.contains("A1"));

    let dbg = set.debug();
    assert!(dbg.starts_with("02:"));
}

#[test]
fn test_rectangle_new_basic() {
    let tl = Cell::from_str("A1");
    let br = Cell::from_str("B2");
    let rect = Rectangle::new(tl, br);

    assert_eq!(rect.tl_br().0, tl);
    assert_eq!(rect.tl_br().1, br);

    assert_eq!(rect.block_count(), 1);
}

#[test]
fn test_rectangle_new_block_count() {
    let rect1 = Rectangle::new(Cell::from_str("A1"), Cell::from_str("B2"));
    assert_eq!(rect1.block_count(), 1);

    let rect2 = Rectangle::new(Cell::from_str("A1"), Cell::from_str("A5"));
    assert_eq!(rect2.block_count(), 2);

    let rect3 = Rectangle::new(Cell::from_str("A1"), Cell::from_str("E5"));
    assert_eq!(rect3.block_count(), 4);
}

#[test]
fn test_rectangle_from_cells() {
    let c1 = Cell::from_str("A1");
    let c2 = Cell::from_str("A2");
    let c3 = Cell::from_str("B1");
    let c4 = Cell::from_str("B2");

    let rect = Rectangle::from(c1, c2, c3, c4);
    let (tl, br) = rect.tl_br();
    assert_eq!(tl, Cell::from_str("A1"));
    assert_eq!(br, Cell::from_str("B2"));
}

#[test]
fn test_rectangle_with_origin() {
    let rect = Rectangle::new(Cell::from_str("A1"), Cell::from_str("B2"));
    let r1 = rect.with_origin(Cell::from_str("B2"));
    let r2 = rect.with_origin(Cell::from_str("A1"));

    assert_eq!(r2.tl_br(), rect.tl_br());
    assert_ne!(r1.tl_br(), rect.tl_br());
}

#[test]
fn test_rectangle_try_from_vec_and_cells() {
    let cells = vec![
        Cell::from_str("A1"),
        Cell::from_str("A2"),
        Cell::from_str("B1"),
        Cell::from_str("B2"),
    ];

    let rect_from_vec = Rectangle::try_from_vec(cells.clone()).unwrap();
    let mut set = CellSet::empty();
    for c in cells.clone() {
        set.add(c);
    }
    let rect_from_set = Rectangle::try_from_cells(set).unwrap();

    assert_eq!(rect_from_vec.tl_br(), rect_from_set.tl_br());

    let too_few = vec![Cell::from_str("A1")];
    assert!(Rectangle::try_from_vec(too_few).is_err());

    let too_many = vec![
        Cell::from_str("A1"),
        Cell::from_str("A2"),
        Cell::from_str("B1"),
        Cell::from_str("B2"),
        Cell::from_str("C3"),
    ];
    assert!(Rectangle::try_from_vec(too_many).is_err());
}

#[test]
fn test_rectangle_display_and_debug() {
    let rect = Rectangle::new(Cell::from_str("A1"), Cell::from_str("B2"));
    let debug_str = rect.debug_string();
    let display_str = rect.label_string();

    assert!(debug_str.contains("Rectangle(A1 B2)"));
    assert!(display_str.starts_with("R"));
    assert!(display_str.contains("C"));
}

#[test]
fn test_rectangle_iter() {
    let mut iter = Rectangle::iter();
    let mut count = 0;
    while let Some(rect) = iter.next() {
        let (tl, br) = rect.tl_br();
        assert!(tl.index() <= br.index());
        count += 1;
    }
    assert!(count > 0);
}

#[test]
fn test_rectangle_iter_fused() {
    let mut iter = Rectangle::iter();
    while iter.next().is_some() {}
    assert!(iter.next().is_none());
    assert!(iter.next().is_none());
}
