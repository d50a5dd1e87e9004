use sudokuroyale::layout::bit::Bit;
use sudokuroyale::layout::cell::Cell;
use sudokuroyale::layout::known::{Known, KnownLike};

#[test]
fn test_bit_new_and_index() {
    let bit = Bit::new(1);
    assert_eq!(bit.index(), 0);
    assert_eq!(bit.bit(), 1);

    let bit2 = Bit::new(1 << 5);
    assert_eq!(bit2.index(), 5);
    assert_eq!(bit2.bit(), 32);
}

#[test]
fn test_bit_cell_conversion() {
    let cell = Cell::new(7);
    let bit = Bit::from_cell(cell);
    assert_eq!(bit.index(), 7);
    assert_eq!(bit.cell(), cell);
}

#[test]
fn test_bit_from_label() {
    let bit = Bit::from_label("A1");
    assert_eq!(bit.index(), 0);

    let bit2 = Bit::from_label("C3");
    let expected_index = Cell::from_str("C3").index();
    assert_eq!(bit2.index(), expected_index);
    assert_eq!(expected_index, 20);
}

#[test]
fn test_bit_max_and_all() {
    assert_eq!(Bit::MAX, 1u128 << (Cell::COUNT - 1));
    assert_eq!(Bit::ALL, (1u128 << Cell::COUNT) - 1);
}

#[test]
fn test_bit_deref() {
    let mut bit = Bit::new(1 << 4);
    assert_eq!(bit.bit(), 1 << 4);

    bit.set(1 << 5);
    assert_eq!(bit.index(), 5);
}

#[test]
fn new_maps_value_to_index() {
    let k = Known::new(1);
    assert_eq!(k.index(), 0);

    let k = Known::new(9);
    assert_eq!(k.index(), 8);
}

#[test]
fn from_index_maps_back_to_value() {
    let k = Known::from_index(0);
    assert_eq!(k.value().value(), 1);

    let k = Known::from_index(8);
    assert_eq!(k.value().value(), 9);
}

#[test]
fn known_like_consistency() {
    let k = Known::new(5);
    assert_eq!(k.index(), 4);
    assert_eq!(k.bit(), 1 << 4);
    assert_eq!(k.label(), '5');
}

#[test]
fn try_from_char_valid() {
    let k = Known::try_from_char('7').unwrap();
    assert_eq!(k.index(), 6);
}

#[test]
fn try_from_char_invalid() {
    assert!(Known::try_from_char('0').is_err());
    assert!(Known::try_from_char('x').is_err());
}

#[test]
fn try_from_str() {
    assert!(Known::try_from_str("9").is_ok());
    assert!(Known::try_from_str("").is_err());
}

#[test]
fn iter_yields_all_knowns() {
    let mut values = Vec::new();
    let mut iter = Known::iter();
    while let Some(k) = iter.next() {
        values.push(k.label());
    }
    assert_eq!(values, ['1', '2', '3', '4', '5', '6', '7', '8', '9']);
}

#[test]
fn iter_len_is_exact() {
    let mut iter = Known::iter();
    assert_eq!(iter.len(), 9);
    iter.next();
    assert_eq!(iter.len(), 8);
}

#[test]
fn add_produces_knownset() {
    let a = Known::new(3);
    let b = Known::new(5);
    let set = a.plus(b);
    assert!(set.has(a));
    assert!(set.has(b));
}

#[test]
fn negation_excludes_value() {
    let k = Known::new(4);
    let set = k.negated();
    assert!(!set.has(k));
}
