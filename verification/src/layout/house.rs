use vstd::prelude::*;

use crate::layout::cell::Cell;
use crate::layout::cell_set::CellSet;
use crate::layout::coord::{digit_char, Coord};
use crate::layout::house_set::HouseSet;
use crate::layout::shape::{
    house_cell_index, house_cells, house_of, lemma_house_cell_index, shape_index, shape_label,
    shape_of_char, Shape, ShapeTrait,
};
use crate::layout::text::string_push;

verus! {

/// The houses of shape `s` that hold at least one of `cells`.
pub open spec fn houses_of_cells(s: Shape, cells: Set<nat>) -> Set<nat> {
    Set::new(|h: nat| exists|i: nat| #[trigger] cells.contains(i) && house_of(s, i) == h)
}

/// The character that labels house `h` of shape `s` on a console.
pub open spec fn console_char(s: Shape, h: nat) -> char {
    match s {
        Shape::Row => (('A' as nat) + h) as char,
        Shape::Column => digit_char(h),
        Shape::Block => (('❶' as nat) + h) as char,
    }
}

/// The label of house `h` of shape `s`, such as "Row A" or "Box 9".
pub open spec fn house_label(s: Shape, h: nat) -> Seq<char> {
    shape_label(s) + seq![
        ' ',
        match s {
            Shape::Row => (('A' as nat) + h) as char,
            _ => digit_char(h),
        },
    ]
}

/// Whether a string is a house label such as "R1", "C5" or "B9".
pub open spec fn is_house_label(s: Seq<char>) -> bool {
    s.len() == 2 && shape_of_char(s[0]) is Some && '1' <= s[1] && s[1] <= '9'
}

/// The shape and coordinate named by a house label.
pub open spec fn house_of_label(s: Seq<char>) -> (Shape, nat) {
    (shape_of_char(s[0])->0, (s[1] as nat - '1' as nat) as nat)
}

/// A row, column or block.
#[derive(Clone, Copy, Debug, Default, Hash, PartialEq, Eq, Structural)]
pub struct House {
    shape: Shape,
    coord: Coord,
}

impl View for House {
    type V = (Shape, nat);

    closed spec fn view(&self) -> (Shape, nat) {
        (self.shape, self.coord@)
    }
}

/// Equal houses are exactly those with equal shapes and coordinates.
pub broadcast proof fn lemma_house_view_injective(a: House, b: House)
    ensures
        (#[trigger] a@ == #[trigger] b@) <==> a == b,
{
    crate::layout::coord::lemma_coord_view_injective(a.coord, b.coord);
}

/// Behaviour shared by houses and by the single-shape house types.
pub trait HouseLike: Copy {
    spec fn house_view(&self) -> (Shape, nat);

    fn coord(&self) -> (r: Coord)
        ensures
            r@ == self.house_view().1,
    ;

    fn shape(&self) -> (r: Shape)
        ensures
            r == self.house_view().0,
    ;

    fn usize(&self) -> (r: usize)
        ensures
            r == self.house_view().1,
            r < 9,
    {
        self.coord().usize()
    }

    /// The nine cells of the house.
    fn cells(&self) -> (r: CellSet)
        ensures
            r@ == house_cells(self.house_view().0, self.house_view().1),
    ;

    /// The cell at position `coord` within the house.
    fn cell(&self, coord: Coord) -> (r: Cell)
        ensures
            r@ == house_cell_index(self.house_view().0, self.house_view().1, coord@),
    ;

    fn has(&self, cell: Cell) -> (r: bool)
        ensures
            r == house_cells(self.house_view().0, self.house_view().1).contains(cell@),
    {
        self.cells().has(cell)
    }

    fn label(&self) -> (r: String)
        ensures
            r@ == house_label(self.house_view().0, self.house_view().1),
    ;

    fn console_label(&self) -> (r: char)
        ensures
            r == console_char(self.house_view().0, self.house_view().1),
    ;

    fn is_row(&self) -> (r: bool)
        ensures
            r == (self.house_view().0 == Shape::Row),
    {
        self.shape().is_row()
    }

    fn is_column(&self) -> (r: bool)
        ensures
            r == (self.house_view().0 == Shape::Column),
    {
        self.shape().is_column()
    }

    fn is_block(&self) -> (r: bool)
        ensures
            r == (self.house_view().0 == Shape::Block),
    {
        self.shape().is_block()
    }

    fn is_top(&self) -> (r: bool)
        ensures
            r == (self.house_view().0 == Shape::Row && self.house_view().1 == 0),
    {
        self.is_row() && self.coord().u8() == 0
    }

    fn is_bottom(&self) -> (r: bool)
        ensures
            r == (self.house_view().0 == Shape::Row && self.house_view().1 == 8),
    {
        self.is_row() && self.coord().u8() == 8
    }

    fn is_left(&self) -> (r: bool)
        ensures
            r == (self.house_view().0 == Shape::Column && self.house_view().1 == 0),
    {
        self.is_column() && self.coord().u8() == 0
    }

    fn is_right(&self) -> (r: bool)
        ensures
            r == (self.house_view().0 == Shape::Column && self.house_view().1 == 8),
    {
        self.is_column() && self.coord().u8() == 8
    }

    fn is_block_top(&self) -> (r: bool)
        ensures
            r == (self.house_view().0 == Shape::Row && self.house_view().1 % 3 == 0),
    {
        self.is_row() && self.coord().u8() % 3 == 0
    }

    fn is_block_bottom(&self) -> (r: bool)
        ensures
            r == (self.house_view().0 == Shape::Row && self.house_view().1 % 3 == 2),
    {
        self.is_row() && self.coord().u8() % 3 == 2
    }

    fn is_block_left(&self) -> (r: bool)
        ensures
            r == (self.house_view().0 == Shape::Column && self.house_view().1 % 3 == 0),
    {
        self.is_column() && self.coord().u8() % 3 == 0
    }

    fn is_block_right(&self) -> (r: bool)
        ensures
            r == (self.house_view().0 == Shape::Column && self.house_view().1 % 3 == 2),
    {
        self.is_column() && self.coord().u8() % 3 == 2
    }

    /// The cells this house shares with another.
    fn intersect(&self, other: House) -> (r: CellSet)
        ensures
            r@ == house_cells(self.house_view().0, self.house_view().1).intersect(
                house_cells(other@.0, other@.1),
            ),
    {
        self.cells().intersect(other.cells())
    }

    /// The houses that cross this one through `cells`: the columns of
    /// the cells for a row, their rows for a column or a block.
    fn crossing_houses(&self, cells: CellSet) -> (r: HouseSet)
        ensures
            r@ == (crossing_shape(self.house_view().0), houses_of_cells(
                crossing_shape(self.house_view().0),
                cells@,
            )),
    ;

    /// The houses of `shape` that overlap this house.
    fn houses(&self, shape: Shape) -> (r: HouseSet)
        ensures
            r@ == (shape, houses_of_cells(
                shape,
                house_cells(self.house_view().0, self.house_view().1),
            )),
    ;

    fn rows(&self) -> (r: HouseSet)
        ensures
            r@ == (Shape::Row, houses_of_cells(
                Shape::Row,
                house_cells(self.house_view().0, self.house_view().1),
            )),
    {
        self.houses(Shape::Row)
    }

    fn columns(&self) -> (r: HouseSet)
        ensures
            r@ == (Shape::Column, houses_of_cells(
                Shape::Column,
                house_cells(self.house_view().0, self.house_view().1),
            )),
    {
        self.houses(Shape::Column)
    }

    fn blocks(&self) -> (r: HouseSet)
        ensures
            r@ == (Shape::Block, houses_of_cells(
                Shape::Block,
                house_cells(self.house_view().0, self.house_view().1),
            )),
    {
        self.houses(Shape::Block)
    }
}

/// The shape that crosses houses of shape `s`: columns cross rows,
/// rows cross columns and blocks.
pub open spec fn crossing_shape(s: Shape) -> Shape {
    match s {
        Shape::Row => Shape::Column,
        _ => Shape::Row,
    }
}

/// The house label of a shape and coordinate, built as a string.
fn make_label(shape: Shape, coord: Coord) -> (r: String)
    ensures
        r@ == house_label(shape, coord@),
{
    let i: u8 = coord.index();
    let mut s = String::from_str(ShapeTrait::label(&shape));
    string_push(&mut s, ' ');
    let c: char = match shape {
        Shape::Row => (65u8 + i) as char,
        _ => (49u8 + i) as char,
    };
    string_push(&mut s, c);
    assert(s@ =~= house_label(shape, coord@));
    s
}

/// The console character of a shape and coordinate.
fn make_console_label(shape: Shape, coord: Coord) -> (r: char)
    ensures
        r == console_char(shape, coord@),
{
    let i: u8 = coord.index();
    match shape {
        Shape::Row => (65u8 + i) as char,
        Shape::Column => (49u8 + i) as char,
        Shape::Block => {
            if i == 0 {
                '❶'
            } else if i == 1 {
                '❷'
            } else if i == 2 {
                '❸'
            } else if i == 3 {
                '❹'
            } else if i == 4 {
                '❺'
            } else if i == 5 {
                '❻'
            } else if i == 6 {
                '❼'
            } else if i == 7 {
                '❽'
            } else {
                '❾'
            }
        },
    }
}

impl House {
    pub const COUNT: u8 = 9;

    pub fn new(shape: Shape, coord: Coord) -> (r: Self)
        ensures
            r@ == (shape, coord@),
    {
        House { shape, coord }
    }

    pub fn shape(&self) -> (r: Shape)
        ensures
            r == self@.0,
    {
        self.shape
    }

    pub fn coord(&self) -> (r: Coord)
        ensures
            r@ == self@.1,
    {
        self.coord
    }

    pub fn usize(&self) -> (r: usize)
        ensures
            r == self@.1,
            r < 9,
    {
        self.coord.usize()
    }

    pub fn label(&self) -> (r: String)
        ensures
            r@ == house_label(self@.0, self@.1),
    {
        make_label(self.shape, self.coord)
    }

    pub fn console_label(&self) -> (r: char)
        ensures
            r == console_char(self@.0, self@.1),
    {
        make_console_label(self.shape, self.coord)
    }

    pub fn is_row(&self) -> (r: bool)
        ensures
            r == (self@.0 == Shape::Row),
    {
        self.shape.is_row()
    }

    pub fn is_column(&self) -> (r: bool)
        ensures
            r == (self@.0 == Shape::Column),
    {
        self.shape.is_column()
    }

    pub fn is_block(&self) -> (r: bool)
        ensures
            r == (self@.0 == Shape::Block),
    {
        self.shape.is_block()
    }

    /// The cell at position `coord` within the house.
    pub fn cell(&self, coord: Coord) -> (r: Cell)
        ensures
            r@ == house_cell_index(self@.0, self@.1, coord@),
            house_of(self@.0, r@) == self@.1,
    {
        self.shape.cell(self.coord, coord)
    }

    /// The nine cells of the house.
    pub fn cells(&self) -> (r: CellSet)
        ensures
            r@ == house_cells(self@.0, self@.1),
    {
        self.shape.cells(self.coord)
    }

    pub fn has(&self, cell: Cell) -> (r: bool)
        ensures
            r == house_cells(self@.0, self@.1).contains(cell@),
    {
        self.cells().has(cell)
    }

    /// The houses crossing this one through `cells`: the columns of the
    /// cells for a row, their rows for a column or a block.
    pub fn crossing_houses(&self, cells: CellSet) -> (r: HouseSet)
        ensures
            r@ == (crossing_shape(self@.0), houses_of_cells(crossing_shape(self@.0), cells@)),
    {
        match self.shape {
            Shape::Row => cells.houses(Shape::Column),
            _ => cells.houses(Shape::Row),
        }
    }

    /// The cells this house shares with another.
    pub fn intersect(&self, other: House) -> (r: CellSet)
        ensures
            r@ == house_cells(self@.0, self@.1).intersect(house_cells(other@.0, other@.1)),
    {
        self.cells().intersect(other.cells())
    }

    /// The houses of `shape` that overlap this house.
    pub fn houses(&self, shape: Shape) -> (r: HouseSet)
        ensures
            r@ == (shape, houses_of_cells(shape, house_cells(self@.0, self@.1))),
    {
        self.cells().houses(shape)
    }

    pub fn rows(&self) -> (r: HouseSet)
        ensures
            r@ == (Shape::Row, houses_of_cells(Shape::Row, house_cells(self@.0, self@.1))),
    {
        self.houses(Shape::Row)
    }

    pub fn columns(&self) -> (r: HouseSet)
        ensures
            r@ == (Shape::Column, houses_of_cells(Shape::Column, house_cells(self@.0, self@.1))),
    {
        self.houses(Shape::Column)
    }

    pub fn blocks(&self) -> (r: HouseSet)
        ensures
            r@ == (Shape::Block, houses_of_cells(Shape::Block, house_cells(self@.0, self@.1))),
    {
        self.houses(Shape::Block)
    }

    /// An iterator over the nine rows.
    pub fn iter() -> (r: HouseIter)
        ensures
            r@ == (Shape::Row, 0nat),
    {
        HouseIter::all()
    }

    pub fn all_rows() -> (r: HouseSet)
        ensures
            r@ == (Shape::Row, crate::layout::house_set::all_coords()),
    {
        HouseSet::full(Shape::Row)
    }

    pub fn rows_iter() -> (r: HouseIter)
        ensures
            r@ == (Shape::Row, 0nat),
    {
        HouseIter::new(Shape::Row)
    }

    pub fn all_columns() -> (r: HouseSet)
        ensures
            r@ == (Shape::Column, crate::layout::house_set::all_coords()),
    {
        HouseSet::full(Shape::Column)
    }

    pub fn columns_iter() -> (r: HouseIter)
        ensures
            r@ == (Shape::Column, 0nat),
    {
        HouseIter::new(Shape::Column)
    }

    pub fn all_blocks() -> (r: HouseSet)
        ensures
            r@ == (Shape::Block, crate::layout::house_set::all_coords()),
    {
        HouseSet::full(Shape::Block)
    }

    pub fn blocks_iter() -> (r: HouseIter)
        ensures
            r@ == (Shape::Block, 0nat),
    {
        HouseIter::new(Shape::Block)
    }

    pub fn row(coord: Coord) -> (r: Self)
        ensures
            r@ == (Shape::Row, coord@),
    {
        House { shape: Shape::Row, coord }
    }

    pub fn column(coord: Coord) -> (r: Self)
        ensures
            r@ == (Shape::Column, coord@),
    {
        House { shape: Shape::Column, coord }
    }

    pub fn block(coord: Coord) -> (r: Self)
        ensures
            r@ == (Shape::Block, coord@),
    {
        House { shape: Shape::Block, coord }
    }

    /// The house named by a label such as "R1", "C5" or "B9".
    pub fn from_str(label: &str) -> (r: Self)
        requires
            is_house_label(label@),
        ensures
            r@ == house_of_label(label@),
    {
        let s: char = label.get_char(0);
        let d: char = label.get_char(1);
        let shape = Shape::from_char(s);
        let coord = Coord::new((d as u32 - 49u32) as u8);
        House { shape, coord }
    }

    /// Whether this house comes before `other`: by shape, then coordinate.
    pub fn lt(&self, other: &House) -> (r: bool)
        ensures
            r == (shape_index(self@.0) < shape_index(other@.0) || (self@.0 == other@.0 && self@.1
                < other@.1)),
    {
        let a: usize = self.shape.usize();
        let b: usize = other.shape.usize();
        a < b || (a == b && self.coord.index() < other.coord.index())
    }

    /// The set of both houses (`self + rhs`).
    pub fn pair_with(self, rhs: House) -> (r: HouseSet)
        requires
            self@.0 == rhs@.0,
        ensures
            r@ == (self@.0, set![self@.1, rhs@.1]),
    {
        let set = HouseSet::empty(self.shape).with(self).with(rhs);
        assert(set@.1 =~= set![self@.1, rhs@.1]);
        set
    }

    /// Every other house of the same shape (`-self`).
    pub fn others(self) -> (r: HouseSet)
        ensures
            r@ == (self@.0, crate::layout::house_set::all_coords().remove(self@.1)),
    {
        HouseSet::full(self.shape).without(self)
    }
}

impl HouseLike for House {
    open spec fn house_view(&self) -> (Shape, nat) {
        self@
    }

    fn coord(&self) -> (r: Coord) {
        House::coord(self)
    }

    fn shape(&self) -> (r: Shape) {
        House::shape(self)
    }

    fn cells(&self) -> (r: CellSet) {
        House::cells(self)
    }

    fn cell(&self, coord: Coord) -> (r: Cell) {
        House::cell(self, coord)
    }

    fn label(&self) -> (r: String) {
        House::label(self)
    }

    fn console_label(&self) -> (r: char) {
        House::console_label(self)
    }

    fn crossing_houses(&self, cells: CellSet) -> (r: HouseSet) {
        House::crossing_houses(self, cells)
    }

    fn houses(&self, shape: Shape) -> (r: HouseSet) {
        House::houses(self, shape)
    }
}

/// A row by itself.
#[derive(Clone, Copy, Debug, Default, PartialEq, Eq, Structural)]
pub struct Row {
    coord: Coord,
}

impl Row {
    pub fn new(coord: Coord) -> (r: Self)
        ensures
            r.house_view() == (Shape::Row, coord@),
    {
        Row { coord }
    }

    pub fn from_coord(coord: Coord) -> (r: Self)
        ensures
            r.house_view() == (Shape::Row, coord@),
    {
        Self::new(coord)
    }
}

impl HouseLike for Row {
    closed spec fn house_view(&self) -> (Shape, nat) {
        (Shape::Row, self.coord@)
    }

    fn coord(&self) -> (r: Coord) {
        self.coord
    }

    fn shape(&self) -> (r: Shape) {
        Shape::Row
    }

    fn cells(&self) -> (r: CellSet) {
        Shape::Row.cells(self.coord)
    }

    fn cell(&self, coord: Coord) -> (r: Cell) {
        Cell::from_row(self.coord, coord)
    }

    fn label(&self) -> (r: String) {
        make_label(Shape::Row, self.coord)
    }

    fn console_label(&self) -> (r: char) {
        make_console_label(Shape::Row, self.coord)
    }

    fn crossing_houses(&self, cells: CellSet) -> (r: HouseSet) {
        cells.houses(Shape::Column)
    }

    fn houses(&self, shape: Shape) -> (r: HouseSet) {
        Shape::Row.cells(self.coord).houses(shape)
    }
}

/// A column by itself.
#[derive(Clone, Copy, Debug, Default, PartialEq, Eq, Structural)]
pub struct Column {
    coord: Coord,
}

impl Column {
    pub fn new(coord: Coord) -> (r: Self)
        ensures
            r.house_view() == (Shape::Column, coord@),
    {
        Column { coord }
    }
}

impl HouseLike for Column {
    closed spec fn house_view(&self) -> (Shape, nat) {
        (Shape::Column, self.coord@)
    }

    fn coord(&self) -> (r: Coord) {
        self.coord
    }

    fn shape(&self) -> (r: Shape) {
        Shape::Column
    }

    fn cells(&self) -> (r: CellSet) {
        Shape::Column.cells(self.coord)
    }

    fn cell(&self, coord: Coord) -> (r: Cell) {
        Cell::from_column(self.coord, coord)
    }

    fn label(&self) -> (r: String) {
        make_label(Shape::Column, self.coord)
    }

    fn console_label(&self) -> (r: char) {
        make_console_label(Shape::Column, self.coord)
    }

    fn crossing_houses(&self, cells: CellSet) -> (r: HouseSet) {
        cells.houses(Shape::Row)
    }

    fn houses(&self, shape: Shape) -> (r: HouseSet) {
        Shape::Column.cells(self.coord).houses(shape)
    }
}

/// A block by itself.
#[derive(Clone, Copy, Debug, Default, PartialEq, Eq, Structural)]
pub struct Block {
    coord: Coord,
}

impl Block {
    pub fn new(coord: Coord) -> (r: Self)
        ensures
            r.house_view() == (Shape::Block, coord@),
    {
        Block { coord }
    }
}

impl HouseLike for Block {
    closed spec fn house_view(&self) -> (Shape, nat) {
        (Shape::Block, self.coord@)
    }

    fn coord(&self) -> (r: Coord) {
        self.coord
    }

    fn shape(&self) -> (r: Shape) {
        Shape::Block
    }

    fn cells(&self) -> (r: CellSet) {
        Shape::Block.cells(self.coord)
    }

    fn cell(&self, coord: Coord) -> (r: Cell) {
        Cell::from_block(House::block(self.coord), coord)
    }

    fn label(&self) -> (r: String) {
        make_label(Shape::Block, self.coord)
    }

    fn console_label(&self) -> (r: char) {
        make_console_label(Shape::Block, self.coord)
    }

    fn crossing_houses(&self, cells: CellSet) -> (r: HouseSet) {
        cells.houses(Shape::Row)
    }

    fn houses(&self, shape: Shape) -> (r: HouseSet) {
        Shape::Block.cells(self.coord).houses(shape)
    }
}

/// An iterator over the nine houses of one shape.
pub struct HouseIter {
    shape: Shape,
    coord: u8,
}

impl View for HouseIter {
    type V = (Shape, nat);

    closed spec fn view(&self) -> (Shape, nat) {
        (self.shape, self.coord as nat)
    }
}

impl HouseIter {
    #[verifier::type_invariant]
    spec fn inv(self) -> bool {
        self.coord <= 9
    }

    pub fn new(shape: Shape) -> (r: Self)
        ensures
            r@ == (shape, 0nat),
    {
        HouseIter { shape, coord: 0 }
    }

    /// An iterator starting at the first row.
    pub fn all() -> (r: Self)
        ensures
            r@ == (Shape::Row, 0nat),
    {
        HouseIter { shape: Shape::Row, coord: 0 }
    }

    /// The next house, if any remain.
    pub fn next(&mut self) -> (r: Option<House>)
        ensures
            old(self)@.1 < 9 ==> (r matches Some(h) && h@ == old(self)@ && final(self)@ == (
                old(self)@.0,
                old(self)@.1 + 1,
            )),
            old(self)@.1 >= 9 ==> r is None && final(self)@ == old(self)@,
    {
        proof {
            use_type_invariant(&*self);
        }
        if self.coord == 9 {
            None
        } else {
            let house = House::new(self.shape, Coord::new(self.coord));
            self.coord = self.coord + 1;
            Some(house)
        }
    }

    /// How many houses remain.
    pub fn len(&self) -> (r: usize)
        ensures
            r == 9 - self@.1,
    {
        proof {
            use_type_invariant(self);
        }
        9 - self.coord as usize
    }
}

/// An iterator over all 27 houses: rows, then columns, then blocks.
pub struct HousesIter {
    shape: Shape,
    coord: u8,
}

impl View for HousesIter {
    type V = nat;

    /// How many houses have been produced.
    closed spec fn view(&self) -> nat {
        (shape_index(self.shape) * 9 + self.coord) as nat
    }
}

impl HousesIter {
    #[verifier::type_invariant]
    spec fn inv(self) -> bool {
        self.coord <= 9
    }

    pub fn new() -> (r: Self)
        ensures
            r@ == 0,
    {
        HousesIter { shape: Shape::Row, coord: 0 }
    }

    /// The next house, if any remain: house number `n` is of shape `n / 9`
    /// at coordinate `n % 9`.
    pub fn next(&mut self) -> (r: Option<House>)
        ensures
            old(self)@ < 27 ==> (r matches Some(h) && shape_index(h@.0) == old(self)@ / 9 && h@.1
                == old(self)@ % 9 && final(self)@ == old(self)@ + 1),
            old(self)@ >= 27 ==> r is None && final(self)@ == old(self)@,
    {
        proof {
            use_type_invariant(&*self);
        }
        if self.coord == 9 {
            match self.shape {
                Shape::Row => {
                    self.shape = Shape::Column;
                    self.coord = 0;
                },
                Shape::Column => {
                    self.shape = Shape::Block;
                    self.coord = 0;
                },
                Shape::Block => {
                    return None;
                },
            }
        }
        let house = House::new(self.shape, Coord::new(self.coord));
        self.coord = self.coord + 1;
        Some(house)
    }

    /// How many houses remain.
    pub fn len(&self) -> (r: usize)
        ensures
            r == 27 - self@,
    {
        proof {
            use_type_invariant(self);
        }
        match self.shape {
            Shape::Row => 18 + 9 - self.coord as usize,
            Shape::Column => 9 + 9 - self.coord as usize,
            Shape::Block => 9 - self.coord as usize,
        }
    }
}

/// The cells every pair of houses share, indexed by shape and coordinate
/// of each house.
pub fn intersections() -> (r: Vec<Vec<Vec<Vec<CellSet>>>>)
    ensures
        r.len() == 3,
        forall|i: int| 0 <= i < 3 ==> (#[trigger] r[i]).len() == 9,
        forall|i: int, ii: int| 0 <= i < 3 && 0 <= ii < 9 ==> (#[trigger] r[i][ii]).len() == 3,
        forall|i: int, ii: int, j: int|
            0 <= i < 3 && 0 <= ii < 9 && 0 <= j < 3 ==> (#[trigger] r[i][ii][j]).len() == 9,
        forall|i: int, ii: int, j: int, jj: int|
            0 <= i < 3 && 0 <= ii < 9 && 0 <= j < 3 && 0 <= jj < 9 ==> (#[trigger] r[i][ii][j][jj])@
                == house_cells(Shape::spec_new(i as nat), ii as nat).intersect(
                house_cells(Shape::spec_new(j as nat), jj as nat),
            ),
{
    let mut sets: Vec<Vec<Vec<Vec<CellSet>>>> = Vec::new();
    let mut i: u8 = 0;
    while i < 3
        invariant
            i <= 3,
            sets.len() == i,
            forall|a: int| 0 <= a < i ==> (#[trigger] sets[a]).len() == 9,
            forall|a: int, aa: int| 0 <= a < i && 0 <= aa < 9 ==> (#[trigger] sets[a][aa]).len() == 3,
            forall|a: int, aa: int, b: int|
                0 <= a < i && 0 <= aa < 9 && 0 <= b < 3 ==> (#[trigger] sets[a][aa][b]).len() == 9,
            forall|a: int, aa: int, b: int, bb: int|
                0 <= a < i && 0 <= aa < 9 && 0 <= b < 3 && 0 <= bb < 9 ==> (#[trigger] sets[a][aa][b][bb])@
                    == house_cells(Shape::spec_new(a as nat), aa as nat).intersect(
                    house_cells(Shape::spec_new(b as nat), bb as nat),
                ),
        decreases 3 - i,
    {
        let mut by_coord: Vec<Vec<Vec<CellSet>>> = Vec::new();
        let mut ii: u8 = 0;
        while ii < 9
            invariant
                i < 3,
                ii <= 9,
                by_coord.len() == ii,
                forall|aa: int| 0 <= aa < ii ==> (#[trigger] by_coord[aa]).len() == 3,
                forall|aa: int, b: int| 0 <= aa < ii && 0 <= b < 3 ==> (#[trigger] by_coord[aa][b]).len() == 9,
                forall|aa: int, b: int, bb: int|
                    0 <= aa < ii && 0 <= b < 3 && 0 <= bb < 9 ==> (#[trigger] by_coord[aa][b][bb])@
                        == house_cells(Shape::spec_new(i as nat), aa as nat).intersect(
                        house_cells(Shape::spec_new(b as nat), bb as nat),
                    ),
            decreases 9 - ii,
        {
            let a = House::new(Shape::new(i), Coord::new(ii)).cells();
            let mut by_shape: Vec<Vec<CellSet>> = Vec::new();
            let mut j: u8 = 0;
            while j < 3
                invariant
                    i < 3,
                    ii < 9,
                    j <= 3,
                    a@ == house_cells(Shape::spec_new(i as nat), ii as nat),
                    by_shape.len() == j,
                    forall|b: int| 0 <= b < j ==> (#[trigger] by_shape[b]).len() == 9,
                    forall|b: int, bb: int|
                        0 <= b < j && 0 <= bb < 9 ==> (#[trigger] by_shape[b][bb])@ == a@.intersect(
                            house_cells(Shape::spec_new(b as nat), bb as nat),
                        ),
                decreases 3 - j,
            {
                let mut row: Vec<CellSet> = Vec::new();
                let mut jj: u8 = 0;
                while jj < 9
                    invariant
                        j < 3,
                        jj <= 9,
                        row.len() == jj,
                        forall|bb: int|
                            0 <= bb < jj ==> (#[trigger] row[bb])@ == a@.intersect(
                                house_cells(Shape::spec_new(j as nat), bb as nat),
                            ),
                    decreases 9 - jj,
                {
                    let b = House::new(Shape::new(j), Coord::new(jj)).cells();
                    row.push(a.intersect(b));
                    jj = jj + 1;
                }
                by_shape.push(row);
                j = j + 1;
            }
            by_coord.push(by_shape);
            ii = ii + 1;
        }
        sets.push(by_coord);
        i = i + 1;
    }
    sets
}

} // verus!
