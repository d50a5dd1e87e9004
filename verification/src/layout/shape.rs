use vstd::prelude::*;

use crate::layout::cell::{block_of, col_of, lemma_block_position, row_of, Cell};
use crate::layout::cell_set::CellSet;
use crate::layout::coord::Coord;
use crate::layout::house::House;

verus! {

/// The three kinds of house.
#[derive(Clone, Copy, Debug, Default, Hash, PartialEq, Eq, Structural, PartialOrd, Ord)]
pub enum Shape {
    #[default]
    Row,
    Column,
    Block,
}

/// The index of a shape: rows 0, columns 1, blocks 2.
pub open spec fn shape_index(s: Shape) -> nat {
    match s {
        Shape::Row => 0,
        Shape::Column => 1,
        Shape::Block => 2,
    }
}

/// The house (0..9) of the given shape that holds cell `i`.
pub open spec fn house_of(s: Shape, i: nat) -> nat {
    match s {
        Shape::Row => row_of(i),
        Shape::Column => col_of(i),
        Shape::Block => block_of(i),
    }
}

/// The cells of house `h` of shape `s`.
pub open spec fn house_cells(s: Shape, h: nat) -> Set<nat> {
    Set::new(|i: nat| i < 81 && house_of(s, i) == h)
}

/// The cell at position `c` (0..9) of house `h` of shape `s`.
pub open spec fn house_cell_index(s: Shape, h: nat, c: nat) -> nat {
    match s {
        Shape::Row => h * 9 + c,
        Shape::Column => c * 9 + h,
        Shape::Block => (h / 3) * 27 + (h % 3) * 3 + (c / 3) * 9 + c % 3,
    }
}

/// The three-letter label of a shape.
pub open spec fn shape_label(s: Shape) -> Seq<char> {
    match s {
        Shape::Row => seq!['R', 'o', 'w'],
        Shape::Column => seq!['C', 'o', 'l'],
        Shape::Block => seq!['B', 'o', 'x'],
    }
}

/// The shape written as a character, if it names one.
pub open spec fn shape_of_char(c: char) -> Option<Shape> {
    if c == 'R' {
        Some(Shape::Row)
    } else if c == 'C' {
        Some(Shape::Column)
    } else if c == 'B' {
        Some(Shape::Block)
    } else {
        None
    }
}

/// The cell at position `c` of house `h` lies in that house.
pub proof fn lemma_house_cell_index(s: Shape, h: nat, c: nat)
    requires
        h < 9,
        c < 9,
    ensures
        house_cell_index(s, h, c) < 81,
        house_of(s, house_cell_index(s, h, c)) == h,
{
    match s {
        Shape::Row => {},
        Shape::Column => {},
        Shape::Block => {
            lemma_block_position(h, c);
        },
    }
}

/// The cell of a block at the position given by its row and column
/// within the block.
proof fn lemma_block_cell_back(i: nat)
    requires
        i < 81,
    ensures
        house_cell_index(Shape::Block, block_of(i), ((i / 9) % 3) * 3 + (i % 9) % 3) == i,
        ((i / 9) % 3) * 3 + (i % 9) % 3 < 9,
{
    let r = i / 9;
    let c = i % 9;
    let h = block_of(i);
    let p = (r % 3) * 3 + c % 3;
    assert(h == (i / 27) * 3 + c / 3);
    assert(i / 27 == r / 3);
    assert(h / 3 == r / 3);
    assert(h % 3 == c / 3);
    assert(p / 3 == r % 3);
    assert(p % 3 == c % 3);
    assert(r == (r / 3) * 3 + r % 3);
    assert(c == (c / 3) * 3 + c % 3);
    assert(i == r * 9 + c);
}

/// Distinct positions of a house are distinct cells.
pub proof fn lemma_house_cell_index_injective(s: Shape, h: nat, a: nat, b: nat)
    requires
        h < 9,
        a < 9,
        b < 9,
        house_cell_index(s, h, a) == house_cell_index(s, h, b),
    ensures
        a == b,
{
    if s == Shape::Block {
        assert((a / 3) * 9 + a % 3 == (b / 3) * 9 + b % 3);
        assert(a / 3 == b / 3);
    }
}

/// Every house has nine cells: those at its positions 0..9, all distinct.
pub proof fn lemma_house_cells_len(s: Shape, h: nat)
    requires
        h < 9,
    ensures
        house_cells(s, h).finite(),
        house_cells(s, h).len() == 9,
{
    let pos = Set::new(|c: nat| c < 9);
    let f = |c: nat| house_cell_index(s, h, c);
    crate::layout::cell_set::lemma_indices_below(9);
    assert forall|a: nat, b: nat| pos.contains(a) && pos.contains(b) && #[trigger] f(a) == #[trigger] f(b) implies a == b by {
        if s == Shape::Block {
            assert((a / 3) * 9 + a % 3 == (b / 3) * 9 + b % 3);
            assert(a / 3 == b / 3);
        }
    }
    assert forall|i: nat| house_cells(s, h).contains(i) implies pos.map(f).contains(i) by {
        let c = match s {
            Shape::Row => i % 9,
            Shape::Column => i / 9,
            Shape::Block => ((i / 9) % 3) * 3 + (i % 9) % 3,
        };
        if s == Shape::Block {
            lemma_block_cell_back(i);
        }
        assert(pos.contains(c) && f(c) == i);
    }
    assert forall|i: nat| pos.map(f).contains(i) implies house_cells(s, h).contains(i) by {
        let c = choose|c: nat| pos.contains(c) && f(c) == i;
        lemma_house_cell_index(s, h, c);
    }
    assert(pos.map(f) =~= house_cells(s, h));
    vstd::set_lib::lemma_map_size(pos, house_cells(s, h), f);
}

/// A row and a column meet in one cell.
proof fn lemma_row_column_meet(r: nat, c: nat)
    requires
        r < 9,
        c < 9,
    ensures
        house_cells(Shape::Row, r).intersect(house_cells(Shape::Column, c)) == set![r * 9 + c],
{
    assert(house_cells(Shape::Row, r).intersect(house_cells(Shape::Column, c)) =~= set![r * 9 + c]);
}

/// A cell index is its block band, its row within the band and its
/// column.
proof fn lemma_cell_split(i: nat)
    requires
        i < 81,
    ensures
        i == (i / 27) * 27 + ((i % 27) / 9) * 9 + i % 9,
        i / 27 < 3,
        (i % 27) / 9 < 3,
        i / 9 == (i / 27) * 3 + (i % 27) / 9,
        block_of(i) == (i / 27) * 3 + (i % 9) / 3,
{
    vstd::arithmetic::div_mod::lemma_fundamental_div_mod(i as int, 27);
    vstd::arithmetic::div_mod::lemma_fundamental_div_mod((i % 27) as int, 9);
    vstd::arithmetic::div_mod::lemma_mod_mod(i as int, 27, 3);
    vstd::arithmetic::div_mod::lemma_fundamental_div_mod_converse(
        i as int,
        9,
        ((i / 27) * 3 + (i % 27) / 9) as int,
        (i % 9) as int,
    );
}

/// The cell in band `a`, row `q` of the band and column `c`.
proof fn lemma_cell_join(a: nat, q: nat, c: nat)
    requires
        a < 3,
        q < 3,
        c < 9,
    ensures
        (a * 27 + q * 9 + c) < 81,
        (a * 27 + q * 9 + c) / 9 == a * 3 + q,
        (a * 27 + q * 9 + c) % 9 == c,
        (a * 27 + q * 9 + c) / 27 == a,
{
    vstd::arithmetic::div_mod::lemma_fundamental_div_mod_converse((a * 27 + q * 9 + c) as int, 9, (a * 3 + q) as int, c as int);
    vstd::arithmetic::div_mod::lemma_fundamental_div_mod_converse((a * 27 + q * 9 + c) as int, 27, a as int, (q * 9 + c) as int);
}

/// A row meets a block of its band in three cells, and any other block in
/// none.
proof fn lemma_row_block_meet(r: nat, b: nat)
    requires
        r < 9,
        b < 9,
    ensures
        house_cells(Shape::Row, r).intersect(house_cells(Shape::Block, b)) == if r / 3 == b / 3 {
            set![r * 9 + (b % 3) * 3, r * 9 + (b % 3) * 3 + 1, r * 9 + (b % 3) * 3 + 2]
        } else {
            Set::<nat>::empty()
        },
{
    let m = house_cells(Shape::Row, r).intersect(house_cells(Shape::Block, b));
    let x = r * 9 + (b % 3) * 3;
    assert(r == (r / 3) * 3 + r % 3);
    assert(b == (b / 3) * 3 + b % 3);
    if r / 3 == b / 3 {
        assert forall|i: nat| m.contains(i) implies set![x, x + 1, x + 2].contains(i) by {
            lemma_cell_split(i);
            assert((i % 9) / 3 == b % 3);
            assert(i % 9 == (b % 3) * 3 + (i % 9) % 3);
        }
        assert forall|i: nat| set![x, x + 1, x + 2].contains(i) implies m.contains(i) by {
            let k: nat = (i - x) as nat;
            lemma_cell_join(r / 3, r % 3, (b % 3) * 3 + k);
            assert(i == (r / 3) * 27 + (r % 3) * 9 + (b % 3) * 3 + k);
            lemma_cell_split(i);
        }
        assert(m =~= set![x, x + 1, x + 2]);
    } else {
        assert forall|i: nat| !m.contains(i) by {
            if m.contains(i) {
                lemma_cell_split(i);
            }
        }
        assert(m =~= Set::<nat>::empty());
    }
}

/// A column meets a block of its stack in three cells, and any other
/// block in none.
proof fn lemma_column_block_meet(c: nat, b: nat)
    requires
        c < 9,
        b < 9,
    ensures
        house_cells(Shape::Column, c).intersect(house_cells(Shape::Block, b)) == if c / 3 == b % 3 {
            set![(b / 3) * 27 + c, (b / 3) * 27 + 9 + c, (b / 3) * 27 + 18 + c]
        } else {
            Set::<nat>::empty()
        },
{
    let m = house_cells(Shape::Column, c).intersect(house_cells(Shape::Block, b));
    let x = (b / 3) * 27 + c;
    assert(b == (b / 3) * 3 + b % 3);
    if c / 3 == b % 3 {
        assert forall|i: nat| m.contains(i) implies set![x, x + 9, x + 18].contains(i) by {
            lemma_cell_split(i);
            assert(i / 27 == b / 3);
        }
        assert forall|i: nat| set![x, x + 9, x + 18].contains(i) implies m.contains(i) by {
            let q: nat = if i == x {
                0
            } else if i == x + 9 {
                1
            } else {
                2
            };
            lemma_cell_join(b / 3, q, c);
            assert(i == (b / 3) * 27 + q * 9 + c);
            lemma_cell_split(i);
        }
        assert(m =~= set![x, x + 9, x + 18]);
    } else {
        assert forall|i: nat| !m.contains(i) by {
            if m.contains(i) {
                lemma_cell_split(i);
            }
        }
        assert(m =~= Set::<nat>::empty());
    }
}

/// Two houses have 0, 1, 3 or 9 cells in common, the same whichever is
/// named first: 9 when they are the same house, 1 for a row and a column,
/// 3 for a block and a row or column through it, else 0.
pub proof fn lemma_house_meet_len(s1: Shape, h1: nat, s2: Shape, h2: nat)
    requires
        h1 < 9,
        h2 < 9,
    ensures
        house_cells(s1, h1).intersect(house_cells(s2, h2)) == house_cells(s2, h2).intersect(house_cells(s1, h1)),
        house_cells(s1, h1).intersect(house_cells(s2, h2)).finite(),
        ({
            let n = house_cells(s1, h1).intersect(house_cells(s2, h2)).len();
            n == 0 || n == 1 || n == 3 || n == 9
        }),
{
    let m = house_cells(s1, h1).intersect(house_cells(s2, h2));
    assert(m =~= house_cells(s2, h2).intersect(house_cells(s1, h1)));
    lemma_house_cells_len(s1, h1);
    vstd::set_lib::lemma_len_subset(m, house_cells(s1, h1));
    if s1 == s2 {
        if h1 == h2 {
            assert(m =~= house_cells(s1, h1));
        } else {
            assert(m =~= Set::<nat>::empty());
        }
    } else {
        match (s1, s2) {
            (Shape::Row, Shape::Column) => {
                lemma_row_column_meet(h1, h2);
            },
            (Shape::Column, Shape::Row) => {
                lemma_row_column_meet(h2, h1);
            },
            (Shape::Row, Shape::Block) => {
                lemma_row_block_meet(h1, h2);
            },
            (Shape::Block, Shape::Row) => {
                lemma_row_block_meet(h2, h1);
            },
            (Shape::Column, Shape::Block) => {
                lemma_column_block_meet(h1, h2);
            },
            _ => {
                lemma_column_block_meet(h2, h1);
            },
        }
    }
}

/// Shape behaviour shared through a trait.
pub trait ShapeTrait {
    spec fn the_shape(&self) -> Shape;

    /// The three-letter label.
    fn label(&self) -> (r: &'static str)
        ensures
            r@ == shape_label(self.the_shape()),
    ;

    /// The index: rows 0, columns 1, blocks 2.
    fn index(&self) -> (r: usize)
        ensures
            r == shape_index(self.the_shape()),
    ;

    /// All cells of house `house`.
    fn cells(&self, house: Coord) -> (r: CellSet)
        ensures
            r@ == house_cells(self.the_shape(), house@),
    ;

    /// The cell at position `index` of house `house`.
    fn cell_at(&self, house: Coord, index: usize) -> (r: Cell)
        requires
            index < 9,
        ensures
            r@ == house_cell_index(self.the_shape(), house@, index as nat),
            house_of(self.the_shape(), r@) == house@,
    ;

    /// The house of this shape at `coord`.
    fn house(&self, coord: Coord) -> (r: House)
        ensures
            r@ == (self.the_shape(), coord@),
    ;

    fn is_row(&self) -> (r: bool)
        ensures
            r == (self.the_shape() == Shape::Row),
    ;

    fn is_column(&self) -> (r: bool)
        ensures
            r == (self.the_shape() == Shape::Column),
    ;

    fn is_block(&self) -> (r: bool)
        ensures
            r == (self.the_shape() == Shape::Block),
    ;

    /// An iterator over the nine houses of this shape.
    fn house_iter(&self) -> (r: HouseIter)
        ensures
            r@ == (self.the_shape(), 0nat),
    ;

    /// An iterator over the three shapes.
    fn iter() -> (r: ShapeIter)
        ensures
            r@ == 0,
    ;
}

impl ShapeTrait for Shape {
    open spec fn the_shape(&self) -> Shape {
        *self
    }

    fn label(&self) -> (r: &'static str) {
        proof {
            reveal_strlit("Row");
            reveal_strlit("Col");
            reveal_strlit("Box");
        }
        match self {
            Shape::Row => "Row",
            Shape::Column => "Col",
            Shape::Block => "Box",
        }
    }

    fn index(&self) -> (r: usize) {
        self.usize()
    }

    fn cells(&self, house: Coord) -> (r: CellSet) {
        let h: u8 = house.index();
        let mut set = CellSet::empty();
        let mut i: u8 = 0;
        while i < 81
            invariant
                i <= 81,
                h == house@,
                set@ == Set::new(|j: nat| j < i && house_of(*self, j) == h),
            decreases 81 - i,
        {
            let c = Cell::new(i);
            let in_house: bool = match self {
                Shape::Row => i / 9 == h,
                Shape::Column => i % 9 == h,
                Shape::Block => (i / 27) * 3 + (i % 9) / 3 == h,
            };
            if in_house {
                set = set.with(c);
            }
            proof {
                assert(set@ =~= Set::new(|j: nat| j < i + 1 && house_of(*self, j) == h));
            }
            i = i + 1;
        }
        assert(set@ =~= house_cells(*self, house@));
        assert(self.the_shape() == *self);
        assert(set@ == house_cells(self.the_shape(), house@));
        set
    }

    fn cell_at(&self, house: Coord, index: usize) -> (r: Cell) {
        let h: u8 = house.index();
        let c: u8 = index as u8;
        proof {
            lemma_house_cell_index(*self, h as nat, c as nat);
        }
        match self {
            Shape::Row => Cell::new(h * 9 + c),
            Shape::Column => Cell::new(c * 9 + h),
            Shape::Block => Cell::new((h / 3) * 27 + (h % 3) * 3 + (c / 3) * 9 + c % 3),
        }
    }

    fn house(&self, coord: Coord) -> (r: House) {
        House::new(*self, coord)
    }

    fn is_row(&self) -> (r: bool) {
        matches!(self, Shape::Row)
    }

    fn is_column(&self) -> (r: bool) {
        matches!(self, Shape::Column)
    }

    fn is_block(&self) -> (r: bool) {
        matches!(self, Shape::Block)
    }

    fn house_iter(&self) -> (r: HouseIter) {
        HouseIter::new(*self)
    }

    fn iter() -> (r: ShapeIter) {
        ShapeIter::new()
    }
}

/// Tables of the cells of every house of a shape.
pub trait ShapeCells {
    spec fn table_shape(&self) -> Shape;

    /// For each house, its nine cells in position order.
    fn cells(&self) -> (r: Vec<Vec<Cell>>)
        ensures
            r.len() == 9,
            forall|h: int| 0 <= h < 9 ==> (#[trigger] r[h]).len() == 9,
            forall|h: int, c: int|
                0 <= h < 9 && 0 <= c < 9 ==> (#[trigger] r[h][c])@ == house_cell_index(
                    self.table_shape(),
                    h as nat,
                    c as nat,
                ),
    ;

    /// For each house, the set of its cells.
    fn cell_sets(&self) -> (r: Vec<CellSet>)
        ensures
            r.len() == 9,
            forall|h: int| 0 <= h < 9 ==> (#[trigger] r[h])@ == house_cells(self.table_shape(), h as nat),
    ;
}

impl ShapeCells for Shape {
    open spec fn table_shape(&self) -> Shape {
        *self
    }

    fn cells(&self) -> (r: Vec<Vec<Cell>>) {
        let mut table: Vec<Vec<Cell>> = Vec::new();
        let mut h: u8 = 0;
        while h < 9
            invariant
                h <= 9,
                table.len() == h,
                forall|k: int| 0 <= k < h ==> (#[trigger] table[k]).len() == 9,
                forall|k: int, c: int|
                    0 <= k < h && 0 <= c < 9 ==> (#[trigger] table[k][c])@ == house_cell_index(
                        *self,
                        k as nat,
                        c as nat,
                    ),
            decreases 9 - h,
        {
            let mut row: Vec<Cell> = Vec::new();
            let mut c: u8 = 0;
            while c < 9
                invariant
                    h < 9,
                    c <= 9,
                    row.len() == c,
                    forall|j: int|
                        0 <= j < c ==> (#[trigger] row[j])@ == house_cell_index(
                            *self,
                            h as nat,
                            j as nat,
                        ),
                decreases 9 - c,
            {
                row.push(ShapeTrait::cell_at(self, Coord::new(h), c as usize));
                c = c + 1;
            }
            table.push(row);
            h = h + 1;
        }
        table
    }

    fn cell_sets(&self) -> (r: Vec<CellSet>) {
        let mut sets: Vec<CellSet> = Vec::new();
        let mut h: u8 = 0;
        while h < 9
            invariant
                h <= 9,
                sets.len() == h,
                forall|k: int| 0 <= k < h ==> (#[trigger] sets[k])@ == house_cells(*self, k as nat),
            decreases 9 - h,
        {
            sets.push(ShapeTrait::cells(self, Coord::new(h)));
            h = h + 1;
        }
        sets
    }
}

impl Shape {
    /// The shape with index `i`, in specifications.
    pub open spec fn spec_new(i: nat) -> Shape {
        if i == 0 {
            Shape::Row
        } else if i == 1 {
            Shape::Column
        } else {
            Shape::Block
        }
    }

    /// The shape with index 0, 1 or 2.
    pub fn new(index: u8) -> (r: Self)
        requires
            index < 3,
        ensures
            shape_index(r) == index,
            r == Shape::spec_new(index as nat),
    {
        match index {
            0 => Shape::Row,
            1 => Shape::Column,
            _ => Shape::Block,
        }
    }

    /// The shape written as 'R', 'C' or 'B'.
    pub fn from_char(c: char) -> (r: Self)
        requires
            shape_of_char(c) is Some,
        ensures
            shape_of_char(c) == Some(r),
    {
        if c == 'R' {
            Shape::Row
        } else if c == 'C' {
            Shape::Column
        } else {
            Shape::Block
        }
    }

    pub fn usize(self) -> (r: usize)
        ensures
            r == shape_index(self),
    {
        match self {
            Shape::Row => 0,
            Shape::Column => 1,
            Shape::Block => 2,
        }
    }

    pub fn is_row(self) -> (r: bool)
        ensures
            r == (self == Shape::Row),
    {
        matches!(self, Shape::Row)
    }

    pub fn is_column(self) -> (r: bool)
        ensures
            r == (self == Shape::Column),
    {
        matches!(self, Shape::Column)
    }

    pub fn is_block(self) -> (r: bool)
        ensures
            r == (self == Shape::Block),
    {
        matches!(self, Shape::Block)
    }

    /// All cells of house `house` of this shape.
    pub fn cells(self, house: Coord) -> (r: CellSet)
        ensures
            r@ == house_cells(self, house@),
    {
        ShapeTrait::cells(&self, house)
    }

    /// The cell at position `coord` of house `house` of this shape.
    pub fn cell(self, house: Coord, coord: Coord) -> (r: Cell)
        ensures
            r@ == house_cell_index(self, house@, coord@),
            house_of(self, r@) == house@,
    {
        ShapeTrait::cell_at(&self, house, coord.usize())
    }

    /// An iterator over the nine houses of this shape.
    pub fn house_iter(self) -> (r: HouseIter)
        ensures
            r@ == (self, 0nat),
    {
        HouseIter::new(self)
    }

    /// The label followed by the shape, as written for debugging.
    pub fn debug_string(&self) -> (r: String)
        ensures
            r@ == seq!['S', 'h', 'a', 'p', 'e', ':', ':'] + shape_label(*self),
    {
        let mut s = String::from_str("Shape::");
        s.append(ShapeTrait::label(self));
        proof {
            reveal_strlit("Shape::");
            assert(s@ =~= seq!['S', 'h', 'a', 'p', 'e', ':', ':'] + shape_label(*self));
        }
        s
    }

    /// The house of this shape at `coord`, in constant-friendly form.
    pub fn house_const(&self, coord: Coord) -> (r: House)
        ensures
            r@ == (*self, coord@),
    {
        House::new(*self, coord)
    }
}

/// An iterator over the nine houses of one shape.
#[derive(Clone, Copy, Debug)]
pub struct HouseIter {
    shape: Shape,
    index: u8,
}

impl View for HouseIter {
    type V = (Shape, nat);

    closed spec fn view(&self) -> (Shape, nat) {
        (self.shape, self.index as nat)
    }
}

impl HouseIter {
    #[verifier::type_invariant]
    spec fn inv(self) -> bool {
        self.index <= 9
    }

    pub fn new(shape: Shape) -> (r: Self)
        ensures
            r@ == (shape, 0nat),
    {
        HouseIter { shape, index: 0 }
    }

    /// The next house, if any remain.
    pub fn next(&mut self) -> (r: Option<House>)
        ensures
            old(self)@.1 < 9 ==> (r matches Some(h) && h@ == old(self)@ && final(self)@ == (
                old(self)@.0,
                old(self)@.1 + 1,
            )),
            old(self)@.1 >= 9 ==> r is None && final(self)@ == old(self)@,
    {
        proof {
            use_type_invariant(&*self);
        }
        if self.index < 9 {
            let h = House::new(self.shape, Coord::new(self.index));
            self.index = self.index + 1;
            Some(h)
        } else {
            None
        }
    }
}

/// An iterator over the three shapes.
pub struct ShapeIter {
    index: u8,
}

impl View for ShapeIter {
    type V = nat;

    closed spec fn view(&self) -> nat {
        self.index as nat
    }
}

impl ShapeIter {
    #[verifier::type_invariant]
    spec fn inv(self) -> bool {
        self.index <= 3
    }

    pub fn new() -> (r: Self)
        ensures
            r@ == 0,
    {
        ShapeIter { index: 0 }
    }

    /// The next shape, if any remain.
    pub fn next(&mut self) -> (r: Option<Shape>)
        ensures
            old(self)@ < 3 ==> (r matches Some(s) && shape_index(s) == old(self)@ && final(self)@
                == old(self)@ + 1),
            old(self)@ >= 3 ==> r is None && final(self)@ == old(self)@,
    {
        proof {
            use_type_invariant(&*self);
        }
        if self.index < 3 {
            let s = Shape::new(self.index);
            self.index = self.index + 1;
            Some(s)
        } else {
            None
        }
    }

    /// How many shapes remain.
    pub fn len(&self) -> (r: usize)
        ensures
            r == 3 - self@,
    {
        proof {
            use_type_invariant(self);
        }
        3 - self.index as usize
    }
}

} // verus!
