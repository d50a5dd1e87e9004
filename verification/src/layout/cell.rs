use vstd::prelude::*;

use crate::layout::cell_set::CellSet;
use crate::layout::coord::{digit_char, Coord};
use crate::layout::house::House;
use crate::layout::shape::{house_cell_index, house_of, Shape};
use crate::layout::text::string_push;

verus! {

/// One of the 81 cells, numbered row by row from the top left.
#[derive(Clone, Copy, Debug, Default, Hash, PartialEq, Eq, Structural, PartialOrd, Ord)]
pub struct Cell {
    index: u8,
}

impl View for Cell {
    type V = nat;

    closed spec fn view(&self) -> nat {
        self.index as nat
    }
}

/// Equal cells are exactly those with equal indices.
pub broadcast proof fn lemma_cell_view_injective(a: Cell, b: Cell)
    ensures
        (#[trigger] a@ == #[trigger] b@) <==> a == b,
{
}

/// The row (0..9) of cell index `i`.
pub open spec fn row_of(i: nat) -> nat {
    i / 9
}

/// The column (0..9) of cell index `i`.
pub open spec fn col_of(i: nat) -> nat {
    i % 9
}

/// The block (0..9) of cell index `i`, blocks numbered row by row.
pub open spec fn block_of(i: nat) -> nat {
    (i / 27) * 3 + (i % 9) / 3
}

/// Whether two cell indices share a row, a column or a block.
pub open spec fn share_a_house(i: nat, j: nat) -> bool {
    row_of(i) == row_of(j) || col_of(i) == col_of(j) || block_of(i) == block_of(j)
}

/// The 20 peers of cell `i`: the other cells of its row, column and block.
pub open spec fn peers_of(i: nat) -> Set<nat> {
    Set::new(|j: nat| j < 81 && j != i && share_a_house(i, j))
}

/// The letter that labels row `r`; the ninth row is 'J'.
pub open spec fn row_letter(r: nat) -> char {
    if r < 8 {
        (('A' as nat) + r) as char
    } else {
        'J'
    }
}

/// The two-character label of cell `i`, such as "A1" or "J9".
pub open spec fn cell_label(i: nat) -> Seq<char> {
    seq![row_letter(row_of(i)), digit_char(col_of(i))]
}

/// The row index of a row letter, if it is one.
pub open spec fn row_of_letter(c: char) -> Option<nat> {
    if 'A' <= c && c <= 'H' {
        Some((c as nat - 'A' as nat) as nat)
    } else if c == 'J' {
        Some(8)
    } else {
        None
    }
}

/// The column index of a digit '1'..='9', if it is one.
pub open spec fn col_of_digit(c: char) -> Option<nat> {
    if '1' <= c && c <= '9' {
        Some((c as nat - '1' as nat) as nat)
    } else {
        None
    }
}

/// The cell index labelled by two characters, if they form a label.
pub open spec fn index_of_label(a: char, b: char) -> Option<nat> {
    match (row_of_letter(a), col_of_digit(b)) {
        (Some(r), Some(c)) => Some(r * 9 + c),
        _ => None,
    }
}

/// Whether a string is exactly one cell label.
pub open spec fn is_cell_label(s: Seq<char>) -> bool {
    s.len() == 2 && index_of_label(s[0], s[1]) is Some
}

/// The cell at position `c` of block `b` lies in block `b`.
pub proof fn lemma_block_position(b: nat, c: nat)
    requires
        b < 9,
        c < 9,
    ensures
        block_of((b / 3) * 27 + (b % 3) * 3 + (c / 3) * 9 + c % 3) == b,
        (b / 3) * 27 + (b % 3) * 3 + (c / 3) * 9 + c % 3 < 81,
{
    let br = b / 3;
    let bc = b % 3;
    let cr = c / 3;
    let cc = c % 3;
    let i = br * 27 + bc * 3 + cr * 9 + cc;
    assert(i / 27 == br);
    assert(i % 9 == bc * 3 + cc);
    assert((bc * 3 + cc) / 3 == bc);
}

/// The cell with index `i`, in specifications.
pub closed spec fn cell_at(i: nat) -> Cell {
    Cell { index: i as u8 }
}

/// `cell_at` gives the cell with the index asked for.
pub broadcast proof fn lemma_cell_at(i: nat)
    requires
        i < 81,
    ensures
        #[trigger] cell_at(i)@ == i,
{
}

impl Cell {
    pub const COUNT: u8 = 81;

    #[verifier::type_invariant]
    spec fn inv(self) -> bool {
        self.index < 81
    }

    /// The cell with the given index.
    pub fn new(index: u8) -> (r: Self)
        requires
            index < 81,
        ensures
            r@ == index,
    {
        Cell { index }
    }

    pub fn index(&self) -> (r: u8)
        ensures
            r == self@,
            r < 81,
    {
        proof {
            use_type_invariant(self);
        }
        self.index
    }

    pub fn usize(&self) -> (r: usize)
        ensures
            r == self@,
            r < 81,
    {
        self.index() as usize
    }

    /// The cell at a row and a column.
    pub fn from_coords(row: Coord, column: Coord) -> (r: Self)
        ensures
            r@ == row@ * 9 + column@,
    {
        let rr: u8 = row.index();
        let cc: u8 = column.index();
        Cell { index: rr * 9 + cc }
    }

    /// The cell of a row at a position along it.
    pub fn from_row(row: Coord, coord: Coord) -> (r: Self)
        ensures
            r@ == row@ * 9 + coord@,
    {
        Self::from_coords(row, coord)
    }

    /// The cell of a column at a position along it.
    pub fn from_column(column: Coord, coord: Coord) -> (r: Self)
        ensures
            r@ == coord@ * 9 + column@,
    {
        Self::from_coords(coord, column)
    }

    /// The cell of block `block` (0..9) at position `coord` within it.
    pub fn from_block_coord(block: Coord, coord: Coord) -> (r: Self)
        ensures
            r@ == (block@ / 3) * 27 + (block@ % 3) * 3 + (coord@ / 3) * 9 + coord@ % 3,
            block_of(r@) == block@,
    {
        let b: u8 = block.index();
        let c: u8 = coord.index();
        let i: u8 = (b / 3) * 27 + (b % 3) * 3 + (c / 3) * 9 + c % 3;
        proof {
            lemma_block_position(b as nat, c as nat);
        }
        Cell { index: i }
    }

    pub fn row_coord(&self) -> (r: Coord)
        ensures
            r@ == row_of(self@),
    {
        let i: u8 = self.index();
        Coord::new(i / 9)
    }

    pub fn column_coord(&self) -> (r: Coord)
        ensures
            r@ == col_of(self@),
    {
        let i: u8 = self.index();
        Coord::new(i % 9)
    }

    pub fn block_coord(&self) -> (r: Coord)
        ensures
            r@ == block_of(self@),
    {
        let i: u8 = self.index();
        Coord::new((i / 27) * 3 + (i % 9) / 3)
    }

    /// The cell with the lower index.
    pub fn min(self, other: Self) -> (r: Self)
        ensures
            r@ == if self@ <= other@ {
                self@
            } else {
                other@
            },
    {
        if self.index() <= other.index() {
            self
        } else {
            other
        }
    }

    /// The cell with the higher index.
    pub fn max(self, other: Self) -> (r: Self)
        ensures
            r@ == if self@ >= other@ {
                self@
            } else {
                other@
            },
    {
        if self.index() >= other.index() {
            self
        } else {
            other
        }
    }

    /// Whether `other` is a peer: a different cell sharing a house.
    pub fn sees(&self, other: Cell) -> (r: bool)
        ensures
            r == peers_of(self@).contains(other@),
    {
        let a: u8 = self.index();
        let b: u8 = other.index();
        a != b && (a / 9 == b / 9 || a % 9 == b % 9 || (a / 27) * 3 + (a % 9) / 3 == (b / 27) * 3 + (
        b % 9) / 3)
    }

    /// The label of the cell, a row letter and a column digit.
    pub fn label(&self) -> (r: String)
        ensures
            r@ == cell_label(self@),
    {
        let i: u8 = self.index();
        let row: u8 = i / 9;
        let col: u8 = i % 9;
        let letter: char = if row < 8 {
            (65u8 + row) as char
        } else {
            'J'
        };
        let mut s = String::new();
        string_push(&mut s, letter);
        string_push(&mut s, (49u8 + col) as char);
        assert(s@ =~= cell_label(self@));
        s
    }

    /// The cell labelled by `label`.
    pub fn from_str(label: &str) -> (r: Self)
        requires
            is_cell_label(label@),
        ensures
            index_of_label(label@[0], label@[1]) == Some(r@),
    {
        let a: char = label.get_char(0);
        let b: char = label.get_char(1);
        match Self::from_chars(a, b) {
            Some(c) => c,
            None => {
                assert(false);
                Cell { index: 0 }
            },
        }
    }

    /// The cell labelled by two characters, if they form a label.
    pub fn from_chars(a: char, b: char) -> (r: Option<Self>)
        ensures
            match r {
                Some(c) => index_of_label(a, b) == Some(c@),
                None => index_of_label(a, b) is None,
            },
    {
        let row: u8 = if 'A' <= a && a <= 'H' {
            (a as u32 - 65u32) as u8
        } else if a == 'J' {
            8
        } else {
            return None;
        };
        if '1' <= b && b <= '9' {
            let col: u8 = (b as u32 - 49u32) as u8;
            Some(Cell { index: row * 9 + col })
        } else {
            None
        }
    }

    /// The cell at position `coord` within block `block`.
    pub fn from_block(block: House, coord: Coord) -> (r: Self)
        ensures
            r@ == house_cell_index(Shape::Block, block@.1, coord@),
            block_of(r@) == block@.1,
    {
        Self::from_block_coord(block.coord(), coord)
    }

    /// The house of the given shape holding this cell.
    pub fn house(&self, shape: Shape) -> (r: House)
        ensures
            r@ == (shape, house_of(shape, self@)),
    {
        match shape {
            Shape::Row => House::row(self.row_coord()),
            Shape::Column => House::column(self.column_coord()),
            Shape::Block => House::block(self.block_coord()),
        }
    }

    pub fn row(&self) -> (r: House)
        ensures
            r@ == (Shape::Row, row_of(self@)),
    {
        House::row(self.row_coord())
    }

    pub fn column(&self) -> (r: House)
        ensures
            r@ == (Shape::Column, col_of(self@)),
    {
        House::column(self.column_coord())
    }

    pub fn block(&self) -> (r: House)
        ensures
            r@ == (Shape::Block, block_of(self@)),
    {
        House::block(self.block_coord())
    }

    /// The row, the column and the block of this cell, in that order.
    pub fn houses(&self) -> (r: Vec<House>)
        ensures
            r@.len() == 3,
            r[0]@ == (Shape::Row, row_of(self@)),
            r[1]@ == (Shape::Column, col_of(self@)),
            r[2]@ == (Shape::Block, block_of(self@)),
    {
        let mut v: Vec<House> = Vec::new();
        v.push(self.row());
        v.push(self.column());
        v.push(self.block());
        v
    }

    /// The houses holding both this cell and `other`, in the order row,
    /// column, block.
    pub fn common_houses(&self, other: Cell) -> (r: Vec<House>)
        ensures
            forall|k: int| 0 <= k < r.len() ==> house_of((#[trigger] r[k])@.0, self@) == r[k]@.1
                && house_of(r[k]@.0, other@) == r[k]@.1,
            forall|s: Shape| house_of(s, self@) == house_of(s, other@) ==> exists|k: int|
                0 <= k < r.len() && (#[trigger] r[k])@.0 == s,
    {
        let mut v: Vec<House> = Vec::new();
        if self.row_coord().index() == other.row_coord().index() {
            v.push(self.row());
        }
        if self.column_coord().index() == other.column_coord().index() {
            v.push(self.column());
        }
        if self.block_coord().index() == other.block_coord().index() {
            v.push(self.block());
        }
        proof {
            assert forall|s: Shape| house_of(s, self@) == house_of(s, other@) implies exists|k: int|
                0 <= k < v.len() && (#[trigger] v[k])@.0 == s by {
                match s {
                    Shape::Row => {
                        assert(v[0]@.0 == s);
                    },
                    Shape::Column => {
                        if row_of(self@) == row_of(other@) {
                            assert(v[1]@.0 == s);
                        } else {
                            assert(v[0]@.0 == s);
                        }
                    },
                    Shape::Block => {
                        assert(v[v.len() - 1]@.0 == s);
                    },
                }
            }
        }
        v
    }

    /// The 20 peers of this cell.
    pub fn peers(&self) -> (r: CellSet)
        ensures
            r@ == peers_of(self@),
    {
        let mut set = CellSet::empty();
        let mut j: u8 = 0;
        while j < 81
            invariant
                j <= 81,
                set@ == peers_of(self@).filter(|x: nat| x < j),
            decreases 81 - j,
        {
            let other = Cell::new(j);
            if self.sees(other) {
                set = set.with(other);
            }
            proof {
                assert(set@ =~= peers_of(self@).filter(|x: nat| x < j + 1));
            }
            j = j + 1;
        }
        proof {
            assert(peers_of(self@).filter(|x: nat| x < 81) =~= peers_of(self@));
        }
        set
    }

    /// All 81 cells in index order.
    pub fn all() -> (r: Vec<Cell>)
        ensures
            r.len() == 81,
            forall|i: int| 0 <= i < 81 ==> (#[trigger] r[i])@ == i,
    {
        let mut v: Vec<Cell> = Vec::new();
        let mut i: u8 = 0;
        while i < 81
            invariant
                i <= 81,
                v.len() == i,
                forall|j: int| 0 <= j < i ==> (#[trigger] v[j])@ == j,
            decreases 81 - i,
        {
            v.push(Cell { index: i });
            i = i + 1;
        }
        v
    }
}

} // verus!
