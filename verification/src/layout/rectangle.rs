use vstd::prelude::*;

use crate::layout::cell::{block_of, cell_label, col_of, row_of, Cell};
use crate::layout::cell_set::CellSet;
use crate::layout::coord::{digit_char, Coord};
use crate::layout::house::{houses_of_cells, House};
use crate::layout::house_set::{HouseSet, HouseSetLike};
use crate::layout::shape::{house_cell_index, Shape};
use crate::layout::text::string_push;

verus! {

/// How many blocks a rectangle with corners in blocks `a` and `b` spans.
pub open spec fn block_span(a: nat, b: nat) -> usize {
    if a == b {
        1
    } else if a % 3 == b % 3 || a / 3 == b / 3 {
        2
    } else {
        4
    }
}

/// The rectangle spans from the lowest to the highest of the four cells.
pub open spec fn from_corners(r: Rectangle, c1: nat, c2: nat, c3: nat, c4: nat) -> bool {
    exists|lo: nat, hi: nat|
        r.spanning(lo, hi) && lo <= c1 && lo <= c2 && lo <= c3 && lo <= c4 && (lo == c1 || lo == c2 || lo == c3
            || lo == c4) && hi >= c1 && hi >= c2 && hi >= c3 && hi >= c4 && (hi == c1 || hi == c2 || hi == c3
            || hi == c4)
}

/// The rectangle made from four cells does not depend on their order:
/// from the same cells, in any order, comes the same rectangle.
pub proof fn lemma_from_any_order(
    r1: Rectangle,
    r2: Rectangle,
    c1: nat,
    c2: nat,
    c3: nat,
    c4: nat,
    d1: nat,
    d2: nat,
    d3: nat,
    d4: nat,
)
    requires
        from_corners(r1, c1, c2, c3, c4),
        from_corners(r2, d1, d2, d3, d4),
        set![c1, c2, c3, c4] == set![d1, d2, d3, d4],
    ensures
        r1.tl() == r2.tl(),
        r1.tr() == r2.tr(),
        r1.bl() == r2.bl(),
        r1.br() == r2.br(),
        r1.cell_set()@ == r2.cell_set()@,
        r1.blocks() == r2.blocks(),
{
    let cs = set![c1, c2, c3, c4];
    assert(cs.contains(c1) && cs.contains(c2) && cs.contains(c3) && cs.contains(c4));
    assert(cs.contains(d1) && cs.contains(d2) && cs.contains(d3) && cs.contains(d4));
    let (lo1, hi1) = choose|lo: nat, hi: nat|
        r1.spanning(lo, hi) && lo <= c1 && lo <= c2 && lo <= c3 && lo <= c4 && (lo == c1 || lo == c2 || lo == c3
            || lo == c4) && hi >= c1 && hi >= c2 && hi >= c3 && hi >= c4 && (hi == c1 || hi == c2 || hi == c3
            || hi == c4);
    let (lo2, hi2) = choose|lo: nat, hi: nat|
        r2.spanning(lo, hi) && lo <= d1 && lo <= d2 && lo <= d3 && lo <= d4 && (lo == d1 || lo == d2 || lo == d3
            || lo == d4) && hi >= d1 && hi >= d2 && hi >= d3 && hi >= d4 && (hi == d1 || hi == d2 || hi == d3
            || hi == d4);
    assert(lo1 == lo2);
    assert(hi1 == hi2);
    crate::layout::cell::lemma_cell_view_injective(r1.tl(), r2.tl());
    crate::layout::cell::lemma_cell_view_injective(r1.tr(), r2.tr());
    crate::layout::cell::lemma_cell_view_injective(r1.bl(), r2.bl());
    crate::layout::cell::lemma_cell_view_injective(r1.br(), r2.br());
}

/// Four cells at the corners of a rectangle of rows and columns.
#[derive(Clone, Copy, Debug, PartialEq, Eq, Structural)]
pub enum Rectangle {
    Data {
        top_left: Cell,
        top_right: Cell,
        bottom_left: Cell,
        bottom_right: Cell,
        cells: CellSet,
        block_count: usize,
    },
}

impl Rectangle {
    pub open spec fn tl(self) -> Cell {
        match self {
            Rectangle::Data { top_left, .. } => top_left,
        }
    }

    pub open spec fn tr(self) -> Cell {
        match self {
            Rectangle::Data { top_right, .. } => top_right,
        }
    }

    pub open spec fn bl(self) -> Cell {
        match self {
            Rectangle::Data { bottom_left, .. } => bottom_left,
        }
    }

    pub open spec fn br(self) -> Cell {
        match self {
            Rectangle::Data { bottom_right, .. } => bottom_right,
        }
    }

    pub open spec fn cell_set(self) -> CellSet {
        match self {
            Rectangle::Data { cells, .. } => cells,
        }
    }

    pub open spec fn blocks(self) -> usize {
        match self {
            Rectangle::Data { block_count, .. } => block_count,
        }
    }

    /// The rectangle with top-left corner `tl` and bottom-right corner `br`.
    pub open spec fn spanning(self, tl: nat, br: nat) -> bool {
        &&& self.tl()@ == tl
        &&& self.br()@ == br
        &&& self.tr()@ == row_of(tl) * 9 + col_of(br)
        &&& self.bl()@ == row_of(br) * 9 + col_of(tl)
        &&& self.cell_set()@ == set![tl, row_of(tl) * 9 + col_of(br), row_of(br) * 9 + col_of(tl), br]
        &&& self.blocks() == block_span(block_of(tl), block_of(br))
    }

    /// The four corner cells.
    pub fn cells(self) -> (r: CellSet)
        ensures
            r == self.cell_set(),
    {
        match self {
            Rectangle::Data { cells, .. } => cells,
        }
    }

    /// How many blocks the rectangle spans: 1, 2 or 4.
    pub fn block_count(self) -> (r: usize)
        ensures
            r == self.blocks(),
    {
        match self {
            Rectangle::Data { block_count, .. } => block_count,
        }
    }

    /// An iterator over the rectangles spanning two blocks.
    pub fn iter() -> (r: RectangleIter)
        ensures
            r == (RectangleIter::State { horiz_vert: 0, block: 0, cell: 0 }),
    {
        RectangleIter::default()
    }

    /// The rectangle with the given top-left and bottom-right corners.
    pub fn new(top_left: Cell, bottom_right: Cell) -> (r: Rectangle)
        ensures
            r.spanning(top_left@, bottom_right@),
    {
        let top_right = Cell::from_coords(top_left.row_coord(), bottom_right.column_coord());
        let bottom_left = Cell::from_coords(bottom_right.row_coord(), top_left.column_coord());
        let cells = CellSet::empty().with(top_left).with(top_right).with(bottom_left).with(
            bottom_right,
        );
        let tl_block: usize = top_left.block_coord().usize();
        let br_block: usize = bottom_right.block_coord().usize();
        let block_count: usize = if tl_block == br_block {
            1
        } else if tl_block % 3 == br_block % 3 || tl_block / 3 == br_block / 3 {
            2
        } else {
            4
        };
        assert(cells@ =~= set![
            top_left@,
            row_of(top_left@) * 9 + col_of(bottom_right@),
            row_of(bottom_right@) * 9 + col_of(top_left@),
            bottom_right@,
        ]);
        Rectangle::Data { top_left, top_right, bottom_left, bottom_right, cells, block_count }
    }

    /// The rectangle with corners at the lowest and highest of four cells.
    pub fn from(c1: Cell, c2: Cell, c3: Cell, c4: Cell) -> (r: Rectangle)
        ensures
            from_corners(r, c1@, c2@, c3@, c4@),
    {
        let lo = c1.min(c2).min(c3).min(c4);
        let hi = c1.max(c2).max(c3).max(c4);
        let r = Rectangle::new(lo, hi);
        assert(r.spanning(lo@, hi@));
        r
    }

    /// The same rectangle seen from corner `origin`, which becomes the
    /// top left; any other cell leaves it unchanged.
    pub fn with_origin(self, origin: Cell) -> (r: Rectangle)
        ensures
            r.cell_set() == self.cell_set(),
            r.blocks() == self.blocks(),
            origin == self.br() ==> r.tl() == self.br() && r.tr() == self.bl() && r.bl()
                == self.tr() && r.br() == self.tl(),
            origin != self.br() && origin == self.tr() ==> r.tl() == self.tr() && r.tr()
                == self.tl() && r.bl() == self.br() && r.br() == self.bl(),
            origin != self.br() && origin != self.tr() && origin == self.bl() ==> r.tl()
                == self.bl() && r.tr() == self.br() && r.bl() == self.tl() && r.br() == self.tr(),
            origin != self.br() && origin != self.tr() && origin != self.bl() ==> r == self,
    {
        match self {
            Rectangle::Data {
                top_left,
                top_right,
                bottom_left,
                bottom_right,
                cells,
                block_count,
            } => {
                if origin == bottom_right {
                    Rectangle::Data {
                        top_left: bottom_right,
                        top_right: bottom_left,
                        bottom_left: top_right,
                        bottom_right: top_left,
                        cells,
                        block_count,
                    }
                } else if origin == top_right {
                    Rectangle::Data {
                        top_left: top_right,
                        top_right: top_left,
                        bottom_left: bottom_right,
                        bottom_right: bottom_left,
                        cells,
                        block_count,
                    }
                } else if origin == bottom_left {
                    Rectangle::Data {
                        top_left: bottom_left,
                        top_right: bottom_right,
                        bottom_left: top_left,
                        bottom_right: top_right,
                        cells,
                        block_count,
                    }
                } else {
                    self
                }
            },
        }
    }

    /// The top-left and bottom-right corners.
    pub fn tl_br(&self) -> (r: (Cell, Cell))
        ensures
            r == (self.tl(), self.br()),
    {
        match *self {
            Rectangle::Data { top_left, bottom_right, .. } => (top_left, bottom_right),
        }
    }

    pub fn top_right(&self) -> (r: Cell)
        ensures
            r == self.tr(),
    {
        match *self {
            Rectangle::Data { top_right, .. } => top_right,
        }
    }

    pub fn top_left(&self) -> (r: Cell)
        ensures
            r == self.tl(),
    {
        match *self {
            Rectangle::Data { top_left, .. } => top_left,
        }
    }

    pub fn bottom_left(&self) -> (r: Cell)
        ensures
            r == self.bl(),
    {
        match *self {
            Rectangle::Data { bottom_left, .. } => bottom_left,
        }
    }

    pub fn bottom_right(&self) -> (r: Cell)
        ensures
            r == self.br(),
    {
        match *self {
            Rectangle::Data { bottom_right, .. } => bottom_right,
        }
    }

    /// Whether both rectangles have the same top-left and bottom-right
    /// corners (the corners that identify a rectangle).
    pub fn same_corners(&self, other: &Rectangle) -> (r: bool)
        ensures
            r == (self.tl() == other.tl() && self.br() == other.br()),
    {
        let (a, b) = self.tl_br();
        let (c, d) = other.tl_br();
        a == c && b == d
    }

    /// The rectangle whose corners include `cells`, when two to four cells
    /// lie in exactly two rows and two columns.
    pub fn try_from_cells(cells: CellSet) -> (r: Result<Rectangle, ()>)
        ensures
            r is Ok <==> (2 <= cells@.len() <= 4 && houses_of_cells(Shape::Row, cells@).len() == 2
                && houses_of_cells(Shape::Column, cells@).len() == 2),
            r matches Ok(rect) ==> exists|top: nat, bottom: nat, left: nat, right: nat|
                top < bottom && left < right && houses_of_cells(Shape::Row, cells@) == set![
                    top,
                    bottom,
                ] && houses_of_cells(Shape::Column, cells@) == set![left, right] && rect.spanning(
                    top * 9 + left,
                    bottom * 9 + right,
                ),
    {
        let n: usize = cells.len();
        if n < 2 || 4 < n {
            return Err(());
        }
        let rows = cells.rows();
        let columns = cells.columns();
        if HouseSetLike::len(&rows) != 2 || HouseSetLike::len(&columns) != 2 {
            return Err(());
        }
        let (top, bottom) = rows.as_pair().unwrap();
        let (left, right) = columns.as_pair().unwrap();
        let tl = Cell::from_coords(top.coord(), left.coord());
        let br = Cell::from_coords(bottom.coord(), right.coord());
        let r = Rectangle::new(tl, br);
        assert(r.spanning(top@.1 * 9 + left@.1, bottom@.1 * 9 + right@.1));
        Ok(r)
    }

    /// The rectangle whose corners include the given cells.
    pub fn try_from_vec(cells: Vec<Cell>) -> (r: Result<Rectangle, ()>)
        ensures
            ({
                let s = Set::new(|x: nat| exists|j: int| 0 <= j < cells.len() && (#[trigger] cells[j])@ == x);
                &&& r is Ok <==> (2 <= s.len() <= 4 && houses_of_cells(Shape::Row, s).len() == 2
                    && houses_of_cells(Shape::Column, s).len() == 2)
                &&& r matches Ok(rect) ==> exists|top: nat, bottom: nat, left: nat, right: nat|
                    top < bottom && left < right && houses_of_cells(Shape::Row, s) == set![top, bottom]
                        && houses_of_cells(Shape::Column, s) == set![left, right] && rect.spanning(
                        top * 9 + left,
                        bottom * 9 + right,
                    )
            }),
    {
        let mut set = CellSet::empty();
        let mut i: usize = 0;
        while i < cells.len()
            invariant
                i <= cells.len(),
                set@ == Set::new(|x: nat| exists|j: int| 0 <= j < i && (#[trigger] cells[j])@ == x),
            decreases cells.len() - i,
        {
            let c = cells[i];
            set = set.with(c);
            proof {
                assert(set@ =~= Set::new(|x: nat| exists|j: int| 0 <= j < i + 1 && (#[trigger] cells[j])@ == x)) by {
                    assert forall|x: nat| set@.contains(x) implies exists|j: int| 0 <= j < i + 1 && (#[trigger] cells[j])@ == x by {
                        if x == c@ {
                            assert(cells[i as int] == c);
                        }
                    }
                }
            }
            i = i + 1;
        }
        Self::try_from_cells(set)
    }

    /// "Rectangle(" followed by the labels of the top-left and the
    /// bottom-right corners and ")".
    pub fn debug_string(&self) -> (r: String)
        ensures
            r@ == seq!['R', 'e', 'c', 't', 'a', 'n', 'g', 'l', 'e', '('] + cell_label(self.tl()@) + seq![
                ' ',
            ] + cell_label(self.br()@) + seq![')'],
    {
        let (tl, br) = self.tl_br();
        let mut s = String::from_str("Rectangle(");
        s.append(tl.label().as_str());
        string_push(&mut s, ' ');
        s.append(br.label().as_str());
        string_push(&mut s, ')');
        proof {
            reveal_strlit("Rectangle(");
            assert(s@ =~= seq!['R', 'e', 'c', 't', 'a', 'n', 'g', 'l', 'e', '('] + cell_label(
                self.tl()@,
            ) + seq![' '] + cell_label(self.br()@) + seq![')']);
        }
        s
    }

    /// "R", the row digits of the two corners, "C", their column digits.
    pub fn label_string(&self) -> (r: String)
        ensures
            r@ == seq![
                'R',
                digit_char(row_of(self.tl()@)),
                digit_char(row_of(self.br()@)),
                'C',
                digit_char(col_of(self.tl()@)),
                digit_char(col_of(self.br()@)),
            ],
    {
        let (tl, br) = self.tl_br();
        let mut s = String::new();
        string_push(&mut s, 'R');
        string_push(&mut s, tl.row_coord().label());
        string_push(&mut s, br.row_coord().label());
        string_push(&mut s, 'C');
        string_push(&mut s, tl.column_coord().label());
        string_push(&mut s, br.column_coord().label());
        assert(s@ =~= seq![
            'R',
            digit_char(row_of(self.tl()@)),
            digit_char(row_of(self.br()@)),
            'C',
            digit_char(col_of(self.tl()@)),
            digit_char(col_of(self.br()@)),
        ]);
        s
    }
}

/// The pair of blocks of step `b` (0..9) of direction `hv` (0 across, 1 down).
pub open spec fn block_pair(hv: nat, b: nat) -> (nat, nat) {
    let band = b / 3;
    let k = b % 3;
    let (x, y) = if k == 0 {
        (0nat, 1nat)
    } else if k == 1 {
        (0nat, 2nat)
    } else {
        (1nat, 2nat)
    };
    if hv == 0 {
        (band * 3 + x, band * 3 + y)
    } else {
        (x * 3 + band, y * 3 + band)
    }
}

/// The top-left and bottom-right cells of the rectangle that the
/// iteration gives at position `p` (0..486): 243 for pairs of blocks side
/// by side, then 243 for pairs one above the other, 27 for each pair.
pub open spec fn rect_at(p: nat) -> (nat, nat) {
    let hv = p / 243;
    let b = (p % 243) / 27;
    let (tl, br) = corner_spec(hv, p % 27);
    (
        house_cell_index(Shape::Block, block_pair(hv, b).0, tl),
        house_cell_index(Shape::Block, block_pair(hv, b).1, br),
    )
}

/// A position splits into its direction, its pair of blocks and its
/// rectangle within the pair.
proof fn lemma_position_parts(hv: nat, b: nat, c: nat)
    requires
        hv < 2,
        b < 9,
        c < 27,
    ensures
        (hv * 243 + b * 27 + c) / 243 == hv,
        ((hv * 243 + b * 27 + c) % 243) / 27 == b,
        (hv * 243 + b * 27 + c) % 27 == c,
{
    let p = hv * 243 + b * 27 + c;
    vstd::arithmetic::div_mod::lemma_fundamental_div_mod_converse(p as int, 243, hv as int, (b * 27 + c) as int);
    vstd::arithmetic::div_mod::lemma_fundamental_div_mod_converse((b * 27 + c) as int, 27, b as int, c as int);
    vstd::arithmetic::div_mod::lemma_fundamental_div_mod_converse(p as int, 27, (hv * 9 + b) as int, c as int);
}

/// Different pairs of blocks are different pairs.
proof fn lemma_block_pair_injective(hv1: nat, b1: nat, hv2: nat, b2: nat)
    requires
        hv1 < 2,
        hv2 < 2,
        b1 < 9,
        b2 < 9,
        block_pair(hv1, b1) == block_pair(hv2, b2),
    ensures
        hv1 == hv2 && b1 == b2,
{
}

/// Different rectangles of one pair of blocks have different corners.
proof fn lemma_corner_spec_injective(hv: nat, c1: nat, c2: nat)
    requires
        hv < 2,
        c1 < 27,
        c2 < 27,
        corner_spec(hv, c1) == corner_spec(hv, c2),
    ensures
        c1 == c2,
{
    assert(c1 == (c1 / 9) * 9 + c1 % 9);
    assert(c2 == (c2 / 9) * 9 + c2 % 9);
}

/// A position is its direction, its pair of blocks and its rectangle
/// within the pair.
proof fn lemma_position_split(p: nat)
    requires
        p < 486,
    ensures
        p / 243 < 2,
        (p % 243) / 27 < 9,
        p % 27 < 27,
        p == (p / 243) * 243 + ((p % 243) / 27) * 27 + p % 27,
{
    vstd::arithmetic::div_mod::lemma_fundamental_div_mod(p as int, 243);
    vstd::arithmetic::div_mod::lemma_fundamental_div_mod((p % 243) as int, 27);
    vstd::arithmetic::div_mod::lemma_mod_mod(p as int, 243, 9);
    assert((p % 243) % 27 == p % 27) by {
        vstd::arithmetic::div_mod::lemma_mod_mod(p as int, 27, 9);
    }
}

/// The iteration gives a different rectangle at each position: no two of
/// its 486 rectangles have the same corners.
pub proof fn lemma_rect_at_distinct(p1: nat, p2: nat)
    requires
        p1 < 486,
        p2 < 486,
        p1 != p2,
    ensures
        rect_at(p1) != rect_at(p2),
{
    let (hv1, b1, c1) = (p1 / 243, (p1 % 243) / 27, p1 % 27);
    let (hv2, b2, c2) = (p2 / 243, (p2 % 243) / 27, p2 % 27);
    lemma_position_split(p1);
    lemma_position_split(p2);
    if rect_at(p1) == rect_at(p2) {
        lemma_block_pair_bounds(hv1, b1);
        lemma_block_pair_bounds(hv2, b2);
        lemma_corner_bounds(hv1, c1);
        lemma_corner_bounds(hv2, c2);
        lemma_block_cells_same(block_pair(hv1, b1).0, corner_spec(hv1, c1).0, block_pair(hv2, b2).0, corner_spec(hv2, c2).0);
        lemma_block_cells_same(block_pair(hv1, b1).1, corner_spec(hv1, c1).1, block_pair(hv2, b2).1, corner_spec(hv2, c2).1);
        lemma_block_pair_injective(hv1, b1, hv2, b2);
        lemma_corner_spec_injective(hv1, c1, c2);
    }
}

/// The same cell is at the same position of the same block.
proof fn lemma_block_cells_same(f1: nat, x1: nat, f2: nat, x2: nat)
    requires
        f1 < 9 && x1 < 9 && f2 < 9 && x2 < 9,
        house_cell_index(Shape::Block, f1, x1) == house_cell_index(Shape::Block, f2, x2),
    ensures
        f1 == f2 && x1 == x2,
{
    crate::layout::shape::lemma_house_cell_index(Shape::Block, f1, x1);
    crate::layout::shape::lemma_house_cell_index(Shape::Block, f2, x2);
    crate::layout::shape::lemma_house_cell_index_injective(Shape::Block, f1, x1, x2);
}

/// The blocks of a pair are blocks.
proof fn lemma_block_pair_bounds(hv: nat, b: nat)
    requires
        hv < 2,
        b < 9,
    ensures
        block_pair(hv, b).0 < 9,
        block_pair(hv, b).1 < 9,
{
}

/// The corners' positions are positions in a block.
proof fn lemma_corner_bounds(hv: nat, c: nat)
    requires
        c < 27,
    ensures
        corner_spec(hv, c).0 < 9,
        corner_spec(hv, c).1 < 9,
{
}

/// The row and column of the cell at `c` in block `b`.
proof fn lemma_block_cell_row_col(b: nat, c: nat)
    requires
        b < 9,
        c < 9,
    ensures
        row_of(house_cell_index(Shape::Block, b, c)) == (b / 3) * 3 + c / 3,
        col_of(house_cell_index(Shape::Block, b, c)) == (b % 3) * 3 + c % 3,
{
    let q = (b / 3) * 3 + c / 3;
    let r = (b % 3) * 3 + c % 3;
    assert(house_cell_index(Shape::Block, b, c) == q * 9 + r);
    vstd::arithmetic::div_mod::lemma_fundamental_div_mod_converse(
        house_cell_index(Shape::Block, b, c) as int,
        9,
        q as int,
        r as int,
    );
}

/// The corners the iteration picks in the blocks of a pair: the first
/// lies above and left of the second, and the rectangle spans two blocks.
proof fn lemma_iter_corners(hv: nat, b: nat, tl: nat, br: nat)
    requires
        hv < 2,
        b < 9,
        tl < 9,
        br < 9,
        hv == 0 ==> tl / 3 < br / 3,
        hv == 1 ==> tl % 3 < br % 3,
    ensures
        row_of(house_cell_index(Shape::Block, block_pair(hv, b).0, tl)) < row_of(
            house_cell_index(Shape::Block, block_pair(hv, b).1, br),
        ),
        col_of(house_cell_index(Shape::Block, block_pair(hv, b).0, tl)) < col_of(
            house_cell_index(Shape::Block, block_pair(hv, b).1, br),
        ),
        block_span(block_pair(hv, b).0, block_pair(hv, b).1) == 2,
{
    let (from, to) = block_pair(hv, b);
    let band = b / 3;
    let k = b % 3;
    let x: nat = if k == 0 {
        0
    } else if k == 1 {
        0
    } else {
        1
    };
    let y: nat = if k == 0 {
        1
    } else {
        2
    };
    assert(band < 3 && x < y && y < 3);
    if hv == 0 {
        assert(from == band * 3 + x && to == band * 3 + y);
        vstd::arithmetic::div_mod::lemma_fundamental_div_mod_converse(from as int, 3, band as int, x as int);
        vstd::arithmetic::div_mod::lemma_fundamental_div_mod_converse(to as int, 3, band as int, y as int);
    } else {
        assert(from == x * 3 + band && to == y * 3 + band);
        vstd::arithmetic::div_mod::lemma_fundamental_div_mod_converse(from as int, 3, x as int, band as int);
        vstd::arithmetic::div_mod::lemma_fundamental_div_mod_converse(to as int, 3, y as int, band as int);
    }
    assert(from < 9 && to < 9);
    lemma_block_cell_row_col(from, tl);
    lemma_block_cell_row_col(to, br);
}

fn block_pair_exec(hv: usize, b: usize) -> (r: (u8, u8))
    requires
        hv < 2,
        b < 9,
    ensures
        r.0 as nat == block_pair(hv as nat, b as nat).0,
        r.1 as nat == block_pair(hv as nat, b as nat).1,
        r.0 < 9,
        r.1 < 9,
{
    let band: u8 = (b / 3) as u8;
    let k: usize = b % 3;
    let (x, y): (u8, u8) = if k == 0 {
        (0, 1)
    } else if k == 1 {
        (0, 2)
    } else {
        (1, 2)
    };
    if hv == 0 {
        (band * 3 + x, band * 3 + y)
    } else {
        (x * 3 + band, y * 3 + band)
    }
}

/// The positions within the two blocks of the top-left and the
/// bottom-right corners of rectangle `c` (0..27) of direction `hv`: the
/// top-left corner's column (across) or row (down) within its block is
/// `c / 9`; of the rest `k`, the first six put the top-left corner in the
/// block's first line and the last three in its second, the first three
/// put the bottom-right corner in the second line and the rest in the
/// third, and `k % 3` is its place along that line.
pub open spec fn corner_spec(hv: nat, c: nat) -> (nat, nat) {
    let j = c / 9;
    let k = c % 9;
    let first: nat = if k < 6 {
        0
    } else {
        1
    };
    let second: nat = if k < 3 {
        1
    } else {
        2
    };
    if hv == 0 {
        (first * 3 + j, second * 3 + k % 3)
    } else {
        (j * 3 + first, (k % 3) * 3 + second)
    }
}

fn corner_coords(hv: usize, c: usize) -> (r: (u8, u8))
    requires
        hv < 2,
        c < 27,
    ensures
        r.0 < 9,
        r.1 < 9,
        (r.0 as nat, r.1 as nat) == corner_spec(hv as nat, c as nat),
        hv == 0 ==> r.0 / 3 < r.1 / 3,
        hv == 1 ==> r.0 % 3 < r.1 % 3,
{
    let across_tl: [u8; 27] = [
        0, 0, 0, 0, 0, 0, 3, 3, 3, 1, 1, 1, 1, 1, 1, 4, 4, 4, 2, 2, 2, 2, 2, 2, 5, 5, 5,
    ];
    let across_br: [u8; 27] = [
        3, 4, 5, 6, 7, 8, 6, 7, 8, 3, 4, 5, 6, 7, 8, 6, 7, 8, 3, 4, 5, 6, 7, 8, 6, 7, 8,
    ];
    let down_tl: [u8; 27] = [
        0, 0, 0, 0, 0, 0, 1, 1, 1, 3, 3, 3, 3, 3, 3, 4, 4, 4, 6, 6, 6, 6, 6, 6, 7, 7, 7,
    ];
    let down_br: [u8; 27] = [
        1, 4, 7, 2, 5, 8, 2, 5, 8, 1, 4, 7, 2, 5, 8, 2, 5, 8, 1, 4, 7, 2, 5, 8, 2, 5, 8,
    ];
    let (a, b) = if hv == 0 {
        (across_tl[c], across_br[c])
    } else {
        (down_tl[c], down_br[c])
    };
    if a < 9 && b < 9 {
        (a, b)
    } else {
        (0, 0)
    }
}

/// The state of an iteration over the rectangles that span two blocks.
#[derive(Clone, Copy, Debug, PartialEq, Eq, Structural)]
pub enum RectangleIter {
    State { horiz_vert: usize, block: usize, cell: usize },
    Done,
}

impl RectangleIter {
    /// Whether the state is one the iteration can reach.
    pub open spec fn wf(self) -> bool {
        match self {
            RectangleIter::State { horiz_vert, block, cell } => horiz_vert <= 2 && block < 9 && cell
                < 27 && (horiz_vert == 2 ==> block == 0 && cell == 0),
            RectangleIter::Done => true,
        }
    }

    /// How many rectangles the iteration has produced.
    pub open spec fn position(self) -> nat {
        match self {
            RectangleIter::State { horiz_vert, block, cell } => (horiz_vert * 243 + block * 27
                + cell) as nat,
            RectangleIter::Done => 486,
        }
    }

    /// The state at the start of an iteration.
    pub fn default() -> (r: Self)
        ensures
            r == (RectangleIter::State { horiz_vert: 0, block: 0, cell: 0 }),
    {
        RectangleIter::State { horiz_vert: 0, block: 0, cell: 0 }
    }

    /// The next rectangle: its top-left corner lies in the first block of
    /// the current pair and its bottom-right corner in the second.
    #[verifier::rlimit(80)]
    pub fn next(&mut self) -> (r: Option<Rectangle>)
        requires
            old(self).wf(),
        ensures
            final(self).wf(),
            old(self).position() < 486 ==> r is Some && final(self).position() == old(
                self,
            ).position() + 1,
            old(self).position() >= 486 ==> r is None && *final(self) == RectangleIter::Done,
            r matches Some(rect) ==> exists|hv: nat, b: nat|
                hv * 243 + b * 27 <= old(self).position() < hv * 243 + b * 27 + 27 && block_of(
                    rect.tl()@,
                ) == block_pair(hv, b).0 && block_of(rect.br()@) == block_pair(hv, b).1,
            r matches Some(rect) ==> (rect.tl()@, rect.br()@) == rect_at(old(self).position()),
            r matches Some(rect) ==> {
                &&& rect.blocks() == 2
                &&& rect.spanning(rect.tl()@, rect.br()@)
                &&& row_of(rect.tl()@) < row_of(rect.br()@)
                &&& col_of(rect.tl()@) < col_of(rect.br()@)
            },
    {
        match *self {
            RectangleIter::Done => None,
            RectangleIter::State { horiz_vert, block, cell } => {
                if horiz_vert == 2 {
                    *self = RectangleIter::Done;
                    return None;
                }
                let (from, to) = block_pair_exec(horiz_vert, block);
                let (tl, br) = corner_coords(horiz_vert, cell);
                let from_block = House::block(Coord::new(from));
                let to_block = House::block(Coord::new(to));
                let rect = Rectangle::new(
                    Cell::from_block(from_block, Coord::new(tl)),
                    Cell::from_block(to_block, Coord::new(br)),
                );
                let mut c: usize = cell + 1;
                let mut b: usize = block;
                let mut h: usize = horiz_vert;
                if c == 27 {
                    c = 0;
                    b = b + 1;
                    if b == 9 {
                        b = 0;
                        h = h + 1;
                    }
                }
                *self = RectangleIter::State { horiz_vert: h, block: b, cell: c };
                proof {
                    lemma_iter_corners(horiz_vert as nat, block as nat, tl as nat, br as nat);
                    lemma_position_parts(horiz_vert as nat, block as nat, cell as nat);
                }
                assert(block_of(rect.tl()@) == block_pair(horiz_vert as nat, block as nat).0);
                Some(rect)
            },
        }
    }
}

} // verus!
