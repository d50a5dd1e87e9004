use vstd::prelude::*;

use crate::layout::cell::Cell;
use crate::layout::cell_set::CellSet;
use crate::layout::coord::Coord;
use crate::layout::house::{Block, Column, HouseLike, Row};
use crate::layout::house_set::HouseSet;
use crate::layout::shape::Shape;

verus! {

/// A row, column or block, each kept as its own type.
#[derive(Clone, Copy, Debug, PartialEq, Eq, Structural)]
pub enum AnyHouse {
    Row(Row),
    Column(Column),
    Block(Block),
}

impl HouseLike for AnyHouse {
    open spec fn house_view(&self) -> (Shape, nat) {
        match *self {
            AnyHouse::Row(r) => r.house_view(),
            AnyHouse::Column(c) => c.house_view(),
            AnyHouse::Block(b) => b.house_view(),
        }
    }

    fn coord(&self) -> (r: Coord) {
        match self {
            AnyHouse::Row(r) => r.coord(),
            AnyHouse::Column(c) => c.coord(),
            AnyHouse::Block(b) => b.coord(),
        }
    }

    fn shape(&self) -> (r: Shape) {
        match self {
            AnyHouse::Row(r) => r.shape(),
            AnyHouse::Column(c) => c.shape(),
            AnyHouse::Block(b) => b.shape(),
        }
    }

    fn cells(&self) -> (r: CellSet) {
        match self {
            AnyHouse::Row(r) => r.cells(),
            AnyHouse::Column(c) => c.cells(),
            AnyHouse::Block(b) => b.cells(),
        }
    }

    fn cell(&self, coord: Coord) -> (r: Cell) {
        match self {
            AnyHouse::Row(r) => r.cell(coord),
            AnyHouse::Column(c) => c.cell(coord),
            AnyHouse::Block(b) => b.cell(coord),
        }
    }

    fn label(&self) -> (r: String) {
        match self {
            AnyHouse::Row(r) => r.label(),
            AnyHouse::Column(c) => c.label(),
            AnyHouse::Block(b) => b.label(),
        }
    }

    fn console_label(&self) -> (r: char) {
        match self {
            AnyHouse::Row(r) => r.console_label(),
            AnyHouse::Column(c) => c.console_label(),
            AnyHouse::Block(b) => b.console_label(),
        }
    }

    fn crossing_houses(&self, cells: CellSet) -> (r: HouseSet) {
        match self {
            AnyHouse::Row(r) => r.crossing_houses(cells),
            AnyHouse::Column(c) => c.crossing_houses(cells),
            AnyHouse::Block(b) => b.crossing_houses(cells),
        }
    }

    fn houses(&self, shape: Shape) -> (r: HouseSet) {
        match self {
            AnyHouse::Row(r) => r.houses(shape),
            AnyHouse::Column(c) => c.houses(shape),
            AnyHouse::Block(b) => b.houses(shape),
        }
    }
}

/// The rows, the columns and the blocks, each in coordinate order.
pub trait HouseIterator: Sized {
    /// Every house of the kind, in order.
    fn all_houses() -> Vec<Self>;
}

/// An iterator over the nine rows.
pub struct RowIter {
    i: u8,
}

/// An iterator over the nine columns.
pub struct ColumnIter {
    i: u8,
}

/// An iterator over the nine blocks.
pub struct BlockIter {
    i: u8,
}

/// An iterator over the rows, then the columns, then the blocks.
pub struct AnyHouseIter {
    index: u8,
}

impl RowIter {
    pub closed spec fn position(&self) -> nat {
        self.i as nat
    }

    pub fn new() -> (r: Self)
        ensures
            r.position() == 0,
    {
        RowIter { i: 0 }
    }

    /// The next row, if any remain.
    pub fn next(&mut self) -> (r: Option<Row>)
        ensures
            old(self).position() < 9 ==> (r matches Some(h) && h.house_view() == (
                Shape::Row,
                old(self).position(),
            ) && final(self).position() == old(self).position() + 1),
            old(self).position() >= 9 ==> r is None && final(self).position() == old(self).position(),
    {
        if self.i >= 9 {
            return None;
        }
        let row = Row::new(Coord::new(self.i));
        self.i = self.i + 1;
        Some(row)
    }
}

impl ColumnIter {
    pub closed spec fn position(&self) -> nat {
        self.i as nat
    }

    pub fn new() -> (r: Self)
        ensures
            r.position() == 0,
    {
        ColumnIter { i: 0 }
    }

    /// The next column, if any remain.
    pub fn next(&mut self) -> (r: Option<Column>)
        ensures
            old(self).position() < 9 ==> (r matches Some(h) && h.house_view() == (
                Shape::Column,
                old(self).position(),
            ) && final(self).position() == old(self).position() + 1),
            old(self).position() >= 9 ==> r is None && final(self).position() == old(self).position(),
    {
        if self.i >= 9 {
            return None;
        }
        let column = Column::new(Coord::new(self.i));
        self.i = self.i + 1;
        Some(column)
    }
}

impl BlockIter {
    pub closed spec fn position(&self) -> nat {
        self.i as nat
    }

    pub fn new() -> (r: Self)
        ensures
            r.position() == 0,
    {
        BlockIter { i: 0 }
    }

    /// The next block, if any remain.
    pub fn next(&mut self) -> (r: Option<Block>)
        ensures
            old(self).position() < 9 ==> (r matches Some(h) && h.house_view() == (
                Shape::Block,
                old(self).position(),
            ) && final(self).position() == old(self).position() + 1),
            old(self).position() >= 9 ==> r is None && final(self).position() == old(self).position(),
    {
        if self.i >= 9 {
            return None;
        }
        let block = Block::new(Coord::new(self.i));
        self.i = self.i + 1;
        Some(block)
    }
}

/// House number `n` of the 27: the rows, then the columns, then the blocks.
pub open spec fn any_house_at(n: nat) -> (Shape, nat) {
    if n < 9 {
        (Shape::Row, n)
    } else if n < 18 {
        (Shape::Column, (n - 9) as nat)
    } else {
        (Shape::Block, (n - 18) as nat)
    }
}

impl AnyHouseIter {
    pub closed spec fn position(&self) -> nat {
        self.index as nat
    }

    pub fn new() -> (r: Self)
        ensures
            r.position() == 0,
    {
        AnyHouseIter { index: 0 }
    }

    /// The next house, if any remain.
    pub fn next(&mut self) -> (r: Option<AnyHouse>)
        ensures
            old(self).position() < 27 ==> (r matches Some(h) && h.house_view() == any_house_at(
                old(self).position(),
            ) && final(self).position() == old(self).position() + 1),
            old(self).position() >= 27 ==> r is None && final(self).position() == old(self).position(),
    {
        if self.index < 9 {
            let r = Row::new(Coord::new(self.index));
            self.index = self.index + 1;
            return Some(AnyHouse::Row(r));
        }
        if self.index < 18 {
            let c = Column::new(Coord::new(self.index - 9));
            self.index = self.index + 1;
            return Some(AnyHouse::Column(c));
        }
        if self.index < 27 {
            let b = Block::new(Coord::new(self.index - 18));
            self.index = self.index + 1;
            return Some(AnyHouse::Block(b));
        }
        None
    }
}

impl HouseIterator for Row {
    fn all_houses() -> (r: Vec<Row>)
        ensures
            r.len() == 9,
            forall|i: int| 0 <= i < 9 ==> #[trigger] r[i].house_view() == (Shape::Row, i as nat),
    {
        let mut it = RowIter::new();
        let mut out: Vec<Row> = Vec::new();
        let mut n: u8 = 0;
        while n < 9
            invariant
                n <= 9,
                it.position() == n,
                out.len() == n,
                forall|i: int| 0 <= i < n ==> #[trigger] out[i].house_view() == (Shape::Row, i as nat),
            decreases 9 - n,
        {
            if let Some(h) = it.next() {
                out.push(h);
            }
            n = n + 1;
        }
        out
    }
}

impl HouseIterator for Column {
    fn all_houses() -> (r: Vec<Column>)
        ensures
            r.len() == 9,
            forall|i: int| 0 <= i < 9 ==> #[trigger] r[i].house_view() == (Shape::Column, i as nat),
    {
        let mut it = ColumnIter::new();
        let mut out: Vec<Column> = Vec::new();
        let mut n: u8 = 0;
        while n < 9
            invariant
                n <= 9,
                it.position() == n,
                out.len() == n,
                forall|i: int| 0 <= i < n ==> #[trigger] out[i].house_view() == (Shape::Column, i as nat),
            decreases 9 - n,
        {
            if let Some(h) = it.next() {
                out.push(h);
            }
            n = n + 1;
        }
        out
    }
}

impl HouseIterator for Block {
    fn all_houses() -> (r: Vec<Block>)
        ensures
            r.len() == 9,
            forall|i: int| 0 <= i < 9 ==> #[trigger] r[i].house_view() == (Shape::Block, i as nat),
    {
        let mut it = BlockIter::new();
        let mut out: Vec<Block> = Vec::new();
        let mut n: u8 = 0;
        while n < 9
            invariant
                n <= 9,
                it.position() == n,
                out.len() == n,
                forall|i: int| 0 <= i < n ==> #[trigger] out[i].house_view() == (Shape::Block, i as nat),
            decreases 9 - n,
        {
            if let Some(h) = it.next() {
                out.push(h);
            }
            n = n + 1;
        }
        out
    }
}

impl HouseIterator for AnyHouse {
    fn all_houses() -> (r: Vec<AnyHouse>)
        ensures
            r.len() == 27,
            forall|i: int| 0 <= i < 27 ==> #[trigger] r[i].house_view() == any_house_at(i as nat),
    {
        let mut it = AnyHouseIter::new();
        let mut out: Vec<AnyHouse> = Vec::new();
        let mut n: u8 = 0;
        while n < 27
            invariant
                n <= 27,
                it.position() == n,
                out.len() == n,
                forall|i: int| 0 <= i < n ==> #[trigger] out[i].house_view() == any_house_at(i as nat),
            decreases 27 - n,
        {
            if let Some(h) = it.next() {
                out.push(h);
            }
            n = n + 1;
        }
        out
    }
}

} // verus!
