use vstd::prelude::*;

use crate::layout::bits::{bit128, lemma_bit128_single, FULL81};
use crate::layout::cell::{index_of_label, is_cell_label, Cell};

verus! {

/// The word with only bit `k` set.
pub open spec fn shl1(k: nat) -> u128 {
    1u128 << (k as u128)
}

/// Whether `b` has exactly one bit set, at a cell position.
pub open spec fn is_cell_bit(b: u128) -> bool {
    exists|k: nat| k < 81 && b == #[trigger] shl1(k)
}

/// The position of the only set bit of a cell bit.
pub open spec fn cell_bit_index(b: u128) -> nat {
    choose|k: nat| k < 81 && b == #[trigger] shl1(k)
}

/// A single cell given by its position in a bit set.
#[derive(Clone, Copy, Debug, Hash, PartialEq, Eq, Structural, PartialOrd, Ord)]
pub enum Bit {
    Value(u128),
}

impl Bit {
    /// The bit of the last cell.
    pub const MAX: u128 = 0x1_0000_0000_0000_0000_0000u128;

    /// All 81 cell bits.
    pub const ALL: u128 = FULL81;

    /// The raw word of a bit, in specifications.
    pub open spec fn word(self) -> u128 {
        match self {
            Bit::Value(b) => b,
        }
    }

    /// The bit `bit`, which must be a single cell bit.
    pub fn new(bit: u128) -> (r: Self)
        requires
            is_cell_bit(bit),
        ensures
            r.word() == bit,
    {
        Bit::Value(bit)
    }

    /// The raw word.
    pub fn bit(&self) -> (r: u128)
        ensures
            r == self.word(),
    {
        match *self {
            Bit::Value(bit) => bit,
        }
    }

    /// The position of the bit.
    pub fn index(&self) -> (r: u8)
        requires
            is_cell_bit(self.word()),
        ensures
            r < 81,
            self.word() == 1u128 << (r as u128),
    {
        let b: u128 = self.bit();
        let ghost k = cell_bit_index(b);
        let mut i: u8 = 0;
        while i < 81
            invariant
                i <= 81,
                k < 81,
                b == 1u128 << (k as u128),
                b == self.word(),
                k >= i,
            decreases 81 - i,
        {
            proof {
                lemma_bit128_single(k as u128, i as nat);
            }
            if (b >> (i as u128)) & 1u128 == 1u128 {
                assert(bit128(b, i as nat));
                assert(i as nat == k);
                return i;
            }
            i = i + 1;
        }
        proof {
            lemma_bit128_single(k as u128, k);
        }
        0
    }

    /// The cell of the bit.
    pub fn cell(&self) -> (r: Cell)
        requires
            is_cell_bit(self.word()),
        ensures
            self.word() == 1u128 << (r@ as u128),
            r@ < 81,
    {
        Cell::new(self.index())
    }

    /// The bit of a cell.
    pub fn from_cell(cell: Cell) -> (r: Self)
        ensures
            r.word() == 1u128 << (cell@ as u128),
            is_cell_bit(r.word()),
    {
        let i: u8 = cell.index();
        assert(shl1(i as nat) == 1u128 << (i as u128));
        Bit::Value(1u128 << (i as u128))
    }

    /// The bit of the cell labelled `label`.
    pub fn from_label(label: &str) -> (r: Self)
        requires
            is_cell_label(label@),
        ensures
            r.word() == 1u128 << (index_of_label(label@[0], label@[1])->0 as u128),
    {
        Self::from_cell(Cell::from_str(label))
    }

    /// Replaces the raw word, which must be a single cell bit.
    pub fn set(&mut self, bit: u128)
        requires
            is_cell_bit(bit),
        ensures
            final(self).word() == bit,
    {
        *self = Bit::Value(bit);
    }
}

} // verus!
