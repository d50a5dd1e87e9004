use vstd::prelude::*;

verus! {

/// A position 0..9 along a row, a column or within a block.
#[derive(Clone, Copy, Debug, Default, Hash, PartialEq, Eq, Structural, PartialOrd, Ord)]
pub struct Coord {
    index: u8,
}

impl View for Coord {
    type V = nat;

    closed spec fn view(&self) -> nat {
        self.index as nat
    }
}

/// Equal coordinates are exactly those with equal indices.
pub broadcast proof fn lemma_coord_view_injective(a: Coord, b: Coord)
    ensures
        (#[trigger] a@ == #[trigger] b@) <==> a == b,
{
}

impl Coord {
    pub const COUNT: u8 = 9;

    #[verifier::type_invariant]
    spec fn inv(self) -> bool {
        self.index < 9
    }

    /// The coordinate with the given zero-based index.
    pub fn new(coord: u8) -> (r: Self)
        requires
            coord < 9,
        ensures
            r@ == coord,
    {
        Coord { index: coord }
    }

    /// The coordinate of a one-based digit 1..=9.
    pub fn from_digit(digit: u8) -> (r: Self)
        requires
            1 <= digit <= 9,
        ensures
            r@ == digit - 1,
    {
        Coord { index: digit - 1 }
    }

    pub fn index(&self) -> (r: u8)
        ensures
            r == self@,
            r < 9,
    {
        proof {
            use_type_invariant(self);
        }
        self.index
    }

    pub fn u8(&self) -> (r: u8)
        ensures
            r == self@,
            r < 9,
    {
        self.index()
    }

    pub fn usize(&self) -> (r: usize)
        ensures
            r == self@,
            r < 9,
    {
        self.index() as usize
    }

    /// The single bit standing for this coordinate in a nine-bit set.
    pub fn bit(&self) -> (r: u16)
        ensures
            r == 1u16 << (self@ as u16),
            r <= crate::layout::bits::FULL9,
            crate::layout::bits::set16(r) == set![self@],
    {
        let i: u8 = self.index();
        proof {
            crate::layout::bits::lemma_set16_single(i as u16);
            crate::layout::bits::lemma_single_bound16(i as u16);
        }
        1u16 << (i as u16)
    }

    /// The digit '1'..='9' that labels this coordinate.
    pub fn label(&self) -> (r: char)
        ensures
            r == digit_char(self@),
    {
        let i: u8 = self.index();
        (49u8 + i) as char
    }

    pub fn min(self, other: Self) -> (r: Self)
        ensures
            r@ == if self@ <= other@ {
                self@
            } else {
                other@
            },
    {
        if self.index() <= other.index() {
            self
        } else {
            other
        }
    }

    pub fn max(self, other: Self) -> (r: Self)
        ensures
            r@ == if self@ >= other@ {
                self@
            } else {
                other@
            },
    {
        if self.index() >= other.index() {
            self
        } else {
            other
        }
    }
}

/// The digit character '1'..='9' for index 0..9.
pub open spec fn digit_char(i: nat) -> char {
    (('1' as nat) + i) as char
}

} // verus!
