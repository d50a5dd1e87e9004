use vstd::prelude::*;

use crate::layout::cell::Cell;
use crate::layout::value::Value;

verus! {

/// The values of all 81 cells (0 for an empty cell).
#[derive(Debug)]
pub struct Grid {
    values: Vec<u8>,
}

impl View for Grid {
    type V = Seq<nat>;

    closed spec fn view(&self) -> Seq<nat> {
        Seq::new(81, |i: int| digit_or_empty(self.values@[i]))
    }
}

/// A stored byte read as a cell value: a digit, or 0 for anything else.
pub open spec fn digit_or_empty(v: u8) -> nat {
    if v <= 9 {
        v as nat
    } else {
        0
    }
}

/// Every grid has 81 values, each at most 9.
pub broadcast proof fn lemma_grid_shape(g: Grid)
    ensures
        #[trigger] g@.len() == 81,
        forall|i: int| 0 <= i < 81 ==> #[trigger] g@[i] <= 9,
{
}

impl Clone for Grid {
    fn clone(&self) -> (r: Self)
        ensures
            r@ == self@,
    {
        self.copy()
    }
}

impl Grid {
    #[verifier::type_invariant]
    spec fn inv(self) -> bool {
        self.values.len() == 81 && forall|i: int| 0 <= i < 81 ==> #[trigger] self.values[i] <= 9
    }

    /// The grid with every cell empty.
    pub fn new() -> (r: Self)
        ensures
            r@ == Seq::new(81, |i: int| 0nat),
    {
        let mut values: Vec<u8> = Vec::new();
        let mut i: u8 = 0;
        while i < 81
            invariant
                i <= 81,
                values.len() == i,
                forall|j: int| 0 <= j < i ==> #[trigger] values[j] == 0,
            decreases 81 - i,
        {
            values.push(0);
            i = i + 1;
        }
        let g = Grid { values };
        assert(g@ =~= Seq::new(81, |i: int| 0nat));
        g
    }

    /// The value of a cell.
    pub fn get(&self, cell: Cell) -> (r: Value)
        ensures
            r@ == self@[cell@ as int],
    {
        proof {
            use_type_invariant(self);
        }
        Value::new(self.values[cell.usize()])
    }

    /// Sets the value of a cell.
    pub fn set(&mut self, cell: Cell, value: Value)
        ensures
            final(self)@ == old(self)@.update(cell@ as int, value@),
    {
        proof {
            use_type_invariant(&*self);
        }
        let i: usize = cell.usize();
        let v: u8 = value.value();
        let mut values: Vec<u8> = Vec::new();
        let mut j: usize = 0;
        while j < 81
            invariant
                j <= 81,
                i < 81,
                v <= 9,
                old(self).values.len() == 81,
                forall|k: int| 0 <= k < 81 ==> #[trigger] old(self).values[k] <= 9,
                values.len() == j,
                forall|k: int|
                    0 <= k < j ==> #[trigger] values[k] == if k == i {
                        v
                    } else {
                        old(self).values[k]
                    },
            decreases 81 - j,
        {
            if j == i {
                values.push(v);
            } else {
                values.push(self.values[j]);
            }
            j = j + 1;
        }
        self.values = values;
        assert(self@ =~= old(self)@.update(cell@ as int, value@));
    }

    /// A copy of the grid.
    pub fn copy(&self) -> (r: Self)
        ensures
            r@ == self@,
    {
        proof {
            use_type_invariant(self);
        }
        let mut values: Vec<u8> = Vec::new();
        let mut i: usize = 0;
        while i < 81
            invariant
                i <= 81,
                self.values.len() == 81,
                forall|j: int| 0 <= j < 81 ==> #[trigger] self.values[j] <= 9,
                values.len() == i,
                forall|j: int| 0 <= j < i ==> #[trigger] values[j] == self.values[j],
            decreases 81 - i,
        {
            values.push(self.values[i]);
            i = i + 1;
        }
        let g = Grid { values };
        assert(g@ =~= self@);
        g
    }

    /// Whether both grids hold the same values.
    pub fn same_as(&self, other: &Grid) -> (r: bool)
        ensures
            r == (self@ == other@),
    {
        proof {
            use_type_invariant(self);
            use_type_invariant(other);
        }
        let mut i: usize = 0;
        while i < 81
            invariant
                i <= 81,
                self.values.len() == 81,
                other.values.len() == 81,
                forall|j: int| 0 <= j < 81 ==> #[trigger] self.values[j] <= 9,
                forall|j: int| 0 <= j < 81 ==> #[trigger] other.values[j] <= 9,
                forall|j: int| 0 <= j < i ==> self.values[j] == other.values[j],
            decreases 81 - i,
        {
            if self.values[i] != other.values[i] {
                assert(self@[i as int] != other@[i as int]);
                return false;
            }
            i = i + 1;
        }
        assert(self@ =~= other@);
        true
    }

    /// The number of cells holding a digit.
    pub fn known_count(&self) -> (r: u8)
        ensures
            r as nat == known_cells(self@, 81),
            r <= 81,
    {
        proof {
            use_type_invariant(self);
        }
        let mut count: u8 = 0;
        let mut i: usize = 0;
        while i < 81
            invariant
                i <= 81,
                self.values.len() == 81,
                forall|j: int| 0 <= j < 81 ==> #[trigger] self.values[j] <= 9,
                count as nat == known_cells(self@, i as nat),
                count <= i,
            decreases 81 - i,
        {
            if self.values[i] != 0 {
                count = count + 1;
            }
            i = i + 1;
        }
        count
    }

    /// The values as a vector of 81 numbers.
    pub fn to_vec(&self) -> (r: Vec<u8>)
        ensures
            r@.len() == 81,
            forall|i: int| 0 <= i < 81 ==> #[trigger] r@[i] as nat == self@[i],
    {
        proof {
            use_type_invariant(self);
        }
        let mut out: Vec<u8> = Vec::new();
        let mut i: usize = 0;
        while i < 81
            invariant
                i <= 81,
                self.values.len() == 81,
                out.len() == i,
                forall|j: int| 0 <= j < i ==> #[trigger] out@[j] == self.values[j],
            decreases 81 - i,
        {
            out.push(self.values[i]);
            i = i + 1;
        }
        out
    }
}

/// How many of the first `n` values of a grid are digits.
pub open spec fn known_cells(g: Seq<nat>, n: nat) -> nat
    decreases n,
{
    if n == 0 {
        0
    } else {
        known_cells(g, (n - 1) as nat) + if g[n - 1] != 0 {
            1nat
        } else {
            0nat
        }
    }
}

/// If `n` of the first `n` values are known, all of them are.
pub proof fn lemma_all_known(values: Seq<nat>, n: nat)
    requires
        known_cells(values, n) == n,
    ensures
        forall|i: int| 0 <= i < n ==> #[trigger] values[i] != 0,
    decreases n,
{
    if n > 0 {
        lemma_known_cells_bound(values, (n - 1) as nat);
        lemma_all_known(values, (n - 1) as nat);
    }
}

/// At most `n` of the first `n` values are known.
pub proof fn lemma_known_cells_bound(values: Seq<nat>, n: nat)
    ensures
        known_cells(values, n) <= n,
    decreases n,
{
    if n > 0 {
        lemma_known_cells_bound(values, (n - 1) as nat);
    }
}


} // verus!
