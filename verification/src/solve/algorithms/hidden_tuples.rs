use vstd::prelude::*;

use crate::layout::cell_set::{lemma_cell_set_bounded, CellSet};
use crate::solve::algorithms::combinations::{combinations, is_combination};

verus! {

broadcast use lemma_cell_set_bounded;

/// The union of the cell sets at the first `n` positions of `idx`.
pub open spec fn cells_union_at(sets: Seq<CellSet>, idx: Seq<usize>, n: nat) -> Set<nat>
    decreases n,
{
    if n == 0 {
        Set::empty()
    } else {
        cells_union_at(sets, idx, (n - 1) as nat).union(sets[idx[n - 1] as int]@)
    }
}

/// Whether some `smaller` of the cell sets, taken at the positions of one
/// of `combos`, cover at most `smaller` cells together, when `smaller` is
/// below `size`.
pub open spec fn cells_degenerate_in(sets: Seq<CellSet>, size: nat, smaller: nat, combos: Seq<Seq<usize>>) -> bool {
    size > smaller && exists|j: int|
        0 <= j < combos.len() && #[trigger] cells_union_at(sets, combos[j], smaller).len() <= smaller
}

fn cells_union_of(sets: &Vec<CellSet>, idx: &Vec<usize>) -> (r: CellSet)
    requires
        forall|a: int| 0 <= a < idx.len() ==> #[trigger] idx[a] < sets.len(),
    ensures
        r@ == cells_union_at(sets@, idx@, idx.len() as nat),
{
    let mut acc = CellSet::empty();
    let mut a: usize = 0;
    while a < idx.len()
        invariant
            a <= idx.len(),
            forall|b: int| 0 <= b < idx.len() ==> #[trigger] idx[b] < sets.len(),
            acc@ == cells_union_at(sets@, idx@, a as nat),
        decreases idx.len() - a,
    {
        acc = acc.union(sets[idx[a]]);
        a = a + 1;
    }
    acc
}

/// `is_degenerate` over given combinations of positions.
pub fn is_degenerate_with(cell_sets: &Vec<CellSet>, size: usize, smaller: usize, combos: &Vec<Vec<usize>>) -> (r:
    bool)
    requires
        forall|j: int| 0 <= j < combos.len() ==> (#[trigger] combos[j]).len() == smaller,
        forall|j: int, a: int|
            0 <= j < combos.len() && 0 <= a < smaller ==> #[trigger] combos[j][a] < cell_sets.len(),
    ensures
        r == cells_degenerate_in(cell_sets@, size as nat, smaller as nat, combos@.map_values(|v: Vec<usize>| v@)),
{
    let ghost cs = combos@.map_values(|v: Vec<usize>| v@);
    if size <= smaller {
        return false;
    }
    let mut j: usize = 0;
    while j < combos.len()
        invariant
            j <= combos.len(),
            size > smaller,
            cs == combos@.map_values(|v: Vec<usize>| v@),
            forall|x: int| 0 <= x < combos.len() ==> (#[trigger] combos[x]).len() == smaller,
            forall|x: int, a: int|
                0 <= x < combos.len() && 0 <= a < smaller ==> #[trigger] combos[x][a] < cell_sets.len(),
            forall|x: int| 0 <= x < j ==> #[trigger] cells_union_at(cell_sets@, cs[x], smaller as nat).len() > smaller,
        decreases combos.len() - j,
    {
        let combo = &combos[j];
        proof {
            assert forall|a: int| 0 <= a < combo.len() implies #[trigger] combo[a] < cell_sets.len() by {
                assert(combos[j as int][a] < cell_sets.len());
            }
        }
        let u = cells_union_of(cell_sets, combo);
        proof {
            assert(cs[j as int] == combo@);
        }
        if u.len() <= smaller {
            return true;
        }
        j = j + 1;
    }
    false
}

/// Some `smaller` of the cell sets, at increasing positions, cover at most
/// `smaller` cells together.
pub open spec fn hides_smaller(sets: Seq<CellSet>, smaller: nat) -> bool {
    exists|s: Seq<usize>|
        #[trigger] is_combination(s, sets.len(), smaller) && cells_union_at(sets, s, smaller).len() <= smaller
}

/// Whether `size` cell sets hide a smaller tuple: `smaller` of them that
/// together cover at most `smaller` cells (never when `smaller` is not
/// below `size`).
pub fn is_degenerate(cell_sets: &Vec<CellSet>, size: usize, smaller: usize) -> (r: bool)
    ensures
        r == (size > smaller && hides_smaller(cell_sets@, smaller as nat)),
{
    let combos = combinations(cell_sets.len(), smaller);
    let ghost cs = combos@.map_values(|v: Vec<usize>| v@);
    let r = is_degenerate_with(cell_sets, size, smaller, &combos);
    proof {
        if size > smaller {
            if r {
                let j = choose|j: int|
                    0 <= j < cs.len() && #[trigger] cells_union_at(cell_sets@, cs[j], smaller as nat).len()
                        <= smaller;
                assert(cs[j] == combos[j]@);
                assert forall|a: int, b: int| 0 <= a < b < smaller implies cs[j][a] < cs[j][b] by {
                    assert(combos[j][a] < combos[j][b]);
                }
                assert(is_combination(cs[j], cell_sets.len() as nat, smaller as nat));
            } else {
                assert forall|s: Seq<usize>| #[trigger] is_combination(s, cell_sets@.len(), smaller as nat)
                    implies cells_union_at(cell_sets@, s, smaller as nat).len() > smaller by {
                    let i = choose|i: int| 0 <= i < combos.len() && combos[i]@ == s;
                    assert(cs[i] == s);
                }
            }
        }
    }
    r
}

} // verus!
