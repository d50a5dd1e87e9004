use vstd::prelude::*;

use crate::layout::cell::{cell_at, lemma_cell_at, lemma_cell_view_injective, peers_of, Cell};
use crate::layout::cell_set::{lemma_cell_set_bounded, CellSet};
use crate::layout::grid::{digit_or_empty, known_cells};
use crate::layout::house::House;
use crate::layout::shape::house_cells;
use crate::layout::known::Known;
use crate::layout::known_set::{all_knowns, lemma_known_set_bounded, KnownSet};
use crate::layout::text::string_push;
use crate::layout::value::Value;
use crate::solve::effects::Effects;
use crate::solve::error::Error;

verus! {

broadcast use {lemma_cell_at, lemma_cell_view_injective, lemma_known_set_bounded, lemma_cell_set_bounded};

/// A board being solved: the digit of every cell (0 while unknown), the
/// digits each cell may still take, and which cells were given.
#[derive(Debug)]
pub struct Board {
    givens: CellSet,
    values: Vec<u8>,
    candidates: Vec<KnownSet>,
}

/// The cells (below 81) whose candidates hold digit `k`.
pub open spec fn candidate_cells_of(cands: Seq<Set<nat>>, k: nat) -> Set<nat> {
    Set::new(|i: nat| i < 81 && cands[i as int].contains(k))
}

/// The cells (below 81) with exactly `n` candidates.
pub open spec fn cells_with_n(cands: Seq<Set<nat>>, n: nat) -> Set<nat> {
    Set::new(|i: nat| i < 81 && cands[i as int].len() == n)
}

/// The cells (below 81) whose value is unknown.
pub open spec fn unknown_cells(values: Seq<nat>) -> Set<nat> {
    Set::new(|i: nat| i < 81 && values[i as int] == 0)
}

/// The cells (below 81) whose value is known.
pub open spec fn known_cells_set(values: Seq<nat>) -> Set<nat> {
    Set::new(|i: nat| i < 81 && values[i as int] != 0)
}

/// The digits that are candidates of at least one of `cells`.
pub open spec fn candidates_of_cells(cands: Seq<Set<nat>>, cells: Set<nat>) -> Set<nat> {
    Set::new(|k: nat| exists|i: nat| i < 81 && cells.contains(i) && #[trigger] cands[i as int].contains(k))
}

/// The candidates after digit `k` is set in cell `c`: the cell has none
/// left, and no peer keeps `k`.
pub open spec fn cands_after_set(cands: Seq<Set<nat>>, c: nat, k: nat) -> Seq<Set<nat>> {
    Seq::new(
        81,
        |i: int|
            if i == c {
                Set::empty()
            } else if peers_of(c).contains(i as nat) {
                cands[i].remove(k)
            } else {
                cands[i]
            },
    )
}

/// Whether setting `k` in `c` leaves the unknown peer `i` with no candidate.
pub open spec fn emptied_by_set(values: Seq<nat>, cands: Seq<Set<nat>>, c: nat, k: nat, i: nat) -> bool {
    &&& peers_of(c).contains(i)
    &&& values[i as int] == 0
    &&& cands[i as int].contains(k)
    &&& cands[i as int].remove(k) == Set::<nat>::empty()
}

/// The errors, in cell order among the first `n` cells, for the unknown
/// peers that setting `k` in `c` leaves with no candidate.
pub open spec fn unsolvable_peers(values: Seq<nat>, cands: Seq<Set<nat>>, c: nat, k: nat, n: nat) -> Seq<
    Error,
>
    decreases n,
{
    if n == 0 {
        Seq::empty()
    } else {
        unsolvable_peers(values, cands, c, k, (n - 1) as nat) + if emptied_by_set(
            values,
            cands,
            c,
            k,
            (n - 1) as nat,
        ) {
            seq![Error::UnsolvableCell(cell_at((n - 1) as nat))]
        } else {
            Seq::empty()
        }
    }
}

/// Whether removing `ks` from the candidates of the unknown cell `i`
/// removes its last ones.
pub open spec fn emptied_by_removal(values: Seq<nat>, cands: Seq<Set<nat>>, ks: Set<nat>, i: nat) -> bool {
    &&& values[i as int] == 0
    &&& !cands[i as int].intersect(ks).is_empty()
    &&& cands[i as int].difference(ks) == Set::<nat>::empty()
}

/// The errors, in cell order among the first `n` cells, for the unknown
/// cells of `cells` that lose their last candidates to `ks`.
pub open spec fn unsolvable_removals(
    values: Seq<nat>,
    cands: Seq<Set<nat>>,
    cells: Set<nat>,
    ks: Set<nat>,
    n: nat,
) -> Seq<Error>
    decreases n,
{
    if n == 0 {
        Seq::empty()
    } else {
        unsolvable_removals(values, cands, cells, ks, (n - 1) as nat) + if cells.contains(
            (n - 1) as nat,
        ) && emptied_by_removal(values, cands, ks, (n - 1) as nat) {
            seq![Error::UnsolvableCell(cell_at((n - 1) as nat))]
        } else {
            Seq::empty()
        }
    }
}

/// The character that shows a cell's value: '.' when unknown.
pub open spec fn value_char(v: nat) -> char {
    if v == 0 {
        '.'
    } else {
        (('0' as nat) + v) as char
    }
}

/// Setting digit `k` in cell `c` leaves the cell without candidates,
/// takes `k` from the candidates of every peer, and leaves every other
/// cell's candidates as they were.
pub proof fn lemma_set_clears_peers(cands: Seq<Set<nat>>, c: nat, k: nat)
    requires
        c < 81,
    ensures
        cands_after_set(cands, c, k)[c as int] == Set::<nat>::empty(),
        forall|p: nat| #[trigger] peers_of(c).contains(p) ==> !cands_after_set(cands, c, k)[p as int].contains(k),
        forall|p: nat| #[trigger] peers_of(c).contains(p) ==> cands_after_set(cands, c, k)[p as int] == cands[p as int].remove(k),
        forall|i: int| 0 <= i < 81 && i != c && !peers_of(c).contains(i as nat) ==> #[trigger] cands_after_set(cands, c, k)[i] == cands[i],
{
    assert forall|p: nat| #[trigger] peers_of(c).contains(p) implies !cands_after_set(cands, c, k)[p as int].contains(k) by {
        assert(p < 81 && p != c);
    }
    assert forall|p: nat| #[trigger] peers_of(c).contains(p) implies cands_after_set(cands, c, k)[p as int] == cands[p as int].remove(k) by {
        assert(p < 81 && p != c);
    }
}

/// Every board has 81 values of at most 9.
pub broadcast proof fn lemma_board_values_shape(b: Board)
    ensures
        #![trigger b.values_spec()]
        b.values_spec().len() == 81,
        forall|i: int| 0 <= i < 81 ==> #[trigger] b.values_spec()[i] <= 9,
{
}

/// Every board has 81 finite candidate sets of digits.
pub broadcast proof fn lemma_board_cands_shape(b: Board)
    ensures
        #![trigger b.cands_spec()]
        b.cands_spec().len() == 81,
        forall|i: int| 0 <= i < 81 ==> (#[trigger] b.cands_spec()[i]).finite(),
        forall|i: int, k: nat|
            0 <= i < 81 && #[trigger] b.cands_spec()[i].contains(k) ==> k < 9,
{
    assert forall|i: int| 0 <= i < 81 implies (#[trigger] b.cands_spec()[i]).finite() by {
        lemma_known_set_bounded(b.candidates@[i]);
    }
    assert forall|i: int, k: nat|
        0 <= i < 81 && #[trigger] b.cands_spec()[i].contains(k) implies k < 9 by {
        lemma_known_set_bounded(b.candidates@[i]);
    }
}

impl Clone for Board {
    fn clone(&self) -> (r: Self)
        ensures
            r.values_spec() == self.values_spec(),
            r.cands_spec() == self.cands_spec(),
            r.givens_spec() == self.givens_spec(),
    {
        self.copy()
    }
}

impl Board {
    #[verifier::type_invariant]
    spec fn inv(self) -> bool {
        &&& self.values.len() == 81
        &&& self.candidates.len() == 81
        &&& forall|i: int| 0 <= i < 81 ==> #[trigger] self.values[i] <= 9
    }

    /// The value of every cell: 0 when unknown, else the digit 1..=9.
    pub closed spec fn values_spec(&self) -> Seq<nat> {
        Seq::new(81, |i: int| digit_or_empty(self.values@[i]))
    }

    /// The candidate digit indices (0..9) of every cell.
    pub closed spec fn cands_spec(&self) -> Seq<Set<nat>> {
        Seq::new(81, |i: int| self.candidates@[i]@)
    }

    /// The cells given at the start.
    pub closed spec fn givens_spec(&self) -> Set<nat> {
        self.givens@
    }

    /// An empty board: every cell unknown with all nine candidates.
    pub fn new() -> (r: Self)
        ensures
            r.values_spec() == Seq::new(81, |i: int| 0nat),
            r.cands_spec() == Seq::new(81, |i: int| all_knowns()),
            r.givens_spec() == Set::<nat>::empty(),
    {
        let mut values: Vec<u8> = Vec::new();
        let mut candidates: Vec<KnownSet> = Vec::new();
        let full = KnownSet::full();
        let mut i: usize = 0;
        while i < 81
            invariant
                i <= 81,
                values.len() == i,
                candidates.len() == i,
                full@ == all_knowns(),
                forall|j: int| 0 <= j < i ==> #[trigger] values[j] == 0,
                forall|j: int| 0 <= j < i ==> (#[trigger] candidates[j])@ == all_knowns(),
            decreases 81 - i,
        {
            values.push(0);
            candidates.push(full);
            i = i + 1;
        }
        let b = Board { givens: CellSet::empty(), values, candidates };
        assert(b.values_spec() =~= Seq::new(81, |i: int| 0nat));
        assert(b.cands_spec() =~= Seq::new(81, |i: int| all_knowns()));
        b
    }

    /// A copy of the board.
    pub fn copy(&self) -> (r: Self)
        ensures
            r.values_spec() == self.values_spec(),
            r.cands_spec() == self.cands_spec(),
            r.givens_spec() == self.givens_spec(),
    {
        proof {
            use_type_invariant(self);
        }
        let mut values: Vec<u8> = Vec::new();
        let mut candidates: Vec<KnownSet> = Vec::new();
        let mut i: usize = 0;
        while i < 81
            invariant
                i <= 81,
                self.values.len() == 81,
                self.candidates.len() == 81,
                forall|j: int| 0 <= j < 81 ==> #[trigger] self.values[j] <= 9,
                values.len() == i,
                candidates.len() == i,
                forall|j: int| 0 <= j < i ==> #[trigger] values[j] == self.values[j],
                forall|j: int| 0 <= j < i ==> #[trigger] candidates[j] == self.candidates[j],
            decreases 81 - i,
        {
            values.push(self.values[i]);
            candidates.push(self.candidates[i]);
            i = i + 1;
        }
        let b = Board { givens: self.givens, values, candidates };
        assert(b.values_spec() =~= self.values_spec());
        assert(b.cands_spec() =~= self.cands_spec());
        b
    }

    /// The value of a cell.
    pub fn get(&self, cell: Cell) -> (r: Value)
        ensures
            r@ == self.values_spec()[cell@ as int],
    {
        proof {
            use_type_invariant(self);
        }
        Value::new(self.values[cell.usize()])
    }

    /// The value of a cell.
    pub fn value(&self, cell: Cell) -> (r: Value)
        ensures
            r@ == self.values_spec()[cell@ as int],
    {
        self.get(cell)
    }

    pub fn is_known(&self, cell: Cell) -> (r: bool)
        ensures
            r == (self.values_spec()[cell@ as int] != 0),
    {
        self.get(cell).is_known()
    }

    pub fn is_unknown(&self, cell: Cell) -> (r: bool)
        ensures
            r == (self.values_spec()[cell@ as int] == 0),
    {
        self.get(cell).is_unknown()
    }

    /// Whether the cell was given at the start.
    pub fn is_given(&self, cell: Cell) -> (r: bool)
        ensures
            r == self.givens_spec().contains(cell@),
    {
        self.givens.has(cell)
    }

    /// The digits the cell may still take.
    pub fn candidates(&self, cell: Cell) -> (r: KnownSet)
        ensures
            r@ == self.cands_spec()[cell@ as int],
    {
        proof {
            use_type_invariant(self);
        }
        self.candidates[cell.usize()]
    }

    /// Whether the cell may still take `known`.
    pub fn is_candidate(&self, cell: Cell, known: Known) -> (r: bool)
        ensures
            r == self.cands_spec()[cell@ as int].contains(known@),
    {
        self.candidates(cell).has(known)
    }

    /// The cells that may still take `known`.
    pub fn candidate_cells(&self, known: Known) -> (r: CellSet)
        ensures
            r@ == candidate_cells_of(self.cands_spec(), known@),
    {
        proof {
            use_type_invariant(self);
        }
        let mut set = CellSet::empty();
        let mut j: u8 = 0;
        while j < 81
            invariant
                j <= 81,
                self.candidates.len() == 81,
                set@ == candidate_cells_of(self.cands_spec(), known@).filter(|x: nat| x < j),
            decreases 81 - j,
        {
            if self.candidates[j as usize].has(known) {
                set = set.with(Cell::new(j));
            }
            proof {
                assert(set@ =~= candidate_cells_of(self.cands_spec(), known@).filter(
                    |x: nat| x < j + 1,
                ));
            }
            j = j + 1;
        }
        proof {
            assert(candidate_cells_of(self.cands_spec(), known@).filter(|x: nat| x < 81)
                =~= candidate_cells_of(self.cands_spec(), known@));
        }
        set
    }

    /// The cells of a house that may still take `known`.
    pub fn house_candidate_cells(&self, house: House, known: Known) -> (r: CellSet)
        ensures
            r@ == candidate_cells_of(self.cands_spec(), known@).intersect(house_cells(house@.0, house@.1)),
    {
        let cells = self.candidate_cells(known);
        cells.intersect(house.cells())
    }

    /// The cells with exactly `n` candidates.
    pub fn cells_with_n_candidates(&self, n: usize) -> (r: CellSet)
        ensures
            r@ == cells_with_n(self.cands_spec(), n as nat),
    {
        proof {
            use_type_invariant(self);
        }
        let mut set = CellSet::empty();
        let mut j: u8 = 0;
        while j < 81
            invariant
                j <= 81,
                self.candidates.len() == 81,
                set@ == cells_with_n(self.cands_spec(), n as nat).filter(|x: nat| x < j),
            decreases 81 - j,
        {
            if self.candidates[j as usize].len() == n {
                set = set.with(Cell::new(j));
            }
            proof {
                assert(set@ =~= cells_with_n(self.cands_spec(), n as nat).filter(|x: nat| x < j + 1));
            }
            j = j + 1;
        }
        proof {
            assert(cells_with_n(self.cands_spec(), n as nat).filter(|x: nat| x < 81) =~= cells_with_n(
                self.cands_spec(),
                n as nat,
            ));
        }
        set
    }

    /// The cells with exactly `n` candidates, each with its candidates, in
    /// cell order.
    pub fn cell_candidates_with_n_candidates(&self, n: usize) -> (r: Vec<(Cell, KnownSet)>)
        ensures
            forall|a: int, b: int| 0 <= a < b < r.len() ==> (#[trigger] r[a]).0@ < (#[trigger] r[b]).0@,
            forall|a: int|
                0 <= a < r.len() ==> {
                    &&& (#[trigger] r[a]).0@ < 81
                    &&& r[a].1@ == self.cands_spec()[r[a].0@ as int]
                    &&& r[a].1@.len() == n
                },
            forall|c: nat|
                c < 81 && #[trigger] self.cands_spec()[c as int].len() == n ==> exists|a: int|
                    0 <= a < r.len() && (#[trigger] r[a]).0@ == c,
    {
        proof {
            use_type_invariant(self);
        }
        let mut out: Vec<(Cell, KnownSet)> = Vec::new();
        let mut j: u8 = 0;
        while j < 81
            invariant
                j <= 81,
                self.candidates.len() == 81,
                forall|a: int, b: int|
                    0 <= a < b < out.len() ==> (#[trigger] out[a]).0@ < (#[trigger] out[b]).0@,
                forall|a: int|
                    0 <= a < out.len() ==> {
                        &&& (#[trigger] out[a]).0@ < j
                        &&& out[a].1@ == self.cands_spec()[out[a].0@ as int]
                        &&& out[a].1@.len() == n
                    },
                forall|c: nat|
                    c < j && #[trigger] self.cands_spec()[c as int].len() == n ==> exists|a: int|
                        0 <= a < out.len() && (#[trigger] out[a]).0@ == c,
            decreases 81 - j,
        {
            let ks = self.candidates[j as usize];
            let ghost old_out = out@;
            if ks.len() == n {
                let c = Cell::new(j);
                out.push((c, ks));
                proof {
                    assert(out[out.len() - 1].0@ == j);
                }
            }
            proof {
                assert forall|c: nat|
                    c < j + 1 && #[trigger] self.cands_spec()[c as int].len() == n implies exists|a: int|
                    0 <= a < out.len() && (#[trigger] out[a]).0@ == c by {
                    if c < j {
                        let a = choose|a: int| 0 <= a < old_out.len() && (#[trigger] old_out[a]).0@ == c;
                        assert(out[a] == old_out[a]);
                    } else {
                        assert(out[out.len() - 1].0@ == c);
                    }
                }
            }
            j = j + 1;
        }
        out
    }

    /// The digits that are candidates of at least one of `cells`.
    pub fn all_candidates(&self, cells: CellSet) -> (r: KnownSet)
        ensures
            r@ == candidates_of_cells(self.cands_spec(), cells@),
    {
        proof {
            use_type_invariant(self);
        }
        let mut acc = KnownSet::empty();
        let mut j: u8 = 0;
        while j < 81
            invariant
                j <= 81,
                self.candidates.len() == 81,
                acc@ == candidates_of_cells(self.cands_spec(), cells@.filter(|x: nat| x < j)),
            decreases 81 - j,
        {
            let c = Cell::new(j);
            if cells.has(c) {
                acc = acc.union(self.candidates[j as usize]);
            }
            proof {
                let next = candidates_of_cells(self.cands_spec(), cells@.filter(|x: nat| x < j + 1));
                assert forall|k: nat| acc@.contains(k) <==> next.contains(k) by {
                    if next.contains(k) {
                        let i = choose|i: nat|
                            i < 81 && cells@.filter(|x: nat| x < j + 1).contains(i)
                                && #[trigger] self.cands_spec()[i as int].contains(k);
                        if i < j {
                            assert(cells@.filter(|x: nat| x < j).contains(i));
                        }
                    }
                    if acc@.contains(k) && !next.contains(k) {
                        if self.cands_spec()[j as int].contains(k) && cells@.contains(j as nat) {
                            assert(cells@.filter(|x: nat| x < j + 1).contains(j as nat));
                        } else {
                            let i = choose|i: nat|
                                i < 81 && cells@.filter(|x: nat| x < j).contains(i)
                                    && #[trigger] self.cands_spec()[i as int].contains(k);
                            assert(cells@.filter(|x: nat| x < j + 1).contains(i));
                        }
                    }
                }
                assert(acc@ =~= next);
            }
            j = j + 1;
        }
        proof {
            assert(cells@.filter(|x: nat| x < 81) =~= cells@);
        }
        acc
    }

    /// The cells whose value is unknown.
    pub fn unknowns(&self) -> (r: CellSet)
        ensures
            r@ == unknown_cells(self.values_spec()),
    {
        proof {
            use_type_invariant(self);
        }
        let mut set = CellSet::empty();
        let mut j: u8 = 0;
        while j < 81
            invariant
                j <= 81,
                self.values.len() == 81,
                forall|i: int| 0 <= i < 81 ==> #[trigger] self.values[i] <= 9,
                set@ == unknown_cells(self.values_spec()).filter(|x: nat| x < j),
            decreases 81 - j,
        {
            if self.values[j as usize] == 0 {
                set = set.with(Cell::new(j));
            }
            proof {
                assert(set@ =~= unknown_cells(self.values_spec()).filter(|x: nat| x < j + 1));
            }
            j = j + 1;
        }
        proof {
            assert(unknown_cells(self.values_spec()).filter(|x: nat| x < 81) =~= unknown_cells(
                self.values_spec(),
            ));
        }
        set
    }

    /// The cells whose value is known.
    pub fn knowns(&self) -> (r: CellSet)
        ensures
            r@ == known_cells_set(self.values_spec()),
    {
        let u = self.unknowns();
        let k = u.inverted();
        proof {
            assert(k@ =~= known_cells_set(self.values_spec()));
        }
        k
    }

    /// How many cells are known.
    pub fn known_count(&self) -> (r: usize)
        ensures
            r == known_cells(self.values_spec(), 81),
            r <= 81,
    {
        proof {
            use_type_invariant(self);
        }
        let mut count: usize = 0;
        let mut i: usize = 0;
        while i < 81
            invariant
                i <= 81,
                self.values.len() == 81,
                forall|j: int| 0 <= j < 81 ==> #[trigger] self.values[j] <= 9,
                count == known_cells(self.values_spec(), i as nat),
                count <= i,
            decreases 81 - i,
        {
            if self.values[i] != 0 {
                count = count + 1;
            }
            i = i + 1;
        }
        count
    }

    /// Whether every cell is known.
    pub fn is_fully_solved(&self) -> (r: bool)
        ensures
            r == (forall|i: int| 0 <= i < 81 ==> #[trigger] self.values_spec()[i] != 0),
    {
        proof {
            use_type_invariant(self);
        }
        let mut i: usize = 0;
        while i < 81
            invariant
                i <= 81,
                self.values.len() == 81,
                forall|j: int| 0 <= j < 81 ==> #[trigger] self.values[j] <= 9,
                forall|j: int| 0 <= j < i ==> #[trigger] self.values_spec()[j] != 0,
            decreases 81 - i,
        {
            if self.values[i] == 0 {
                assert(self.values_spec()[i as int] == 0);
                return false;
            }
            i = i + 1;
        }
        true
    }

    /// The known cells with their digits, in cell order.
    pub fn known_iter(&self) -> (r: Vec<(Cell, Known)>)
        ensures
            forall|a: int, b: int| 0 <= a < b < r.len() ==> (#[trigger] r[a]).0@ < (#[trigger] r[b]).0@,
            forall|a: int|
                0 <= a < r.len() ==> {
                    &&& (#[trigger] r[a]).0@ < 81
                    &&& self.values_spec()[r[a].0@ as int] == r[a].1@ + 1
                },
            forall|c: nat|
                c < 81 && #[trigger] self.values_spec()[c as int] != 0 ==> exists|a: int|
                    0 <= a < r.len() && (#[trigger] r[a]).0@ == c,
    {
        proof {
            use_type_invariant(self);
        }
        let mut out: Vec<(Cell, Known)> = Vec::new();
        let mut j: u8 = 0;
        while j < 81
            invariant
                j <= 81,
                self.values.len() == 81,
                forall|i: int| 0 <= i < 81 ==> #[trigger] self.values[i] <= 9,
                forall|a: int, b: int|
                    0 <= a < b < out.len() ==> (#[trigger] out[a]).0@ < (#[trigger] out[b]).0@,
                forall|a: int|
                    0 <= a < out.len() ==> {
                        &&& (#[trigger] out[a]).0@ < j
                        &&& self.values_spec()[out[a].0@ as int] == out[a].1@ + 1
                    },
                forall|c: nat|
                    c < j && #[trigger] self.values_spec()[c as int] != 0 ==> exists|a: int|
                        0 <= a < out.len() && (#[trigger] out[a]).0@ == c,
            decreases 81 - j,
        {
            let v: u8 = self.values[j as usize];
            let ghost old_out = out@;
            if v != 0 {
                let c = Cell::new(j);
                out.push((c, Known::new(v)));
                proof {
                    assert(out[out.len() - 1].0@ == j);
                }
            }
            proof {
                assert forall|c: nat|
                    c < j + 1 && #[trigger] self.values_spec()[c as int] != 0 implies exists|a: int|
                    0 <= a < out.len() && (#[trigger] out[a]).0@ == c by {
                    if c < j {
                        let a = choose|a: int| 0 <= a < old_out.len() && (#[trigger] old_out[a]).0@ == c;
                        assert(out[a] == old_out[a]);
                    } else {
                        assert(out[out.len() - 1].0@ == c);
                    }
                }
            }
            j = j + 1;
        }
        out
    }

    /// Sets `known` in `cell` and removes it from the peers' candidates.
    /// A cell that holds the digit already is left as it is; one that holds
    /// another digit, or may not take this one, is left as it is with an
    /// error. Every unknown peer that loses its last candidate adds an
    /// error. Tells whether the board changed.
    pub fn set_known(&mut self, cell: Cell, known: Known, effects: &mut Effects) -> (r: bool)
        ensures
            old(self).values_spec()[cell@ as int] == known@ + 1 ==> {
                &&& !r
                &&& *final(self) == *old(self)
                &&& *final(effects) == *old(effects)
            },
            old(self).values_spec()[cell@ as int] != known@ + 1 && old(self).values_spec()[cell@ as int]
                != 0 ==> {
                &&& !r
                &&& *final(self) == *old(self)
                &&& final(effects).errors_spec() == old(effects).errors_spec().push(
                    Error::AlreadySolved(cell, known),
                )
                &&& final(effects).actions_spec() == old(effects).actions_spec()
            },
            old(self).values_spec()[cell@ as int] == 0 && !old(self).cands_spec()[cell@ as int].contains(
                known@,
            ) ==> {
                &&& !r
                &&& *final(self) == *old(self)
                &&& final(effects).errors_spec() == old(effects).errors_spec().push(
                    Error::NotCandidate(cell, known),
                )
                &&& final(effects).actions_spec() == old(effects).actions_spec()
            },
            old(self).values_spec()[cell@ as int] == 0 && old(self).cands_spec()[cell@ as int].contains(
                known@,
            ) ==> {
                &&& r
                &&& final(self).values_spec() == old(self).values_spec().update(
                    cell@ as int,
                    known@ + 1,
                )
                &&& final(self).cands_spec() == cands_after_set(
                    old(self).cands_spec(),
                    cell@,
                    known@,
                )
                &&& final(self).givens_spec() == old(self).givens_spec()
                &&& final(effects).errors_spec() == old(effects).errors_spec() + unsolvable_peers(
                    old(self).values_spec(),
                    old(self).cands_spec(),
                    cell@,
                    known@,
                    81,
                )
                &&& final(effects).actions_spec() == old(effects).actions_spec()
            },
    {
        proof {
            use_type_invariant(&*self);
        }
        let c: usize = cell.usize();
        let ki: u8 = known.get_index();
        let current: u8 = self.values[c];
        if current == ki + 1 {
            return false;
        }
        if current != 0 {
            effects.add_error(Error::AlreadySolved(cell, known));
            return false;
        }
        if !self.candidates[c].has(known) {
            effects.add_error(Error::NotCandidate(cell, known));
            return false;
        }
        let ghost values0 = self.values_spec();
        let ghost cands0 = self.cands_spec();
        let mut new_values: Vec<u8> = Vec::new();
        let mut new_cands: Vec<KnownSet> = Vec::new();
        let empty = KnownSet::empty();
        let mut j: usize = 0;
        while j < 81
            invariant
                j <= 81,
                c < 81,
                c == cell@,
                ki == known@,
                ki < 9,
                empty@ == Set::<nat>::empty(),
                values0 == self.values_spec(),
                cands0 == self.cands_spec(),
                self.values.len() == 81,
                self.candidates.len() == 81,
                forall|i: int| 0 <= i < 81 ==> #[trigger] self.values[i] <= 9,
                new_values.len() == j,
                new_cands.len() == j,
                forall|i: int|
                    0 <= i < j ==> #[trigger] new_values[i] == if i == c {
                        (ki + 1) as u8
                    } else {
                        self.values[i]
                    },
                forall|i: int| 0 <= i < j ==> (#[trigger] new_cands[i])@ == cands_after_set(cands0, c as nat, ki as nat)[i],
                effects.errors_spec() == old(effects).errors_spec() + unsolvable_peers(
                    values0,
                    cands0,
                    c as nat,
                    ki as nat,
                    j as nat,
                ),
                effects.actions_spec() == old(effects).actions_spec(),
            decreases 81 - j,
        {
            let p = Cell::new(j as u8);
            let ghost errs = effects.errors_spec();
            if j == c {
                new_values.push(ki + 1);
                new_cands.push(empty);
            } else {
                new_values.push(self.values[j]);
                let ks = self.candidates[j];
                if cell.sees(p) {
                    let reduced = ks.without(known);
                    new_cands.push(reduced);
                    if self.values[j] == 0 && ks.has(known) && reduced.is_empty() {
                        effects.add_error(Error::UnsolvableCell(p));
                    }
                } else {
                    new_cands.push(ks);
                }
            }
            proof {
                let k1 = (j + 1) as nat;
                assert(unsolvable_peers(values0, cands0, c as nat, ki as nat, k1) == unsolvable_peers(
                    values0,
                    cands0,
                    c as nat,
                    ki as nat,
                    j as nat,
                ) + if emptied_by_set(values0, cands0, c as nat, ki as nat, j as nat) {
                    seq![Error::UnsolvableCell(cell_at(j as nat))]
                } else {
                    Seq::<Error>::empty()
                });
                if emptied_by_set(values0, cands0, c as nat, ki as nat, j as nat) {
                    assert(cell_at(j as nat)@ == j as nat);
                    assert(p == cell_at(j as nat));
                    assert(effects.errors_spec() =~= old(effects).errors_spec() + unsolvable_peers(
                        values0,
                        cands0,
                        c as nat,
                        ki as nat,
                        k1,
                    ));
                } else {
                    assert(effects.errors_spec() =~= old(effects).errors_spec() + unsolvable_peers(
                        values0,
                        cands0,
                        c as nat,
                        ki as nat,
                        k1,
                    ));
                }
            }
            j = j + 1;
        }
        self.values = new_values;
        self.candidates = new_cands;
        proof {
            assert(self.values_spec() =~= values0.update(c as int, (ki + 1) as nat));
            assert(self.cands_spec() =~= cands_after_set(cands0, c as nat, ki as nat));
        }
        true
    }

    /// Removes the digits `knowns` from the cell's candidates. An unknown
    /// cell that loses its last candidate adds an error. Tells whether a
    /// candidate was removed.
    pub fn remove_candidates(&mut self, cell: Cell, knowns: KnownSet, effects: &mut Effects) -> (r: bool)
        ensures
            r == !old(self).cands_spec()[cell@ as int].intersect(knowns@).is_empty(),
            final(self).values_spec() == old(self).values_spec(),
            final(self).givens_spec() == old(self).givens_spec(),
            final(self).cands_spec() == old(self).cands_spec().update(
                cell@ as int,
                old(self).cands_spec()[cell@ as int].difference(knowns@),
            ),
            final(effects).errors_spec() == old(effects).errors_spec() + if emptied_by_removal(
                old(self).values_spec(),
                old(self).cands_spec(),
                knowns@,
                cell@,
            ) {
                seq![Error::UnsolvableCell(cell)]
            } else {
                Seq::<Error>::empty()
            },
            final(effects).actions_spec() == old(effects).actions_spec(),
    {
        proof {
            use_type_invariant(&*self);
        }
        let c: usize = cell.usize();
        let ks = self.candidates[c];
        let common = ks.intersect(knowns);
        if common.is_empty() {
            proof {
                assert(self.cands_spec()[c as int].difference(knowns@) =~= self.cands_spec()[c as int]) by {
                    assert forall|k: nat| self.cands_spec()[c as int].contains(k) implies !knowns@.contains(k) by {
                        if knowns@.contains(k) {
                            assert(common@.contains(k));
                        }
                    }
                }
                assert(self.cands_spec() =~= self.cands_spec().update(
                    c as int,
                    self.cands_spec()[c as int].difference(knowns@),
                ));
            }
            return false;
        }
        let reduced = ks.minus(knowns);
        let mut new_cands: Vec<KnownSet> = Vec::new();
        let mut j: usize = 0;
        while j < 81
            invariant
                j <= 81,
                c < 81,
                self.candidates.len() == 81,
                new_cands.len() == j,
                forall|i: int|
                    0 <= i < j ==> #[trigger] new_cands[i] == if i == c {
                        reduced
                    } else {
                        self.candidates[i]
                    },
            decreases 81 - j,
        {
            if j == c {
                new_cands.push(reduced);
            } else {
                new_cands.push(self.candidates[j]);
            }
            j = j + 1;
        }
        let ghost before = self.cands_spec();
        self.candidates = new_cands;
        proof {
            assert(self.cands_spec() =~= before.update(c as int, before[c as int].difference(knowns@)));
        }
        if self.values[c] == 0 && reduced.is_empty() {
            effects.add_error(Error::UnsolvableCell(cell));
        } else {
            proof {
                assert(effects.errors_spec() =~= old(effects).errors_spec() + Seq::<Error>::empty());
            }
        }
        true
    }

    /// Removes `known` from the cell's candidates, as `remove_candidates`.
    pub fn remove_candidate(&mut self, cell: Cell, known: Known, effects: &mut Effects) -> (r: bool)
        ensures
            r == old(self).cands_spec()[cell@ as int].contains(known@),
            final(self).values_spec() == old(self).values_spec(),
            final(self).givens_spec() == old(self).givens_spec(),
            final(self).cands_spec() == old(self).cands_spec().update(
                cell@ as int,
                old(self).cands_spec()[cell@ as int].remove(known@),
            ),
            final(effects).errors_spec() == old(effects).errors_spec() + if emptied_by_removal(
                old(self).values_spec(),
                old(self).cands_spec(),
                set![known@],
                cell@,
            ) {
                seq![Error::UnsolvableCell(cell)]
            } else {
                Seq::<Error>::empty()
            },
            final(effects).actions_spec() == old(effects).actions_spec(),
    {
        let single = KnownSet::empty().with(known);
        let r = self.remove_candidates(cell, single, effects);
        proof {
            let s = old(self).cands_spec()[cell@ as int];
            assert(s.difference(single@) =~= s.remove(known@));
            if s.contains(known@) {
                assert(s.intersect(single@).contains(known@));
            } else {
                assert(s.intersect(single@) =~= Set::<nat>::empty());
            }
            assert(single@ =~= set![known@]);
        }
        r
    }

    /// Removes the digits `knowns` from the candidates of every cell of
    /// `cells`, in cell order, as `remove_candidates`. Tells whether a
    /// candidate was removed.
    pub fn remove_candidates_from_cells(&mut self, cells: CellSet, knowns: KnownSet, effects: &mut Effects) -> (r:
        bool)
        ensures
            r == exists|i: nat|
                i < 81 && cells@.contains(i) && !(#[trigger] old(self).cands_spec()[i as int]).intersect(
                    knowns@,
                ).is_empty(),
            final(self).values_spec() == old(self).values_spec(),
            final(self).givens_spec() == old(self).givens_spec(),
            final(self).cands_spec() == Seq::new(
                81,
                |i: int|
                    if cells@.contains(i as nat) {
                        old(self).cands_spec()[i].difference(knowns@)
                    } else {
                        old(self).cands_spec()[i]
                    },
            ),
            final(effects).errors_spec() == old(effects).errors_spec() + unsolvable_removals(
                old(self).values_spec(),
                old(self).cands_spec(),
                cells@,
                knowns@,
                81,
            ),
            final(effects).actions_spec() == old(effects).actions_spec(),
    {
        let ghost values0 = self.values_spec();
        let ghost cands0 = self.cands_spec();
        let mut changed = false;
        let mut j: u8 = 0;
        while j < 81
            invariant
                j <= 81,
                self.values_spec() == values0,
                self.givens_spec() == old(self).givens_spec(),
                values0 == old(self).values_spec(),
                cands0 == old(self).cands_spec(),
                self.cands_spec() == Seq::new(
                    81,
                    |i: int|
                        if i < j && cells@.contains(i as nat) {
                            cands0[i].difference(knowns@)
                        } else {
                            cands0[i]
                        },
                ),
                changed == exists|i: nat|
                    i < j && cells@.contains(i) && !(#[trigger] cands0[i as int]).intersect(
                        knowns@,
                    ).is_empty(),
                effects.errors_spec() == old(effects).errors_spec() + unsolvable_removals(
                    values0,
                    cands0,
                    cells@,
                    knowns@,
                    j as nat,
                ),
                effects.actions_spec() == old(effects).actions_spec(),
            decreases 81 - j,
        {
            let cell = Cell::new(j);
            let ghost before = self.cands_spec();
            if cells.has(cell) {
                if self.remove_candidates(cell, knowns, effects) {
                    changed = true;
                }
            }
            proof {
                assert(self.cands_spec() =~= Seq::new(
                    81,
                    |i: int|
                        if i < j + 1 && cells@.contains(i as nat) {
                            cands0[i].difference(knowns@)
                        } else {
                            cands0[i]
                        },
                ));
                let k1 = (j + 1) as nat;
                assert(unsolvable_removals(values0, cands0, cells@, knowns@, k1)
                    == unsolvable_removals(values0, cands0, cells@, knowns@, j as nat) + if cells@.contains(
                    j as nat,
                ) && emptied_by_removal(values0, cands0, knowns@, j as nat) {
                    seq![Error::UnsolvableCell(cell_at(j as nat))]
                } else {
                    Seq::<Error>::empty()
                });
                assert(cell_at(j as nat)@ == j as nat);
                assert(cell == cell_at(j as nat));
                assert(effects.errors_spec() =~= old(effects).errors_spec() + unsolvable_removals(
                    values0,
                    cands0,
                    cells@,
                    knowns@,
                    k1,
                ));
                if !changed {
                    assert forall|i: nat|
                        i < j + 1 && cells@.contains(i) implies (#[trigger] cands0[i as int]).intersect(
                        knowns@,
                    ).is_empty() by {
                        if i < j {
                        }
                    }
                }
            }
            j = j + 1;
        }
        proof {
            assert(self.cands_spec() =~= Seq::new(
                81,
                |i: int|
                    if cells@.contains(i as nat) {
                        cands0[i].difference(knowns@)
                    } else {
                        cands0[i]
                    },
            ));
        }
        changed
    }

    /// The values as 81 characters, '.' for an unknown cell.
    pub fn packed_string(&self) -> (r: String)
        ensures
            r@ == Seq::new(81, |i: int| value_char(self.values_spec()[i])),
    {
        proof {
            use_type_invariant(self);
        }
        let mut s = String::new();
        let mut i: usize = 0;
        while i < 81
            invariant
                i <= 81,
                self.values.len() == 81,
                forall|j: int| 0 <= j < 81 ==> #[trigger] self.values[j] <= 9,
                s@ == Seq::new(i as nat, |j: int| value_char(self.values_spec()[j])),
            decreases 81 - i,
        {
            let v: u8 = self.values[i];
            let ch: char = if v == 0 {
                '.'
            } else {
                (48u8 + v) as char
            };
            string_push(&mut s, ch);
            proof {
                assert(s@ =~= Seq::new((i + 1) as nat, |j: int| value_char(self.values_spec()[j])));
            }
            i = i + 1;
        }
        s
    }
}

} // verus!
