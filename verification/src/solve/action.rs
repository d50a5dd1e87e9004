use vstd::prelude::*;

use crate::layout::cell::{cell_at, cell_label, lemma_cell_at, Cell};
use crate::layout::cell_set::{lemma_cell_set_bounded, CellSet};
use crate::layout::coord::digit_char;
use crate::layout::grid::digit_or_empty;
use crate::layout::known::Known;
use crate::layout::known_set::{lemma_known_set_bounded, KnownSet};
use crate::layout::text::string_push;
use crate::solve::board::{
    cands_after_set, emptied_by_removal, emptied_by_set, lemma_board_cands_shape, lemma_board_values_shape,
    unsolvable_peers, Board,
};
use crate::solve::change::Change;
use crate::solve::effects::Effects;
use crate::solve::strategy::{strategy_label, Strategy, Verdict};

verus! {

broadcast use {lemma_cell_at, lemma_known_set_bounded, lemma_cell_set_bounded, lemma_board_values_shape, lemma_board_cands_shape};

/// Part of the reasoning behind an action: the role of some digits in some
/// cells.
#[derive(Clone, Copy, Debug, PartialEq, Eq)]
pub struct Clue {
    pub verdict: Verdict,
    pub cells: CellSet,
    pub knowns: KnownSet,
}

/// What a technique found: digits to set, candidates to erase, and clues
/// that show why.
#[derive(Debug, PartialEq, Eq)]
pub struct Action {
    strategy: Strategy,
    sets: Vec<u8>,
    erases: Vec<KnownSet>,
    clues: Vec<Clue>,
}

/// A board seen as its values and candidates.
pub type BoardModel = (Seq<nat>, Seq<Set<nat>>);

/// Setting digit `k` in cell `c` of a board: done when the cell is unknown
/// and may take `k`, else nothing changes.
pub open spec fn set_step(m: BoardModel, c: nat, k: nat) -> BoardModel {
    if m.0[c as int] == 0 && m.1[c as int].contains(k) {
        (m.0.update(c as int, k + 1), cands_after_set(m.1, c, k))
    } else {
        m
    }
}

/// The board after the sets of the first `n` cells, in cell order.
pub open spec fn apply_sets(m: BoardModel, sets: Seq<nat>, n: nat) -> BoardModel
    decreases n,
{
    if n == 0 {
        m
    } else {
        let prev = apply_sets(m, sets, (n - 1) as nat);
        if sets[n - 1] != 0 {
            set_step(prev, (n - 1) as nat, (sets[n - 1] - 1) as nat)
        } else {
            prev
        }
    }
}

/// The candidates after erasing, cell by cell.
pub open spec fn apply_erases(cands: Seq<Set<nat>>, erases: Seq<Set<nat>>) -> Seq<Set<nat>> {
    Seq::new(81, |i: int| cands[i].difference(erases[i]))
}

/// Whether setting `k` in cell `c` of the model reports an error: the cell
/// holds another digit, `k` is not among its candidates, or an unknown
/// peer loses its last candidate.
pub open spec fn set_fails(m: BoardModel, c: nat, k: nat) -> bool {
    ||| (m.0[c as int] != 0 && m.0[c as int] != k + 1)
    ||| (m.0[c as int] == 0 && !m.1[c as int].contains(k))
    ||| (m.0[c as int] == 0 && m.1[c as int].contains(k) && exists|p: nat|
        #[trigger] emptied_by_set(m.0, m.1, c, k, p))
}

/// Whether applying the action can report an error: one of its sets fails
/// on the board as the earlier sets left it, or an erasure takes the last
/// candidates of an unknown cell.
pub open spec fn action_may_fail(m: BoardModel, a: Action) -> bool {
    let after = apply_sets(m, a.sets_spec(), 81);
    ||| exists|i: nat|
        i < 81 && a.sets_spec()[i as int] != 0 && #[trigger] set_fails(
            apply_sets(m, a.sets_spec(), i),
            i,
            (a.sets_spec()[i as int] - 1) as nat,
        )
    ||| exists|i: nat| i < 81 && #[trigger] emptied_by_removal(after.0, after.1, a.erases_spec()[i as int], i)
}

/// A peer that a set empties gives an error.
proof fn lemma_unsolvable_peers_nonempty(values: Seq<nat>, cands: Seq<Set<nat>>, c: nat, k: nat, n: nat, p: nat)
    requires
        p < n,
        emptied_by_set(values, cands, c, k, p),
    ensures
        unsolvable_peers(values, cands, c, k, n).len() > 0,
    decreases n,
{
    if p < n - 1 {
        lemma_unsolvable_peers_nonempty(values, cands, c, k, (n - 1) as nat, p);
    }
}

/// An error among the peers that a set empties names one of them.
proof fn lemma_unsolvable_peers_witness(values: Seq<nat>, cands: Seq<Set<nat>>, c: nat, k: nat, n: nat)
    requires
        unsolvable_peers(values, cands, c, k, n).len() > 0,
    ensures
        exists|p: nat| p < n && #[trigger] emptied_by_set(values, cands, c, k, p),
    decreases n,
{
    if n > 0 {
        if !emptied_by_set(values, cands, c, k, (n - 1) as nat) {
            lemma_unsolvable_peers_witness(values, cands, c, k, (n - 1) as nat);
        }
    }
}

/// The board after an action: first its sets in cell order, then its
/// erasures.
pub open spec fn action_model(m: BoardModel, a: Action) -> BoardModel {
    let after = apply_sets(m, a.sets_spec(), 81);
    (after.0, apply_erases(after.1, a.erases_spec()))
}

/// The digits of a set among the first `n`, in increasing order.
pub open spec fn known_digits(s: Set<nat>, n: nat) -> Seq<char>
    decreases n,
{
    if n == 0 {
        Seq::empty()
    } else {
        known_digits(s, (n - 1) as nat) + if s.contains((n - 1) as nat) {
            seq![digit_char((n - 1) as nat)]
        } else {
            Seq::empty()
        }
    }
}

/// The text of the sets and erasures of the first `n` cells.
pub open spec fn action_parts(sets: Seq<nat>, erases: Seq<Set<nat>>, n: nat) -> Seq<char>
    decreases n,
{
    if n == 0 {
        Seq::empty()
    } else {
        let i = (n - 1) as nat;
        action_parts(sets, erases, i) + (if sets[i as int] != 0 {
            " "@ + cell_label(i) + "="@ + seq![digit_char((sets[i as int] - 1) as nat)]
        } else {
            Seq::empty()
        }) + (if erases[i as int] != Set::<nat>::empty() {
            " "@ + cell_label(i) + "-"@ + known_digits(erases[i as int], 9)
        } else {
            Seq::empty()
        })
    }
}

/// The text of an action: the technique, then each set as `A1=5` and each
/// erasure as `A1-59`.
pub open spec fn action_text(a: Action) -> Seq<char> {
    strategy_label(a.strategy_spec()) + ":"@ + action_parts(a.sets_spec(), a.erases_spec(), 81)
}

/// Whether an action sets nothing and erases nothing.
pub open spec fn is_empty_action(sets: Seq<nat>, erases: Seq<Set<nat>>) -> bool {
    &&& forall|i: int| 0 <= i < 81 ==> #[trigger] sets[i] == 0
    &&& forall|i: int| 0 <= i < 81 ==> #[trigger] erases[i] == Set::<nat>::empty()
}

/// Whether the action sets or erases digit `k` in cell `i`.
pub open spec fn touches_known_at(sets: Seq<nat>, erases: Seq<Set<nat>>, k: nat, i: int) -> bool {
    sets[i] == k + 1 || erases[i].contains(k)
}

/// The clues `after` are `before` with one more for the digits `knowns` in
/// `cells`; none is added when either is empty.
pub open spec fn clue_added(
    before: Seq<Clue>,
    after: Seq<Clue>,
    verdict: Verdict,
    cells: Set<nat>,
    knowns: Set<nat>,
) -> bool {
    if cells.is_empty() || knowns.is_empty() {
        after == before
    } else {
        &&& after.len() == before.len() + 1
        &&& after.subrange(0, before.len() as int) == before
        &&& after.last().verdict == verdict
        &&& after.last().cells@ == cells
        &&& after.last().knowns@ == knowns
    }
}

/// Every action has 81 sets of at most 9 and 81 erasures.
pub broadcast proof fn lemma_action_shape(a: Action)
    ensures
        #[trigger] a.sets_spec().len() == 81,
        a.erases_spec().len() == 81,
        forall|i: int| 0 <= i < 81 ==> #[trigger] a.sets_spec()[i] <= 9,
{
}

/// Every action has 81 erasures.
pub broadcast proof fn lemma_action_erases_len(a: Action)
    ensures
        #[trigger] a.erases_spec().len() == 81,
{
}

impl Clone for Action {
    fn clone(&self) -> (r: Self)
        ensures
            r.strategy_spec() == self.strategy_spec(),
            r.sets_spec() == self.sets_spec(),
            r.erases_spec() == self.erases_spec(),
            r.clues_spec() == self.clues_spec(),
    {
        self.copy()
    }
}

impl Action {
    #[verifier::type_invariant]
    spec fn inv(self) -> bool {
        &&& self.sets.len() == 81
        &&& self.erases.len() == 81
        &&& forall|i: int| 0 <= i < 81 ==> #[trigger] self.sets[i] <= 9
    }

    pub closed spec fn strategy_spec(&self) -> Strategy {
        self.strategy
    }

    /// For every cell, 0 when the action sets nothing there, else the digit
    /// (1..=9) it sets.
    pub closed spec fn sets_spec(&self) -> Seq<nat> {
        Seq::new(81, |i: int| digit_or_empty(self.sets@[i]))
    }

    /// For every cell, the digit indices the action erases there.
    pub closed spec fn erases_spec(&self) -> Seq<Set<nat>> {
        Seq::new(81, |i: int| self.erases@[i]@)
    }

    pub closed spec fn clues_spec(&self) -> Seq<Clue> {
        self.clues@
    }

    /// Whether the action sets nothing and erases nothing.
    pub open spec fn is_empty_spec(&self) -> bool {
        is_empty_action(self.sets_spec(), self.erases_spec())
    }

    /// A copy of the action.
    pub fn copy(&self) -> (r: Self)
        ensures
            r.strategy_spec() == self.strategy_spec(),
            r.sets_spec() == self.sets_spec(),
            r.erases_spec() == self.erases_spec(),
            r.clues_spec() == self.clues_spec(),
    {
        proof {
            use_type_invariant(self);
        }
        let mut sets: Vec<u8> = Vec::new();
        let mut erases: Vec<KnownSet> = Vec::new();
        let mut i: usize = 0;
        while i < 81
            invariant
                i <= 81,
                self.sets.len() == 81,
                self.erases.len() == 81,
                forall|j: int| 0 <= j < 81 ==> #[trigger] self.sets[j] <= 9,
                sets.len() == i,
                erases.len() == i,
                forall|j: int| 0 <= j < i ==> #[trigger] sets[j] == self.sets[j],
                forall|j: int| 0 <= j < i ==> #[trigger] erases[j] == self.erases[j],
            decreases 81 - i,
        {
            sets.push(self.sets[i]);
            erases.push(self.erases[i]);
            i = i + 1;
        }
        let clues = copy_clues(&self.clues);
        let a = Action { strategy: self.strategy, sets, erases, clues };
        assert(a.sets_spec() =~= self.sets_spec());
        assert(a.erases_spec() =~= self.erases_spec());
        a
    }

    /// An action of `strategy` that does nothing yet.
    pub fn new(strategy: Strategy) -> (r: Self)
        ensures
            r.strategy_spec() == strategy,
            r.sets_spec() == Seq::new(81, |i: int| 0nat),
            r.erases_spec() == Seq::new(81, |i: int| Set::<nat>::empty()),
            r.clues_spec() == Seq::<Clue>::empty(),
    {
        let mut sets: Vec<u8> = Vec::new();
        let mut erases: Vec<KnownSet> = Vec::new();
        let empty = KnownSet::empty();
        let mut i: usize = 0;
        while i < 81
            invariant
                i <= 81,
                sets.len() == i,
                erases.len() == i,
                empty@ == Set::<nat>::empty(),
                forall|j: int| 0 <= j < i ==> #[trigger] sets[j] == 0,
                forall|j: int| 0 <= j < i ==> (#[trigger] erases[j])@ == Set::<nat>::empty(),
            decreases 81 - i,
        {
            sets.push(0);
            erases.push(empty);
            i = i + 1;
        }
        let a = Action { strategy, sets, erases, clues: Vec::new() };
        assert(a.sets_spec() =~= Seq::new(81, |i: int| 0nat));
        assert(a.erases_spec() =~= Seq::new(81, |i: int| Set::<nat>::empty()));
        a
    }

    /// An action of `strategy` that sets `known` in `cell`.
    pub fn new_set(strategy: Strategy, cell: Cell, known: Known) -> (r: Self)
        ensures
            r.strategy_spec() == strategy,
            r.sets_spec() == Seq::new(81, |i: int| 0nat).update(cell@ as int, known@ + 1),
            r.erases_spec() == Seq::new(81, |i: int| Set::<nat>::empty()),
            r.clues_spec() == Seq::<Clue>::empty(),
    {
        let mut a = Action::new(strategy);
        a.set(cell, known);
        a
    }

    /// An action of `strategy` that erases `known` from `cell`.
    pub fn new_erase(strategy: Strategy, cell: Cell, known: Known) -> (r: Self)
        ensures
            r.strategy_spec() == strategy,
            r.sets_spec() == Seq::new(81, |i: int| 0nat),
            r.erases_spec() == Seq::new(81, |i: int| Set::<nat>::empty()).update(
                cell@ as int,
                set![known@],
            ),
            r.clues_spec() == Seq::<Clue>::empty(),
    {
        let _index: u8 = cell.index();
        let mut a = Action::new(strategy);
        a.erase(cell, known);
        proof {
            assert(a.erases_spec() =~= Seq::new(81, |i: int| Set::<nat>::empty()).update(
                cell@ as int,
                set![known@],
            ));
        }
        a
    }

    /// An action of `strategy` that erases `known` from every cell of `cells`.
    pub fn new_erase_cells(strategy: Strategy, cells: CellSet, known: Known) -> (r: Self)
        ensures
            r.strategy_spec() == strategy,
            r.sets_spec() == Seq::new(81, |i: int| 0nat),
            r.erases_spec() == Seq::new(
                81,
                |i: int|
                    if cells@.contains(i as nat) {
                        set![known@]
                    } else {
                        Set::<nat>::empty()
                    },
            ),
            r.clues_spec() == Seq::<Clue>::empty(),
    {
        let mut a = Action::new(strategy);
        a.erase_cells(cells, known);
        proof {
            assert(a.erases_spec() =~= Seq::new(
                81,
                |i: int|
                    if cells@.contains(i as nat) {
                        set![known@]
                    } else {
                        Set::<nat>::empty()
                    },
            ));
        }
        a
    }

    /// An action of `strategy` that erases `knowns` from `cell`.
    pub fn new_erase_knowns(strategy: Strategy, cell: Cell, knowns: KnownSet) -> (r: Self)
        ensures
            r.strategy_spec() == strategy,
            r.sets_spec() == Seq::new(81, |i: int| 0nat),
            r.erases_spec() == Seq::new(81, |i: int| Set::<nat>::empty()).update(
                cell@ as int,
                knowns@,
            ),
            r.clues_spec() == Seq::<Clue>::empty(),
    {
        let _index: u8 = cell.index();
        let mut a = Action::new(strategy);
        a.erase_knowns(cell, knowns);
        proof {
            assert(Set::<nat>::empty().union(knowns@) =~= knowns@);
            assert(a.erases_spec() =~= Seq::new(81, |i: int| Set::<nat>::empty()).update(
                cell@ as int,
                knowns@,
            ));
        }
        a
    }

    pub fn strategy(&self) -> (r: Strategy)
        ensures
            r == self.strategy_spec(),
    {
        self.strategy
    }

    pub fn has_strategy(&self, strategy: Strategy) -> (r: bool)
        ensures
            r == (self.strategy_spec() == strategy),
    {
        self.strategy == strategy
    }

    /// Whether the action sets nothing and erases nothing.
    pub fn is_empty(&self) -> (r: bool)
        ensures
            r == is_empty_action(self.sets_spec(), self.erases_spec()),
    {
        proof {
            use_type_invariant(self);
        }
        let mut i: usize = 0;
        while i < 81
            invariant
                i <= 81,
                self.sets.len() == 81,
                self.erases.len() == 81,
                forall|j: int| 0 <= j < 81 ==> #[trigger] self.sets[j] <= 9,
                forall|j: int| 0 <= j < i ==> #[trigger] self.sets_spec()[j] == 0,
                forall|j: int| 0 <= j < i ==> #[trigger] self.erases_spec()[j] == Set::<nat>::empty(),
            decreases 81 - i,
        {
            let empty_here = self.erases[i].is_empty();
            assert(self.erases_spec()[i as int] == self.erases@[i as int]@);
            assert(self.sets_spec()[i as int] == self.sets@[i as int]);
            if self.sets[i] != 0 || !empty_here {
                assert(!(self.sets_spec()[i as int] == 0 && self.erases_spec()[i as int]
                    == Set::<nat>::empty()));
                return false;
            }
            assert(self.sets_spec()[i as int] == 0);
            assert(self.erases_spec()[i as int] == Set::<nat>::empty());
            i = i + 1;
        }
        true
    }

    /// Makes the action set `known` in `cell`.
    pub fn set(&mut self, cell: Cell, known: Known)
        ensures
            final(self).strategy_spec() == old(self).strategy_spec(),
            final(self).sets_spec() == old(self).sets_spec().update(cell@ as int, known@ + 1),
            final(self).erases_spec() == old(self).erases_spec(),
            final(self).clues_spec() == old(self).clues_spec(),
    {
        proof {
            use_type_invariant(&*self);
        }
        let c: usize = cell.usize();
        let v: u8 = known.get_index() + 1;
        let mut sets: Vec<u8> = Vec::new();
        let mut i: usize = 0;
        while i < 81
            invariant
                i <= 81,
                c < 81,
                v <= 9,
                self.sets.len() == 81,
                sets.len() == i,
                forall|j: int|
                    0 <= j < i ==> #[trigger] sets[j] == if j == c {
                        v
                    } else {
                        self.sets[j]
                    },
            decreases 81 - i,
        {
            if i == c {
                sets.push(v);
            } else {
                sets.push(self.sets[i]);
            }
            i = i + 1;
        }
        let ghost before = self.sets_spec();
        self.sets = sets;
        proof {
            assert(self.sets_spec() =~= before.update(c as int, known@ + 1));
        }
    }

    /// Replaces the erasures of one cell.
    fn set_erase(&mut self, c: usize, ks: KnownSet)
        requires
            c < 81,
        ensures
            final(self).strategy_spec() == old(self).strategy_spec(),
            final(self).sets_spec() == old(self).sets_spec(),
            final(self).erases_spec() == old(self).erases_spec().update(c as int, ks@),
            final(self).clues_spec() == old(self).clues_spec(),
    {
        proof {
            use_type_invariant(&*self);
        }
        let mut erases: Vec<KnownSet> = Vec::new();
        let mut i: usize = 0;
        while i < 81
            invariant
                i <= 81,
                c < 81,
                self.erases.len() == 81,
                erases.len() == i,
                forall|j: int|
                    0 <= j < i ==> #[trigger] erases[j] == if j == c {
                        ks
                    } else {
                        self.erases[j]
                    },
            decreases 81 - i,
        {
            if i == c {
                erases.push(ks);
            } else {
                erases.push(self.erases[i]);
            }
            i = i + 1;
        }
        let ghost before = self.erases_spec();
        self.erases = erases;
        proof {
            assert(self.erases_spec() =~= before.update(c as int, ks@));
        }
    }

    /// Makes the action erase `known` from `cell`.
    pub fn erase(&mut self, cell: Cell, known: Known)
        ensures
            final(self).strategy_spec() == old(self).strategy_spec(),
            final(self).sets_spec() == old(self).sets_spec(),
            final(self).erases_spec() == old(self).erases_spec().update(
                cell@ as int,
                old(self).erases_spec()[cell@ as int].insert(known@),
            ),
            final(self).clues_spec() == old(self).clues_spec(),
    {
        proof {
            use_type_invariant(&*self);
        }
        let c: usize = cell.usize();
        let ks = self.erases[c].with(known);
        self.set_erase(c, ks);
    }

    /// Makes the action erase `knowns` from `cell`.
    pub fn erase_knowns(&mut self, cell: Cell, knowns: KnownSet)
        ensures
            final(self).strategy_spec() == old(self).strategy_spec(),
            final(self).sets_spec() == old(self).sets_spec(),
            final(self).erases_spec() == old(self).erases_spec().update(
                cell@ as int,
                old(self).erases_spec()[cell@ as int].union(knowns@),
            ),
            final(self).clues_spec() == old(self).clues_spec(),
    {
        proof {
            use_type_invariant(&*self);
        }
        let c: usize = cell.usize();
        let ks = self.erases[c].union(knowns);
        self.set_erase(c, ks);
    }

    /// Makes the action erase `known` from every cell of `cells`.
    pub fn erase_cells(&mut self, cells: CellSet, known: Known)
        ensures
            final(self).strategy_spec() == old(self).strategy_spec(),
            final(self).sets_spec() == old(self).sets_spec(),
            final(self).erases_spec() == Seq::new(
                81,
                |i: int|
                    if cells@.contains(i as nat) {
                        old(self).erases_spec()[i].insert(known@)
                    } else {
                        old(self).erases_spec()[i]
                    },
            ),
            final(self).clues_spec() == old(self).clues_spec(),
    {
        proof {
            use_type_invariant(&*self);
        }
        let mut erases: Vec<KnownSet> = Vec::new();
        let mut i: u8 = 0;
        while i < 81
            invariant
                i <= 81,
                self.erases.len() == 81,
                erases.len() == i,
                forall|j: int|
                    0 <= j < i ==> (#[trigger] erases[j])@ == if cells@.contains(j as nat) {
                        self.erases[j]@.insert(known@)
                    } else {
                        self.erases[j]@
                    },
            decreases 81 - i,
        {
            let cur = self.erases[i as usize];
            if cells.has(Cell::new(i)) {
                erases.push(cur.with(known));
            } else {
                erases.push(cur);
            }
            i = i + 1;
        }
        let ghost before = self.erases_spec();
        self.erases = erases;
        proof {
            assert(self.erases_spec() =~= Seq::new(
                81,
                |i: int|
                    if cells@.contains(i as nat) {
                        before[i].insert(known@)
                    } else {
                        before[i]
                    },
            ));
        }
    }

    /// Adds a clue for `knowns` in `cells`, unless either is empty.
    pub fn clue_cells_for_knowns(&mut self, verdict: Verdict, cells: CellSet, knowns: KnownSet)
        ensures
            final(self).strategy_spec() == old(self).strategy_spec(),
            final(self).sets_spec() == old(self).sets_spec(),
            final(self).erases_spec() == old(self).erases_spec(),
            clue_added(old(self).clues_spec(), final(self).clues_spec(), verdict, cells@, knowns@),
    {
        proof {
            use_type_invariant(&*self);
        }
        if !cells.is_empty() && !knowns.is_empty() {
            let mut clues = copy_clues(&self.clues);
            clues.push(Clue { verdict, cells, knowns });
            self.clues = clues;
            proof {
                assert(self.clues@.subrange(0, old(self).clues@.len() as int) =~= old(self).clues@);
            }
        }
    }

    /// Adds a clue for `known` in `cells`.
    pub fn clue_cells_for_known(&mut self, verdict: Verdict, cells: CellSet, known: Known)
        ensures
            final(self).strategy_spec() == old(self).strategy_spec(),
            final(self).sets_spec() == old(self).sets_spec(),
            final(self).erases_spec() == old(self).erases_spec(),
            clue_added(old(self).clues_spec(), final(self).clues_spec(), verdict, cells@, set![known@]),
    {
        let ks = KnownSet::empty().with(known);
        proof {
            assert(ks@ =~= set![known@]);
        }
        self.clue_cells_for_knowns(verdict, cells, ks);
    }

    /// Adds a clue for `knowns` in `cell`.
    pub fn clue_cell_for_knowns(&mut self, verdict: Verdict, cell: Cell, knowns: KnownSet)
        ensures
            final(self).strategy_spec() == old(self).strategy_spec(),
            final(self).sets_spec() == old(self).sets_spec(),
            final(self).erases_spec() == old(self).erases_spec(),
            clue_added(old(self).clues_spec(), final(self).clues_spec(), verdict, set![cell@], knowns@),
    {
        let cs = CellSet::empty().with(cell);
        proof {
            assert(cs@ =~= set![cell@]);
        }
        self.clue_cells_for_knowns(verdict, cs, knowns);
    }

    /// Adds a clue for `known` in `cell`.
    pub fn clue_cell_for_known(&mut self, verdict: Verdict, cell: Cell, known: Known)
        ensures
            final(self).strategy_spec() == old(self).strategy_spec(),
            final(self).sets_spec() == old(self).sets_spec(),
            final(self).erases_spec() == old(self).erases_spec(),
            clue_added(
                old(self).clues_spec(),
                final(self).clues_spec(),
                verdict,
                set![cell@],
                set![known@],
            ),
    {
        let ks = KnownSet::empty().with(known);
        proof {
            assert(ks@ =~= set![known@]);
        }
        self.clue_cell_for_knowns(verdict, cell, ks);
    }

    /// Whether the action sets `known` in `cell`.
    pub fn sets(&self, cell: Cell, known: Known) -> (r: bool)
        ensures
            r == (self.sets_spec()[cell@ as int] == known@ + 1),
    {
        proof {
            use_type_invariant(self);
        }
        self.sets[cell.usize()] == known.get_index() + 1
    }

    /// Whether the action erases `known` from `cell`.
    pub fn erases(&self, cell: Cell, known: Known) -> (r: bool)
        ensures
            r == self.erases_spec()[cell@ as int].contains(known@),
    {
        proof {
            use_type_invariant(self);
        }
        self.erases[cell.usize()].has(known)
    }

    /// The cells from which the action erases `known`.
    pub fn erases_from_cells(&self, known: Known) -> (r: CellSet)
        ensures
            r@ == Set::new(|i: nat| i < 81 && self.erases_spec()[i as int].contains(known@)),
    {
        proof {
            use_type_invariant(self);
        }
        let ghost target = Set::new(|i: nat| i < 81 && self.erases_spec()[i as int].contains(known@));
        let mut set = CellSet::empty();
        let mut j: u8 = 0;
        while j < 81
            invariant
                j <= 81,
                self.erases.len() == 81,
                target == Set::new(|i: nat| i < 81 && self.erases_spec()[i as int].contains(known@)),
                set@ == target.filter(|x: nat| x < j),
            decreases 81 - j,
        {
            if self.erases[j as usize].has(known) {
                set = set.with(Cell::new(j));
            }
            proof {
                assert(set@ =~= target.filter(|x: nat| x < j + 1));
            }
            j = j + 1;
        }
        proof {
            assert(target.filter(|x: nat| x < 81) =~= target);
        }
        set
    }

    /// The digits the action erases from `cell`.
    pub fn erases_knowns_from(&self, cell: Cell) -> (r: KnownSet)
        ensures
            r@ == self.erases_spec()[cell@ as int],
    {
        proof {
            use_type_invariant(self);
        }
        self.erases[cell.usize()]
    }

    /// Whether the action sets or erases anything in `cell`.
    pub fn affects_cell(&self, cell: Cell) -> (r: bool)
        ensures
            r == (self.sets_spec()[cell@ as int] != 0 || self.erases_spec()[cell@ as int]
                != Set::<nat>::empty()),
    {
        proof {
            use_type_invariant(self);
        }
        let c: usize = cell.usize();
        self.sets[c] != 0 || !self.erases[c].is_empty()
    }

    /// Whether the action sets or erases `known` anywhere.
    pub fn affects_known(&self, known: Known) -> (r: bool)
        ensures
            r == exists|i: int|
                0 <= i < 81 && #[trigger] touches_known_at(
                    self.sets_spec(),
                    self.erases_spec(),
                    known@,
                    i,
                ),
    {
        proof {
            use_type_invariant(self);
        }
        let v: u8 = known.get_index() + 1;
        let mut i: usize = 0;
        while i < 81
            invariant
                i <= 81,
                v == known@ + 1,
                self.sets.len() == 81,
                self.erases.len() == 81,
                forall|j: int| 0 <= j < 81 ==> #[trigger] self.sets[j] <= 9,
                forall|j: int|
                    0 <= j < i ==> !#[trigger] touches_known_at(
                        self.sets_spec(),
                        self.erases_spec(),
                        known@,
                        j,
                    ),
            decreases 81 - i,
        {
            let hit = self.sets[i] == v || self.erases[i].has(known);
            assert(self.erases_spec()[i as int] == self.erases@[i as int]@);
            assert(self.sets_spec()[i as int] == self.sets@[i as int]);
            if hit {
                assert(touches_known_at(self.sets_spec(), self.erases_spec(), known@, i as int));
                return true;
            }
            assert(!touches_known_at(self.sets_spec(), self.erases_spec(), known@, i as int));
            i = i + 1;
        }
        false
    }

    /// Applies the action to the board: its sets in cell order, then its
    /// erasures. Errors met go to `effects`. Tells whether the board met a
    /// contradiction, else whether it changed.
    pub fn apply(&self, board: &mut Board, effects: &mut Effects) -> (r: Change)
        ensures
            (final(board).values_spec(), final(board).cands_spec()) == action_model(
                (old(board).values_spec(), old(board).cands_spec()),
                *self,
            ),
            final(board).givens_spec() == old(board).givens_spec(),
            final(effects).actions_spec() == old(effects).actions_spec(),
            old(effects).errors_spec().is_prefix_of(final(effects).errors_spec()),
            (r is Invalid) == (final(effects).errors_spec().len() > old(effects).errors_spec().len()),
            r is Invalid <==> action_may_fail((old(board).values_spec(), old(board).cands_spec()), *self),
            r is Nothing ==> final(board).values_spec() == old(board).values_spec()
                && final(board).cands_spec() == old(board).cands_spec(),
    {
        proof {
            use_type_invariant(self);
        }
        let before: usize = effects.error_count();
        let ghost m0 = (board.values_spec(), board.cands_spec());
        let mut changed = false;
        let mut i: u8 = 0;
        while i < 81
            invariant
                i <= 81,
                self.sets.len() == 81,
                self.erases.len() == 81,
                forall|j: int| 0 <= j < 81 ==> #[trigger] self.sets[j] <= 9,
                before == old(effects).errors_spec().len(),
                m0 == (old(board).values_spec(), old(board).cands_spec()),
                (board.values_spec(), board.cands_spec()) == apply_sets(
                    m0,
                    self.sets_spec(),
                    i as nat,
                ),
                board.givens_spec() == old(board).givens_spec(),
                effects.actions_spec() == old(effects).actions_spec(),
                old(effects).errors_spec().is_prefix_of(effects.errors_spec()),
                !changed ==> board.values_spec() == old(board).values_spec() && board.cands_spec()
                    == old(board).cands_spec(),
                effects.errors_spec().len() > before <==> exists|x: nat|
                    x < i && self.sets_spec()[x as int] != 0 && #[trigger] set_fails(
                        apply_sets(m0, self.sets_spec(), x),
                        x,
                        (self.sets_spec()[x as int] - 1) as nat,
                    ),
            decreases 81 - i,
        {
            let v: u8 = self.sets[i as usize];
            let ghost errs = effects.errors_spec();
            if v != 0 {
                let cell = Cell::new(i);
                let known = Known::new(v);
                let ghost m_now = (board.values_spec(), board.cands_spec());
                if board.set_known(cell, known, effects) {
                    changed = true;
                }
                proof {
                    let k = known@;
                    if effects.errors_spec().len() > errs.len() {
                        if m_now.0[i as int] == 0 && m_now.1[i as int].contains(k) {
                            lemma_unsolvable_peers_witness(m_now.0, m_now.1, i as nat, k, 81);
                        }
                        assert(set_fails(apply_sets(m0, self.sets_spec(), i as nat), i as nat, (self.sets_spec()[i as int] - 1) as nat));
                    }
                    if set_fails(m_now, i as nat, k) && m_now.0[i as int] == 0 && m_now.1[i as int].contains(k) {
                        let p = choose|p: nat| #[trigger] emptied_by_set(m_now.0, m_now.1, i as nat, k, p);
                        assert(p < 81);
                        lemma_unsolvable_peers_nonempty(m_now.0, m_now.1, i as nat, k, 81, p);
                    }
                }
            }
            proof {
                assert(old(effects).errors_spec().is_prefix_of(effects.errors_spec())) by {
                    assert(errs.is_prefix_of(effects.errors_spec()));
                }
            }
            i = i + 1;
        }
        let ghost after_sets = (board.values_spec(), board.cands_spec());
        proof {
            assert(board.cands_spec() =~= Seq::new(
                81,
                |x: int|
                    if x < 0 {
                        after_sets.1[x].difference(self.erases_spec()[x])
                    } else {
                        after_sets.1[x]
                    },
            ));
        }
        let mut j: u8 = 0;
        while j < 81
            invariant
                j <= 81,
                self.erases.len() == 81,
                before == old(effects).errors_spec().len(),
                after_sets == apply_sets(m0, self.sets_spec(), 81),
                board.values_spec() == after_sets.0,
                board.cands_spec() == Seq::new(
                    81,
                    |x: int|
                        if x < j {
                            after_sets.1[x].difference(self.erases_spec()[x])
                        } else {
                            after_sets.1[x]
                        },
                ),
                board.givens_spec() == old(board).givens_spec(),
                effects.actions_spec() == old(effects).actions_spec(),
                old(effects).errors_spec().is_prefix_of(effects.errors_spec()),
                !changed ==> board.values_spec() == old(board).values_spec() && board.cands_spec()
                    == old(board).cands_spec(),
                effects.errors_spec().len() > before <==> (exists|x: nat|
                    x < 81 && self.sets_spec()[x as int] != 0 && #[trigger] set_fails(
                        apply_sets(m0, self.sets_spec(), x),
                        x,
                        (self.sets_spec()[x as int] - 1) as nat,
                    )) || (exists|x: nat|
                    x < j && #[trigger] emptied_by_removal(after_sets.0, after_sets.1, self.erases_spec()[x as int], x)),
            decreases 81 - j,
        {
            let ks = self.erases[j as usize];
            let ghost errs = effects.errors_spec();
            let ghost cands_before = board.cands_spec();
            let cell = Cell::new(j);
            proof {
                assert(cands_before[j as int] == after_sets.1[j as int]);
            }
            if board.remove_candidates(cell, ks, effects) {
                changed = true;
            } else {
                proof {
                    assert(cands_before[j as int].difference(ks@) =~= cands_before[j as int]) by {
                        assert forall|k: nat| cands_before[j as int].contains(k) implies !ks@.contains(k) by {
                            if ks@.contains(k) {
                                assert(cands_before[j as int].intersect(ks@).contains(k));
                            }
                        }
                    }
                    assert(board.cands_spec() =~= cands_before);
                }
            }
            proof {
                assert(errs.is_prefix_of(effects.errors_spec()));
                assert(ks@ == self.erases_spec()[j as int]);
                assert(emptied_by_removal(board.values_spec(), cands_before, ks@, j as nat) == emptied_by_removal(
                    after_sets.0,
                    after_sets.1,
                    self.erases_spec()[j as int],
                    j as nat,
                ));
                assert(board.cands_spec() =~= Seq::new(
                    81,
                    |x: int|
                        if x < j + 1 {
                            after_sets.1[x].difference(self.erases_spec()[x])
                        } else {
                            after_sets.1[x]
                        },
                ));
            }
            j = j + 1;
        }
        proof {
            assert(board.cands_spec() =~= apply_erases(after_sets.1, self.erases_spec()));
        }
        let after: usize = effects.error_count();
        if after > before {
            Change::Invalid
        } else if changed {
            Change::Valid
        } else {
            Change::Nothing
        }
    }

    /// The action as text: the technique, then each set as `A1=5` and each
    /// erasure as `A1-59`.
    pub fn label_string(&self) -> (r: String)
        ensures
            r@ == action_text(*self),
    {
        proof {
            use_type_invariant(self);
        }
        let mut s = String::new();
        push_str(&mut s, self.strategy.label());
        string_push(&mut s, ':');
        proof {
            reveal_strlit(":");
            assert(s@ =~= strategy_label(self.strategy_spec()) + ":"@ + action_parts(
                self.sets_spec(),
                self.erases_spec(),
                0,
            ));
        }
        let mut i: u8 = 0;
        while i < 81
            invariant
                i <= 81,
                self.sets.len() == 81,
                self.erases.len() == 81,
                forall|j: int| 0 <= j < 81 ==> #[trigger] self.sets[j] <= 9,
                s@ == strategy_label(self.strategy_spec()) + ":"@ + action_parts(
                    self.sets_spec(),
                    self.erases_spec(),
                    i as nat,
                ),
            decreases 81 - i,
        {
            let ghost s0 = s@;
            let cell = Cell::new(i);
            let v: u8 = self.sets[i as usize];
            let ghost part1 = if self.sets_spec()[i as int] != 0 {
                " "@ + cell_label(i as nat) + "="@ + seq![digit_char((self.sets_spec()[i as int] - 1) as nat)]
            } else {
                Seq::<char>::empty()
            };
            if v != 0 {
                string_push(&mut s, ' ');
                push_str(&mut s, cell.label().as_str());
                string_push(&mut s, '=');
                string_push(&mut s, (48u8 + v) as char);
                proof {
                    reveal_strlit(" ");
                    reveal_strlit("=");
                    assert(s@ =~= s0 + part1);
                }
            } else {
                proof {
                    assert(s@ =~= s0 + part1);
                }
            }
            let ghost s1 = s@;
            let ks = self.erases[i as usize];
            let ghost part2 = if self.erases_spec()[i as int] != Set::<nat>::empty() {
                " "@ + cell_label(i as nat) + "-"@ + known_digits(self.erases_spec()[i as int], 9)
            } else {
                Seq::<char>::empty()
            };
            if !ks.is_empty() {
                string_push(&mut s, ' ');
                push_str(&mut s, cell.label().as_str());
                string_push(&mut s, '-');
                push_digits(&mut s, ks);
                proof {
                    reveal_strlit(" ");
                    reveal_strlit("-");
                    assert(s@ =~= s1 + part2);
                }
            } else {
                proof {
                    assert(s@ =~= s1 + part2);
                }
            }
            proof {
                assert(s@ =~= strategy_label(self.strategy_spec()) + ":"@ + action_parts(
                    self.sets_spec(),
                    self.erases_spec(),
                    (i + 1) as nat,
                ));
            }
            i = i + 1;
        }
        s
    }
}

/// An action that only sets digit `k` in cell `c` changes a board as that
/// one set does.
pub proof fn lemma_single_set_model(m: BoardModel, a: Action, c: nat, k: nat)
    requires
        c < 81,
        m.1.len() == 81,
        a.sets_spec() == Seq::new(81, |i: int| 0nat).update(c as int, k + 1),
        a.erases_spec() == Seq::new(81, |i: int| Set::<nat>::empty()),
    ensures
        action_model(m, a) == set_step(m, c, k),
{
    lemma_single_set_prefix(m, a.sets_spec(), c, k, 81);
    let after = set_step(m, c, k);
    assert forall|i: int| 0 <= i < 81 implies #[trigger] apply_erases(after.1, a.erases_spec())[i]
        == after.1[i] by {
        assert(after.1[i].difference(Set::<nat>::empty()) =~= after.1[i]);
    }
    assert(apply_erases(after.1, a.erases_spec()) =~= after.1);
}

/// An action that only sets digit `k` in cell `c` reports an error exactly
/// when that one set fails.
pub proof fn lemma_single_set_may_fail(m: BoardModel, a: Action, c: nat, k: nat)
    requires
        c < 81,
        a.sets_spec() == Seq::new(81, |i: int| 0nat).update(c as int, k + 1),
        a.erases_spec() == Seq::new(81, |i: int| Set::<nat>::empty()),
    ensures
        action_may_fail(m, a) <==> set_fails(m, c, k),
{
    lemma_single_set_prefix(m, a.sets_spec(), c, k, c);
    if set_fails(m, c, k) {
        assert(set_fails(apply_sets(m, a.sets_spec(), c), c, (a.sets_spec()[c as int] - 1) as nat));
    }
    if action_may_fail(m, a) {
        let after = apply_sets(m, a.sets_spec(), 81);
        if exists|i: nat| i < 81 && #[trigger] emptied_by_removal(after.0, after.1, a.erases_spec()[i as int], i) {
            let i = choose|i: nat| i < 81 && #[trigger] emptied_by_removal(after.0, after.1, a.erases_spec()[i as int], i);
            assert(after.1[i as int].intersect(Set::<nat>::empty()) =~= Set::<nat>::empty());
        } else {
            let i = choose|i: nat|
                i < 81 && a.sets_spec()[i as int] != 0 && #[trigger] set_fails(
                    apply_sets(m, a.sets_spec(), i),
                    i,
                    (a.sets_spec()[i as int] - 1) as nat,
                );
            assert(i == c);
            lemma_single_set_prefix(m, a.sets_spec(), c, k, c);
        }
    }
}

proof fn lemma_single_set_prefix(m: BoardModel, sets: Seq<nat>, c: nat, k: nat, n: nat)
    requires
        c < 81,
        n <= 81,
        sets == Seq::new(81, |i: int| 0nat).update(c as int, k + 1),
    ensures
        apply_sets(m, sets, n) == if n > c {
            set_step(m, c, k)
        } else {
            m
        },
    decreases n,
{
    if n > 0 {
        lemma_single_set_prefix(m, sets, c, k, (n - 1) as nat);
    }
}

/// A copy of a list of clues.
fn copy_clues(v: &Vec<Clue>) -> (r: Vec<Clue>)
    ensures
        r@ == v@,
{
    let mut clues: Vec<Clue> = Vec::new();
    let mut j: usize = 0;
    while j < v.len()
        invariant
            j <= v.len(),
            clues@ == v@.subrange(0, j as int),
        decreases v.len() - j,
    {
        clues.push(v[j]);
        proof {
            assert(clues@ =~= v@.subrange(0, j + 1));
        }
        j = j + 1;
    }
    proof {
        assert(clues@ =~= v@);
    }
    clues
}

/// Appends every character of `t`.
pub fn push_str(s: &mut String, t: &str)
    ensures
        final(s)@ == old(s)@ + t@,
{
    let n: usize = t.unicode_len();
    let mut i: usize = 0;
    while i < n
        invariant
            i <= n,
            n == t@.len(),
            s@ == old(s)@ + t@.subrange(0, i as int),
        decreases n - i,
    {
        let c = t.get_char(i);
        string_push(s, c);
        proof {
            assert(t@.subrange(0, (i + 1) as int) =~= t@.subrange(0, i as int).push(c));
            assert(s@ =~= old(s)@ + t@.subrange(0, (i + 1) as int));
        }
        i = i + 1;
    }
    proof {
        assert(t@.subrange(0, n as int) =~= t@);
    }
}

/// Appends the digits of `ks` in increasing order.
pub fn push_digits(s: &mut String, ks: KnownSet)
    ensures
        final(s)@ == old(s)@ + known_digits(ks@, 9),
{
    let mut i: u8 = 0;
    while i < 9
        invariant
            i <= 9,
            s@ == old(s)@ + known_digits(ks@, i as nat),
        decreases 9 - i,
    {
        let k = Known::from_index(i);
        if ks.has(k) {
            string_push(s, (49u8 + i) as char);
        }
        proof {
            assert(s@ =~= old(s)@ + known_digits(ks@, (i + 1) as nat));
        }
        i = i + 1;
    }
}

} // verus!
