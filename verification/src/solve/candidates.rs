use vstd::prelude::*;

use crate::layout::cell::{lemma_cell_at, peers_of, Cell};
use crate::layout::grid::digit_or_empty;
use crate::layout::known::Known;
use crate::layout::known_set::{all_knowns, lemma_known_set_bounded, KnownSet};
use crate::solve::board::{lemma_board_cands_shape, lemma_board_values_shape, Board};

verus! {

broadcast use {lemma_cell_at, lemma_known_set_bounded, lemma_board_values_shape, lemma_board_cands_shape};

/// The candidate digits of every cell, kept apart from a board.
#[derive(Debug, PartialEq, Eq)]
pub struct Candidates {
    per_cell: Vec<KnownSet>,
}

/// The digits an unknown cell may take: those no known peer holds.
pub open spec fn allowed_by_peers(values: Seq<nat>, c: nat) -> Set<nat> {
    Set::new(
        |k: nat|
            k < 9 && !exists|p: nat| #[trigger] peers_of(c).contains(p) && values[p as int] == k + 1,
    )
}

impl Candidates {
    #[verifier::type_invariant]
    spec fn inv(self) -> bool {
        self.per_cell.len() == 81
    }

    /// The candidate digit indices of every cell.
    pub closed spec fn view_spec(&self) -> Seq<Set<nat>> {
        Seq::new(81, |i: int| self.per_cell@[i]@)
    }

    fn filled(set: KnownSet) -> (r: Self)
        ensures
            r.view_spec() == Seq::new(81, |i: int| set@),
    {
        let mut per_cell: Vec<KnownSet> = Vec::new();
        let mut i: usize = 0;
        while i < 81
            invariant
                i <= 81,
                per_cell.len() == i,
                forall|j: int| 0 <= j < i ==> #[trigger] per_cell[j] == set,
            decreases 81 - i,
        {
            per_cell.push(set);
            i = i + 1;
        }
        let r = Candidates { per_cell };
        assert(r.view_spec() =~= Seq::new(81, |i: int| set@));
        r
    }

    /// Every cell may take every digit.
    pub fn new_full() -> (r: Self)
        ensures
            r.view_spec() == Seq::new(81, |i: int| all_knowns()),
    {
        Self::filled(KnownSet::full())
    }

    /// No cell may take any digit.
    pub fn new_empty() -> (r: Self)
        ensures
            r.view_spec() == Seq::new(81, |i: int| Set::<nat>::empty()),
    {
        Self::filled(KnownSet::empty())
    }

    pub fn get(&self, cell: Cell) -> (r: KnownSet)
        ensures
            r@ == self.view_spec()[cell@ as int],
    {
        proof {
            use_type_invariant(self);
        }
        self.per_cell[cell.usize()]
    }

    pub fn set(&mut self, cell: Cell, set: KnownSet)
        ensures
            final(self).view_spec() == old(self).view_spec().update(cell@ as int, set@),
    {
        proof {
            use_type_invariant(&*self);
        }
        let c: usize = cell.usize();
        let mut per_cell: Vec<KnownSet> = Vec::new();
        let mut i: usize = 0;
        while i < 81
            invariant
                i <= 81,
                c < 81,
                self.per_cell.len() == 81,
                per_cell.len() == i,
                forall|j: int|
                    0 <= j < i ==> #[trigger] per_cell[j] == if j == c {
                        set
                    } else {
                        self.per_cell[j]
                    },
            decreases 81 - i,
        {
            if i == c {
                per_cell.push(set);
            } else {
                per_cell.push(self.per_cell[i]);
            }
            i = i + 1;
        }
        let ghost before = self.view_spec();
        self.per_cell = per_cell;
        proof {
            assert(self.view_spec() =~= before.update(c as int, set@));
        }
    }

    pub fn remove(&mut self, cell: Cell, k: Known)
        ensures
            final(self).view_spec() == old(self).view_spec().update(
                cell@ as int,
                old(self).view_spec()[cell@ as int].remove(k@),
            ),
    {
        let s = self.get(cell).without(k);
        self.set(cell, s);
    }

    pub fn remove_set(&mut self, cell: Cell, ks: KnownSet)
        ensures
            final(self).view_spec() == old(self).view_spec().update(
                cell@ as int,
                old(self).view_spec()[cell@ as int].difference(ks@),
            ),
    {
        let s = self.get(cell).minus(ks);
        self.set(cell, s);
    }

    pub fn is_candidate(&self, cell: Cell, k: Known) -> (r: bool)
        ensures
            r == self.view_spec()[cell@ as int].contains(k@),
    {
        self.get(cell).has(k)
    }
}

impl Default for Candidates {
    fn default() -> (r: Self)
        ensures
            r.view_spec() == Seq::new(81, |i: int| all_knowns()),
    {
        Self::new_full()
    }
}

/// Recomputes every cell's candidates from the board's values: none for a
/// known cell, else the digits no known peer holds.
pub fn recompute_all_candidates(board: &Board, candidates: &mut Candidates)
    ensures
        final(candidates).view_spec() == Seq::new(
            81,
            |i: int|
                if board.values_spec()[i] != 0 {
                    Set::<nat>::empty()
                } else {
                    allowed_by_peers(board.values_spec(), i as nat)
                },
        ),
{
    let ghost target = Seq::new(
        81,
        |i: int|
            if board.values_spec()[i] != 0 {
                Set::<nat>::empty()
            } else {
                allowed_by_peers(board.values_spec(), i as nat)
            },
    );
    let mut i: u8 = 0;
    while i < 81
        invariant
            i <= 81,
            target == Seq::new(
                81,
                |x: int|
                    if board.values_spec()[x] != 0 {
                        Set::<nat>::empty()
                    } else {
                        allowed_by_peers(board.values_spec(), x as nat)
                    },
            ),
            forall|j: int| 0 <= j < i ==> #[trigger] candidates.view_spec()[j] == target[j],
            candidates.view_spec().len() == 81,
        decreases 81 - i,
    {
        let cell = Cell::new(i);
        let v = board.get(cell);
        if v.is_known() {
            candidates.set(cell, KnownSet::empty());
        } else {
            let mut allowed = KnownSet::full();
            let mut p: u8 = 0;
            while p < 81
                invariant
                    p <= 81,
                    i < 81,
                    cell@ == i,
                    allowed@ == Set::new(
                        |k: nat|
                            k < 9 && !exists|q: nat|
                                q < p && #[trigger] peers_of(i as nat).contains(q)
                                    && board.values_spec()[q as int] == k + 1,
                    ),
                decreases 81 - p,
            {
                let peer = Cell::new(p);
                if cell.sees(peer) {
                    let pv = board.get(peer);
                    if pv.is_known() {
                        let k = Known::new(pv.raw());
                        allowed = allowed.without(k);
                    }
                }
                proof {
                    let next = Set::new(
                        |k: nat|
                            k < 9 && !exists|q: nat|
                                q < p + 1 && #[trigger] peers_of(i as nat).contains(q)
                                    && board.values_spec()[q as int] == k + 1,
                    );
                    assert forall|k: nat| allowed@.contains(k) <==> next.contains(k) by {
                        if next.contains(k) {
                            assert(!(peers_of(i as nat).contains(p as nat) && board.values_spec()[p as int] == k + 1));
                        }
                        if allowed@.contains(k) {
                            if exists|q: nat|
                                q < p + 1 && #[trigger] peers_of(i as nat).contains(q)
                                    && board.values_spec()[q as int] == k + 1 {
                                let q = choose|q: nat|
                                    q < p + 1 && #[trigger] peers_of(i as nat).contains(q)
                                        && board.values_spec()[q as int] == k + 1;
                                if q < p {
                                }
                            }
                        }
                    }
                    assert(allowed@ =~= next);
                }
                p = p + 1;
            }
            proof {
                assert forall|k: nat| allowed@.contains(k) <==> allowed_by_peers(board.values_spec(), i as nat).contains(k) by {
                    if exists|q: nat| #[trigger] peers_of(i as nat).contains(q) && board.values_spec()[q as int] == k + 1 {
                        let q = choose|q: nat| #[trigger] peers_of(i as nat).contains(q) && board.values_spec()[q as int] == k + 1;
                        assert(q < 81);
                    }
                }
                assert(allowed@ =~= allowed_by_peers(board.values_spec(), i as nat));
            }
            candidates.set(cell, allowed);
        }
        i = i + 1;
    }
    proof {
        assert(candidates.view_spec() =~= target);
    }
}

/// After `known` is set in `cell`: the cell has no candidates left and no
/// unknown peer keeps `known`.
pub fn update_after_set_known(board: &Board, candidates: &mut Candidates, cell: Cell, known: Known)
    ensures
        final(candidates).view_spec() == Seq::new(
            81,
            |i: int|
                if i == cell@ {
                    Set::<nat>::empty()
                } else if peers_of(cell@).contains(i as nat) && board.values_spec()[i] == 0 {
                    old(candidates).view_spec()[i].remove(known@)
                } else {
                    old(candidates).view_spec()[i]
                },
        ),
{
    let _index: u8 = cell.index();
    candidates.set(cell, KnownSet::empty());
    let ghost start = candidates.view_spec();
    let mut p: u8 = 0;
    while p < 81
        invariant
            p <= 81,
            cell@ < 81,
            start == old(candidates).view_spec().update(cell@ as int, Set::<nat>::empty()),
            candidates.view_spec() == Seq::new(
                81,
                |i: int|
                    if i < p && peers_of(cell@).contains(i as nat) && board.values_spec()[i] == 0 {
                        start[i].remove(known@)
                    } else {
                        start[i]
                    },
            ),
        decreases 81 - p,
    {
        let peer = Cell::new(p);
        if cell.sees(peer) && board.is_unknown(peer) {
            candidates.remove(peer, known);
        }
        proof {
            assert(candidates.view_spec() =~= Seq::new(
                81,
                |i: int|
                    if i < p + 1 && peers_of(cell@).contains(i as nat) && board.values_spec()[i] == 0 {
                        start[i].remove(known@)
                    } else {
                        start[i]
                    },
            ));
        }
        p = p + 1;
    }
    proof {
        assert(candidates.view_spec() =~= Seq::new(
            81,
            |i: int|
                if i == cell@ {
                    Set::<nat>::empty()
                } else if peers_of(cell@).contains(i as nat) && board.values_spec()[i] == 0 {
                    old(candidates).view_spec()[i].remove(known@)
                } else {
                    old(candidates).view_spec()[i]
                },
        ));
    }
}

} // verus!
