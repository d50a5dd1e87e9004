use vstd::prelude::*;

use crate::layout::cell::{lemma_cell_at, Cell};
use crate::layout::cell_set::{lemma_cell_set_bounded, CellSet};
use crate::layout::known_set::lemma_known_set_bounded;
use crate::solve::action::Action;
use crate::solve::algorithms::combinations::{combinations, is_combination};
use crate::solve::algorithms::{
    erases_candidates, found_by, lemma_erase_cells_keeps, sets_candidates, valid_action,
    valid_effects, Solver,
};
use crate::solve::board::{
    candidate_cells_of, cells_with_n, lemma_board_cands_shape, lemma_board_values_shape, Board,
};
use crate::layout::cell::peers_of;
use crate::layout::set_lemmas::{lemma_nonempty_choose, lemma_singleton_len};
use crate::solve::effects::Effects;
use crate::solve::strategy::{Strategy, Verdict};

verus! {

broadcast use {
    lemma_cell_at,
    lemma_cell_set_bounded,
    lemma_known_set_bounded,
    lemma_board_values_shape,
    lemma_board_cands_shape,
};

/// The technique of a pivot with three candidates and two peers with two
/// of them each: the digit all three share leaves the cells that see all
/// three.
pub struct XYZWingSolver;

impl Solver for XYZWingSolver {
    fn strategy(&self) -> (r: Strategy)
        ensures
            r == Strategy::XYZWing,
    {
        Strategy::XYZWing
    }

    fn apply(&self, board: &Board, single: bool) -> (r: Option<Effects>)
        ensures
            found_by(*board, r, single, Strategy::XYZWing),
            r is Some <==> has_xyz_wing(*board),
            r matches Some(e) ==> forall|x: int|
                0 <= x < e.actions_spec().len() ==> xyz_action(*board, #[trigger] e.actions_spec()[x]),
    {
        self.find_xyz_wings(board, single)
    }
}

/// The cells that see the pivot and both wings.
pub open spec fn wing_targets(pivot: nat, c1: nat, c2: nat) -> Set<nat> {
    peers_of(pivot).intersect(peers_of(c1)).intersect(peers_of(c2))
}

/// An XYZ-wing of the board that erases something: a pivot with three
/// candidates; two other peers of it with two candidates each, which
/// together hold the pivot's candidates and share only `k`; exactly two
/// cells that see all three; and `k` a candidate of one of those.
pub open spec fn xyz_wing(board: Board, pivot: nat, c1: nat, c2: nat, k: nat) -> bool {
    let cands = board.cands_spec();
    &&& cells_with_n(cands, 3).contains(pivot)
    &&& peers_of(pivot).intersect(cells_with_n(cands, 2)).contains(c1)
    &&& peers_of(pivot).intersect(cells_with_n(cands, 2)).contains(c2)
    &&& c1 != c2
    &&& wing_targets(pivot, c1, c2).len() == 2
    &&& cands[c1 as int].union(cands[c2 as int]) == cands[pivot as int]
    &&& cands[c1 as int].intersect(cands[c2 as int]) == set![k]
    &&& wing_targets(pivot, c1, c2).intersect(candidate_cells_of(cands, k)) != Set::<nat>::empty()
}

/// The board has an XYZ-wing that erases something.
pub open spec fn has_xyz_wing(board: Board) -> bool {
    exists|pivot: nat, c1: nat, c2: nat, k: nat| #[trigger] xyz_wing(board, pivot, c1, c2, k)
}

/// An action of an XYZ-wing of the board: it erases the shared digit `k`
/// from the cells that see the pivot and both wings and hold it, and
/// nothing else, and sets nothing.
pub open spec fn xyz_action(board: Board, a: Action) -> bool {
    exists|pivot: nat, c1: nat, c2: nat, k: nat|
        #[trigger] xyz_wing(board, pivot, c1, c2, k) && a.sets_spec() == Seq::new(81, |i: int| 0nat) && forall|i: int|
            0 <= i < 81 ==> #[trigger] a.erases_spec()[i] == if wing_targets(pivot, c1, c2).intersect(
                candidate_cells_of(board.cands_spec(), k),
            ).contains(i as nat) {
                set![k]
            } else {
                Set::<nat>::empty()
            }
}

/// The two wings may change places.
proof fn lemma_xyz_wing_symmetric(board: Board, pivot: nat, c1: nat, c2: nat, k: nat)
    requires
        xyz_wing(board, pivot, c1, c2, k),
    ensures
        xyz_wing(board, pivot, c2, c1, k),
{
    let cands = board.cands_spec();
    assert(wing_targets(pivot, c2, c1) =~= wing_targets(pivot, c1, c2));
    assert(cands[c2 as int].union(cands[c1 as int]) =~= cands[c1 as int].union(cands[c2 as int]));
    assert(cands[c2 as int].intersect(cands[c1 as int]) =~= cands[c1 as int].intersect(cands[c2 as int]));
}

impl XYZWingSolver {
    #[verifier::rlimit(60)]
    fn find_xyz_wings(&self, board: &Board, single: bool) -> (r: Option<Effects>)
        ensures
            found_by(*board, r, single, Strategy::XYZWing),
            r is Some <==> has_xyz_wing(*board),
            r matches Some(e) ==> forall|x: int|
                0 <= x < e.actions_spec().len() ==> xyz_action(*board, #[trigger] e.actions_spec()[x]),
    {
        let ghost cands = board.cands_spec();
        let mut effects = Effects::new();
        let tri_values = board.cells_with_n_candidates(3);
        if tri_values.is_empty() {
            proof {
                assert forall|pivot: nat, c1: nat, c2: nat, k: nat| !#[trigger] xyz_wing(*board, pivot, c1, c2, k) by {
                    if xyz_wing(*board, pivot, c1, c2, k) {
                        assert(tri_values@.contains(pivot));
                    }
                }
            }
            return None;
        }
        let bi_values = board.cells_with_n_candidates(2);
        if bi_values.is_empty() {
            proof {
                assert forall|pivot: nat, c1: nat, c2: nat, k: nat| !#[trigger] xyz_wing(*board, pivot, c1, c2, k) by {
                    if xyz_wing(*board, pivot, c1, c2, k) {
                        assert(bi_values@.contains(c1));
                    }
                }
            }
            return None;
        }
        let pivots = tri_values.to_vec();
        let mut p: usize = 0;
        while p < pivots.len()
            invariant
                p <= pivots.len(),
                cands == board.cands_spec(),
                tri_values@ == cells_with_n(cands, 3),
                bi_values@ == cells_with_n(cands, 2),
                forall|q: int| 0 <= q < pivots.len() ==> tri_values@.contains(#[trigger] pivots[q]@),
                forall|x: nat| tri_values@.contains(x) ==> exists|q: int| 0 <= q < pivots.len() && (#[trigger] pivots[q])@ == x,
                valid_effects(*board, effects, Strategy::XYZWing),
                single ==> effects.actions_spec().len() == 0,
                effects.actions_spec().len() > 0 ==> has_xyz_wing(*board),
                forall|x: int|
                    0 <= x < effects.actions_spec().len() ==> xyz_action(*board, #[trigger] effects.actions_spec()[x]),
                effects.actions_spec().len() == 0 ==> forall|q: int, c1: nat, c2: nat, k: nat|
                    0 <= q < p ==> !#[trigger] xyz_wing(*board, pivots[q]@, c1, c2, k),
            decreases pivots.len() - p,
        {
            let pivot = pivots[p];
            proof {
                assert(tri_values@.contains(pivots[p as int]@));
            }
            let pivot_peers = pivot.peers();
            let wing_set = pivot_peers.intersect(bi_values);
            let wings = wing_set.to_vec();
            let combos = combinations(wings.len(), 2);
            let mut j: usize = 0;
            while j < combos.len()
                invariant
                    j <= combos.len(),
                    p < pivots.len(),
                    pivot == pivots[p as int],
                    tri_values@.contains(pivot@),
                    cands == board.cands_spec(),
                    tri_values@ == cells_with_n(cands, 3),
                    bi_values@ == cells_with_n(cands, 2),
                    pivot_peers@ == peers_of(pivot@),
                    wing_set@ == pivot_peers@.intersect(bi_values@),
                    forall|a: int| 0 <= a < wings.len() ==> wing_set@.contains(#[trigger] wings[a]@),
                    forall|x: nat| wing_set@.contains(x) ==> exists|a: int| 0 <= a < wings.len() && (#[trigger] wings[a])@ == x,
                    forall|a: int, b: int| 0 <= a < b < wings.len() ==> (#[trigger] wings[a])@ < (#[trigger] wings[b])@,
                    forall|x: int| 0 <= x < combos.len() ==> (#[trigger] combos[x]).len() == 2,
                    forall|x: int, a: int|
                        0 <= x < combos.len() && 0 <= a < 2 ==> #[trigger] combos[x][a] < wings.len(),
                    forall|x: int| 0 <= x < combos.len() ==> (#[trigger] combos[x])[0] < combos[x][1],
                    forall|s: Seq<usize>|
                        #[trigger] is_combination(s, wings.len() as nat, 2) ==> exists|i: int| 0 <= i < combos.len() && combos[i]@ == s,
                    valid_effects(*board, effects, Strategy::XYZWing),
                    single ==> effects.actions_spec().len() == 0,
                    effects.actions_spec().len() > 0 ==> has_xyz_wing(*board),
                    forall|x: int|
                        0 <= x < effects.actions_spec().len() ==> xyz_action(*board, #[trigger] effects.actions_spec()[x]),
                    effects.actions_spec().len() == 0 ==> forall|q: int, c1: nat, c2: nat, k: nat|
                        0 <= q < p ==> !#[trigger] xyz_wing(*board, pivots[q]@, c1, c2, k),
                    effects.actions_spec().len() == 0 ==> forall|x: int, k: nat|
                        0 <= x < j ==> !#[trigger] xyz_wing(*board, pivot@, wings[combos[x][0] as int]@, wings[combos[x][1] as int]@, k),
                decreases combos.len() - j,
            {
                let ghost jj = j as int;
                let c1 = wings[combos[j][0]];
                let c2 = wings[combos[j][1]];
                let candidates = pivot_peers.intersect(c1.peers()).intersect(c2.peers());
                proof {
                    assert(candidates@ == wing_targets(pivot@, c1@, c2@));
                    assert(c1@ == wings[combos[jj][0] as int]@);
                    assert(c2@ == wings[combos[jj][1] as int]@);
                }
                if candidates.len() != 2 {
                    j = j + 1;
                    continue;
                }
                let ks = board.candidates(pivot);
                let ks1 = board.candidates(c1);
                let ks2 = board.candidates(c2);
                if !ks1.union(ks2).equals(&ks) {
                    j = j + 1;
                    continue;
                }
                let k = match ks1.intersect(ks2).as_single() {
                    Some(k) => k,
                    None => {
                        proof {
                            assert forall|k: nat| !#[trigger] xyz_wing(*board, pivot@, c1@, c2@, k) by {
                                lemma_singleton_len(k);
                            }
                        }
                        j = j + 1;
                        continue;
                    },
                };
                let mut action = Action::new(Strategy::XYZWing);
                let erase = candidates.intersect(board.candidate_cells(k));
                let ghost before = action;
                action.erase_cells(erase, k);
                proof {
                    lemma_erase_cells_keeps(*board, before, action, erase@, k@);
                }
                let ghost erased = action.erases_spec();
                let pair = CellSet::empty().with(c1).with(c2);
                action.clue_cells_for_known(Verdict::Secondary, pair.with(pivot), k);
                action.clue_cell_for_knowns(Verdict::Primary, pivot, ks1.without(k));
                action.clue_cell_for_knowns(Verdict::Primary, pivot, ks2.without(k));
                action.clue_cell_for_knowns(Verdict::Primary, c1, ks1.without(k));
                action.clue_cell_for_knowns(Verdict::Primary, c2, ks2.without(k));
                proof {
                    assert(sets_candidates(*board, action));
                    assert(action.is_empty_spec() <==> erase@ == Set::<nat>::empty()) by {
                        if erase@ != Set::<nat>::empty() {
                            lemma_nonempty_choose(erase@);
                            let i = erase@.choose();
                            assert(action.erases_spec()[i as int].contains(k@));
                        } else {
                            assert forall|i: int| 0 <= i < 81 implies #[trigger] action.erases_spec()[i] == Set::<nat>::empty() by {
                                assert(!erase@.contains(i as nat));
                            }
                        }
                    }
                    assert(ks1@.intersect(ks2@) == set![k@]);
                }
                let ghost act = action;
                let added = effects.add_action(action);
                proof {
                    assert forall|x: int| 0 <= x < effects.actions_spec().len() implies valid_action(
                        *board,
                        #[trigger] effects.actions_spec()[x],
                        Strategy::XYZWing,
                    ) by {
                        if added && x == effects.actions_spec().len() - 1 {
                            assert(effects.actions_spec()[x] == act);
                        }
                    }
                    if added {
                        assert(xyz_wing(*board, pivot@, c1@, c2@, k@));
                        assert(act.erases_spec() == erased);
                        assert(erase@ == wing_targets(pivot@, c1@, c2@).intersect(candidate_cells_of(board.cands_spec(), k@)));
                        assert forall|i: int| 0 <= i < 81 implies #[trigger] act.erases_spec()[i] == if wing_targets(pivot@, c1@, c2@).intersect(
                            candidate_cells_of(board.cands_spec(), k@),
                        ).contains(i as nat) {
                            set![k@]
                        } else {
                            Set::<nat>::empty()
                        } by {
                            if erase@.contains(i as nat) {
                                assert(act.erases_spec()[i] =~= set![k@]);
                            }
                        }
                        assert(xyz_action(*board, act));
                        assert forall|x: int| 0 <= x < effects.actions_spec().len() implies xyz_action(*board, #[trigger] effects.actions_spec()[x]) by {
                            if x == effects.actions_spec().len() - 1 {
                                assert(effects.actions_spec()[x] == act);
                            }
                        }
                    } else {
                        assert forall|k2: nat| !#[trigger] xyz_wing(*board, pivot@, c1@, c2@, k2) by {
                            if k2 != k@ {
                                lemma_singleton_len(k2);
                                assert(!set![k@].contains(k2));
                            }
                        }
                    }
                }
                if added && single {
                    return Some(effects);
                }
                j = j + 1;
            }
            proof {
                if effects.actions_spec().len() == 0 {
                    assert forall|c1: nat, c2: nat, k: nat| !#[trigger] xyz_wing(*board, pivot@, c1, c2, k) by {
                        if xyz_wing(*board, pivot@, c1, c2, k) {
                            assert(wing_set@.contains(c1));
                            assert(wing_set@.contains(c2));
                            let a = choose|a: int| 0 <= a < wings.len() && (#[trigger] wings[a])@ == c1;
                            let b = choose|b: int| 0 <= b < wings.len() && (#[trigger] wings[b])@ == c2;
                            assert(a != b);
                            if a < b {
                                let s = seq![a as usize, b as usize];
                                assert(is_combination(s, wings.len() as nat, 2));
                                let i = choose|i: int| 0 <= i < combos.len() && combos[i]@ == s;
                                assert(combos[i][0] == a as usize && combos[i][1] == b as usize);
                                assert(!xyz_wing(*board, pivot@, wings[combos[i][0] as int]@, wings[combos[i][1] as int]@, k));
                            } else {
                                let s = seq![b as usize, a as usize];
                                assert(is_combination(s, wings.len() as nat, 2));
                                let i = choose|i: int| 0 <= i < combos.len() && combos[i]@ == s;
                                assert(combos[i][0] == b as usize && combos[i][1] == a as usize);
                                lemma_xyz_wing_symmetric(*board, pivot@, c1, c2, k);
                                assert(!xyz_wing(*board, pivot@, wings[combos[i][0] as int]@, wings[combos[i][1] as int]@, k));
                            }
                        }
                    }
                }
            }
            p = p + 1;
        }
        proof {
            if effects.actions_spec().len() == 0 {
                assert forall|pivot: nat, c1: nat, c2: nat, k: nat| !#[trigger] xyz_wing(*board, pivot, c1, c2, k) by {
                    if xyz_wing(*board, pivot, c1, c2, k) {
                        assert(tri_values@.contains(pivot));
                        let q = choose|q: int| 0 <= q < pivots.len() && (#[trigger] pivots[q])@ == pivot;
                        assert(!xyz_wing(*board, pivots[q]@, c1, c2, k));
                    }
                }
            }
        }
        if effects.has_actions() {
            Some(effects)
        } else {
            None
        }
    }
}

/// The XYZ-wings of the board, only the first when `single`.
pub fn find_xyz_wings(board: &Board, single: bool) -> (r: Option<Effects>)
    ensures
        found_by(*board, r, single, Strategy::XYZWing),
        r is Some <==> has_xyz_wing(*board),
        r matches Some(e) ==> forall|x: int|
            0 <= x < e.actions_spec().len() ==> xyz_action(*board, #[trigger] e.actions_spec()[x]),
{
    XYZWingSolver.find_xyz_wings(board, single)
}

} // verus!
