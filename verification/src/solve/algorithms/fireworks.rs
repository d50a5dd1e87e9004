use vstd::prelude::*;

use crate::layout::cell::{lemma_cell_at, Cell};
use crate::layout::cell_set::{lemma_cell_set_bounded, CellSet};
use crate::layout::known::Known;
use crate::layout::known_set::{lemma_known_set_bounded, KnownSet};
use crate::solve::action::{lemma_action_erases_len, Action};
use crate::solve::algorithms::combinations::{combinations, is_combination};
use crate::solve::algorithms::hidden_tuples::{cells_union_at, hides_smaller, is_degenerate};
use crate::layout::set_lemmas::{lemma_nonempty_choose, lemma_triple_len};
use crate::solve::algorithms::{
    erases_candidates, found_by, lemma_erase_knowns_keeps, sets_candidates, valid_action,
    valid_effects, Solver,
};
use crate::layout::cell::{block_of, col_of, peers_of, row_of};
use crate::layout::shape::{house_cells, Shape};
use crate::solve::board::{
    candidate_cells_of, candidates_of_cells, lemma_board_cands_shape, lemma_board_values_shape,
    unknown_cells, Board,
};
use crate::solve::effects::Effects;
use crate::solve::strategy::{Strategy, Verdict};

verus! {

broadcast use {
    lemma_action_erases_len,
    lemma_cell_at,
    lemma_cell_set_bounded,
    lemma_known_set_bounded,
    lemma_board_values_shape,
    lemma_board_cands_shape,
};

/// The technique of three digits confined, in a pivot's row and column
/// outside its block, to two cells that do not see each other: the pivot and
/// those two cells keep only the three digits.
pub struct FireworksSolver;

impl Solver for FireworksSolver {
    fn strategy(&self) -> (r: Strategy)
        ensures
            r == Strategy::Fireworks,
    {
        Strategy::Fireworks
    }

    fn apply(&self, board: &Board, single: bool) -> (r: Option<Effects>)
        ensures
            found_by(*board, r, single, Strategy::Fireworks),
            r is Some <==> has_firework(*board),
            r matches Some(e) ==> forall|x: int|
                0 <= x < e.actions_spec().len() ==> firework_action(*board, #[trigger] e.actions_spec()[x]),
    {
        find_fireworks(board, single)
    }
}

/// One digit's candidate cells near a pivot: in the pivot's block, in its
/// row and column outside the block, and there or at the pivot.
struct Spark {
    known: Known,
    block_set: CellSet,
    disjoint_set: CellSet,
    full_set: CellSet,
}

/// The cells of the pivot's row and column outside its block.
pub open spec fn disjoint_of(p: nat) -> Set<nat> {
    house_cells(Shape::Row, row_of(p)).union(house_cells(Shape::Column, col_of(p))).difference(
        house_cells(Shape::Block, block_of(p)),
    )
}

/// Digit `k` near pivot `p`: a candidate in the pivot's row and in its
/// column, somewhere in its block, and in at most two cells of its row and
/// column outside the block.
pub open spec fn spark(board: Board, p: nat, k: nat) -> bool {
    let cands = board.cands_spec();
    let cc = candidate_cells_of(cands, k);
    &&& candidates_of_cells(cands, house_cells(Shape::Row, row_of(p))).intersect(
        candidates_of_cells(cands, house_cells(Shape::Column, col_of(p))),
    ).contains(k)
    &&& !cc.disjoint(house_cells(Shape::Row, row_of(p)))
    &&& !cc.disjoint(house_cells(Shape::Column, col_of(p)))
    &&& cc.intersect(house_cells(Shape::Block, block_of(p))) != Set::<nat>::empty()
    &&& cc.intersect(disjoint_of(p)).len() <= 2
}

/// The cells of the row and column outside the block that may take `k`.
pub open spec fn spark_wings(board: Board, p: nat, k: nat) -> Set<nat> {
    candidate_cells_of(board.cands_spec(), k).intersect(disjoint_of(p))
}

/// Those cells, and the pivot when it may take `k`.
pub open spec fn spark_full(board: Board, p: nat, k: nat) -> Set<nat> {
    candidate_cells_of(board.cands_spec(), k).intersect(disjoint_of(p).insert(p))
}

/// The wing cells of three digits near a pivot.
pub open spec fn fireworks_wings(board: Board, p: nat, k0: nat, k1: nat, k2: nat) -> Set<nat> {
    spark_wings(board, p, k0).union(spark_wings(board, p, k1)).union(spark_wings(board, p, k2))
}

/// Fireworks that erase something: an unknown pivot and three digits near
/// it whose cells outside the block are two that do not see each other;
/// the three digits are candidates of those two cells and the pivot
/// together; no two of the digits fit in two cells of the wings and pivot;
/// and one of the three cells has another candidate.
pub open spec fn firework(board: Board, p: nat, k0: nat, k1: nat, k2: nat) -> bool {
    let cands = board.cands_spec();
    let w = fireworks_wings(board, p, k0, k1, k2);
    &&& p < 81
    &&& board.values_spec()[p as int] == 0
    &&& k0 < k1 < k2
    &&& spark(board, p, k0)
    &&& spark(board, p, k1)
    &&& spark(board, p, k2)
    &&& w.len() == 2
    &&& forall|a: nat, c: nat| w.contains(a) && w.contains(c) ==> !#[trigger] peers_of(a).contains(c)
    &&& set![k0, k1, k2].subset_of(candidates_of_cells(cands, w.insert(p)))
    &&& spark_full(board, p, k0).union(spark_full(board, p, k1)).len() > 2
    &&& spark_full(board, p, k0).union(spark_full(board, p, k2)).len() > 2
    &&& spark_full(board, p, k1).union(spark_full(board, p, k2)).len() > 2
    &&& exists|c: nat| w.insert(p).contains(c) && !#[trigger] cands[c as int].subset_of(set![k0, k1, k2])
}

/// The action of fireworks at pivot `p` with the digits `k0`, `k1`, `k2`:
/// it erases, from the pivot and the two wing cells, every candidate but
/// the three digits, and nothing elsewhere.
pub open spec fn fireworks_erasure(board: Board, p: nat, k0: nat, k1: nat, k2: nat, a: Action) -> bool {
    forall|i: int|
        0 <= i < 81 ==> #[trigger] a.erases_spec()[i] == if fireworks_wings(board, p, k0, k1, k2).insert(p).contains(
            i as nat,
        ) {
            board.cands_spec()[i].difference(set![k0, k1, k2])
        } else {
            Set::<nat>::empty()
        }
}

/// An action of some fireworks on the board.
pub open spec fn firework_action(board: Board, a: Action) -> bool {
    exists|p: nat, k0: nat, k1: nat, k2: nat|
        #[trigger] firework(board, p, k0, k1, k2) && fireworks_erasure(board, p, k0, k1, k2, a)
}

/// The board has fireworks that erase something.
pub open spec fn has_firework(board: Board) -> bool {
    exists|p: nat, k0: nat, k1: nat, k2: nat| #[trigger] firework(board, p, k0, k1, k2)
}

/// Peers see each other.
proof fn lemma_peers_symmetric(c: nat, p: nat)
    requires
        c < 81,
        peers_of(c).contains(p),
    ensures
        peers_of(p).contains(c),
{
}

/// Two of three cell sets cover at most two cells exactly when one of the
/// three pairs does.
proof fn lemma_pairs_of_three(f: Seq<CellSet>)
    requires
        f.len() == 3,
    ensures
        hides_smaller(f, 2) <==> (f[0]@.union(f[1]@).len() <= 2 || f[0]@.union(f[2]@).len() <= 2
            || f[1]@.union(f[2]@).len() <= 2),
{
    assert forall|s: Seq<usize>| #[trigger] is_combination(s, 3, 2) implies cells_union_at(f, s, 2)
        == f[s[0] as int]@.union(f[s[1] as int]@) by {
        assert(cells_union_at(f, s, 0) == Set::<nat>::empty());
        assert(cells_union_at(f, s, 1) =~= f[s[0] as int]@);
    }
    if f[0]@.union(f[1]@).len() <= 2 {
        assert(is_combination(seq![0usize, 1usize], 3, 2));
    }
    if f[0]@.union(f[2]@).len() <= 2 {
        assert(is_combination(seq![0usize, 2usize], 3, 2));
    }
    if f[1]@.union(f[2]@).len() <= 2 {
        assert(is_combination(seq![1usize, 2usize], 3, 2));
    }
    if hides_smaller(f, 2) {
        let s = choose|s: Seq<usize>| #[trigger] is_combination(s, f.len(), 2) && cells_union_at(f, s, 2).len() <= 2;
        assert(s[0] < s[1] && s[1] < 3);
    }
}

/// The sparks of the pivot in increasing digit order; every digit near
/// the pivot has one.
fn collect_sparks(board: &Board, pivot: Cell) -> (r: Vec<Spark>)
    ensures
        forall|x: int|
            0 <= x < r.len() ==> {
                &&& spark(*board, pivot@, (#[trigger] r[x]).known@)
                &&& r[x].disjoint_set@ == spark_wings(*board, pivot@, r[x].known@)
                &&& r[x].full_set@ == spark_full(*board, pivot@, r[x].known@)
            },
        forall|x: int, y: int| 0 <= x < y < r.len() ==> (#[trigger] r[x]).known@ < (#[trigger] r[y]).known@,
        forall|k: nat| #[trigger] spark(*board, pivot@, k) ==> exists|x: int| 0 <= x < r.len() && r[x].known@ == k,
{
    let ghost cands = board.cands_spec();
    let row_cells = pivot.row().cells();
    let column_cells = pivot.column().cells();
    let block_cells = pivot.block().cells();
    let disjoint_cells = row_cells.union(column_cells).minus(block_cells);
    let full_cells = disjoint_cells.with(pivot);
    let candidates = board.all_candidates(row_cells).intersect(board.all_candidates(column_cells));
    let digits = candidates.to_vec();
    let mut sparks: Vec<Spark> = Vec::new();
    let mut d: usize = 0;
    while d < digits.len()
        invariant
            d <= digits.len(),
            cands == board.cands_spec(),
            row_cells@ == house_cells(Shape::Row, row_of(pivot@)),
            column_cells@ == house_cells(Shape::Column, col_of(pivot@)),
            block_cells@ == house_cells(Shape::Block, block_of(pivot@)),
            disjoint_cells@ == disjoint_of(pivot@),
            full_cells@ == disjoint_of(pivot@).insert(pivot@),
            candidates@ == candidates_of_cells(cands, row_cells@).intersect(candidates_of_cells(cands, column_cells@)),
            forall|a: int, b: int| 0 <= a < b < digits.len() ==> (#[trigger] digits[a])@ < (#[trigger] digits[b])@,
            forall|a: int| 0 <= a < digits.len() ==> candidates@.contains(#[trigger] digits[a]@),
            forall|x: nat| candidates@.contains(x) ==> exists|a: int| 0 <= a < digits.len() && (#[trigger] digits[a])@ == x,
            forall|x: int|
                0 <= x < sparks.len() ==> {
                    &&& spark(*board, pivot@, (#[trigger] sparks[x]).known@)
                    &&& sparks[x].disjoint_set@ == spark_wings(*board, pivot@, sparks[x].known@)
                    &&& sparks[x].full_set@ == spark_full(*board, pivot@, sparks[x].known@)
                    &&& (d > 0 ==> sparks[x].known@ <= digits[d - 1]@)
                },
            forall|x: int, y: int| 0 <= x < y < sparks.len() ==> (#[trigger] sparks[x]).known@ < (#[trigger] sparks[y]).known@,
            d == 0 ==> sparks.len() == 0,
            forall|a: int|
                0 <= a < d && #[trigger] spark(*board, pivot@, digits[a]@) ==> exists|x: int|
                    0 <= x < sparks.len() && sparks[x].known@ == digits[a]@,
        decreases digits.len() - d,
    {
        let known = digits[d];
        let set = board.candidate_cells(known);
        let ghost old_sparks = sparks@;
        proof {
            assert forall|x: int|
                0 <= x < old_sparks.len() implies {
                    &&& spark(*board, pivot@, (#[trigger] old_sparks[x]).known@)
                    &&& old_sparks[x].disjoint_set@ == spark_wings(*board, pivot@, old_sparks[x].known@)
                    &&& old_sparks[x].full_set@ == spark_full(*board, pivot@, old_sparks[x].known@)
                    &&& (d > 0 ==> old_sparks[x].known@ <= digits[d - 1]@)
                } by {
                assert(old_sparks[x] == sparks[x]);
            }
            assert forall|x: int, y: int| 0 <= x < y < old_sparks.len() implies (#[trigger] old_sparks[x]).known@
                < (#[trigger] old_sparks[y]).known@ by {
                assert(old_sparks[x] == sparks[x]);
                assert(old_sparks[y] == sparks[y]);
            }
        }
        let mut pushed = false;
        if set.has_any(row_cells) && set.has_any(column_cells) {
            let block_set = set.intersect(block_cells);
            let disjoint_set = set.intersect(disjoint_cells);
            if !block_set.is_empty() && disjoint_set.len() <= 2 {
                proof {
                    assert(candidates@.contains(digits[d as int]@));
                    assert(spark(*board, pivot@, known@));
                    if d > 0 {
                        assert(digits[d - 1]@ < digits[d as int]@);
                    }
                }
                sparks.push(Spark { known, block_set, disjoint_set, full_set: set.intersect(full_cells) });
                pushed = true;
                proof {
                    assert(sparks[sparks.len() - 1].known@ == digits[d as int]@);
                    let last = sparks.len() - 1;
                    if d > 0 {
                        assert(digits[d - 1]@ < digits[d as int]@);
                    }
                    assert forall|x: int|
                        0 <= x < sparks.len() implies {
                            &&& spark(*board, pivot@, (#[trigger] sparks[x]).known@)
                            &&& sparks[x].disjoint_set@ == spark_wings(*board, pivot@, sparks[x].known@)
                            &&& sparks[x].full_set@ == spark_full(*board, pivot@, sparks[x].known@)
                            &&& sparks[x].known@ <= digits[d as int]@
                        } by {
                        if x < old_sparks.len() {
                            assert(sparks[x] == old_sparks[x]);
                            assert(old_sparks[x].known@ <= digits[d - 1]@);
                        }
                    }
                    assert forall|x: int, y: int| 0 <= x < y < sparks.len() implies (#[trigger] sparks[x]).known@
                        < (#[trigger] sparks[y]).known@ by {
                        assert(sparks[x] == old_sparks[x]);
                        if y < old_sparks.len() {
                            assert(sparks[y] == old_sparks[y]);
                        } else {
                            assert(old_sparks[x].known@ <= digits[d - 1]@);
                        }
                    }
                }
            }
        }
        proof {
            if !pushed {
                assert(!spark(*board, pivot@, digits[d as int]@));
                assert(sparks@ == old_sparks);
                assert forall|x: int| 0 <= x < sparks.len() implies (#[trigger] sparks[x]).known@ <= digits[d as int]@ by {
                    if d > 0 {
                        assert(sparks[x].known@ <= digits[d - 1]@);
                        assert(digits[d - 1]@ < digits[d as int]@);
                    }
                }
            }
            if d > 0 {
                assert(digits[d - 1]@ < digits[d as int]@);
            }
            assert forall|a: int|
                0 <= a < d + 1 && #[trigger] spark(*board, pivot@, digits[a]@) implies exists|x: int|
                    0 <= x < sparks.len() && sparks[x].known@ == digits[a]@ by {
                if a < d {
                    let x = choose|x: int| 0 <= x < old_sparks.len() && old_sparks[x].known@ == digits[a]@;
                    assert(sparks[x] == old_sparks[x]);
                } else {
                    assert(sparks[sparks.len() - 1].known@ == digits[a]@);
                }
            }
        }
        d = d + 1;
    }
    proof {
        assert forall|k: nat| #[trigger] spark(*board, pivot@, k) implies exists|x: int|
            0 <= x < sparks.len() && sparks[x].known@ == k by {
            assert(candidates@.contains(k));
            let a = choose|a: int| 0 <= a < digits.len() && (#[trigger] digits[a])@ == k;
            assert(spark(*board, pivot@, digits[a]@));
        }
    }
    sparks
}

/// The action of the technique that takes from each of `cells` its
/// candidates outside `triple`.
fn keep_only(board: &Board, cells: CellSet, triple: KnownSet) -> (r: Action)
    ensures
        r.strategy_spec() == Strategy::Fireworks,
        r.sets_spec() == Seq::new(81, |i: int| 0nat),
        erases_candidates(*board, r),
        forall|i: int|
            0 <= i < 81 ==> #[trigger] r.erases_spec()[i] == if cells@.contains(i as nat) {
                board.cands_spec()[i].difference(triple@)
            } else {
                Set::<nat>::empty()
            },
{
    let ghost cands = board.cands_spec();
    let mut action = Action::new(Strategy::Fireworks);
    let members = cells.to_vec();
    let ghost mut done: Set<nat> = Set::empty();
    let mut m: usize = 0;
    while m < members.len()
        invariant
            m <= members.len(),
            action.strategy_spec() == Strategy::Fireworks,
            action.sets_spec() == Seq::new(81, |i: int| 0nat),
            erases_candidates(*board, action),
            cands == board.cands_spec(),
            forall|a: int, b: int| 0 <= a < b < members.len() ==> (#[trigger] members[a])@ < (#[trigger] members[b])@,
            forall|a: int| 0 <= a < members.len() ==> cells@.contains(#[trigger] members[a]@),
            forall|x: nat| cells@.contains(x) ==> exists|a: int| 0 <= a < members.len() && (#[trigger] members[a])@ == x,
            forall|x: nat| #[trigger] done.contains(x) <==> exists|a: int| 0 <= a < m && (#[trigger] members[a])@ == x,
            forall|i: int|
                0 <= i < 81 ==> #[trigger] action.erases_spec()[i] == if done.contains(i as nat) {
                    cands[i].difference(triple@)
                } else {
                    Set::<nat>::empty()
                },
        decreases members.len() - m,
    {
        let cell = members[m];
        let knowns = board.candidates(cell);
        let extra = knowns.minus(triple);
        let _index: u8 = cell.index();
        let ghost before = action;
        proof {
            assert(!done.contains(cell@)) by {
                if done.contains(cell@) {
                    let a = choose|a: int| 0 <= a < m && (#[trigger] members[a])@ == cell@;
                    assert(members[a]@ < members[m as int]@);
                }
            }
            assert(cell@ < 81);
            assert(before.erases_spec()[cell@ as int] == Set::<nat>::empty());
        }
        action.erase_knowns(cell, extra);
        proof {
            lemma_erase_knowns_keeps(*board, before, action, cell@, extra@);
        }
        proof {
        }
        let ghost mid = action;
        action.clue_cell_for_knowns(Verdict::Secondary, cell, triple.intersect(knowns));
        proof {
            assert(action.erases_spec() == mid.erases_spec());
            let old_done = done;
            done = done.insert(cell@);
            assert forall|x: nat| #[trigger] done.contains(x) <==> exists|a: int| 0 <= a < m + 1 && (#[trigger] members[a])@ == x by {
                if done.contains(x) && x != cell@ {
                    assert(old_done.contains(x));
                }
                if exists|a: int| 0 <= a < m + 1 && (#[trigger] members[a])@ == x {
                    let a = choose|a: int| 0 <= a < m + 1 && (#[trigger] members[a])@ == x;
                    if a < m {
                        assert(old_done.contains(x));
                    }
                }
            }
            assert forall|i: int| 0 <= i < 81 implies #[trigger] action.erases_spec()[i] == if done.contains(i as nat) {
                cands[i].difference(triple@)
            } else {
                Set::<nat>::empty()
            } by {
                if i == cell@ {
                    assert(action.erases_spec()[i] =~= cands[i].difference(triple@));
                }
            }
        }
        m = m + 1;
    }
    proof {
        assert forall|x: nat| #[trigger] done.contains(x) <==> cells@.contains(x) by {
            if cells@.contains(x) {
                let a = choose|a: int| 0 <= a < members.len() && (#[trigger] members[a])@ == x;
            }
        }
        assert(done =~= cells@);
    }
    action
}

/// The fireworks of the board, only the first when `single`.
#[verifier::rlimit(80)]
pub fn find_fireworks(board: &Board, single: bool) -> (r: Option<Effects>)
    ensures
        found_by(*board, r, single, Strategy::Fireworks),
        r is Some <==> has_firework(*board),
        r matches Some(e) ==> forall|x: int|
            0 <= x < e.actions_spec().len() ==> firework_action(*board, #[trigger] e.actions_spec()[x]),
{
    let ghost cands = board.cands_spec();
    let mut effects = Effects::new();
    let unknowns = board.unknowns();
    let pivots = unknowns.to_vec();
    let mut p: usize = 0;
    while p < pivots.len()
        invariant
            p <= pivots.len(),
            cands == board.cands_spec(),
            unknowns@ == unknown_cells(board.values_spec()),
            forall|q: int| 0 <= q < pivots.len() ==> unknowns@.contains(#[trigger] pivots[q]@),
            forall|x: nat| unknowns@.contains(x) ==> exists|q: int| 0 <= q < pivots.len() && (#[trigger] pivots[q])@ == x,
            valid_effects(*board, effects, Strategy::Fireworks),
            single ==> effects.actions_spec().len() == 0,
            effects.actions_spec().len() > 0 ==> has_firework(*board),
            forall|x: int|
                0 <= x < effects.actions_spec().len() ==> firework_action(*board, #[trigger] effects.actions_spec()[x]),
            effects.actions_spec().len() == 0 ==> forall|q: int, k0: nat, k1: nat, k2: nat|
                0 <= q < p ==> !#[trigger] firework(*board, pivots[q]@, k0, k1, k2),
        decreases pivots.len() - p,
    {
        let pivot = pivots[p];
        proof {
            assert(unknowns@.contains(pivots[p as int]@));
        }
        let sparks = collect_sparks(board, pivot);
        let combos = combinations(sparks.len(), 3);
        let mut j: usize = 0;
        while j < combos.len()
            invariant
                j <= combos.len(),
                p < pivots.len(),
                pivot == pivots[p as int],
                unknowns@.contains(pivot@),
                unknowns@ == unknown_cells(board.values_spec()),
                cands == board.cands_spec(),
                forall|x: int|
                    0 <= x < sparks.len() ==> {
                        &&& spark(*board, pivot@, (#[trigger] sparks[x]).known@)
                        &&& sparks[x].disjoint_set@ == spark_wings(*board, pivot@, sparks[x].known@)
                        &&& sparks[x].full_set@ == spark_full(*board, pivot@, sparks[x].known@)
                    },
                forall|x: int, y: int| 0 <= x < y < sparks.len() ==> (#[trigger] sparks[x]).known@ < (#[trigger] sparks[y]).known@,
                forall|k: nat| #[trigger] spark(*board, pivot@, k) ==> exists|x: int|
                    0 <= x < sparks.len() && sparks[x].known@ == k,
                forall|x: int| 0 <= x < combos.len() ==> (#[trigger] combos[x]).len() == 3,
                forall|x: int, a: int|
                    0 <= x < combos.len() && 0 <= a < 3 ==> #[trigger] combos[x][a] < sparks.len(),
                forall|x: int, a: int, b: int|
                    0 <= x < combos.len() && 0 <= a < b < 3 ==> #[trigger] combos[x][a] < #[trigger] combos[x][b],
                forall|sq: Seq<usize>|
                    #[trigger] is_combination(sq, sparks.len() as nat, 3) ==> exists|i: int| 0 <= i < combos.len() && combos[i]@ == sq,
                valid_effects(*board, effects, Strategy::Fireworks),
                single ==> effects.actions_spec().len() == 0,
                effects.actions_spec().len() > 0 ==> has_firework(*board),
                forall|x: int|
                    0 <= x < effects.actions_spec().len() ==> firework_action(*board, #[trigger] effects.actions_spec()[x]),
                effects.actions_spec().len() == 0 ==> forall|q: int, k0: nat, k1: nat, k2: nat|
                    0 <= q < p ==> !#[trigger] firework(*board, pivots[q]@, k0, k1, k2),
                effects.actions_spec().len() == 0 ==> forall|x: int|
                    0 <= x < j ==> !#[trigger] firework(
                        *board,
                        pivot@,
                        sparks[combos[x][0] as int].known@,
                        sparks[combos[x][1] as int].known@,
                        sparks[combos[x][2] as int].known@,
                    ),
            decreases combos.len() - j,
        {
            let ghost jj = j as int;
            let s0 = &sparks[combos[j][0]];
            let s1 = &sparks[combos[j][1]];
            let s2 = &sparks[combos[j][2]];
            let ghost k0 = s0.known@;
            let ghost k1 = s1.known@;
            let ghost k2 = s2.known@;
            proof {
                assert(combos[jj][0] < combos[jj][1]);
                assert(combos[jj][1] < combos[jj][2]);
                assert(k0 < k1 && k1 < k2);
            }
            let triple = KnownSet::empty().with(s0.known).with(s1.known).with(s2.known);
            proof {
                assert(triple@ =~= set![k0, k1, k2]);
                lemma_triple_len(k0, k1, k2);
            }
            if triple.len() != 3 {
                j = j + 1;
                continue;
            }
            let wings = s0.disjoint_set.union(s1.disjoint_set).union(s2.disjoint_set);
            proof {
                assert(wings@ == fireworks_wings(*board, pivot@, k0, k1, k2));
            }
            if let Some((wing1, wing2)) = wings.as_pair() {
                if wing1.sees(wing2) {
                    proof {
                        assert(peers_of(wing1@).contains(wing2@));
                        assert(wings@.contains(wing1@) && wings@.contains(wing2@));
                    }
                    j = j + 1;
                    continue;
                }
                let cells = wings.with(pivot);
                let all_knowns = board.all_candidates(cells);
                if !all_knowns.has_all(triple) {
                    j = j + 1;
                    continue;
                }
                let mut full_sets: Vec<CellSet> = Vec::new();
                full_sets.push(s0.full_set);
                full_sets.push(s1.full_set);
                full_sets.push(s2.full_set);
                let degenerate = is_degenerate(&full_sets, 3, 2);
                proof {
                    let f = full_sets@;
                    assert(f[0]@ == spark_full(*board, pivot@, k0));
                    assert(f[1]@ == spark_full(*board, pivot@, k1));
                    assert(f[2]@ == spark_full(*board, pivot@, k2));
                    lemma_pairs_of_three(f);
                }
                if degenerate {
                    j = j + 1;
                    continue;
                }
                let action = keep_only(board, cells, triple);
                proof {
                    assert(sets_candidates(*board, action));
                }
                let ghost act = action;
                let ghost before_actions = effects.actions_spec();
                let added = effects.add_action(action);
                proof {
                    assert forall|x: int| 0 <= x < effects.actions_spec().len() implies valid_action(
                        *board,
                        #[trigger] effects.actions_spec()[x],
                        Strategy::Fireworks,
                    ) by {
                        if added && x == effects.actions_spec().len() - 1 {
                            assert(effects.actions_spec()[x] == act);
                        }
                    }
                    let w = fireworks_wings(*board, pivot@, k0, k1, k2);
                    assert(cells@ == w.insert(pivot@));
                    assert forall|a: nat, c: nat| w.contains(a) && w.contains(c) implies !#[trigger] peers_of(a).contains(c) by {
                        if a == c {
                        } else if a == wing1@ {
                            assert(c == wing2@);
                        } else {
                            assert(a == wing2@ && c == wing1@);
                            if peers_of(wing2@).contains(wing1@) {
                                lemma_peers_symmetric(wing2@, wing1@);
                            }
                        }
                    }
                    if added {
                        let i = choose|i: int| 0 <= i < 81 && #[trigger] act.erases_spec()[i] != Set::<nat>::empty();
                        assert(cells@.contains(i as nat));
                        assert(!cands[i].subset_of(set![k0, k1, k2])) by {
                            lemma_nonempty_choose(act.erases_spec()[i]);
                            let x = act.erases_spec()[i].choose();
                            assert(act.erases_spec()[i].contains(x));
                        }
                        assert(firework(*board, pivot@, k0, k1, k2));
                        assert(triple@ == set![k0, k1, k2]);
                        assert(fireworks_erasure(*board, pivot@, k0, k1, k2, act));
                        assert(firework_action(*board, act));
                    } else {
                        assert forall|c: nat| w.insert(pivot@).contains(c) implies #[trigger] cands[c as int].subset_of(set![k0, k1, k2]) by {
                            assert(c < 81);
                            assert(act.erases_spec()[c as int] == Set::<nat>::empty());
                            assert forall|x: nat| cands[c as int].contains(x) implies set![k0, k1, k2].contains(x) by {
                                if !set![k0, k1, k2].contains(x) {
                                    assert(cands[c as int].difference(triple@).contains(x));
                                }
                            }
                        }
                        assert(!firework(*board, pivot@, k0, k1, k2));
                    }
                }
                proof {
                    assert forall|x: int| 0 <= x < effects.actions_spec().len() implies firework_action(
                        *board,
                        #[trigger] effects.actions_spec()[x],
                    ) by {
                        if x < before_actions.len() {
                            assert(effects.actions_spec()[x] == before_actions[x]);
                        } else {
                            assert(effects.actions_spec()[x] == act);
                        }
                    }
                }
                if added && single {
                    return Some(effects);
                }
            } else {
                proof {
                    assert(wings@.len() != 2);
                }
            }
            j = j + 1;
        }
        proof {
            if effects.actions_spec().len() == 0 {
                assert forall|k0: nat, k1: nat, k2: nat| !#[trigger] firework(*board, pivot@, k0, k1, k2) by {
                    if firework(*board, pivot@, k0, k1, k2) {
                        let a = choose|x: int| 0 <= x < sparks.len() && sparks[x].known@ == k0;
                        let b = choose|x: int| 0 <= x < sparks.len() && sparks[x].known@ == k1;
                        let c = choose|x: int| 0 <= x < sparks.len() && sparks[x].known@ == k2;
                        if !(a < b) {
                            if a == b {
                            } else {
                                assert(sparks[b].known@ < sparks[a].known@);
                            }
                        }
                        if !(b < c) {
                            if b == c {
                            } else {
                                assert(sparks[c].known@ < sparks[b].known@);
                            }
                        }
                        let sq = seq![a as usize, b as usize, c as usize];
                        assert(is_combination(sq, sparks.len() as nat, 3));
                        let i = choose|i: int| 0 <= i < combos.len() && combos[i]@ == sq;
                        assert(combos[i][0] == a as usize && combos[i][1] == b as usize && combos[i][2] == c as usize);
                        assert(!firework(
                            *board,
                            pivot@,
                            sparks[combos[i][0] as int].known@,
                            sparks[combos[i][1] as int].known@,
                            sparks[combos[i][2] as int].known@,
                        ));
                    }
                }
            }
        }
        p = p + 1;
    }
    proof {
        if effects.actions_spec().len() == 0 {
            assert forall|pv: nat, k0: nat, k1: nat, k2: nat| !#[trigger] firework(*board, pv, k0, k1, k2) by {
                if firework(*board, pv, k0, k1, k2) {
                    assert(unknowns@.contains(pv));
                    let q = choose|q: int| 0 <= q < pivots.len() && (#[trigger] pivots[q])@ == pv;
                    assert(!firework(*board, pivots[q]@, k0, k1, k2));
                }
            }
        }
    }
    if effects.has_actions() {
        Some(effects)
    } else {
        None
    }
}

} // verus!
