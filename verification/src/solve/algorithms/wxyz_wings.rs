use vstd::prelude::*;

use crate::layout::cell::{lemma_cell_at, peers_of, share_a_house, Cell};
use crate::layout::cell_set::{in_one_house, lemma_cell_set_bounded, CellSet};
use crate::layout::shape::Shape;
use crate::layout::known::Known;
use crate::layout::known_set::{lemma_known_set_bounded, KnownSet};
use crate::solve::action::Action;
use crate::solve::algorithms::combinations::combinations;
use crate::solve::algorithms::{
    group_by_candidates, groups_match,
    erases_candidates, found_by, lemma_erase_cells_keeps, sets_candidates, valid_action,
    valid_effects, Solver,
};
use crate::solve::board::{
    candidate_cells_of, cells_with_n, lemma_board_cands_shape, lemma_board_values_shape, Board,
};
use crate::solve::effects::Effects;
use crate::solve::strategy::{Strategy, Verdict};

verus! {

broadcast use {
    lemma_cell_at,
    lemma_cell_set_bounded,
    lemma_known_set_bounded,
    lemma_board_values_shape,
    lemma_board_cands_shape,
};

/// The technique of four cells, outside any one house, holding four digits
/// of which all but one are restricted to cells that see each other: the
/// unrestricted digit leaves every cell that sees all its wing cells.
pub struct WXYZWingSolver;

impl Solver for WXYZWingSolver {
    fn strategy(&self) -> (r: Strategy)
        ensures
            r == Strategy::WXYZWing,
    {
        Strategy::WXYZWing
    }

    fn apply(&self, board: &Board, single: bool) -> (r: Option<Effects>)
        ensures
            found_by(*board, r, single, Strategy::WXYZWing),
            (exists|q: nat, t1: nat, t2: nat, t3: nat| #[trigger] quad_with_three(*board, q, t1, t2, t3)) ==> r is Some,
            (exists|p1: nat, p2: nat, v1: nat, v2: nat| #[trigger] two_quads_with_two(*board, p1, p2, v1, v2))
                ==> r is Some,
            r matches Some(e) ==> wxyz_actions(*board, e),
    {
        find_wxyz_wings(board, single)
    }
}

/// The cells of the first `n` groups whose digits lie within `within`.
pub open spec fn subset_cells(groups: Seq<(KnownSet, CellSet)>, within: Set<nat>, n: nat) -> Set<nat>
    decreases n,
{
    if n == 0 {
        Set::empty()
    } else if groups[n - 1].0@.subset_of(within) {
        subset_cells(groups, within, (n - 1) as nat).union(groups[n - 1].1@)
    } else {
        subset_cells(groups, within, (n - 1) as nat)
    }
}

/// The digits and cells of a list of pairs, as plain values.
pub open spec fn disjoints_view(ds: Seq<(Known, CellSet)>) -> Seq<(nat, Set<nat>)> {
    ds.map_values(|e: (Known, CellSet)| (e.0@, e.1@))
}

/// The cells `cells` joined to the entry of digit `k`, or a new entry for
/// `k` when there is none.
pub open spec fn add_disjoint(v: Seq<(nat, Set<nat>)>, k: nat, cells: Set<nat>) -> Seq<(nat, Set<nat>)> {
    if exists|i: int| 0 <= i < v.len() && (#[trigger] v[i]).0 == k {
        v.map_values(|e: (nat, Set<nat>)| if e.0 == k { (k, e.1.union(cells)) } else { e })
    } else {
        v.push((k, cells))
    }
}

/// The entries after the first `n` groups: each group whose digits are
/// those of `candidates` and one more joins its cells to that digit.
pub open spec fn add_disjoints_upto(
    v: Seq<(nat, Set<nat>)>,
    groups: Seq<(KnownSet, CellSet)>,
    candidates: Set<nat>,
    n: nat,
) -> Seq<(nat, Set<nat>)>
    decreases n,
{
    if n == 0 {
        v
    } else {
        let prev = add_disjoints_upto(v, groups, candidates, (n - 1) as nat);
        let extra = groups[n - 1].0@.difference(candidates);
        if extra.len() == 1 {
            add_disjoint(prev, extra.choose(), groups[n - 1].1@)
        } else {
            prev
        }
    }
}

/// The cells of every group whose digits lie within `within`.
fn cells_of_subsets(groups: &Vec<(KnownSet, CellSet)>, within: KnownSet) -> (r: CellSet)
    ensures
        r@ == subset_cells(groups@, within@, groups.len() as nat),
{
    let mut acc = CellSet::empty();
    let mut g: usize = 0;
    while g < groups.len()
        invariant
            g <= groups.len(),
            acc@ == subset_cells(groups@, within@, g as nat),
        decreases groups.len() - g,
    {
        let (key, cells) = groups[g];
        if key.is_subset_of(within) {
            acc = acc.union(cells);
        }
        g = g + 1;
    }
    acc
}

/// For each digit `k`, the cells of the groups whose digits are those of
/// `candidates` with `k` for one of them.
fn add_disjoints(disjoints: &mut Vec<(Known, CellSet)>, groups: &Vec<(KnownSet, CellSet)>, candidates: KnownSet)
    ensures
        disjoints_view(final(disjoints)@) == add_disjoints_upto(
            disjoints_view(old(disjoints)@),
            groups@,
            candidates@,
            groups.len() as nat,
        ),
{
    let ghost start = disjoints_view(disjoints@);
    let mut g: usize = 0;
    while g < groups.len()
        invariant
            g <= groups.len(),
            start == disjoints_view(old(disjoints)@),
            disjoints_view(disjoints@) == add_disjoints_upto(start, groups@, candidates@, g as nat),
        decreases groups.len() - g,
    {
        let (key, cells) = groups[g];
        let ghost prev = disjoints_view(disjoints@);
        if let Some(single) = key.minus(candidates).as_single() {
            proof {
                let extra = groups@[g as int].0@.difference(candidates@);
                assert(extra == set![single@]);
                assert(extra.contains(extra.choose()));
            }
            let mut found = false;
            let mut next: Vec<(Known, CellSet)> = Vec::new();
            let mut d: usize = 0;
            while d < disjoints.len()
                invariant
                    d <= disjoints.len(),
                    next.len() == d,
                    prev.len() == disjoints.len(),
                    prev == disjoints_view(disjoints@),
                    disjoints_view(next@) == prev.take(d as int).map_values(
                        |e: (nat, Set<nat>)| if e.0 == single@ { (single@, e.1.union(cells@)) } else { e },
                    ),
                    found <==> exists|i: int| 0 <= i < d && (#[trigger] prev[i]).0 == single@,
                decreases disjoints.len() - d,
            {
                let (k, cs) = disjoints[d];
                if k.get_index() == single.get_index() {
                    next.push((k, cs.union(cells)));
                    found = true;
                } else {
                    next.push((k, cs));
                }
                proof {
                    assert(prev[d as int] == (k@, cs@));
                    let f = |e: (nat, Set<nat>)| if e.0 == single@ { (single@, e.1.union(cells@)) } else { e };
                    let want = prev.take(d + 1).map_values(f);
                    let have = disjoints_view(next@);
                    assert(prev.len() == disjoints.len());
                    assert(prev.take(d + 1).len() == d + 1);
                    assert(want.len() == d + 1);
                    assert(next@.len() == d + 1);
                    assert(have.len() == want.len());
                    assert forall|i: int| 0 <= i < have.len() implies have[i] == want[i] by {
                        assert(want[i] == f(prev[i]));
                        if i < d {
                            assert(have[i] == prev.take(d as int).map_values(f)[i]);
                        }
                    }
                    assert(have =~= want);
                }
                d = d + 1;
            }
            if !found {
                next.push((single, cells));
            }
            proof {
                assert(prev.take(prev.len() as int) =~= prev);
                let have = disjoints_view(next@);
                let want = add_disjoint(prev, single@, cells@);
                assert(have.len() == want.len());
                assert forall|i: int| 0 <= i < have.len() implies have[i] == want[i] by {
                    if i < prev.len() {
                        assert(have[i] == prev.take(prev.len() as int).map_values(
                            |e: (nat, Set<nat>)| if e.0 == single@ { (single@, e.1.union(cells@)) } else { e },
                        )[i]);
                        if !found {
                            assert(prev[i].0 != single@);
                        }
                    }
                }
                assert(have =~= want);
            }
            *disjoints = next;
        }
        g = g + 1;
    }
}

/// The cells a bivalue cell sees among the later cells with the same two
/// candidates: those of the first entry for the cell, or none.
fn seen_by(seen: &Vec<(Cell, CellSet)>, cell: Cell) -> (r: CellSet)
    ensures
        (exists|i: int| 0 <= i < seen.len() && (#[trigger] seen[i]).0@ == cell@) ==> exists|i: int|
            0 <= i < seen.len() && (#[trigger] seen[i]).0@ == cell@ && r == seen[i].1 && forall|j: int|
                0 <= j < i ==> (#[trigger] seen[j]).0@ != cell@,
        !(exists|i: int| 0 <= i < seen.len() && (#[trigger] seen[i]).0@ == cell@) ==> r@ == Set::<nat>::empty(),
{
    let mut i: usize = 0;
    while i < seen.len()
        invariant
            i <= seen.len(),
            forall|j: int| 0 <= j < i ==> (#[trigger] seen[j]).0@ != cell@,
        decreases seen.len() - i,
    {
        let (c, cs) = seen[i];
        if c.index() == cell.index() {
            return cs;
        }
        i = i + 1;
    }
    CellSet::empty()
}

/// Whether every two of the cells see each other.
fn all_see_each_other(cells: CellSet) -> (r: bool)
    ensures
        r == forall|a: nat, b: nat|
            cells@.contains(a) && cells@.contains(b) && a != b ==> #[trigger] peers_of(a).contains(b),
{
    let list = cells.to_vec();
    let mut a: usize = 0;
    while a < list.len()
        invariant
            a <= list.len(),
            forall|i: int, j: int| 0 <= i < j < list.len() ==> list[i]@ < list[j]@,
            forall|i: int| 0 <= i < list.len() ==> cells@.contains(#[trigger] list[i]@),
            forall|x: nat| cells@.contains(x) ==> exists|i: int| 0 <= i < list.len() && (#[trigger] list[i])@ == x,
            forall|i: int, j: int| 0 <= i < a && i < j < list.len() ==> #[trigger] peers_of(list[i]@).contains(list[j]@),
        decreases list.len() - a,
    {
        let mut b: usize = a + 1;
        while b < list.len()
            invariant
                a < list.len(),
                forall|i: int, j: int| 0 <= i < j < list.len() ==> list[i]@ < list[j]@,
                forall|i: int| 0 <= i < list.len() ==> cells@.contains(#[trigger] list[i]@),
                a + 1 <= b <= list.len(),
                forall|j: int| a < j < b ==> #[trigger] peers_of(list[a as int]@).contains(list[j]@),
            decreases list.len() - b,
        {
            if !list[a].sees(list[b]) {
                proof {
                    assert(cells@.contains(list[a as int]@) && cells@.contains(list[b as int]@));
                    assert(list[a as int]@ != list[b as int]@);
                }
                return false;
            }
            b = b + 1;
        }
        a = a + 1;
    }
    proof {
        assert forall|x: nat, y: nat| cells@.contains(x) && cells@.contains(y) && x != y implies #[trigger] peers_of(
            x,
        ).contains(y) by {
            let i = choose|i: int| 0 <= i < list.len() && (#[trigger] list[i])@ == x;
            let j = choose|j: int| 0 <= j < list.len() && (#[trigger] list[j])@ == y;
            if i < j {
                assert(peers_of(list[i]@).contains(list[j]@));
            } else {
                assert(peers_of(list[j]@).contains(list[i]@));
                assert(share_a_house(y, x));
            }
        }
    }
    true
}

/// Whether the entries of `seen` for the bivalue cells of `wing` list no
/// cell of `wing`.
pub open spec fn unseen_in(seen: Seq<(Cell, CellSet)>, bi_values: Set<nat>, wing: Set<nat>) -> bool {
    forall|i: int|
        0 <= i < seen.len() && wing.contains((#[trigger] seen[i]).0@) && bi_values.contains(seen[i].0@)
            ==> seen[i].1@.disjoint(wing)
}

/// The digits held by some cell of `wing`.
pub open spec fn wing_digits(board: Board, wing: Set<nat>) -> Set<nat> {
    Set::new(|k: nat| exists|c: nat| wing.contains(c) && #[trigger] board.cands_spec()[c as int].contains(k))
}

/// Whether every two of the cells see each other.
pub open spec fn all_peers(cells: Set<nat>) -> bool {
    forall|a: nat, b: nat| cells.contains(a) && cells.contains(b) && a != b ==> #[trigger] peers_of(a).contains(b)
}

/// The cells of `wing` that hold `k`.
pub open spec fn wing_cells_of(board: Board, wing: Set<nat>, k: nat) -> Set<nat> {
    wing.intersect(candidate_cells_of(board.cands_spec(), k))
}

/// A WXYZ-wing on the cells `wing` that erases `z`: the cells are not all in
/// one house and hold four digits together, each digit in two of them or
/// more; the cells of each digit but `z` see each other, those of `z` do
/// not, and some cell that holds `z` sees every cell of the wing that
/// holds it.
pub open spec fn wxyz_wing(board: Board, wing: Set<nat>, z: nat) -> bool {
    let digits = wing_digits(board, wing);
    &&& !(exists|s: Shape| #[trigger] in_one_house(wing, s))
    &&& digits.len() == 4
    &&& forall|k: nat| #[trigger] digits.contains(k) ==> wing_cells_of(board, wing, k).len() >= 2
    &&& digits.contains(z)
    &&& !all_peers(wing_cells_of(board, wing, z))
    &&& forall|k: nat| #[trigger] digits.contains(k) && k != z ==> all_peers(wing_cells_of(board, wing, k))
    &&& exists|t: nat|
        #[trigger] candidate_cells_of(board.cands_spec(), z).contains(t) && forall|c: nat|
            wing_cells_of(board, wing, z).contains(c) ==> #[trigger] peers_of(c).contains(t)
}

/// The cells that hold `z` and see every cell of the wing that holds it.
pub open spec fn wxyz_targets(board: Board, wing: Set<nat>, z: nat) -> Set<nat> {
    Set::new(
        |t: nat|
            candidate_cells_of(board.cands_spec(), z).contains(t) && forall|c: nat|
                wing_cells_of(board, wing, z).contains(c) ==> #[trigger] peers_of(c).contains(t),
    )
}

/// An action of a WXYZ-wing of the board: it erases `z` from the cells
/// that hold it and see every cell of the wing that holds it, and nothing
/// else, and sets nothing.
pub open spec fn wxyz_action(board: Board, a: Action) -> bool {
    exists|wing: Set<nat>, z: nat|
        #[trigger] wxyz_wing(board, wing, z) && a.sets_spec() == Seq::new(81, |i: int| 0nat) && a.erases_spec()
            == Seq::new(
            81,
            |i: int|
                if wxyz_targets(board, wing, z).contains(i as nat) {
                    set![z]
                } else {
                    Set::<nat>::empty()
                },
        )
}

/// Every action of the effects is one of a WXYZ-wing of the board.
pub open spec fn wxyz_actions(board: Board, e: Effects) -> bool {
    forall|x: int| 0 <= x < e.actions_spec().len() ==> wxyz_action(board, #[trigger] e.actions_spec()[x])
}

/// Checks the cells of `wing` as a WXYZ-wing and adds its action when it
/// is one; tells whether an action was added.
fn check_wing(
    board: &Board,
    bi_values: CellSet,
    seen_bi_values: &Vec<(Cell, CellSet)>,
    wing: CellSet,
    effects: &mut Effects,
) -> (added: bool)
    requires
        valid_effects(*board, *old(effects), Strategy::WXYZWing),
        wxyz_actions(*board, *old(effects)),
    ensures
        valid_effects(*board, *final(effects), Strategy::WXYZWing),
        wxyz_actions(*board, *final(effects)),
        final(effects).actions_spec().len() == old(effects).actions_spec().len() + if added {
            1int
        } else {
            0int
        },
        !wing@.subset_of(bi_values@) && unseen_in(seen_bi_values@, bi_values@, wing@) && (exists|z: nat|
            #[trigger] wxyz_wing(*board, wing@, z)) ==> added,
{
    let ghost cond = !wing@.subset_of(bi_values@) && unseen_in(seen_bi_values@, bi_values@, wing@) && (exists|
        z: nat,
    | #[trigger] wxyz_wing(*board, wing@, z));
    let ghost z = choose|z: nat| #[trigger] wxyz_wing(*board, wing@, z);
    proof {
        if cond {
            let x = choose|x: nat| wing@.contains(x) && !bi_values@.contains(x);
            assert(!wing@.intersect(bi_values@).contains(x));
        }
    }
    if wing.intersect(bi_values).equals(&wing) {
        return false;
    }
    if wing.share_any_house() {
        return false;
    }
    let bi_cells = wing.intersect(bi_values).to_vec();
    let mut i: usize = 0;
    while i < bi_cells.len()
        invariant
            *effects == *old(effects),
            valid_effects(*board, *old(effects), Strategy::WXYZWing),
            wxyz_actions(*board, *old(effects)),
            i <= bi_cells.len(),
            forall|x: int|
                0 <= x < bi_cells.len() ==> wing@.contains(#[trigger] bi_cells[x]@) && bi_values@.contains(
                    bi_cells[x]@,
                ),
            cond == (!wing@.subset_of(bi_values@) && unseen_in(seen_bi_values@, bi_values@, wing@) && (exists|
                z: nat,
            | #[trigger] wxyz_wing(*board, wing@, z))),
        decreases bi_cells.len() - i,
    {
        let seen_cells = seen_by(seen_bi_values, bi_cells[i]);
        proof {
            if cond {
                let b = bi_cells[i as int]@;
                assert(wing@.contains(b) && bi_values@.contains(b));
                if exists|k: int| 0 <= k < seen_bi_values.len() && (#[trigger] seen_bi_values[k]).0@ == b {
                    let k = choose|k: int|
                        0 <= k < seen_bi_values.len() && (#[trigger] seen_bi_values[k]).0@ == b && seen_cells
                            == seen_bi_values[k].1 && forall|j: int|
                            0 <= j < k ==> (#[trigger] seen_bi_values[j]).0@ != b;
                    assert(seen_bi_values[k].1@.disjoint(wing@));
                }
                assert(seen_cells@.intersect(wing@) =~= Set::<nat>::empty());
            }
        }
        if !seen_cells.intersect(wing).is_empty() {
            return false;
        }
        i = i + 1;
    }
    let members = wing.to_vec();
    let mut wing_knowns = KnownSet::empty();
    let mut m: usize = 0;
    while m < members.len()
        invariant
            *effects == *old(effects),
            valid_effects(*board, *old(effects), Strategy::WXYZWing),
            wxyz_actions(*board, *old(effects)),
            m <= members.len(),
            forall|k: nat|
                wing_knowns@.contains(k) <==> exists|x: int|
                    0 <= x < m && #[trigger] board.cands_spec()[members[x]@ as int].contains(k),
        decreases members.len() - m,
    {
        let ghost before = wing_knowns@;
        wing_knowns = wing_knowns.union(board.candidates(members[m]));
        proof {
            assert forall|k: nat|
                wing_knowns@.contains(k) implies exists|x: int|
                    0 <= x < m + 1 && #[trigger] board.cands_spec()[members[x]@ as int].contains(k) by {
                if !before.contains(k) {
                    assert(board.cands_spec()[members[m as int]@ as int].contains(k));
                }
            }
        }
        m = m + 1;
    }
    proof {
        assert forall|k: nat| wing_knowns@.contains(k) <==> wing_digits(*board, wing@).contains(k) by {
            if wing_knowns@.contains(k) {
                let x = choose|x: int| 0 <= x < members.len() && #[trigger] board.cands_spec()[members[x]@ as int].contains(k);
                assert(wing@.contains(members[x]@));
            }
            if wing_digits(*board, wing@).contains(k) {
                let c = choose|c: nat| wing@.contains(c) && #[trigger] board.cands_spec()[c as int].contains(k);
                let x = choose|x: int| 0 <= x < members.len() && (#[trigger] members[x])@ == c;
                assert(board.cands_spec()[members[x]@ as int].contains(k));
            }
        }
        assert(wing_knowns@ =~= wing_digits(*board, wing@));
    }
    if wing_knowns.len() != 4 {
        return false;
    }
    let digits = wing_knowns.to_vec();
    let mut d: usize = 0;
    while d < digits.len()
        invariant
            *effects == *old(effects),
            valid_effects(*board, *old(effects), Strategy::WXYZWing),
            wxyz_actions(*board, *old(effects)),
            d <= digits.len(),
            cond ==> wxyz_wing(*board, wing@, z),
            cond == (!wing@.subset_of(bi_values@) && unseen_in(seen_bi_values@, bi_values@, wing@) && (exists|
                z: nat,
            | #[trigger] wxyz_wing(*board, wing@, z))),
            wing_knowns@ == wing_digits(*board, wing@),
            forall|x: int| 0 <= x < digits.len() ==> wing_knowns@.contains(#[trigger] digits[x]@),
            forall|x: int| 0 <= x < d ==> wing_cells_of(*board, wing@, (#[trigger] digits[x])@).len() >= 2,
        decreases digits.len() - d,
    {
        if wing.intersect(board.candidate_cells(digits[d])).len() < 2 {
            return false;
        }
        d = d + 1;
    }
    let mut restricted: Vec<(Known, CellSet)> = Vec::new();
    let mut non_restricted: Option<(Known, CellSet)> = None;
    let mut e: usize = 0;
    while e < digits.len()
        invariant
            *effects == *old(effects),
            valid_effects(*board, *old(effects), Strategy::WXYZWing),
            wxyz_actions(*board, *old(effects)),
            e <= digits.len(),
            cond ==> wxyz_wing(*board, wing@, z),
            cond == (!wing@.subset_of(bi_values@) && unseen_in(seen_bi_values@, bi_values@, wing@) && (exists|
                z: nat,
            | #[trigger] wxyz_wing(*board, wing@, z))),
            wing_knowns@ == wing_digits(*board, wing@),
            forall|x: int| 0 <= x < digits.len() ==> wing_knowns@.contains(#[trigger] digits[x]@),
            forall|x: int, y: int| 0 <= x < y < digits.len() ==> digits[x]@ < digits[y]@,
            forall|k: nat| wing_knowns@.contains(k) ==> exists|x: int| 0 <= x < digits.len() && (#[trigger] digits[x])@ == k,
            cond ==> (non_restricted is None <==> !exists|x: int| 0 <= x < e && (#[trigger] digits[x])@ == z),
            cond ==> (non_restricted matches Some(p) ==> p.0@ == z && p.1@ == wing_cells_of(*board, wing@, z)),
            forall|x: int| 0 <= x < digits.len() ==> wing_cells_of(*board, wing@, (#[trigger] digits[x])@).len() >= 2,
            forall|x: int|
                0 <= x < e ==> all_peers(wing_cells_of(*board, wing@, (#[trigger] digits[x])@)) || (non_restricted matches Some(
                    p,
                ) && p.0@ == digits[x]@),
            non_restricted matches Some(p) ==> p.1@ == wing_cells_of(*board, wing@, p.0@) && !all_peers(p.1@)
                && wing_knowns@.contains(p.0@),
            wing_knowns@.len() == 4,
            !(wing@ != Set::<nat>::empty() && exists|s: Shape| #[trigger] in_one_house(wing@, s)),
        decreases digits.len() - e,
    {
        let known = digits[e];
        let candidates = wing.intersect(board.candidate_cells(known));
        if all_see_each_other(candidates) {
            proof {
                if cond {
                    assert(known@ != z);
                }
            }
            restricted.push((known, candidates));
        } else {
            proof {
                if cond {
                    assert(wing_digits(*board, wing@).contains(known@));
                    assert(known@ == z);
                    if exists|x: int| 0 <= x < e && (#[trigger] digits[x])@ == z {
                        let x = choose|x: int| 0 <= x < e && (#[trigger] digits[x])@ == z;
                        assert(digits[x]@ < digits[e as int]@);
                    }
                }
            }
            if non_restricted.is_some() {
                return false;
            }
            non_restricted = Some((known, candidates));
        }
        e = e + 1;
    }
    proof {
        if cond {
            let x = choose|x: int| 0 <= x < digits.len() && (#[trigger] digits[x])@ == z;
        }
    }
    let (candidate, cells) = match non_restricted {
        Some(pair) => pair,
        None => {
            return false;
        },
    };
    let mut erase = board.candidate_cells(candidate);
    let cell_list = cells.to_vec();
    let mut c: usize = 0;
    while c < cell_list.len()
        invariant
            *effects == *old(effects),
            valid_effects(*board, *old(effects), Strategy::WXYZWing),
            wxyz_actions(*board, *old(effects)),
            c <= cell_list.len(),
            erase@.subset_of(candidate_cells_of(board.cands_spec(), candidate@)),
            forall|x: int| 0 <= x < cell_list.len() ==> cells@.contains(#[trigger] cell_list[x]@),
            cond ==> candidate@ == z && cells@ == wing_cells_of(*board, wing@, z),
            cond ==> forall|t: nat|
                #[trigger] candidate_cells_of(board.cands_spec(), z).contains(t) && (forall|c2: nat|
                    wing_cells_of(*board, wing@, z).contains(c2) ==> #[trigger] peers_of(c2).contains(t))
                    ==> erase@.contains(t),
            forall|t: nat|
                erase@.contains(t) <==> candidate_cells_of(board.cands_spec(), candidate@).contains(t) && forall|x: int|
                    0 <= x < c ==> #[trigger] peers_of(cell_list[x]@).contains(t),
        decreases cell_list.len() - c,
    {
        let ghost erase_before = erase@;
        erase = erase.intersect(cell_list[c].peers());
        proof {
            assert forall|t: nat|
                erase@.contains(t) <==> candidate_cells_of(board.cands_spec(), candidate@).contains(t) && forall|x: int|
                    0 <= x < c + 1 ==> #[trigger] peers_of(cell_list[x]@).contains(t) by {
                if candidate_cells_of(board.cands_spec(), candidate@).contains(t) && forall|x: int|
                    0 <= x < c + 1 ==> #[trigger] peers_of(cell_list[x]@).contains(t) {
                    assert(peers_of(cell_list[c as int]@).contains(t));
                }
            }
            if cond {
                assert forall|t: nat|
                    #[trigger] candidate_cells_of(board.cands_spec(), z).contains(t) && (forall|c2: nat|
                        wing_cells_of(*board, wing@, z).contains(c2) ==> #[trigger] peers_of(c2).contains(t))
                        implies erase@.contains(t) by {
                    assert(wing_cells_of(*board, wing@, z).contains(cell_list[c as int]@));
                }
            }
        }
        c = c + 1;
    }
    proof {
        if cond {
            let t = choose|t: nat|
                #[trigger] candidate_cells_of(board.cands_spec(), z).contains(t) && forall|c2: nat|
                    wing_cells_of(*board, wing@, z).contains(c2) ==> #[trigger] peers_of(c2).contains(t);
            assert(erase@.contains(t));
        }
    }
    if erase.is_empty() {
        return false;
    }
    proof {
        assert(erase@ =~= wxyz_targets(*board, wing@, candidate@)) by {
            assert forall|t: nat| erase@.contains(t) implies wxyz_targets(*board, wing@, candidate@).contains(t) by {
                assert forall|c2: nat| wing_cells_of(*board, wing@, candidate@).contains(c2) implies #[trigger] peers_of(c2).contains(t) by {
                    let x = choose|x: int| 0 <= x < cell_list.len() && (#[trigger] cell_list[x])@ == c2;
                    assert(peers_of(cell_list[x]@).contains(t));
                }
            }
            assert forall|t: nat| wxyz_targets(*board, wing@, candidate@).contains(t) implies erase@.contains(t) by {
                assert forall|x: int| 0 <= x < cell_list.len() implies #[trigger] peers_of(cell_list[x]@).contains(t) by {
                    assert(cells@.contains(cell_list[x]@));
                }
            }
        }
        crate::layout::set_lemmas::lemma_nonempty_choose(erase@);
        let t0 = erase@.choose();
        assert(wing_digits(*board, wing@).contains(candidate@));
        assert forall|k: nat| #[trigger] wing_digits(*board, wing@).contains(k) implies wing_cells_of(*board, wing@, k).len() >= 2 by {
            let x = choose|x: int| 0 <= x < digits.len() && (#[trigger] digits[x])@ == k;
        }
        assert forall|k: nat| #[trigger] wing_digits(*board, wing@).contains(k) && k != candidate@ implies all_peers(wing_cells_of(*board, wing@, k)) by {
            let x = choose|x: int| 0 <= x < digits.len() && (#[trigger] digits[x])@ == k;
        }
        assert(wing@ != Set::<nat>::empty()) by {
            let c0 = choose|c0: nat| wing@.contains(c0) && #[trigger] board.cands_spec()[c0 as int].contains(candidate@);
        }
        assert(candidate_cells_of(board.cands_spec(), candidate@).contains(t0) && forall|c2: nat|
            wing_cells_of(*board, wing@, candidate@).contains(c2) ==> #[trigger] peers_of(c2).contains(t0));
        assert(wxyz_wing(*board, wing@, candidate@));
    }
    let mut action = Action::new_erase_cells(Strategy::WXYZWing, erase, candidate);
    proof {
        assert forall|x: int, j: nat|
            0 <= x < 81 && #[trigger] action.erases_spec()[x].contains(j) implies board.cands_spec()[x].contains(j) by {
            assert(erase@.contains(x as nat) && j == candidate@);
            assert(candidate_cells_of(board.cands_spec(), candidate@).contains(x as nat));
        }
    }
    action.clue_cells_for_known(Verdict::Secondary, cells, candidate);
    let mut r: usize = 0;
    while r < restricted.len()
        invariant
            *effects == *old(effects),
            valid_effects(*board, *old(effects), Strategy::WXYZWing),
            wxyz_actions(*board, *old(effects)),
            r <= restricted.len(),
            action.strategy_spec() == Strategy::WXYZWing,
            action.sets_spec() == Seq::new(81, |i: int| 0nat),
            erases_candidates(*board, action),
            erase@.subset_of(candidate_cells_of(board.cands_spec(), candidate@)),
            erase@ != Set::<nat>::empty(),
            action.erases_spec() == Seq::new(
                81,
                |i: int|
                    if erase@.contains(i as nat) {
                        set![candidate@]
                    } else {
                        Set::<nat>::empty()
                    },
            ),
        decreases restricted.len() - r,
    {
        let (known, cs) = restricted[r];
        action.clue_cells_for_known(Verdict::Primary, cs, known);
        r = r + 1;
    }
    proof {
        assert(sets_candidates(*board, action));
        crate::layout::set_lemmas::lemma_nonempty_choose(erase@);
        let x = erase@.choose();
        assert(action.erases_spec()[x as int].contains(candidate@));
    }
    let ghost act = action;
    let added = effects.add_action(action);
    proof {
        assert forall|x: int| 0 <= x < effects.actions_spec().len() implies valid_action(
            *board,
            #[trigger] effects.actions_spec()[x],
            Strategy::WXYZWing,
        ) by {
            if added && x == effects.actions_spec().len() - 1 {
                assert(effects.actions_spec()[x] == act);
            }
        }
        assert(wxyz_action(*board, act)) by {
            assert(act.erases_spec() =~= Seq::new(
                81,
                |i: int|
                    if wxyz_targets(*board, wing@, candidate@).contains(i as nat) {
                        set![candidate@]
                    } else {
                        Set::<nat>::empty()
                    },
            ));
        }
        assert forall|x: int| 0 <= x < effects.actions_spec().len() implies wxyz_action(*board, #[trigger] effects.actions_spec()[x]) by {
            if added && x == effects.actions_spec().len() - 1 {
                assert(effects.actions_spec()[x] == act);
            }
        }
    }
    added
}

/// The union of the cells at the given positions of a list.
fn union_at_positions(cells: &Vec<Cell>, idx: &Vec<usize>) -> (r: CellSet)
    requires
        forall|a: int| 0 <= a < idx.len() ==> #[trigger] idx[a] < cells.len(),
    ensures
        forall|x: nat| r@.contains(x) <==> exists|a: int| 0 <= a < idx.len() && #[trigger] cells[idx[a] as int]@ == x,
{
    let mut acc = CellSet::empty();
    let mut a: usize = 0;
    while a < idx.len()
        invariant
            a <= idx.len(),
            forall|b: int| 0 <= b < idx.len() ==> #[trigger] idx[b] < cells.len(),
            forall|x: nat| acc@.contains(x) <==> exists|b: int| 0 <= b < a && #[trigger] cells[idx[b] as int]@ == x,
        decreases idx.len() - a,
    {
        let c = cells[idx[a]];
        acc = acc.with(c);
        proof {
            assert forall|x: nat| acc@.contains(x) implies exists|b: int| 0 <= b < a + 1 && #[trigger] cells[idx[b] as int]@
                == x by {
                if x == c@ {
                    assert(cells[idx[a as int] as int]@ == x);
                }
            }
        }
        a = a + 1;
    }
    acc
}

/// Whether `base` joined with the cells `t1 < t2 < t3` of `others` is a
/// wing, not all bivalue, whose bivalue cells have no entry in `seen` that
/// lists a cell of the wing.
pub open spec fn wing_with_three(
    board: Board,
    bi_values: Set<nat>,
    seen: Seq<(Cell, CellSet)>,
    base: Set<nat>,
    others: Set<nat>,
    t1: nat,
    t2: nat,
    t3: nat,
) -> bool {
    let wing = base.union(set![t1, t2, t3]);
    &&& t1 < t2 < t3
    &&& others.contains(t1) && others.contains(t2) && others.contains(t3)
    &&& !wing.subset_of(bi_values)
    &&& unseen_in(seen, bi_values, wing)
    &&& exists|z: nat| #[trigger] wxyz_wing(board, wing, z)
}

/// Whether `base` joined with the cells `u1 < u2` of `others` is a wing,
/// not all bivalue, whose bivalue cells have no entry in `seen` that lists
/// a cell of the wing.
pub open spec fn wing_with_two(
    board: Board,
    bi_values: Set<nat>,
    seen: Seq<(Cell, CellSet)>,
    base: Set<nat>,
    others: Set<nat>,
    u1: nat,
    u2: nat,
) -> bool {
    let wing = base.union(set![u1, u2]);
    &&& u1 < u2
    &&& others.contains(u1) && others.contains(u2)
    &&& !wing.subset_of(bi_values)
    &&& unseen_in(seen, bi_values, wing)
    &&& exists|z: nat| #[trigger] wxyz_wing(board, wing, z)
}

/// Checks, as wings, `base` joined with each `count` cells of `others`;
/// tells whether to stop.
fn check_with_others(
    board: &Board,
    single: bool,
    bi_values: CellSet,
    seen: &Vec<(Cell, CellSet)>,
    base: CellSet,
    others: CellSet,
    count: usize,
    effects: &mut Effects,
) -> (stop: bool)
    requires
        valid_effects(*board, *old(effects), Strategy::WXYZWing),
        wxyz_actions(*board, *old(effects)),
        single ==> old(effects).actions_spec().len() == 0,
    ensures
        valid_effects(*board, *final(effects), Strategy::WXYZWing),
        wxyz_actions(*board, *final(effects)),
        single && !stop ==> final(effects).actions_spec().len() == 0,
        stop ==> single && final(effects).actions_spec().len() == 1,
        final(effects).actions_spec().len() >= old(effects).actions_spec().len(),
        count == 3 && (exists|t1: nat, t2: nat, t3: nat|
            #[trigger] wing_with_three(*board, bi_values@, seen@, base@, others@, t1, t2, t3)) ==> stop
            || final(effects).actions_spec().len() > old(effects).actions_spec().len(),
        count == 2 && (exists|u1: nat, u2: nat|
            #[trigger] wing_with_two(*board, bi_values@, seen@, base@, others@, u1, u2)) ==> stop
            || final(effects).actions_spec().len() > old(effects).actions_spec().len(),
{
    let list = others.to_vec();
    let combos = combinations(list.len(), count);
    let ghost w2 = count == 2 && exists|u1: nat, u2: nat|
        #[trigger] wing_with_two(*board, bi_values@, seen@, base@, others@, u1, u2);
    let ghost (u1, u2) = choose|u1: nat, u2: nat| #[trigger] wing_with_two(*board, bi_values@, seen@, base@, others@, u1, u2);
    let ghost k1: int = choose|i: int| 0 <= i < list.len() && (#[trigger] list[i])@ == u1;
    let ghost k2: int = choose|i: int| 0 <= i < list.len() && (#[trigger] list[i])@ == u2;
    let ghost jw2: int = choose|x: int| 0 <= x < combos.len() && combos[x]@ == seq![k1 as usize, k2 as usize];
    proof {
        if w2 {
            assert(list[k1]@ == u1 && list[k2]@ == u2);
            if k2 <= k1 {
                assert(list[k2]@ <= list[k1]@);
            }
            let sq = seq![k1 as usize, k2 as usize];
            assert(crate::solve::algorithms::combinations::is_combination(sq, list.len() as nat, 2));
        }
    }
    let ghost w = count == 3 && exists|t1: nat, t2: nat, t3: nat|
        #[trigger] wing_with_three(*board, bi_values@, seen@, base@, others@, t1, t2, t3);
    let ghost (t1, t2, t3) = choose|t1: nat, t2: nat, t3: nat|
        #[trigger] wing_with_three(*board, bi_values@, seen@, base@, others@, t1, t2, t3);
    let ghost i1: int = choose|i: int| 0 <= i < list.len() && (#[trigger] list[i])@ == t1;
    let ghost i2: int = choose|i: int| 0 <= i < list.len() && (#[trigger] list[i])@ == t2;
    let ghost i3: int = choose|i: int| 0 <= i < list.len() && (#[trigger] list[i])@ == t3;
    let ghost jw: int = choose|x: int| 0 <= x < combos.len() && combos[x]@ == seq![i1 as usize, i2 as usize, i3 as usize];
    proof {
        if w {
            assert(list[i1]@ == t1 && list[i2]@ == t2 && list[i3]@ == t3);
            if i2 <= i1 {
                assert(list[i2]@ <= list[i1]@);
            }
            if i3 <= i2 {
                assert(list[i3]@ <= list[i2]@);
            }
            let sq = seq![i1 as usize, i2 as usize, i3 as usize];
            assert(crate::solve::algorithms::combinations::is_combination(sq, list.len() as nat, 3));
        }
    }
    let mut j: usize = 0;
    while j < combos.len()
        invariant
            j <= combos.len(),
            valid_effects(*board, *effects, Strategy::WXYZWing),
            wxyz_actions(*board, *effects),
            single ==> effects.actions_spec().len() == 0,
            effects.actions_spec().len() >= old(effects).actions_spec().len(),
            w ==> wing_with_three(*board, bi_values@, seen@, base@, others@, t1, t2, t3),
            w ==> 0 <= jw < combos.len() && combos[jw]@ == seq![i1 as usize, i2 as usize, i3 as usize] && 0 <= i1
                < list.len() && 0 <= i2 < list.len() && 0 <= i3 < list.len() && list[i1]@ == t1 && list[i2]@ == t2
                && list[i3]@ == t3,
            w && j > jw ==> effects.actions_spec().len() > old(effects).actions_spec().len(),
            w2 ==> wing_with_two(*board, bi_values@, seen@, base@, others@, u1, u2),
            w2 ==> 0 <= jw2 < combos.len() && combos[jw2]@ == seq![k1 as usize, k2 as usize] && 0 <= k1 < list.len()
                && 0 <= k2 < list.len() && list[k1]@ == u1 && list[k2]@ == u2,
            w2 && j > jw2 ==> effects.actions_spec().len() > old(effects).actions_spec().len(),
            forall|x: int| 0 <= x < combos.len() ==> (#[trigger] combos[x]).len() == count,
            forall|x: int, a: int|
                0 <= x < combos.len() && 0 <= a < count ==> #[trigger] combos[x][a] < list.len(),
        decreases combos.len() - j,
    {
        let combo = &combos[j];
        proof {
            assert forall|a: int| 0 <= a < combo.len() implies #[trigger] combo[a] < list.len() by {
                assert(combos[j as int][a] < list.len());
            }
        }
        let tail = union_at_positions(&list, combo);
        let wing = base.union(tail);
        proof {
            if w && j == jw {
                assert(combo[0] == i1 as usize);
                assert(combo[1] == i2 as usize);
                assert(combo[2] == i3 as usize);
                assert(list[combo[0] as int]@ == t1);
                assert(list[combo[1] as int]@ == t2);
                assert(list[combo[2] as int]@ == t3);
                assert forall|x: nat| tail@.contains(x) <==> set![t1, t2, t3].contains(x) by {
                    if tail@.contains(x) {
                        let a = choose|a: int| 0 <= a < combo.len() && #[trigger] list[combo[a] as int]@ == x;
                        assert(a == 0 || a == 1 || a == 2);
                    }
                    if set![t1, t2, t3].contains(x) {
                        if x == t1 {
                            assert(list[combo[0] as int]@ == x);
                        } else if x == t2 {
                            assert(list[combo[1] as int]@ == x);
                        } else {
                            assert(list[combo[2] as int]@ == x);
                        }
                    }
                }
                assert(tail@ =~= set![t1, t2, t3]);
                assert(wing@ =~= base@.union(set![t1, t2, t3]));
                assert(wing@.contains(t1));
            }
        }
        proof {
            if w2 && j == jw2 {
                assert(combo[0] == k1 as usize);
                assert(combo[1] == k2 as usize);
                assert(list[combo[0] as int]@ == u1);
                assert(list[combo[1] as int]@ == u2);
                assert forall|x: nat| tail@.contains(x) <==> set![u1, u2].contains(x) by {
                    if tail@.contains(x) {
                        let a = choose|a: int| 0 <= a < combo.len() && #[trigger] list[combo[a] as int]@ == x;
                        assert(a == 0 || a == 1);
                    }
                    if set![u1, u2].contains(x) {
                        if x == u1 {
                            assert(list[combo[0] as int]@ == x);
                        } else {
                            assert(list[combo[1] as int]@ == x);
                        }
                    }
                }
                assert(tail@ =~= set![u1, u2]);
                assert(wing@ =~= base@.union(set![u1, u2]));
                assert(wing@.contains(u1));
            }
        }
        if check_wing(board, bi_values, seen, wing, effects) && single {
            return true;
        }
        j = j + 1;
    }
    false
}

/// A WXYZ-wing of the cell `q`, which holds four digits, and the cells
/// `t1 < t2 < t3`, which each hold two or three of them; no two of the
/// cells that hold two digits hold the same two and see each other.
pub open spec fn quad_with_three(board: Board, q: nat, t1: nat, t2: nat, t3: nat) -> bool {
    let k = board.cands_spec()[q as int];
    let wing = set![q].union(set![t1, t2, t3]);
    &&& q < 81 && t1 < t2 < t3 < 81
    &&& k.len() == 4
    &&& 2 <= board.cands_spec()[t1 as int].len() <= 3 && board.cands_spec()[t1 as int].subset_of(k)
    &&& 2 <= board.cands_spec()[t2 as int].len() <= 3 && board.cands_spec()[t2 as int].subset_of(k)
    &&& 2 <= board.cands_spec()[t3 as int].len() <= 3 && board.cands_spec()[t3 as int].subset_of(k)
    &&& forall|a: nat, b: nat|
        wing.contains(a) && wing.contains(b) && board.cands_spec()[a as int].len() == 2 && board.cands_spec()[b as int]
            == board.cands_spec()[a as int] ==> !#[trigger] peers_of(a).contains(b)
    &&& exists|z: nat| #[trigger] wxyz_wing(board, wing, z)
}

/// Every cell that an entry of `seen` lists holds the candidates of the
/// entry's cell and sees it.
pub open spec fn seen_sound(board: Board, seen: Seq<(Cell, CellSet)>) -> bool {
    forall|i: int, x: nat|
        0 <= i < seen.len() && #[trigger] seen[i].1@.contains(x) ==> board.cands_spec()[x as int]
            == board.cands_spec()[seen[i].0@ as int] && peers_of(seen[i].0@).contains(x)
}

/// A WXYZ-wing of the cells `p1 < p2`, which hold the same four digits,
/// and the cells `v1 < v2`, which each hold two or three of them; no two
/// of the cells that hold two digits hold the same two and see each other.
pub open spec fn two_quads_with_two(board: Board, p1: nat, p2: nat, v1: nat, v2: nat) -> bool {
    let k = board.cands_spec()[p1 as int];
    let wing = set![p1, p2].union(set![v1, v2]);
    &&& p1 < p2 < 81 && v1 < v2 < 81
    &&& k.len() == 4
    &&& board.cands_spec()[p2 as int] == k
    &&& 2 <= board.cands_spec()[v1 as int].len() <= 3 && board.cands_spec()[v1 as int].subset_of(k)
    &&& 2 <= board.cands_spec()[v2 as int].len() <= 3 && board.cands_spec()[v2 as int].subset_of(k)
    &&& forall|a: nat, b: nat|
        wing.contains(a) && wing.contains(b) && board.cands_spec()[a as int].len() == 2 && board.cands_spec()[b as int]
            == board.cands_spec()[a as int] ==> !#[trigger] peers_of(a).contains(b)
    &&& exists|z: nat| #[trigger] wxyz_wing(board, wing, z)
}

proof fn lemma_unseen(board: Board, seen: Seq<(Cell, CellSet)>, bi_values: Set<nat>, wing: Set<nat>)
    requires
        seen_sound(board, seen),
        bi_values == cells_with_n(board.cands_spec(), 2),
        forall|a: nat, b: nat|
            wing.contains(a) && wing.contains(b) && board.cands_spec()[a as int].len() == 2 && board.cands_spec()[b as int]
                == board.cands_spec()[a as int] ==> !#[trigger] peers_of(a).contains(b),
    ensures
        unseen_in(seen, bi_values, wing),
{
    assert forall|i: int|
        0 <= i < seen.len() && wing.contains((#[trigger] seen[i]).0@) && bi_values.contains(seen[i].0@) implies seen[i].1@.disjoint(
        wing,
    ) by {
        let b = seen[i].0@;
        assert forall|x: nat| seen[i].1@.contains(x) implies !wing.contains(x) by {
            assert(board.cands_spec()[x as int] == board.cands_spec()[b as int] && peers_of(b).contains(x));
            assert(board.cands_spec()[b as int].len() == 2);
        }
    }
}

proof fn lemma_subset_cells_has(groups: Seq<(KnownSet, CellSet)>, within: Set<nat>, n: nat, g: int, c: nat)
    requires
        0 <= g < n <= groups.len(),
        groups[g].0@.subset_of(within),
        groups[g].1@.contains(c),
    ensures
        subset_cells(groups, within, n).contains(c),
    decreases n,
{
    if g < n - 1 {
        lemma_subset_cells_has(groups, within, (n - 1) as nat, g, c);
    }
}

/// The WXYZ-wings of the board, only the first when `single`; some are
/// found whenever a wing is made of one cell with four digits, or two
/// cells with the same four, and the other cells with two or three of them
/// each.
pub fn find_wxyz_wings(board: &Board, single: bool) -> (r: Option<Effects>)
    ensures
        found_by(*board, r, single, Strategy::WXYZWing),
        (exists|q: nat, t1: nat, t2: nat, t3: nat| #[trigger] quad_with_three(*board, q, t1, t2, t3)) ==> r is Some,
        (exists|p1: nat, p2: nat, v1: nat, v2: nat| #[trigger] two_quads_with_two(*board, p1, p2, v1, v2)) ==> r is Some,
        r matches Some(e) ==> wxyz_actions(*board, e),
{
    let mut effects = Effects::new();
    let pairs_by_candidates = group_by_candidates(board, 2);
    let triples_by_candidates = group_by_candidates(board, 3);
    let quads_by_candidates = group_by_candidates(board, 4);
    let mut seen_bi_values: Vec<(Cell, CellSet)> = Vec::new();
    let mut g: usize = 0;
    while g < pairs_by_candidates.len()
        invariant
            g <= pairs_by_candidates.len(),
            groups_match(*board, pairs_by_candidates@),
            seen_sound(*board, seen_bi_values@),
        decreases pairs_by_candidates.len() - g,
    {
        let (key, cells) = pairs_by_candidates[g];
        let list = cells.to_vec();
        proof {
            assert forall|x: int| 0 <= x < list.len() implies #[trigger] board.cands_spec()[list[x]@ as int] == key@ by {
                assert(pairs_by_candidates[g as int].1@.contains(list[x]@));
            }
        }
        let combos = combinations(list.len(), 2);
        let mut j: usize = 0;
        while j < combos.len()
            invariant
                j <= combos.len(),
                seen_sound(*board, seen_bi_values@),
                forall|x: int| 0 <= x < list.len() ==> #[trigger] board.cands_spec()[list[x]@ as int] == key@,
                forall|x: int| 0 <= x < combos.len() ==> (#[trigger] combos[x]).len() == 2,
                forall|x: int, a: int|
                    0 <= x < combos.len() && 0 <= a < 2 ==> #[trigger] combos[x][a] < list.len(),
            decreases combos.len() - j,
        {
            let c1 = list[combos[j][0]];
            let c2 = list[combos[j][1]];
            if c1.sees(c2) {
                let (low, high) = if c1.index() < c2.index() {
                    (c1, c2)
                } else {
                    (c2, c1)
                };
                proof {
                    assert(board.cands_spec()[list[combos[j as int][0] as int]@ as int] == key@);
                    assert(board.cands_spec()[list[combos[j as int][1] as int]@ as int] == key@);
                    assert(share_a_house(c2@, c1@));
                    assert(peers_of(low@).contains(high@));
                }
                let mut found = false;
                let mut next: Vec<(Cell, CellSet)> = Vec::new();
                let mut s: usize = 0;
                while s < seen_bi_values.len()
                    invariant
                        s <= seen_bi_values.len(),
                        seen_sound(*board, seen_bi_values@),
                        seen_sound(*board, next@),
                        board.cands_spec()[high@ as int] == board.cands_spec()[low@ as int],
                        peers_of(low@).contains(high@),
                    decreases seen_bi_values.len() - s,
                {
                    let (c, cs) = seen_bi_values[s];
                    let ghost before = next@;
                    if c.index() == low.index() {
                        next.push((c, cs.with(high)));
                        found = true;
                    } else {
                        next.push((c, cs));
                    }
                    proof {
                        assert forall|i: int, x: nat|
                            0 <= i < next@.len() && #[trigger] next@[i].1@.contains(x) implies board.cands_spec()[x as int]
                                == board.cands_spec()[next@[i].0@ as int] && peers_of(next@[i].0@).contains(x) by {
                            if i < before.len() {
                                assert(next@[i] == before[i]);
                            } else if x != high@ {
                                assert(seen_bi_values@[s as int].1@.contains(x));
                            }
                        }
                    }
                    s = s + 1;
                }
                if !found {
                    let ghost before = next@;
                    next.push((low, CellSet::empty().with(high)));
                    proof {
                        assert forall|i: int, x: nat|
                            0 <= i < next@.len() && #[trigger] next@[i].1@.contains(x) implies board.cands_spec()[x as int]
                                == board.cands_spec()[next@[i].0@ as int] && peers_of(next@[i].0@).contains(x) by {
                            if i < before.len() {
                                assert(next@[i] == before[i]);
                            }
                        }
                    }
                }
                seen_bi_values = next;
            }
            j = j + 1;
        }
        g = g + 1;
    }
    let bi_values = board.cells_with_n_candidates(2);
    let ghost w = exists|q: nat, t1: nat, t2: nat, t3: nat| #[trigger] quad_with_three(*board, q, t1, t2, t3);
    let ghost (q0, t1, t2, t3) = choose|q: nat, t1: nat, t2: nat, t3: nat|
        #[trigger] quad_with_three(*board, q, t1, t2, t3);
    let ghost qw: int = choose|x: int| 0 <= x < quads_by_candidates.len() && quads_by_candidates[x].1@.contains(q0);
    let ghost k0 = board.cands_spec()[q0 as int];
    let ghost ntr = triples_by_candidates.len() as nat;
    let ghost npr = pairs_by_candidates.len() as nat;
    let ghost wing0 = set![q0].union(set![t1, t2, t3]);
    proof {
        if w {
            assert(quads_by_candidates[qw].0@ == k0);
            assert forall|t: nat|
                set![t1, t2, t3].contains(t) implies subset_cells(triples_by_candidates@, k0, ntr).contains(t)
                || subset_cells(pairs_by_candidates@, k0, npr).contains(t) by {
                assert(2 <= board.cands_spec()[t as int].len() <= 3 && board.cands_spec()[t as int].subset_of(k0));
                if board.cands_spec()[t as int].len() == 3 {
                    let x = choose|x: int|
                        0 <= x < triples_by_candidates.len() && triples_by_candidates[x].1@.contains(t);
                    assert(triples_by_candidates[x].0@ == board.cands_spec()[t as int]);
                    lemma_subset_cells_has(triples_by_candidates@, k0, ntr, x, t);
                } else {
                    let x = choose|x: int| 0 <= x < pairs_by_candidates.len() && pairs_by_candidates[x].1@.contains(t);
                    assert(pairs_by_candidates[x].0@ == board.cands_spec()[t as int]);
                    lemma_subset_cells_has(pairs_by_candidates@, k0, npr, x, t);
                }
            }
            assert(wing0.contains(q0) && !bi_values@.contains(q0));
            assert forall|i: int|
                0 <= i < seen_bi_values.len() && wing0.contains((#[trigger] seen_bi_values[i]).0@)
                    && bi_values@.contains(seen_bi_values[i].0@) implies seen_bi_values[i].1@.disjoint(wing0) by {
                let b = seen_bi_values[i].0@;
                assert forall|x: nat| seen_bi_values[i].1@.contains(x) implies !wing0.contains(x) by {
                    assert(board.cands_spec()[x as int] == board.cands_spec()[b as int] && peers_of(b).contains(x));
                    assert(board.cands_spec()[b as int].len() == 2);
                }
            }
            assert(unseen_in(seen_bi_values@, bi_values@, wing0));
        }
    }
    let ghost w2 = exists|p1: nat, p2: nat, v1: nat, v2: nat| #[trigger] two_quads_with_two(*board, p1, p2, v1, v2);
    let ghost (p1, p2, v1, v2) = choose|p1: nat, p2: nat, v1: nat, v2: nat|
        #[trigger] two_quads_with_two(*board, p1, p2, v1, v2);
    let ghost qw2: int = choose|x: int| 0 <= x < quads_by_candidates.len() && quads_by_candidates[x].1@.contains(p1);
    let ghost k2 = board.cands_spec()[p1 as int];
    let ghost wing2 = set![p1, p2].union(set![v1, v2]);
    proof {
        if w2 {
            assert(quads_by_candidates[qw2].0@ == k2);
            let y = choose|x: int| 0 <= x < quads_by_candidates.len() && quads_by_candidates[x].1@.contains(p2);
            assert(quads_by_candidates[y].0@ == k2);
            assert(y == qw2);
            assert forall|t: nat|
                set![v1, v2].contains(t) implies subset_cells(triples_by_candidates@, k2, ntr).contains(t)
                || subset_cells(pairs_by_candidates@, k2, npr).contains(t) by {
                assert(2 <= board.cands_spec()[t as int].len() <= 3 && board.cands_spec()[t as int].subset_of(k2));
                if board.cands_spec()[t as int].len() == 3 {
                    let x = choose|x: int|
                        0 <= x < triples_by_candidates.len() && triples_by_candidates[x].1@.contains(t);
                    assert(triples_by_candidates[x].0@ == board.cands_spec()[t as int]);
                    lemma_subset_cells_has(triples_by_candidates@, k2, ntr, x, t);
                } else {
                    let x = choose|x: int| 0 <= x < pairs_by_candidates.len() && pairs_by_candidates[x].1@.contains(t);
                    assert(pairs_by_candidates[x].0@ == board.cands_spec()[t as int]);
                    lemma_subset_cells_has(pairs_by_candidates@, k2, npr, x, t);
                }
            }
            assert(wing2.contains(p1) && !bi_values@.contains(p1));
            lemma_unseen(*board, seen_bi_values@, bi_values@, wing2);
        }
    }
    let mut q: usize = 0;
    while q < quads_by_candidates.len()
        invariant
            q <= quads_by_candidates.len(),
            valid_effects(*board, effects, Strategy::WXYZWing),
            wxyz_actions(*board, effects),
            single ==> effects.actions_spec().len() == 0,
            ntr == triples_by_candidates.len(),
            npr == pairs_by_candidates.len(),
            wing0 == set![q0].union(set![t1, t2, t3]),
            w ==> quad_with_three(*board, q0, t1, t2, t3),
            w ==> 0 <= qw < quads_by_candidates.len() && quads_by_candidates[qw].1@.contains(q0)
                && quads_by_candidates[qw].0@ == k0,
            w ==> forall|t: nat|
                #[trigger] set![t1, t2, t3].contains(t) ==> subset_cells(triples_by_candidates@, k0, ntr).contains(t)
                    || subset_cells(pairs_by_candidates@, k0, npr).contains(t),
            w ==> !wing0.subset_of(bi_values@) && unseen_in(seen_bi_values@, bi_values@, wing0),
            w && q > qw ==> effects.actions_spec().len() > 0,
            wing2 == set![p1, p2].union(set![v1, v2]),
            w2 ==> two_quads_with_two(*board, p1, p2, v1, v2),
            w2 ==> 0 <= qw2 < quads_by_candidates.len() && quads_by_candidates[qw2].1@.contains(p1)
                && quads_by_candidates[qw2].1@.contains(p2) && quads_by_candidates[qw2].0@ == k2,
            w2 ==> forall|t: nat|
                #[trigger] set![v1, v2].contains(t) ==> subset_cells(triples_by_candidates@, k2, ntr).contains(t)
                    || subset_cells(pairs_by_candidates@, k2, npr).contains(t),
            w2 ==> !wing2.subset_of(bi_values@) && unseen_in(seen_bi_values@, bi_values@, wing2),
            w2 && q > qw2 ==> effects.actions_spec().len() > 0,
        decreases quads_by_candidates.len() - q,
    {
        let (candidates, quads) = quads_by_candidates[q];
        let ghost len_q = effects.actions_spec().len();
        let subsets = cells_of_subsets(&triples_by_candidates, candidates).union(
            cells_of_subsets(&pairs_by_candidates, candidates),
        );
        proof {
            if w && q == qw {
                assert(set![t1, t2, t3].contains(t1) && set![t1, t2, t3].contains(t2) && set![t1, t2, t3].contains(t3));
                assert(wing_with_three(*board, bi_values@, seen_bi_values@, set![q0], subsets@, t1, t2, t3));
            }
        }
        proof {
            if w2 && q == qw2 {
                assert(set![v1, v2].contains(v1) && set![v1, v2].contains(v2));
                assert(wing_with_two(*board, bi_values@, seen_bi_values@, set![p1, p2], subsets@, v1, v2));
            }
        }
        if check_with_others(board, single, bi_values, &seen_bi_values, CellSet::empty(), quads, 4, &mut effects) {
            return Some(effects);
        }
        let mut n: usize = 3;
        while n >= 2
            invariant
                1 <= n <= 3,
                valid_effects(*board, effects, Strategy::WXYZWing),
                wxyz_actions(*board, effects),
                single ==> effects.actions_spec().len() == 0,
                effects.actions_spec().len() >= len_q,
                w2 && q == qw2 ==> quads@.contains(p1) && quads@.contains(p2) && wing_with_two(
                    *board,
                    bi_values@,
                    seen_bi_values@,
                    set![p1, p2],
                    subsets@,
                    v1,
                    v2,
                ),
                w2 && q == qw2 && n < 2 ==> effects.actions_spec().len() > 0,
                w2 ==> p1 < p2,
            decreases n,
        {
            let list = quads.to_vec();
            let combos = combinations(list.len(), n);
            let ghost h1: int = choose|i: int| 0 <= i < list.len() && (#[trigger] list[i])@ == p1;
            let ghost h2: int = choose|i: int| 0 <= i < list.len() && (#[trigger] list[i])@ == p2;
            let ghost jw2: int = choose|x: int| 0 <= x < combos.len() && combos[x]@ == seq![h1 as usize, h2 as usize];
            proof {
                if w2 && q == qw2 && n == 2 {
                    assert(list[h1]@ == p1 && list[h2]@ == p2);
                    if h2 <= h1 {
                        assert(list[h2]@ <= list[h1]@);
                    }
                    let sq = seq![h1 as usize, h2 as usize];
                    assert(crate::solve::algorithms::combinations::is_combination(sq, list.len() as nat, 2));
                }
            }
            let mut j: usize = 0;
            while j < combos.len()
                invariant
                    j <= combos.len(),
                    2 <= n <= 3,
                    valid_effects(*board, effects, Strategy::WXYZWing),
                    wxyz_actions(*board, effects),
                    single ==> effects.actions_spec().len() == 0,
                    effects.actions_spec().len() >= len_q,
                    forall|x: int| 0 <= x < combos.len() ==> (#[trigger] combos[x]).len() == n,
                    forall|x: int, a: int|
                        0 <= x < combos.len() && 0 <= a < n ==> #[trigger] combos[x][a] < list.len(),
                    w2 && q == qw2 && n == 2 ==> 0 <= jw2 < combos.len() && combos[jw2]@ == seq![h1 as usize, h2 as usize]
                        && 0 <= h1 < list.len() && 0 <= h2 < list.len() && list[h1]@ == p1 && list[h2]@ == p2
                        && wing_with_two(*board, bi_values@, seen_bi_values@, set![p1, p2], subsets@, v1, v2),
                    w2 && q == qw2 && n == 2 && j > jw2 ==> effects.actions_spec().len() > 0,
                decreases combos.len() - j,
            {
                let combo = &combos[j];
                proof {
                    assert forall|a: int| 0 <= a < combo.len() implies #[trigger] combo[a] < list.len() by {
                        assert(combos[j as int][a] < list.len());
                    }
                }
                let base = union_at_positions(&list, combo);
                proof {
                    if w2 && q == qw2 && n == 2 && j == jw2 {
                        assert(combo[0] == h1 as usize);
                        assert(combo[1] == h2 as usize);
                        assert(list[combo[0] as int]@ == p1);
                        assert(list[combo[1] as int]@ == p2);
                        assert forall|x: nat| base@.contains(x) <==> set![p1, p2].contains(x) by {
                            if base@.contains(x) {
                                let a = choose|a: int| 0 <= a < combo.len() && #[trigger] list[combo[a] as int]@ == x;
                                assert(a == 0 || a == 1);
                            }
                            if set![p1, p2].contains(x) {
                                if x == p1 {
                                    assert(list[combo[0] as int]@ == x);
                                } else {
                                    assert(list[combo[1] as int]@ == x);
                                }
                            }
                        }
                        assert(base@ =~= set![p1, p2]);
                        assert(wing_with_two(*board, bi_values@, seen_bi_values@, base@, subsets@, v1, v2));
                    }
                }
                if check_with_others(board, single, bi_values, &seen_bi_values, base, subsets, 4 - n, &mut effects) {
                    return Some(effects);
                }
                j = j + 1;
            }
            n = n - 1;
        }
        let ghost len_n = effects.actions_spec().len();
        let quad_list = quads.to_vec();
        let ghost aw: int = choose|x: int| 0 <= x < quad_list.len() && (#[trigger] quad_list[x])@ == q0;
        let mut a: usize = 0;
        while a < quad_list.len()
            invariant
                a <= quad_list.len(),
                valid_effects(*board, effects, Strategy::WXYZWing),
                wxyz_actions(*board, effects),
                single ==> effects.actions_spec().len() == 0,
                effects.actions_spec().len() >= len_q,
                effects.actions_spec().len() >= len_n,
                w && q == qw ==> 0 <= aw < quad_list.len() && quad_list[aw]@ == q0 && wing_with_three(
                    *board,
                    bi_values@,
                    seen_bi_values@,
                    set![q0],
                    subsets@,
                    t1,
                    t2,
                    t3,
                ),
                w && q == qw && a > aw ==> effects.actions_spec().len() > 0,
            decreases quad_list.len() - a,
        {
            let base = CellSet::empty().with(quad_list[a]);
            proof {
                if w && q == qw && a == aw {
                    assert(base@ =~= set![q0]);
                    assert(wing_with_three(*board, bi_values@, seen_bi_values@, base@, subsets@, t1, t2, t3));
                }
            }
            if check_with_others(board, single, bi_values, &seen_bi_values, base, subsets, 3, &mut effects) {
                return Some(effects);
            }
            a = a + 1;
        }
        q = q + 1;
    }
    let ghost len_t = effects.actions_spec().len();
    let mut t: usize = 0;
    while t < triples_by_candidates.len()
        invariant
            t <= triples_by_candidates.len(),
            valid_effects(*board, effects, Strategy::WXYZWing),
            wxyz_actions(*board, effects),
            single ==> effects.actions_spec().len() == 0,
            effects.actions_spec().len() >= len_t,
        decreases triples_by_candidates.len() - t,
    {
        let (candidates, triples) = triples_by_candidates[t];
        let mut disjoints: Vec<(Known, CellSet)> = Vec::new();
        add_disjoints(&mut disjoints, &triples_by_candidates, candidates);
        add_disjoints(&mut disjoints, &pairs_by_candidates, candidates);
        let subsets = cells_of_subsets(&pairs_by_candidates, candidates);
        if check_with_others(board, single, bi_values, &seen_bi_values, CellSet::empty(), triples, 4, &mut effects) {
            return Some(effects);
        }
        let others_digits = candidates.inverted().to_vec();
        let mut n: usize = 3;
        while n >= 1
            invariant
                n <= 3,
                valid_effects(*board, effects, Strategy::WXYZWing),
                wxyz_actions(*board, effects),
                single ==> effects.actions_spec().len() == 0,
                effects.actions_spec().len() >= len_t,
            decreases n,
        {
            let list = triples.to_vec();
            let combos = combinations(list.len(), n);
            let mut j: usize = 0;
            while j < combos.len()
                invariant
                    j <= combos.len(),
                    1 <= n <= 3,
                    valid_effects(*board, effects, Strategy::WXYZWing),
                    wxyz_actions(*board, effects),
                    single ==> effects.actions_spec().len() == 0,
                    effects.actions_spec().len() >= len_t,
                    forall|x: int| 0 <= x < combos.len() ==> (#[trigger] combos[x]).len() == n,
                    forall|x: int, a: int|
                        0 <= x < combos.len() && 0 <= a < n ==> #[trigger] combos[x][a] < list.len(),
                decreases combos.len() - j,
            {
                let combo = &combos[j];
                proof {
                    assert forall|a: int| 0 <= a < combo.len() implies #[trigger] combo[a] < list.len() by {
                        assert(combos[j as int][a] < list.len());
                    }
                }
                let base = union_at_positions(&list, combo);
                let mut kk: usize = 0;
                while kk < others_digits.len()
                    invariant
                        kk <= others_digits.len(),
                        1 <= n <= 3,
                        valid_effects(*board, effects, Strategy::WXYZWing),
                        wxyz_actions(*board, effects),
                        single ==> effects.actions_spec().len() == 0,
                        effects.actions_spec().len() >= len_t,
                    decreases others_digits.len() - kk,
                {
                    let k = others_digits[kk];
                    let mut found: Option<CellSet> = None;
                    let mut d: usize = 0;
                    while d < disjoints.len()
                        invariant
                            d <= disjoints.len(),
                        decreases disjoints.len() - d,
                    {
                        let (dk, dcs) = disjoints[d];
                        if dk.get_index() == k.get_index() {
                            found = Some(dcs);
                        }
                        d = d + 1;
                    }
                    if let Some(disjoint) = found {
                        if check_with_others(
                            board,
                            single,
                            bi_values,
                            &seen_bi_values,
                            base,
                            disjoint.union(subsets),
                            4 - n,
                            &mut effects,
                        ) {
                            return Some(effects);
                        }
                    }
                    kk = kk + 1;
                }
                j = j + 1;
            }
            n = n - 1;
        }
        t = t + 1;
    }
    if effects.has_actions() {
        Some(effects)
    } else {
        None
    }
}

} // verus!
