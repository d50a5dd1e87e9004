use vstd::prelude::*;

use crate::layout::cell::{lemma_cell_at, Cell};
use crate::layout::cell_set::{lemma_cell_set_bounded, CellSet};
use crate::layout::house::House;
use crate::layout::shape::{house_cells, shape_index, Shape};
use crate::layout::known::Known;
use crate::layout::known_set::{all_knowns, lemma_known_set_bounded, KnownSet};
use crate::solve::action::Action;
use crate::solve::algorithms::combinations::{combinations, index_combinations, is_combination};
use crate::solve::algorithms::{
    erases_candidates, found_by, house_at, lemma_erase_cells_keeps, sets_candidates, valid_action,
    valid_effects, Solver,
};
use crate::solve::board::{candidate_cells_of, lemma_board_cands_shape, lemma_board_values_shape, Board};
use crate::solve::effects::Effects;
use crate::solve::strategy::{Strategy, Verdict};

verus! {

broadcast use {
    lemma_cell_at,
    lemma_cell_set_bounded,
    lemma_known_set_bounded,
    lemma_board_values_shape,
    lemma_board_cands_shape,
};

/// The union of the digit sets at the first `n` positions of `idx`.
pub open spec fn union_at(sets: Seq<KnownSet>, idx: Seq<usize>, n: nat) -> Set<nat>
    decreases n,
{
    if n == 0 {
        Set::empty()
    } else {
        union_at(sets, idx, (n - 1) as nat).union(sets[idx[n - 1] as int]@)
    }
}

/// Whether some `smaller` of the digit sets, taken at the positions of one
/// of `combos`, hold at most `smaller` digits together, when `smaller` is
/// below `size`.
pub open spec fn degenerate_in(sets: Seq<KnownSet>, size: nat, smaller: nat, combos: Seq<Seq<usize>>) -> bool {
    size > smaller && exists|j: int|
        0 <= j < combos.len() && #[trigger] union_at(sets, combos[j], smaller).len() <= smaller
}

/// The candidates of the cells `cs` together.
pub open spec fn cands_of_cells(board: Board, cs: Seq<nat>) -> Set<nat>
    decreases cs.len(),
{
    if cs.len() == 0 {
        Set::empty()
    } else {
        cands_of_cells(board, cs.drop_last()).union(board.cands_spec()[cs.last() as int])
    }
}

/// The candidates of cells `x` and `y` together.
pub open spec fn pair_digits(board: Board, x: nat, y: nat) -> Set<nat> {
    board.cands_spec()[x as int].union(board.cands_spec()[y as int])
}

/// The candidates of cells `x`, `y` and `z` together.
pub open spec fn triple_digits(board: Board, x: nat, y: nat, z: nat) -> Set<nat> {
    pair_digits(board, x, y).union(board.cands_spec()[z as int])
}

/// Whether the cells `cs` hide a smaller naked tuple: two of them with at
/// most two digits together, when there are more than two, or three with
/// at most three, when there are more than three.
pub open spec fn hides_smaller_tuple(board: Board, cs: Seq<nat>) -> bool {
    ||| cs.len() > 2 && exists|i: int, j: int|
        0 <= i < j < cs.len() && #[trigger] pair_digits(board, cs[i], cs[j]).len() <= 2
    ||| cs.len() > 3 && exists|i: int, j: int, l: int|
        0 <= i < j < l < cs.len() && #[trigger] triple_digits(board, cs[i], cs[j], cs[l]).len() <= 3
}

/// A naked tuple of `size` cells `cs`, in increasing order, in house `hn`
/// of shape `s` that erases something: each cell has two to `size`
/// candidates, together they have `size` digits and hide no smaller tuple,
/// and another cell of the house has one of those digits.
pub open spec fn naked_tuple(board: Board, s: Shape, hn: nat, size: nat, cs: Seq<nat>) -> bool {
    let cells = house_cells(s, hn);
    &&& hn < 9
    &&& cs.len() == size
    &&& forall|a: int, b: int| 0 <= a < b < size ==> cs[a] < cs[b]
    &&& forall|a: int|
        0 <= a < size ==> cells.contains(#[trigger] cs[a]) && 2 <= board.cands_spec()[cs[a] as int].len() <= size
    &&& cands_of_cells(board, cs).len() == size
    &&& !hides_smaller_tuple(board, cs)
    &&& exists|c: nat, d: nat|
        cells.contains(c) && !cs.contains(c) && cands_of_cells(board, cs).contains(d)
            && #[trigger] board.cands_spec()[c as int].contains(d)
}

/// The action of the naked tuple on the cells `cs` of house `hn` of shape
/// `s`: it erases the tuple's digits from every other cell of the house
/// that holds them, and sets nothing.
pub open spec fn tuple_erasure(board: Board, s: Shape, hn: nat, cs: Seq<nat>, a: Action) -> bool {
    &&& a.sets_spec() == Seq::new(81, |i: int| 0nat)
    &&& forall|i: int|
        0 <= i < 81 ==> #[trigger] a.erases_spec()[i] == if house_cells(s, hn).contains(i as nat) && !cs.contains(
            i as nat,
        ) {
            cands_of_cells(board, cs).intersect(board.cands_spec()[i])
        } else {
            Set::<nat>::empty()
        }
}

/// An action of a naked tuple of `size` cells on the board.
pub open spec fn naked_tuple_action(board: Board, a: Action, size: nat) -> bool {
    exists|s: Shape, hn: nat, cs: Seq<nat>|
        #[trigger] naked_tuple(board, s, hn, size, cs) && tuple_erasure(board, s, hn, cs, a)
}

/// Some action of the list is that of the naked tuple on the cells `cs`
/// of house `hn` of shape `s`.
pub open spec fn tuple_reported(board: Board, actions: Seq<Action>, s: Shape, hn: nat, cs: Seq<nat>) -> bool {
    exists|x: int| 0 <= x < actions.len() && #[trigger] tuple_erasure(board, s, hn, cs, actions[x])
}

/// Every naked tuple of `size` cells in a house before house number `h`
/// (rows, then columns, then blocks) is reported by the list.
pub open spec fn reported_before(board: Board, actions: Seq<Action>, size: nat, h: nat) -> bool {
    forall|s: Shape, hn: nat, cs: Seq<nat>|
        #[trigger] naked_tuple(board, s, hn, size, cs) && shape_index(s) * 9 + hn < h ==> tuple_reported(
            board,
            actions,
            s,
            hn,
            cs,
        )
}

/// A longer list reports what the shorter one did.
proof fn lemma_reported_push(board: Board, actions: Seq<Action>, a: Action, size: nat, h: nat)
    requires
        reported_before(board, actions, size, h),
    ensures
        reported_before(board, actions.push(a), size, h),
{
    assert forall|s: Shape, hn: nat, cs: Seq<nat>|
        #[trigger] naked_tuple(board, s, hn, size, cs) && shape_index(s) * 9 + hn < h implies tuple_reported(
        board,
        actions.push(a),
        s,
        hn,
        cs,
    ) by {
        let x = choose|x: int| 0 <= x < actions.len() && #[trigger] tuple_erasure(board, s, hn, cs, actions[x]);
        assert(actions.push(a)[x] == actions[x]);
    }
}

/// Whether the board has a naked tuple of `size` cells.
pub open spec fn has_naked_tuple(board: Board, size: nat) -> bool {
    exists|s: Shape, hn: nat, cs: Seq<nat>| #[trigger] naked_tuple(board, s, hn, size, cs)
}

/// The digits of positions `t` of the digit sets, two at a time.
proof fn lemma_union_at_two(sets: Seq<KnownSet>, t: Seq<usize>)
    ensures
        union_at(sets, t, 2) == sets[t[0] as int]@.union(sets[t[1] as int]@),
{
    assert(union_at(sets, t, 0) == Set::<nat>::empty());
    assert(union_at(sets, t, 1) =~= sets[t[0] as int]@);
}

/// The digits of positions `t` of the digit sets, three at a time.
proof fn lemma_union_at_three(sets: Seq<KnownSet>, t: Seq<usize>)
    ensures
        union_at(sets, t, 3) == sets[t[0] as int]@.union(sets[t[1] as int]@).union(sets[t[2] as int]@),
{
    lemma_union_at_two(sets, t);
}

/// Read through the digit sets of its cells, a tuple hides a smaller one
/// exactly when two (three) of its positions hold at most two (three)
/// digits together.
proof fn lemma_degenerate_hides(board: Board, known_sets: Seq<KnownSet>, cs: Seq<nat>, size: nat)
    requires
        known_sets.len() == size,
        cs.len() == size,
        size <= usize::MAX,
        forall|x: int| 0 <= x < size ==> (#[trigger] known_sets[x])@ == board.cands_spec()[cs[x] as int],
    ensures
        hides_smaller_tuple(board, cs) <==> ((size > 2 && exists|t: Seq<usize>|
            #[trigger] is_combination(t, size, 2) && union_at(known_sets, t, 2).len() <= 2) || (size > 3
            && exists|t: Seq<usize>| #[trigger] is_combination(t, size, 3) && union_at(known_sets, t, 3).len() <= 3)),
{
    if size > 2 && exists|i: int, j: int| 0 <= i < j < cs.len() && #[trigger] pair_digits(board, cs[i], cs[j]).len() <= 2 {
        let (i, j) = choose|i: int, j: int| 0 <= i < j < cs.len() && #[trigger] pair_digits(board, cs[i], cs[j]).len() <= 2;
        let t = seq![i as usize, j as usize];
        assert(t[0] == i && t[1] == j);
        lemma_union_at_two(known_sets, t);
        assert(is_combination(t, size, 2));
    }
    if size > 3 && exists|i: int, j: int, l: int|
        0 <= i < j < l < cs.len() && #[trigger] triple_digits(board, cs[i], cs[j], cs[l]).len() <= 3 {
        let (i, j, l) = choose|i: int, j: int, l: int|
            0 <= i < j < l < cs.len() && #[trigger] triple_digits(board, cs[i], cs[j], cs[l]).len() <= 3;
        let t = seq![i as usize, j as usize, l as usize];
        assert(t[0] == i && t[1] == j && t[2] == l);
        lemma_union_at_three(known_sets, t);
        assert(is_combination(t, size, 3));
    }
    if size > 2 && exists|t: Seq<usize>| #[trigger] is_combination(t, size, 2) && union_at(known_sets, t, 2).len() <= 2 {
        let t = choose|t: Seq<usize>| #[trigger] is_combination(t, size, 2) && union_at(known_sets, t, 2).len() <= 2;
        lemma_union_at_two(known_sets, t);
        assert(t[0] < t[1]);
        assert(pair_digits(board, cs[t[0] as int], cs[t[1] as int]).len() <= 2);
    }
    if size > 3 && exists|t: Seq<usize>| #[trigger] is_combination(t, size, 3) && union_at(known_sets, t, 3).len() <= 3 {
        let t = choose|t: Seq<usize>| #[trigger] is_combination(t, size, 3) && union_at(known_sets, t, 3).len() <= 3;
        lemma_union_at_three(known_sets, t);
        assert(t[0] < t[1] && t[1] < t[2]);
        assert(triple_digits(board, cs[t[0] as int], cs[t[1] as int], cs[t[2] as int]).len() <= 3);
    }
}

/// The union of the digit sets at the given positions.
fn union_of(sets: &Vec<KnownSet>, idx: &Vec<usize>) -> (r: KnownSet)
    requires
        forall|a: int| 0 <= a < idx.len() ==> #[trigger] idx[a] < sets.len(),
    ensures
        r@ == union_at(sets@, idx@, idx.len() as nat),
{
    let mut acc = KnownSet::empty();
    let mut a: usize = 0;
    while a < idx.len()
        invariant
            a <= idx.len(),
            forall|b: int| 0 <= b < idx.len() ==> #[trigger] idx[b] < sets.len(),
            acc@ == union_at(sets@, idx@, a as nat),
        decreases idx.len() - a,
    {
        acc = acc.union(sets[idx[a]]);
        a = a + 1;
    }
    acc
}

/// `is_degenerate` over given combinations of positions.
pub fn is_degenerate_with(known_sets: &Vec<KnownSet>, size: usize, smaller: usize, combos: &Vec<Vec<usize>>) -> (r:
    bool)
    requires
        forall|j: int| 0 <= j < combos.len() ==> (#[trigger] combos[j]).len() == smaller,
        forall|j: int, a: int|
            0 <= j < combos.len() && 0 <= a < smaller ==> #[trigger] combos[j][a] < known_sets.len(),
    ensures
        r == degenerate_in(known_sets@, size as nat, smaller as nat, combos@.map_values(|v: Vec<usize>| v@)),
{
    let ghost cs = combos@.map_values(|v: Vec<usize>| v@);
    if size <= smaller {
        return false;
    }
    let mut j: usize = 0;
    while j < combos.len()
        invariant
            j <= combos.len(),
            size > smaller,
            cs == combos@.map_values(|v: Vec<usize>| v@),
            forall|x: int| 0 <= x < combos.len() ==> (#[trigger] combos[x]).len() == smaller,
            forall|x: int, a: int|
                0 <= x < combos.len() && 0 <= a < smaller ==> #[trigger] combos[x][a] < known_sets.len(),
            forall|x: int| 0 <= x < j ==> #[trigger] union_at(known_sets@, cs[x], smaller as nat).len() > smaller,
        decreases combos.len() - j,
    {
        let combo = &combos[j];
        proof {
            assert forall|a: int| 0 <= a < combo.len() implies #[trigger] combo[a] < known_sets.len() by {
                assert(combos[j as int][a] < known_sets.len());
            }
        }
        let u = union_of(known_sets, combo);
        proof {
            assert(cs[j as int] == combo@);
        }
        if u.len() <= smaller {
            return true;
        }
        j = j + 1;
    }
    false
}

/// Whether `size` digit sets hide a smaller tuple: `smaller` of them that
/// together hold at most `smaller` digits.
pub fn is_degenerate(known_sets: &Vec<KnownSet>, size: usize, smaller: usize) -> (r: bool)
    ensures
        r == degenerate_in(
            known_sets@,
            size as nat,
            smaller as nat,
            index_combinations(known_sets.len() as nat, smaller as nat),
        ),
        r == (size > smaller && exists|t: Seq<usize>|
            #[trigger] is_combination(t, known_sets.len() as nat, smaller as nat) && union_at(
                known_sets@,
                t,
                smaller as nat,
            ).len() <= smaller),
{
    let combos = combinations(known_sets.len(), smaller);
    proof {
        assert(combos@.map_values(|v: Vec<usize>| v@) =~= index_combinations(
            known_sets.len() as nat,
            smaller as nat,
        ));
    }
    let r = is_degenerate_with(known_sets, size, smaller, &combos);
    proof {
        let n = known_sets.len() as nat;
        let k = smaller as nat;
        if r {
            let j = choose|j: int|
                0 <= j < index_combinations(n, k).len() && #[trigger] union_at(
                    known_sets@,
                    index_combinations(n, k)[j],
                    k,
                ).len() <= k;
            assert(combos[j]@ == index_combinations(n, k)[j]);
            assert(is_combination(combos[j]@, n, k));
        } else if size > smaller {
            assert forall|t: Seq<usize>| #[trigger] is_combination(t, n, k) implies union_at(known_sets@, t, k).len()
                > k by {
                let i = choose|i: int| 0 <= i < combos.len() && combos[i]@ == t;
                assert(index_combinations(n, k)[i] == t);
            }
        }
    }
    r
}

pub struct NakedPairSolver;

pub struct NakedTripleSolver;

pub struct NakedQuadSolver;

impl Solver for NakedPairSolver {
    fn strategy(&self) -> (r: Strategy)
        ensures
            r == Strategy::NakedPair,
    {
        Strategy::NakedPair
    }

    fn apply(&self, board: &Board, single: bool) -> (r: Option<Effects>)
        ensures
            found_by(*board, r, single, Strategy::NakedPair),
            r is Some <==> has_naked_tuple(*board, 2),
            r matches Some(e) ==> forall|x: int|
                0 <= x < e.actions_spec().len() ==> naked_tuple_action(*board, #[trigger] e.actions_spec()[x], 2),
            !single ==> (r matches Some(e) ==> reported_before(*board, e.actions_spec(), 2, 27)),
    {
        find_naked_tuples(board, single, 2, Strategy::NakedPair)
    }
}

impl Solver for NakedTripleSolver {
    fn strategy(&self) -> (r: Strategy)
        ensures
            r == Strategy::NakedTriple,
    {
        Strategy::NakedTriple
    }

    fn apply(&self, board: &Board, single: bool) -> (r: Option<Effects>)
        ensures
            found_by(*board, r, single, Strategy::NakedTriple),
            r is Some <==> has_naked_tuple(*board, 3),
            r matches Some(e) ==> forall|x: int|
                0 <= x < e.actions_spec().len() ==> naked_tuple_action(*board, #[trigger] e.actions_spec()[x], 3),
            !single ==> (r matches Some(e) ==> reported_before(*board, e.actions_spec(), 3, 27)),
    {
        find_naked_tuples(board, single, 3, Strategy::NakedTriple)
    }
}

impl Solver for NakedQuadSolver {
    fn strategy(&self) -> (r: Strategy)
        ensures
            r == Strategy::NakedQuad,
    {
        Strategy::NakedQuad
    }

    fn apply(&self, board: &Board, single: bool) -> (r: Option<Effects>)
        ensures
            found_by(*board, r, single, Strategy::NakedQuad),
            r is Some <==> has_naked_tuple(*board, 4),
            r matches Some(e) ==> forall|x: int|
                0 <= x < e.actions_spec().len() ==> naked_tuple_action(*board, #[trigger] e.actions_spec()[x], 4),
            !single ==> (r matches Some(e) ==> reported_before(*board, e.actions_spec(), 4, 27)),
    {
        find_naked_tuples(board, single, 4, Strategy::NakedQuad)
    }
}

/// The cells of a house with between two and `size` candidates, in cell
/// order, each with its candidates.
fn tuple_members(board: &Board, house: House, size: usize) -> (r: Vec<(Cell, KnownSet)>)
    ensures
        forall|a: int| 0 <= a < r.len() ==> (#[trigger] r[a]).1@ == board.cands_spec()[r[a].0@ as int],
        forall|a: int|
            0 <= a < r.len() ==> house_cells(house@.0, house@.1).contains((#[trigger] r[a]).0@) && 2
                <= board.cands_spec()[r[a].0@ as int].len() <= size,
        forall|a: int, b: int| 0 <= a < b < r.len() ==> r[a].0@ < r[b].0@,
        forall|c: nat|
            house_cells(house@.0, house@.1).contains(c) && 2 <= board.cands_spec()[c as int].len() <= size
                ==> exists|a: int| 0 <= a < r.len() && (#[trigger] r[a]).0@ == c,
{
    let cells = house.cells().to_vec();
    let mut out: Vec<(Cell, KnownSet)> = Vec::new();
    let mut i: usize = 0;
    while i < cells.len()
        invariant
            i <= cells.len(),
            forall|x: int, y: int| 0 <= x < y < cells.len() ==> cells[x]@ < cells[y]@,
            forall|x: int| 0 <= x < cells.len() ==> house_cells(house@.0, house@.1).contains(#[trigger] cells[x]@),
            forall|c: nat|
                house_cells(house@.0, house@.1).contains(c) ==> exists|x: int|
                    0 <= x < cells.len() && (#[trigger] cells[x])@ == c,
            forall|a: int| 0 <= a < out.len() ==> (#[trigger] out[a]).1@ == board.cands_spec()[out[a].0@ as int],
            forall|a: int|
                0 <= a < out.len() ==> house_cells(house@.0, house@.1).contains((#[trigger] out[a]).0@) && 2
                    <= board.cands_spec()[out[a].0@ as int].len() <= size,
            forall|a: int, b: int| 0 <= a < b < out.len() ==> out[a].0@ < out[b].0@,
            forall|a: int| 0 <= a < out.len() ==> exists|x: int| 0 <= x < i && (#[trigger] out[a]).0@ == cells[x]@,
            forall|x: int|
                0 <= x < i && 2 <= board.cands_spec()[(#[trigger] cells[x])@ as int].len() <= size ==> exists|a: int|
                    0 <= a < out.len() && out[a].0@ == cells[x]@,
        decreases cells.len() - i,
    {
        let c = cells[i];
        let ks = board.candidates(c);
        let n: usize = ks.len();
        let ghost old_out = out@;
        if 2 <= n && n <= size {
            let _index: u8 = c.index();
            out.push((c, ks));
            proof {
                assert forall|a: int, b: int| 0 <= a < b < out.len() implies out[a].0@ < out[b].0@ by {
                    if b == out.len() - 1 {
                        let x = choose|x: int| 0 <= x < i && (#[trigger] old_out[a]).0@ == cells[x]@;
                        assert(old_out[a] == out[a]);
                    }
                }
            }
        }
        proof {
            assert forall|a: int| 0 <= a < out.len() implies exists|x: int|
                0 <= x < i + 1 && (#[trigger] out[a]).0@ == cells[x]@ by {
                if a < old_out.len() {
                    assert(old_out[a] == out[a]);
                    let x = choose|x: int| 0 <= x < i && (#[trigger] old_out[a]).0@ == cells[x]@;
                } else {
                    assert(out[a].0@ == cells[i as int]@);
                }
            }
            assert forall|x: int|
                0 <= x < i + 1 && 2 <= board.cands_spec()[(#[trigger] cells[x])@ as int].len() <= size implies exists|
                a: int,
            | 0 <= a < out.len() && out[a].0@ == cells[x]@ by {
                if x < i {
                    let a = choose|a: int| 0 <= a < old_out.len() && old_out[a].0@ == cells[x]@;
                    assert(old_out[a] == out[a]);
                } else {
                    assert(out[out.len() - 1].0@ == cells[x]@);
                }
            }
        }
        i = i + 1;
    }
    proof {
        assert forall|c: nat|
            house_cells(house@.0, house@.1).contains(c) && 2 <= board.cands_spec()[c as int].len() <= size implies exists|
            a: int,
        | 0 <= a < out.len() && (#[trigger] out[a]).0@ == c by {
            let x = choose|x: int| 0 <= x < cells.len() && (#[trigger] cells[x])@ == c;
            assert(2 <= board.cands_spec()[cells[x]@ as int].len() <= size);
        }
    }
    out
}

/// Within each house, `size` cells whose candidates together are `size`
/// digits (and no smaller tuple among them) let those digits be erased
/// from the other cells of the house. There are some exactly when the
/// board has such a naked tuple.
pub fn find_naked_tuples(board: &Board, single: bool, size: usize, strategy: Strategy) -> (r: Option<
    Effects,
>)
    ensures
        found_by(*board, r, single, strategy),
        r is Some <==> has_naked_tuple(*board, size as nat),
        r matches Some(e) ==> forall|x: int|
            0 <= x < e.actions_spec().len() ==> naked_tuple_action(*board, #[trigger] e.actions_spec()[x], size as nat),
        !single ==> (r matches Some(e) ==> reported_before(*board, e.actions_spec(), size as nat, 27)),
{
    let mut effects = Effects::new();
    let mut h: u8 = 0;
    while h < 27
        invariant
            h <= 27,
            valid_effects(*board, effects, strategy),
            single ==> effects.actions_spec().len() == 0,
            effects.actions_spec().len() > 0 ==> has_naked_tuple(*board, size as nat),
            forall|x: int|
                0 <= x < effects.actions_spec().len() ==> naked_tuple_action(*board, #[trigger] effects.actions_spec()[x], size as nat),
            effects.actions_spec().len() == 0 ==> forall|s: Shape, hn: nat, cs: Seq<nat>|
                #[trigger] naked_tuple(*board, s, hn, size as nat, cs) ==> shape_index(s) * 9 + hn >= h,
            !single ==> reported_before(*board, effects.actions_spec(), size as nat, h as nat),
        decreases 27 - h,
    {
        let house = house_at(h);
        let house_set = house.cells();
        let members = tuple_members(board, house, size);
        let combos = combinations(members.len(), size);
        let mut j: usize = 0;
        while j < combos.len()
            invariant
                j <= combos.len(),
                h < 27,
                shape_index(house@.0) == h / 9,
                house@.1 == h % 9,
                house_set@ == house_cells(house@.0, house@.1),
                valid_effects(*board, effects, strategy),
                single ==> effects.actions_spec().len() == 0,
                effects.actions_spec().len() > 0 ==> has_naked_tuple(*board, size as nat),
                forall|x: int|
                    0 <= x < effects.actions_spec().len() ==> naked_tuple_action(*board, #[trigger] effects.actions_spec()[x], size as nat),
                effects.actions_spec().len() == 0 ==> forall|s: Shape, hn: nat, cs: Seq<nat>|
                    #[trigger] naked_tuple(*board, s, hn, size as nat, cs) ==> shape_index(s) * 9 + hn >= h,
                effects.actions_spec().len() == 0 ==> forall|x: int|
                    0 <= x < j ==> !naked_tuple(
                        *board,
                        house@.0,
                        house@.1,
                        size as nat,
                        Seq::new(size as nat, |a: int| members[(#[trigger] combos[x])[a] as int].0@),
                    ),
                forall|a: int| 0 <= a < members.len() ==> (#[trigger] members[a]).1@ == board.cands_spec()[members[a].0@ as int],
                forall|a: int|
                    0 <= a < members.len() ==> house_cells(house@.0, house@.1).contains((#[trigger] members[a]).0@)
                        && 2 <= board.cands_spec()[members[a].0@ as int].len() <= size,
                forall|a: int, b: int| 0 <= a < b < members.len() ==> members[a].0@ < members[b].0@,
                forall|x: int| 0 <= x < combos.len() ==> (#[trigger] combos[x]).len() == size,
                forall|x: int, a: int|
                    0 <= x < combos.len() && 0 <= a < size ==> #[trigger] combos[x][a] < members.len(),
                forall|x: int, a: int, b: int|
                    0 <= x < combos.len() && 0 <= a < b < size ==> #[trigger] combos[x][a] < #[trigger] combos[x][b],
                !single ==> reported_before(*board, effects.actions_spec(), size as nat, h as nat),
                !single ==> forall|x: int|
                    0 <= x < j && naked_tuple(
                        *board,
                        house@.0,
                        house@.1,
                        size as nat,
                        Seq::new(size as nat, |a: int| members[(#[trigger] combos[x])[a] as int].0@),
                    ) ==> tuple_reported(
                        *board,
                        effects.actions_spec(),
                        house@.0,
                        house@.1,
                        Seq::new(size as nat, |a: int| members[combos[x][a] as int].0@),
                    ),
            decreases combos.len() - j,
        {
            let combo = &combos[j];
            let ghost cs = Seq::new(size as nat, |a: int| members[combo[a] as int].0@);
            proof {
                assert forall|a: int, b: int| 0 <= a < b < size implies cs[a] < cs[b] by {
                    assert(combo[a] < combo[b]);
                }
                assert forall|a: int| 0 <= a < size implies house_cells(house@.0, house@.1).contains(#[trigger] cs[a])
                    && 2 <= board.cands_spec()[cs[a] as int].len() <= size by {
                    assert(combo[a] < members.len());
                    assert(cs[a] == members[combo[a] as int].0@);
                }
            }
            let mut known_sets: Vec<KnownSet> = Vec::new();
            let mut tuple_cells = CellSet::empty();
            let mut a: usize = 0;
            while a < combo.len()
                invariant
                    a <= combo.len(),
                    combo.len() == size,
                    forall|b: int| 0 <= b < size ==> #[trigger] combo[b] < members.len(),
                    cs == Seq::new(size as nat, |a: int| members[combo[a] as int].0@),
                    forall|x: int| 0 <= x < members.len() ==> (#[trigger] members[x]).1@ == board.cands_spec()[members[x].0@ as int],
                    known_sets.len() == a,
                    forall|b: int| 0 <= b < a ==> (#[trigger] known_sets[b])@ == board.cands_spec()[cs[b] as int],
                    forall|c: nat| tuple_cells@.contains(c) <==> exists|b: int| 0 <= b < a && cs[b] == c,
                decreases combo.len() - a,
            {
                let (c, ks) = members[combo[a]];
                known_sets.push(ks);
                tuple_cells = tuple_cells.with(c);
                proof {
                    assert(cs[a as int] == c@);
                    assert forall|c2: nat| tuple_cells@.contains(c2) implies exists|b: int| 0 <= b < a + 1 && cs[b] == c2 by {
                        if c2 != c@ {
                            let b = choose|b: int| 0 <= b < a && cs[b] == c2;
                        }
                    }
                    assert forall|c2: nat| (exists|b: int| 0 <= b < a + 1 && cs[b] == c2) implies tuple_cells@.contains(c2) by {
                        let b = choose|b: int| 0 <= b < a + 1 && cs[b] == c2;
                        if b < a {
                        }
                    }
                }
                a = a + 1;
            }
            let mut tuple_knowns = KnownSet::empty();
            let mut b: usize = 0;
            while b < known_sets.len()
                invariant
                    b <= known_sets.len(),
                    known_sets.len() == size,
                    cs.len() == size,
                    forall|x: int| 0 <= x < size ==> (#[trigger] known_sets[x])@ == board.cands_spec()[cs[x] as int],
                    tuple_knowns@ == cands_of_cells(*board, cs.take(b as int)),
                decreases known_sets.len() - b,
            {
                proof {
                    assert(cs.take(b + 1).drop_last() =~= cs.take(b as int));
                }
                tuple_knowns = tuple_knowns.union(known_sets[b]);
                b = b + 1;
            }
            proof {
                assert(cs.take(size as int) =~= cs);
                lemma_degenerate_hides(*board, known_sets@, cs, size as nat);
            }
            if tuple_knowns.len() != size || is_degenerate(&known_sets, size, 2) || is_degenerate(
                &known_sets,
                size,
                3,
            ) {
                j = j + 1;
                continue;
            }
            let erase_cells = house_set.minus(tuple_cells);
            let mut action = Action::new(strategy);
            let digits = tuple_knowns.to_vec();
            let mut d: usize = 0;
            while d < digits.len()
                invariant
                    d <= digits.len(),
                    action.strategy_spec() == strategy,
                    action.sets_spec() == Seq::new(81, |i: int| 0nat),
                    erases_candidates(*board, action),
                    forall|i: int| 0 <= i < digits.len() ==> tuple_knowns@.contains(#[trigger] digits[i]@),
                    forall|c: int, x: nat|
                        0 <= c < 81 && #[trigger] action.erases_spec()[c].contains(x) ==> erase_cells@.contains(c as nat)
                            && tuple_knowns@.contains(x),
                    forall|e: int, c: nat|
                        0 <= e < d && erase_cells@.contains(c) && #[trigger] board.cands_spec()[c as int].contains(
                            digits[e]@,
                        ) ==> action.erases_spec()[c as int].contains(digits[e]@),
                    forall|c: nat| erase_cells@.contains(c) ==> c < 81,
                decreases digits.len() - d,
            {
                let k = digits[d];
                let cand_cells = board.candidate_cells(k);
                let here = erase_cells.intersect(cand_cells);
                let ghost before = action;
                action.erase_cells(here, k);
                proof {
                    lemma_erase_cells_keeps(*board, before, action, here@, k@);
                }
                action.clue_cells_for_known(Verdict::Secondary, tuple_cells.intersect(cand_cells), k);
                proof {
                    assert forall|e: int, c: nat|
                        0 <= e < d + 1 && erase_cells@.contains(c) && #[trigger] board.cands_spec()[c as int].contains(
                            digits[e]@,
                        ) implies action.erases_spec()[c as int].contains(digits[e]@) by {
                        if e < d {
                            assert(before.erases_spec()[c as int].contains(digits[e]@));
                        } else {
                            assert(here@.contains(c));
                        }
                    }
                    assert forall|c: int, x: nat|
                        0 <= c < 81 && #[trigger] action.erases_spec()[c].contains(x) implies erase_cells@.contains(c as nat)
                            && tuple_knowns@.contains(x) by {
                        if !before.erases_spec()[c].contains(x) {
                            assert(here@.contains(c as nat));
                        }
                    }
                }
                d = d + 1;
            }
            let ghost erased_by = action.erases_spec();
            let members_of_tuple = tuple_cells.to_vec();
            let full = KnownSet::full();
            let mut e: usize = 0;
            while e < members_of_tuple.len()
                invariant
                    e <= members_of_tuple.len(),
                    action.strategy_spec() == strategy,
                    action.sets_spec() == Seq::new(81, |i: int| 0nat),
                    action.erases_spec() == erased_by,
                    erases_candidates(*board, action),
                decreases members_of_tuple.len() - e,
            {
                let c = members_of_tuple[e];
                action.clue_cell_for_knowns(Verdict::Related, c, full.minus(board.candidates(c)));
                e = e + 1;
            }
            proof {
                assert(sets_candidates(*board, action));
                assert forall|c: nat| #[trigger] erase_cells@.contains(c) <==> (house_cells(house@.0, house@.1).contains(c)
                    && !cs.contains(c)) by {
                    if cs.contains(c) {
                        let b = choose|b: int| 0 <= b < cs.len() && cs[b] == c;
                        assert(tuple_cells@.contains(c));
                    }
                    if tuple_cells@.contains(c) {
                        let b = choose|b: int| 0 <= b < size && cs[b] == c;
                        assert(cs.contains(c));
                    }
                }
                if naked_tuple(*board, house@.0, house@.1, size as nat, cs) {
                    let (c, x) = choose|c: nat, x: nat|
                        house_cells(house@.0, house@.1).contains(c) && !cs.contains(c) && cands_of_cells(
                            *board,
                            cs,
                        ).contains(x) && #[trigger] board.cands_spec()[c as int].contains(x);
                    assert(erase_cells@.contains(c));
                    let i = choose|i: int| 0 <= i < digits.len() && (#[trigger] digits[i])@ == x;
                    assert(board.cands_spec()[c as int].contains(digits[i]@));
                    assert(action.erases_spec()[c as int].contains(x));
                    assert(!action.is_empty_spec());
                } else {
                    assert forall|i: int| 0 <= i < 81 implies #[trigger] action.erases_spec()[i] == Set::<nat>::empty() by {
                        if exists|x: nat| action.erases_spec()[i].contains(x) {
                            let x = choose|x: nat| action.erases_spec()[i].contains(x);
                            assert(board.cands_spec()[i].contains(x));
                            assert(erase_cells@.contains(i as nat));
                            assert(naked_tuple(*board, house@.0, house@.1, size as nat, cs));
                        }
                        assert(action.erases_spec()[i] =~= Set::<nat>::empty());
                    }
                    assert(action.is_empty_spec());
                }
                assert(tuple_knowns@ == cands_of_cells(*board, cs));
                assert forall|i: int| 0 <= i < 81 implies #[trigger] action.erases_spec()[i] == if house_cells(
                    house@.0,
                    house@.1,
                ).contains(i as nat) && !cs.contains(i as nat) {
                    cands_of_cells(*board, cs).intersect(board.cands_spec()[i])
                } else {
                    Set::<nat>::empty()
                } by {
                    assert forall|x: nat| action.erases_spec()[i].contains(x) implies erase_cells@.contains(i as nat)
                        && tuple_knowns@.contains(x) && board.cands_spec()[i].contains(x) by {}
                    if erase_cells@.contains(i as nat) {
                        assert forall|x: nat| tuple_knowns@.contains(x) && board.cands_spec()[i].contains(x) implies action.erases_spec()[i].contains(x) by {
                            let e = choose|e: int| 0 <= e < digits.len() && (#[trigger] digits[e])@ == x;
                            assert(board.cands_spec()[i].contains(digits[e]@));
                        }
                    }
                    assert(action.erases_spec()[i] =~= if house_cells(house@.0, house@.1).contains(i as nat) && !cs.contains(i as nat) {
                        cands_of_cells(*board, cs).intersect(board.cands_spec()[i])
                    } else {
                        Set::<nat>::empty()
                    });
                }
                assert(tuple_erasure(*board, house@.0, house@.1, cs, action));
            }
            let ghost act = action;
            let ghost before_actions = effects.actions_spec();
            let added = effects.add_action(action);
            proof {
                assert forall|x: int| 0 <= x < effects.actions_spec().len() implies naked_tuple_action(
                    *board,
                    #[trigger] effects.actions_spec()[x],
                    size as nat,
                ) by {
                    if added && x == effects.actions_spec().len() - 1 {
                        assert(effects.actions_spec()[x] == act);
                        assert(naked_tuple(*board, house@.0, house@.1, size as nat, cs));
                    } else {
                        assert(effects.actions_spec()[x] == before_actions[x]);
                    }
                }
                assert forall|x: int| 0 <= x < effects.actions_spec().len() implies valid_action(
                    *board,
                    #[trigger] effects.actions_spec()[x],
                    strategy,
                ) by {
                    if added && x == effects.actions_spec().len() - 1 {
                        assert(effects.actions_spec()[x] == act);
                    }
                }
                assert(cs == Seq::new(size as nat, |a: int| members[combos[j as int][a] as int].0@));
                if !single {
                    lemma_reported_push(*board, before_actions, act, size as nat, h as nat);
                    if added {
                        assert(effects.actions_spec() == before_actions.push(act));
                    } else {
                        assert(effects.actions_spec() == before_actions);
                    }
                    assert forall|x: int|
                        0 <= x < j + 1 && naked_tuple(
                            *board,
                            house@.0,
                            house@.1,
                            size as nat,
                            Seq::new(size as nat, |a: int| members[(#[trigger] combos[x])[a] as int].0@),
                        ) implies tuple_reported(
                        *board,
                        effects.actions_spec(),
                        house@.0,
                        house@.1,
                        Seq::new(size as nat, |a: int| members[combos[x][a] as int].0@),
                    ) by {
                        let t = Seq::new(size as nat, |a: int| members[combos[x][a] as int].0@);
                        if x == j {
                            assert(t == cs);
                            let last = effects.actions_spec().len() - 1;
                            assert(effects.actions_spec()[last] == act);
                            assert(tuple_erasure(*board, house@.0, house@.1, t, effects.actions_spec()[last]));
                        } else {
                            let y = choose|y: int|
                                0 <= y < before_actions.len() && #[trigger] tuple_erasure(*board, house@.0, house@.1, t, before_actions[y]);
                            assert(effects.actions_spec()[y] == before_actions[y]);
                            assert(tuple_erasure(*board, house@.0, house@.1, t, effects.actions_spec()[y]));
                        }
                    }
                }
            }
            if added && single {
                return Some(effects);
            }
            j = j + 1;
        }
        proof {
            if effects.actions_spec().len() == 0 {
                assert forall|s: Shape, hn: nat, cs: Seq<nat>|
                    #[trigger] naked_tuple(*board, s, hn, size as nat, cs) implies shape_index(s) * 9 + hn >= h + 1 by {
                    if shape_index(s) * 9 + hn == h {
                        assert(s == house@.0 && hn == house@.1);
                        let t = Seq::new(
                            size as nat,
                            |a: int| (choose|p: int| 0 <= p < members.len() && members[p].0@ == cs[a]) as usize,
                        );
                        assert forall|a: int| 0 <= a < size implies 0 <= #[trigger] t[a] < members.len() && members[t[a] as int].0@
                            == cs[a] by {
                            assert(house_cells(house@.0, house@.1).contains(cs[a]));
                            assert(2 <= board.cands_spec()[cs[a] as int].len() <= size);
                        }
                        assert forall|a: int, b: int| 0 <= a < b < size implies t[a] < t[b] by {
                            assert(cs[a] < cs[b]);
                            if t[a] >= t[b] {
                                if t[a] > t[b] {
                                    assert(members[t[b] as int].0@ < members[t[a] as int].0@);
                                }
                            }
                        }
                        assert(is_combination(t, members.len() as nat, size as nat));
                        let i = choose|i: int| 0 <= i < combos.len() && combos[i]@ == t;
                        assert(Seq::new(size as nat, |a: int| members[combos[i][a] as int].0@) =~= cs);
                    }
                }
            }
        }
        proof {
            if !single {
                assert forall|s: Shape, hn: nat, cs: Seq<nat>|
                    #[trigger] naked_tuple(*board, s, hn, size as nat, cs) && shape_index(s) * 9 + hn < h + 1 implies tuple_reported(
                    *board,
                    effects.actions_spec(),
                    s,
                    hn,
                    cs,
                ) by {
                    if shape_index(s) * 9 + hn == h {
                        assert(s == house@.0 && hn == house@.1);
                        let t = Seq::new(
                            size as nat,
                            |a: int| (choose|p: int| 0 <= p < members.len() && members[p].0@ == cs[a]) as usize,
                        );
                        assert forall|a: int| 0 <= a < size implies 0 <= #[trigger] t[a] < members.len() && members[t[a] as int].0@
                            == cs[a] by {
                            assert(house_cells(house@.0, house@.1).contains(cs[a]));
                            assert(2 <= board.cands_spec()[cs[a] as int].len() <= size);
                        }
                        assert forall|a: int, b: int| 0 <= a < b < size implies t[a] < t[b] by {
                            assert(cs[a] < cs[b]);
                            if t[a] >= t[b] {
                                if t[a] > t[b] {
                                    assert(members[t[b] as int].0@ < members[t[a] as int].0@);
                                }
                            }
                        }
                        assert(is_combination(t, members.len() as nat, size as nat));
                        let i = choose|i: int| 0 <= i < combos.len() && combos[i]@ == t;
                        assert(Seq::new(size as nat, |a: int| members[combos[i][a] as int].0@) =~= cs);
                    }
                }
            }
        }
        h = h + 1;
    }
    proof {
        if effects.actions_spec().len() == 0 && has_naked_tuple(*board, size as nat) {
            let (s, hn, cs) = choose|s: Shape, hn: nat, cs: Seq<nat>| #[trigger] naked_tuple(*board, s, hn, size as nat, cs);
            assert(naked_tuple(*board, s, hn, size as nat, cs));
            assert(shape_index(s) <= 2);
        }
    }
    if effects.has_actions() {
        Some(effects)
    } else {
        None
    }
}

/// Naked pairs: two cells of a house with the same two candidates.
pub fn find_naked_pairs(board: &Board, single: bool) -> (r: Option<Effects>)
    ensures
        found_by(*board, r, single, Strategy::NakedPair),
        r is Some <==> has_naked_tuple(*board, 2),
        r matches Some(e) ==> forall|x: int|
            0 <= x < e.actions_spec().len() ==> naked_tuple_action(*board, #[trigger] e.actions_spec()[x], 2),
        !single ==> (r matches Some(e) ==> reported_before(*board, e.actions_spec(), 2, 27)),
{
    find_naked_tuples(board, single, 2, Strategy::NakedPair)
}

/// Naked triples: three cells of a house with three candidates together.
pub fn find_naked_triples(board: &Board, single: bool) -> (r: Option<Effects>)
    ensures
        found_by(*board, r, single, Strategy::NakedTriple),
        r is Some <==> has_naked_tuple(*board, 3),
        r matches Some(e) ==> forall|x: int|
            0 <= x < e.actions_spec().len() ==> naked_tuple_action(*board, #[trigger] e.actions_spec()[x], 3),
        !single ==> (r matches Some(e) ==> reported_before(*board, e.actions_spec(), 3, 27)),
{
    find_naked_tuples(board, single, 3, Strategy::NakedTriple)
}

/// Naked quads: four cells of a house with four candidates together.
pub fn find_naked_quads(board: &Board, single: bool) -> (r: Option<Effects>)
    ensures
        found_by(*board, r, single, Strategy::NakedQuad),
        r is Some <==> has_naked_tuple(*board, 4),
        r matches Some(e) ==> forall|x: int|
            0 <= x < e.actions_spec().len() ==> naked_tuple_action(*board, #[trigger] e.actions_spec()[x], 4),
        !single ==> (r matches Some(e) ==> reported_before(*board, e.actions_spec(), 4, 27)),
{
    find_naked_tuples(board, single, 4, Strategy::NakedQuad)
}

} // verus!
