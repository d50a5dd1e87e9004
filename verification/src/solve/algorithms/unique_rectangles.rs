use vstd::prelude::*;

use crate::layout::cell::{block_of, col_of, lemma_cell_at, peers_of, row_of, Cell};
use crate::layout::cell_set::{lemma_cell_set_bounded, CellSet};
use crate::layout::house::{houses_of_cells, lemma_house_view_injective, House};
use crate::layout::house_set::{all_coords, HouseSet};
use crate::layout::known::Known;
use crate::layout::known_set::{lemma_known_set_bounded, KnownSet};
use crate::layout::rectangle::{block_span, Rectangle};
use crate::layout::shape::{house_cells, house_of, shape_index, Shape};
use crate::solve::action::Action;
use crate::solve::algorithms::combinations::combinations;
use crate::solve::algorithms::naked_tuples::is_degenerate;
use crate::solve::algorithms::{
    erases_candidates, found_by, group_by_candidates, groups_match, lemma_erase_cells_keeps,
    lemma_erase_knowns_keeps, sets_candidates, valid_action, valid_effects, Solver,
};
use crate::solve::board::{candidate_cells_of, lemma_board_cands_shape, lemma_board_values_shape, Board};
use crate::solve::effects::Effects;
use crate::solve::strategy::{Strategy, Verdict};

verus! {

broadcast use {
    lemma_cell_at,
    lemma_cell_set_bounded,
    lemma_known_set_bounded,
    lemma_board_values_shape,
    lemma_board_cands_shape,
    lemma_house_view_injective,
};

/// The technique of four cells in two rows, two columns and two blocks that
/// would have two solutions if they kept only the same two candidates.
pub struct UniqueRectangleSolver;

impl Solver for UniqueRectangleSolver {
    fn strategy(&self) -> (r: Strategy)
        ensures
            r == Strategy::UniqueRectangle,
    {
        Strategy::UniqueRectangle
    }

    fn apply(&self, board: &Board, single: bool) -> (r: Option<Effects>)
        ensures
            found_by(*board, r, single, Strategy::UniqueRectangle),
            r is Some <==> has_unique_rectangle(*board),
            r matches Some(e) ==> ur_all(*board, e.actions_spec()),
            r is Some ==> bivalue_twins(*board),
    {
        find_unique_rectangles(board, single)
    }
}

/// The two digits of a pair, the lower first.
pub open spec fn pair_digits(pair: Set<nat>) -> (nat, nat) {
    choose|p: (nat, nat)| p.0 < p.1 && pair == set![p.0, p.1]
}

/// Type two on the rectangle with roof `rl`, `rr`, whose digits beside
/// the pair are `lx` and `rx`: both are the same one digit, and some cell
/// that sees both roof cells holds it.
pub open spec fn ur_type_two(board: Board, lx: Set<nat>, rx: Set<nat>, rl: nat, rr: nat) -> bool {
    let k = lx.choose();
    &&& lx.len() == 1
    &&& lx == rx
    &&& exists|x: nat|
        #[trigger] candidate_cells_of(board.cands_spec(), k).contains(x) && peers_of(rl).contains(x) && peers_of(
            rr,
        ).contains(x)
}

/// Type three on the rectangle with roof `rl`, `rr`, whose digits beside
/// the pair are `extras`: two to four of them, and in some house through
/// both roof cells, with some tuple size, the first qualifying tuple
/// erases something.
pub open spec fn ur_type_three(board: Board, rl: nat, rr: nat, extras: Set<nat>) -> bool {
    &&& 2 <= extras.len() <= 4
    &&& exists|s: Shape, size: nat| #[trigger] t3_fires_at(board, rl, rr, set![rl, rr], extras, s, size)
}

/// Type four in the house of shape `s` through both roof cells: exactly
/// one of the digits `p1`, `p2` has no cell of the house but the roof.
pub open spec fn ur_type_four_at(board: Board, p1: nat, p2: nat, rl: nat, rr: nat, s: Shape) -> bool {
    let h = house_of(s, rl);
    &&& h == house_of(s, rr)
    &&& (candidate_cells_of(board.cands_spec(), p1).intersect(house_cells(s, h)) == set![rl, rr]) != (
    candidate_cells_of(board.cands_spec(), p2).intersect(house_cells(s, h)) == set![rl, rr])
}

/// Check `t` (0..4) of type five: digit `p1` (even `t`) or `p2` has two
/// candidate cells in the row (`t` below 2) or column of each floor cell.
pub open spec fn ur_type_five_at(board: Board, p1: nat, p2: nat, fl: nat, fr: nat, t: nat) -> bool {
    let s = if t < 2 {
        Shape::Row
    } else {
        Shape::Column
    };
    let k = if t % 2 == 0 {
        p1
    } else {
        p2
    };
    &&& candidate_cells_of(board.cands_spec(), k).intersect(house_cells(s, house_of(s, fl))).len() == 2
    &&& candidate_cells_of(board.cands_spec(), k).intersect(house_cells(s, house_of(s, fr))).len() == 2
}

/// One of types two to five fires on the rectangle with floor `fl`, `fr`
/// and roof `rl`, `rr`, whose floor holds only the digits `p1`, `p2`
/// (type five only on a diagonal one).
pub open spec fn ur_fires(board: Board, p1: nat, p2: nat, fl: nat, fr: nat, rl: nat, rr: nat, diagonal: bool) -> bool {
    let pair = set![p1, p2];
    let lx = board.cands_spec()[rl as int].difference(pair);
    let rx = board.cands_spec()[rr as int].difference(pair);
    ||| diagonal && exists|t: nat| t < 4 && #[trigger] ur_type_five_at(board, p1, p2, fl, fr, t)
    ||| ur_type_two(board, lx, rx, rl, rr)
    ||| ur_type_three(board, rl, rr, lx.union(rx))
    ||| exists|s: Shape| #[trigger] ur_type_four_at(board, p1, p2, rl, rr, s)
}

/// The digits of a pair are its lower and its higher one.
proof fn lemma_pair_digits(pair: Set<nat>, a: nat, b: nat)
    requires
        a < b,
        pair == set![a, b],
    ensures
        pair_digits(pair) == (a, b),
{
    let p = pair_digits(pair);
    assert(a < b && pair == set![a, b]);
    assert(set![p.0, p.1].contains(p.0) && set![p.0, p.1].contains(p.1));
    assert(pair.contains(a) && pair.contains(b));
}

/// The houses of shape `s` searched for the roof of a rectangle whose
/// floor `fl`, `fr` lies in one house of that shape: where the floor lies
/// in one block, those outside the block's band; else the other houses of
/// the band.
pub open spec fn roof_houses(s: Shape, fl: nat, fr: nat) -> Set<nat> {
    let band = houses_of_cells(s, house_cells(Shape::Block, block_of(fl)));
    if block_of(fl) == block_of(fr) {
        all_coords().difference(band)
    } else {
        band.remove(house_of(s, fl))
    }
}

/// The roof cells over the floor `fl`, `fr` in house `h` of shape `s`.
pub open spec fn roof_cells(s: Shape, fl: nat, fr: nat, h: nat) -> (nat, nat) {
    match s {
        Shape::Row => (h * 9 + col_of(fl), h * 9 + col_of(fr)),
        _ => (row_of(fl) * 9 + h, row_of(fr) * 9 + h),
    }
}

/// One of types two to five fires on the rectangle whose floor `fl`, `fr`
/// holds only `pair` and whose roof lies in house `h` of shape `s`, one of
/// those searched.
pub open spec fn neighbor_fires_at(board: Board, pair: Set<nat>, fl: nat, fr: nat, s: Shape, h: nat) -> bool {
    let (rl, rr) = roof_cells(s, fl, fr, h);
    &&& roof_houses(s, fl, fr).contains(h)
    &&& corners_fit(board, pair, fl, fr, rl, rr)
    &&& ur_fires(board, pair_digits(pair).0, pair_digits(pair).1, fl, fr, rl, rr, false)
}

/// Two cells in column order.
pub open spec fn by_column(a: nat, b: nat) -> (nat, nat) {
    if col_of(a) < col_of(b) {
        (a, b)
    } else {
        (b, a)
    }
}

/// One of types two to five fires on the rectangle whose opposite corners
/// `f1`, `f2` hold only `pair`, the floor and the roof each taken in
/// column order.
pub open spec fn diagonal_fires(board: Board, pair: Set<nat>, f1: nat, f2: nat) -> bool {
    let (fl, fr) = by_column(f1, f2);
    let (rl, rr) = by_column(row_of(f1) * 9 + col_of(f2), row_of(f2) * 9 + col_of(f1));
    &&& diagonal_fit(board, pair, f1, f2)
    &&& ur_fires(board, pair_digits(pair).0, pair_digits(pair).1, fl, fr, rl, rr, true)
}

/// What type two erases from cell `i`: the roof's extra digit `k` from
/// the cells that hold it and see both roof cells.
pub open spec fn ur_two_erasure(board: Board, rl: nat, rr: nat, k: nat, i: nat) -> Set<nat> {
    if candidate_cells_of(board.cands_spec(), k).intersect(peers_of(rl)).intersect(peers_of(rr)).contains(i) {
        set![k]
    } else {
        Set::<nat>::empty()
    }
}

/// What type four in the house of shape `s` erases from cell `i`: the
/// digit of the pair other than the one confined to the roof, from the
/// roof.
pub open spec fn ur_four_erasure(board: Board, p1: nat, p2: nat, rl: nat, rr: nat, s: Shape, i: nat) -> Set<nat> {
    let e = if candidate_cells_of(board.cands_spec(), p1).intersect(house_cells(s, house_of(s, rl))) == set![rl, rr] {
        p2
    } else {
        p1
    };
    if i == rl || i == rr {
        set![e]
    } else {
        Set::<nat>::empty()
    }
}

/// What type five erases from cell `i` after check `t`: the digit of the
/// pair other than the one checked, from the floor.
pub open spec fn ur_five_erasure(p1: nat, p2: nat, fl: nat, fr: nat, t: nat, i: nat) -> Set<nat> {
    let e = if t % 2 == 0 {
        p2
    } else {
        p1
    };
    if i == fl || i == fr {
        set![e]
    } else {
        Set::<nat>::empty()
    }
}

/// An action of type two, three, four or five on the rectangle with floor
/// `fl`, `fr` holding only `p1`, `p2` and roof `rl`, `rr`: the type fires
/// and the action erases what it rules out (type four in the first house
/// where it fires, type five after the last check that fires), and sets
/// nothing.
pub open spec fn ur_rect_action(
    board: Board,
    p1: nat,
    p2: nat,
    fl: nat,
    fr: nat,
    rl: nat,
    rr: nat,
    diagonal: bool,
    a: Action,
) -> bool {
    let pair = set![p1, p2];
    let lx = board.cands_spec()[rl as int].difference(pair);
    let rx = board.cands_spec()[rr as int].difference(pair);
    &&& a.sets_spec() == Seq::new(81, |i: int| 0nat)
    &&& {
        ||| diagonal && exists|t: nat|
            t < 4 && #[trigger] ur_type_five_at(board, p1, p2, fl, fr, t) && (forall|u: nat|
                t < u < 4 ==> !#[trigger] ur_type_five_at(board, p1, p2, fl, fr, u)) && forall|i: int|
                0 <= i < 81 ==> #[trigger] a.erases_spec()[i] == ur_five_erasure(p1, p2, fl, fr, t, i as nat)
        ||| ur_type_two(board, lx, rx, rl, rr) && forall|i: int|
            0 <= i < 81 ==> #[trigger] a.erases_spec()[i] == ur_two_erasure(board, rl, rr, lx.choose(), i as nat)
        ||| ur_type_three(board, rl, rr, lx.union(rx)) && forall|i: int, d: nat|
            0 <= i < 81 ==> (#[trigger] a.erases_spec()[i].contains(d) <==> exists|s: Shape, size: nat|
                #[trigger] t3_erases_at(board, rl, rr, set![rl, rr], lx.union(rx), s, size, i as nat, d))
        ||| exists|s: Shape|
            #[trigger] ur_type_four_at(board, p1, p2, rl, rr, s) && (forall|s2: Shape|
                shape_index(s2) < shape_index(s) ==> !#[trigger] ur_type_four_at(board, p1, p2, rl, rr, s2)) && forall|
                i: int,
            | 0 <= i < 81 ==> #[trigger] a.erases_spec()[i] == ur_four_erasure(board, p1, p2, rl, rr, s, i as nat)
    }
}

/// An action of a type one on the corners `c1`, `c2`, `c3`: it erases the
/// pair from the fourth corner, and nothing else, and sets nothing.
pub open spec fn ur_one_action(board: Board, c1: nat, c2: nat, c3: nat, a: Action) -> bool {
    let s = set![c1, c2, c3];
    &&& type_one_at(board, c1, c2, c3)
    &&& a.sets_spec() == Seq::new(81, |i: int| 0nat)
    &&& exists|rect: Rectangle|
        #[trigger] rectangle_of_cells(s, rect) && forall|i: int|
            0 <= i < 81 ==> #[trigger] a.erases_spec()[i] == if rect.cell_set()@.difference(s).contains(i as nat) {
                board.cands_spec()[c1 as int]
            } else {
                Set::<nat>::empty()
            }
}

/// An action of a unique rectangle of the board: of a type one, or of
/// types two to five on a rectangle whose floor holds only the digits
/// `p1 < p2` and whose roof holds both.
pub open spec fn ur_action(board: Board, a: Action) -> bool {
    ||| exists|c1: nat, c2: nat, c3: nat| #[trigger] ur_one_action(board, c1, c2, c3, a)
    ||| exists|p1: nat, p2: nat, fl: nat, fr: nat, rl: nat, rr: nat, diagonal: bool|
        p1 < p2 && board.cands_spec()[fl as int] == set![p1, p2] && board.cands_spec()[fr as int] == set![p1, p2]
            && set![p1, p2].subset_of(board.cands_spec()[rl as int]) && set![p1, p2].subset_of(
            board.cands_spec()[rr as int],
        ) && #[trigger] ur_rect_action(board, p1, p2, fl, fr, rl, rr, diagonal, a)
}

/// Every action of the list is one of a unique rectangle of the board.
pub open spec fn ur_all(board: Board, actions: Seq<Action>) -> bool {
    forall|x: int| 0 <= x < actions.len() ==> ur_action(board, #[trigger] actions[x])
}

/// One more such action keeps the list so.
proof fn lemma_ur_all_push(board: Board, actions: Seq<Action>, a: Action)
    requires
        ur_all(board, actions),
        ur_action(board, a),
    ensures
        ur_all(board, actions.push(a)),
{
    assert forall|x: int| 0 <= x < actions.push(a).len() implies ur_action(board, #[trigger] actions.push(a)[x]) by {
        if x < actions.len() {
            assert(actions.push(a)[x] == actions[x]);
        }
    }
}

/// Adds the action when it does something; keeps the effects valid.
fn add_valid(board: &Board, action: Action, effects: &mut Effects) -> (added: bool)
    requires
        valid_effects(*board, *old(effects), Strategy::UniqueRectangle),
        action.strategy_spec() == Strategy::UniqueRectangle,
        erases_candidates(*board, action),
        sets_candidates(*board, action),
    ensures
        valid_effects(*board, *final(effects), Strategy::UniqueRectangle),
        final(effects).actions_spec().len() == old(effects).actions_spec().len() + if added {
            1int
        } else {
            0int
        },
        added == !action.is_empty_spec(),
        final(effects).actions_spec() == if added {
            old(effects).actions_spec().push(action)
        } else {
            old(effects).actions_spec()
        },
{
    let ghost act = action;
    let added = effects.add_action(action);
    proof {
        assert forall|x: int| 0 <= x < effects.actions_spec().len() implies valid_action(
            *board,
            #[trigger] effects.actions_spec()[x],
            Strategy::UniqueRectangle,
        ) by {
            if added && x == effects.actions_spec().len() - 1 {
                assert(effects.actions_spec()[x] == act);
            }
        }
    }
    added
}

/// Whether the list holds a rectangle with the same corners.
fn contains_rectangle(list: &Vec<Rectangle>, rectangle: &Rectangle) -> (r: bool)
    ensures
        r == exists|i: int|
            0 <= i < list.len() && (#[trigger] list[i]).tl() == rectangle.tl() && list[i].br() == rectangle.br(),
{
    let mut i: usize = 0;
    while i < list.len()
        invariant
            i <= list.len(),
            forall|j: int| 0 <= j < i ==> !((#[trigger] list[j]).tl() == rectangle.tl() && list[j].br() == rectangle.br()),
        decreases list.len() - i,
    {
        if list[i].same_corners(rectangle) {
            return true;
        }
        i = i + 1;
    }
    false
}

/// The rectangle whose corners include the cells `s`, which lie in two
/// rows `top < bottom` and two columns `left < right`.
pub open spec fn rectangle_of_cells(s: Set<nat>, rect: Rectangle) -> bool {
    exists|top: nat, bottom: nat, left: nat, right: nat|
        top < bottom && left < right && houses_of_cells(Shape::Row, s) == set![top, bottom] && houses_of_cells(
            Shape::Column,
            s,
        ) == set![left, right] && rect.spanning(top * 9 + left, bottom * 9 + right)
}

/// A type one unique rectangle: the cells `c1 < c2 < c3` hold only the same
/// two digits and lie in two rows and two columns; the rectangle they make
/// spans two blocks, and its fourth corner holds both digits too.
pub open spec fn type_one_at(board: Board, c1: nat, c2: nat, c3: nat) -> bool {
    let s = set![c1, c2, c3];
    let pair = board.cands_spec()[c1 as int];
    &&& c1 < c2 < c3 < 81
    &&& pair.len() == 2
    &&& board.cands_spec()[c2 as int] == pair
    &&& board.cands_spec()[c3 as int] == pair
    &&& houses_of_cells(Shape::Row, s).len() == 2
    &&& houses_of_cells(Shape::Column, s).len() == 2
    &&& forall|rect: Rectangle| #[trigger] rectangle_of_cells(s, rect) ==> {
        let rest = rect.cell_set()@.difference(s);
        &&& rect.blocks() == 2
        &&& rest.len() == 1
        &&& pair.subset_of(board.cands_spec()[rest.choose() as int])
    }
}

/// Two cells that hold the same two candidates, as every unique rectangle
/// has.
pub open spec fn bivalue_twins(board: Board) -> bool {
    exists|c1: nat, c2: nat|
        c1 < c2 < 81 && (#[trigger] board.cands_spec()[c1 as int]).len() == 2 && #[trigger] board.cands_spec()[c2 as int]
            == board.cands_spec()[c1 as int]
}

/// Two cells that hold the same two candidates and lie in one row, one
/// column or neither, and a rectangle whose floor they are, on which one
/// of types two to five fires.
pub open spec fn ur_pair_fires(board: Board, f1: nat, f2: nat) -> bool {
    let pair = board.cands_spec()[f1 as int];
    &&& f1 < f2 < 81
    &&& pair.len() == 2
    &&& board.cands_spec()[f2 as int] == pair
    &&& if row_of(f1) == row_of(f2) {
        exists|h: nat| #[trigger] neighbor_fires_at(board, pair, f1, f2, Shape::Row, h)
    } else if col_of(f1) == col_of(f2) {
        exists|h: nat| #[trigger] neighbor_fires_at(board, pair, f1, f2, Shape::Column, h)
    } else {
        diagonal_fires(board, pair, f1, f2)
    }
}

/// The board has a unique rectangle of one of the five types.
pub open spec fn has_unique_rectangle(board: Board) -> bool {
    ||| exists|c1: nat, c2: nat, c3: nat| #[trigger] type_one_at(board, c1, c2, c3)
    ||| exists|f1: nat, f2: nat| #[trigger] ur_pair_fires(board, f1, f2)
}

/// Two rows (or columns) given in increasing order are the same two.
proof fn lemma_ordered_pair(a: nat, b: nat, c: nat, d: nat)
    requires
        a < b,
        c < d,
        set![a, b] == set![c, d],
    ensures
        a == c && b == d,
{
    assert(set![a, b].contains(a) && set![a, b].contains(b));
    assert(set![c, d].contains(c) && set![c, d].contains(d));
}

/// Three corners that hold only the pair, whose rectangle spans two blocks
/// and whose fourth cell holds the pair, are a type one.
proof fn lemma_type_one_at(board: Board, c1: nat, c2: nat, c3: nat, rect: Rectangle, found: Seq<Rectangle>)
    requires
        c1 < c2 < c3 < 81,
        board.cands_spec()[c1 as int].len() == 2,
        board.cands_spec()[c2 as int] == board.cands_spec()[c1 as int],
        board.cands_spec()[c3 as int] == board.cands_spec()[c1 as int],
        rectangle_of_cells(set![c1, c2, c3], rect),
        type_one_fits(board, set![c1, c2, c3], rect, board.cands_spec()[c1 as int], found),
    ensures
        type_one_at(board, c1, c2, c3),
{
    let s = set![c1, c2, c3];
    let (top, bottom, left, right) = choose|top: nat, bottom: nat, left: nat, right: nat|
        top < bottom && left < right && houses_of_cells(Shape::Row, s) == set![top, bottom] && houses_of_cells(
            Shape::Column,
            s,
        ) == set![left, right] && rect.spanning(top * 9 + left, bottom * 9 + right);
    assert(set![top].len() == 1);
    assert(set![left].len() == 1);
    assert forall|r2: Rectangle| #[trigger] rectangle_of_cells(s, r2) implies r2.cell_set()@ == rect.cell_set()@
        && r2.blocks() == rect.blocks() by {
        let (t2, b2, l2, rt2) = choose|t2: nat, b2: nat, l2: nat, rt2: nat|
            t2 < b2 && l2 < rt2 && houses_of_cells(Shape::Row, s) == set![t2, b2] && houses_of_cells(
                Shape::Column,
                s,
            ) == set![l2, rt2] && r2.spanning(t2 * 9 + l2, b2 * 9 + rt2);
        lemma_ordered_pair(top, bottom, t2, b2);
        lemma_ordered_pair(left, right, l2, rt2);
    }
}

/// The unique rectangles of the board, only the first when `single`: some
/// are found exactly when the board has one of the five types.
#[verifier::rlimit(80)]
pub fn find_unique_rectangles(board: &Board, single: bool) -> (r: Option<Effects>)
    ensures
        found_by(*board, r, single, Strategy::UniqueRectangle),
        r is Some <==> has_unique_rectangle(*board),
        r matches Some(e) ==> ur_all(*board, e.actions_spec()),
        (exists|c1: nat, c2: nat, c3: nat| #[trigger] type_one_at(*board, c1, c2, c3)) ==> r is Some,
        r is Some ==> bivalue_twins(*board),
{
    let mut effects = Effects::new();
    let bi_values = group_by_candidates(board, 2);
    let ghost w = exists|c1: nat, c2: nat, c3: nat| #[trigger] type_one_at(*board, c1, c2, c3);
    let ghost (c1, c2, c3) = choose|c1: nat, c2: nat, c3: nat| #[trigger] type_one_at(*board, c1, c2, c3);
    let ghost gw: int = choose|x: int| 0 <= x < bi_values.len() && bi_values[x].1@.contains(c1);
    proof {
        if w {
            assert(board.cands_spec()[c1 as int].len() == 2);
            let x2 = choose|x: int| 0 <= x < bi_values.len() && bi_values[x].1@.contains(c2);
            let x3 = choose|x: int| 0 <= x < bi_values.len() && bi_values[x].1@.contains(c3);
            assert(board.cands_spec()[c2 as int].len() == 2);
            assert(board.cands_spec()[c3 as int].len() == 2);
            assert(bi_values[gw].0@ == board.cands_spec()[c1 as int]);
            assert(bi_values[x2].0@ == board.cands_spec()[c2 as int]);
            assert(bi_values[x3].0@ == board.cands_spec()[c3 as int]);
            assert(x2 == gw);
            assert(x3 == gw);
        }
    }
    let ghost w2 = exists|f1: nat, f2: nat| #[trigger] ur_pair_fires(*board, f1, f2);
    let ghost (pf1, pf2) = choose|f1: nat, f2: nat| #[trigger] ur_pair_fires(*board, f1, f2);
    let ghost gw2: int = choose|x: int| 0 <= x < bi_values.len() && bi_values[x].1@.contains(pf1);
    proof {
        if w2 {
            assert(board.cands_spec()[pf1 as int].len() == 2);
            let x2 = choose|x: int| 0 <= x < bi_values.len() && bi_values[x].1@.contains(pf2);
            assert(board.cands_spec()[pf2 as int].len() == 2);
            assert(bi_values[gw2].0@ == board.cands_spec()[pf1 as int]);
            assert(bi_values[x2].0@ == board.cands_spec()[pf2 as int]);
            assert(x2 == gw2);
        }
    }
    let mut g: usize = 0;
    while g < bi_values.len()
        invariant
            g <= bi_values.len(),
            groups_match(*board, bi_values@),
            valid_effects(*board, effects, Strategy::UniqueRectangle),
            single ==> effects.actions_spec().len() == 0,
            w ==> type_one_at(*board, c1, c2, c3),
            w ==> 0 <= gw < bi_values.len() && bi_values[gw].1@.contains(c1) && bi_values[gw].1@.contains(c2)
                && bi_values[gw].1@.contains(c3),
            w && g > gw ==> effects.actions_spec().len() > 0,
            effects.actions_spec().len() > 0 ==> bivalue_twins(*board),
            w2 ==> ur_pair_fires(*board, pf1, pf2),
            w2 ==> 0 <= gw2 < bi_values.len() && bi_values[gw2].1@.contains(pf1) && bi_values[gw2].1@.contains(pf2),
            w2 && g > gw2 ==> effects.actions_spec().len() > 0,
            effects.actions_spec().len() > 0 ==> has_unique_rectangle(*board),
            ur_all(*board, effects.actions_spec()),
            forall|x: int, c: nat|
                0 <= x < bi_values.len() && #[trigger] bi_values[x].1@.contains(c) ==> board.cands_spec()[c as int].len()
                    == 2,
        decreases bi_values.len() - g,
    {
        let (pair, cells) = bi_values[g];
        proof {
            assert(forall|c: nat| #[trigger] cells@.contains(c) ==> c < 81 && board.cands_spec()[c as int] == pair@) by {
                assert forall|c: nat| #[trigger] cells@.contains(c) implies c < 81 && board.cands_spec()[c as int] == pair@ by {
                    assert(bi_values@[g as int].1@.contains(c));
                }
            }
            if w && g == gw {
                assert(set![c1, c2, c3].subset_of(cells@));
                assert(set![c1, c2].len() == 2);
                vstd::set_lib::lemma_len_subset(set![c1, c2, c3], cells@);
            }
        }
        let ghost len_before = effects.actions_spec().len();
        if cells.len() >= 2 {
            let mut found_type_ones: Vec<Rectangle> = Vec::new();
            let list = cells.to_vec();
            proof {
                assert forall|x: int| 0 <= x < list.len() implies #[trigger] board.cands_spec()[list[x]@ as int] == pair@
                    && list[x]@ < 81 by {
                    assert(cells@.contains(list[x]@));
                }
            }
            let triples = combinations(list.len(), 3);
            proof {
                crate::layout::set_lemmas::lemma_nonempty_choose(cells@);
                let a = cells@.choose();
                assert(bi_values[g as int].1@.contains(a));
                assert(pair@.len() == 2);
                assert(cells@.remove(a).len() >= 1);
                crate::layout::set_lemmas::lemma_nonempty_choose(cells@.remove(a));
                let b = cells@.remove(a).choose();
                assert(cells@.contains(b) && b != a);
                if a < b {
                    assert(board.cands_spec()[a as int].len() == 2 && board.cands_spec()[b as int] == board.cands_spec()[a as int]);
                } else {
                    assert(board.cands_spec()[b as int].len() == 2 && board.cands_spec()[a as int] == board.cands_spec()[b as int]);
                }
                assert(bivalue_twins(*board));
            }
            let ghost i1: int = choose|i: int| 0 <= i < list.len() && (#[trigger] list[i])@ == c1;
            let ghost i2: int = choose|i: int| 0 <= i < list.len() && (#[trigger] list[i])@ == c2;
            let ghost i3: int = choose|i: int| 0 <= i < list.len() && (#[trigger] list[i])@ == c3;
            let ghost jw: int = choose|x: int| 0 <= x < triples.len() && triples[x]@ == seq![i1 as usize, i2 as usize, i3 as usize];
            proof {
                if w && g == gw {
                    assert(list[i1]@ == c1 && list[i2]@ == c2 && list[i3]@ == c3);
                    if i2 <= i1 {
                        assert(list[i2]@ <= list[i1]@);
                    }
                    if i3 <= i2 {
                        assert(list[i3]@ <= list[i2]@);
                    }
                    let sq = seq![i1 as usize, i2 as usize, i3 as usize];
                    assert(crate::solve::algorithms::combinations::is_combination(sq, list.len() as nat, 3));
                }
            }
            let mut j: usize = 0;
            while j < triples.len()
                invariant
                    j <= triples.len(),
                    valid_effects(*board, effects, Strategy::UniqueRectangle),
                    single ==> effects.actions_spec().len() == 0,
                    forall|x: int| 0 <= x < triples.len() ==> (#[trigger] triples[x]).len() == 3,
                    forall|x: int, a: int|
                        0 <= x < triples.len() && 0 <= a < 3 ==> #[trigger] triples[x][a] < list.len(),
                    pair@.len() == 2,
                    bivalue_twins(*board),
                    found_type_ones.len() > 0 ==> effects.actions_spec().len() > 0,
                    effects.actions_spec().len() >= len_before,
                    w ==> type_one_at(*board, c1, c2, c3),
                    w && g == gw ==> pair@ == board.cands_spec()[c1 as int] && 0 <= jw < triples.len() && triples[jw]@
                        == seq![i1 as usize, i2 as usize, i3 as usize] && 0 <= i1 < list.len() && 0 <= i2 < list.len()
                        && 0 <= i3 < list.len() && list[i1]@ == c1 && list[i2]@ == c2
                        && list[i3]@ == c3,
                    w && g == gw && j > jw ==> effects.actions_spec().len() > 0,
                    effects.actions_spec().len() > 0 ==> has_unique_rectangle(*board),
                    ur_all(*board, effects.actions_spec()),
                    forall|x: int| 0 <= x < list.len() ==> #[trigger] board.cands_spec()[list[x]@ as int] == pair@ && list[x]@ < 81,
                    forall|x: int, y: int| 0 <= x < y < list.len() ==> list[x]@ < list[y]@,
                    forall|x: int| 0 <= x < triples.len() ==> (#[trigger] triples[x])[0] < triples[x][1] && triples[x][1] < triples[x][2],
                decreases triples.len() - j,
            {
                let corners = CellSet::empty().with(list[triples[j][0]]).with(list[triples[j][1]]).with(
                    list[triples[j][2]],
                );
                proof {
                    if w && g == gw && j == jw {
                        assert(triples[j as int][0] == i1 as usize);
                        assert(triples[j as int][1] == i2 as usize);
                        assert(triples[j as int][2] == i3 as usize);
                        assert(list[triples[j as int][0] as int]@ == c1);
                        assert(list[triples[j as int][1] as int]@ == c2);
                        assert(list[triples[j as int][2] as int]@ == c3);
                        assert(corners@ =~= set![c1, c2, c3]);
                        assert(set![c1, c2].len() == 2);
                        assert(corners@.len() == 3);
                    }
                }
                if let Ok(rectangle) = Rectangle::try_from_cells(corners) {
                    proof {
                        if w && g == gw && j == jw {
                            assert(rectangle_of_cells(set![c1, c2, c3], rectangle));
                            let rest = rectangle.cell_set()@.difference(corners@);
                            assert(rest.len() == 1);
                            if found_type_ones.len() == 0 {
                                assert(type_one_fits(*board, corners@, rectangle, pair@, found_type_ones@));
                            }
                            assert(pair@ != Set::<nat>::empty());
                        }
                    }
                    let ghost n_before = effects.actions_spec().len();
                    let ghost found_before = found_type_ones@;
                    let stop = check_type_one(board, single, corners, rectangle, pair, &mut found_type_ones, &mut effects);
                    proof {
                        if effects.actions_spec().len() > n_before {
                            let (a0, a1, a2) = (triples[j as int][0] as int, triples[j as int][1] as int, triples[j as int][2] as int);
                            assert(corners@ =~= set![list[a0]@, list[a1]@, list[a2]@]);
                            assert(a0 < a1 && a1 < a2);
                            assert(a2 < list.len());
                            assert(list[a0]@ < list[a1]@ && list[a1]@ < list[a2]@);
                            assert(board.cands_spec()[list[a2]@ as int] == pair@);
                            lemma_type_one_at(*board, list[a0]@, list[a1]@, list[a2]@, rectangle, found_before);
                            assert(rectangle_of_cells(set![list[a0]@, list[a1]@, list[a2]@], rectangle));
                            assert(ur_one_action(*board, list[a0]@, list[a1]@, list[a2]@, effects.actions_spec().last()));
                            lemma_ur_all_push(*board, effects.actions_spec().drop_last(), effects.actions_spec().last());
                            assert(effects.actions_spec().drop_last().push(effects.actions_spec().last()) == effects.actions_spec());
                        }
                    }
                    if stop {
                        return Some(effects);
                    }
                } else {
                    proof {
                        if w && g == gw && j == jw {
                            assert(false);
                        }
                    }
                }
                j = j + 1;
            }
            let ghost ia: int = choose|i: int| 0 <= i < list.len() && (#[trigger] list[i])@ == pf1;
            let ghost ib: int = choose|i: int| 0 <= i < list.len() && (#[trigger] list[i])@ == pf2;
            proof {
                if w2 && g == gw2 {
                    assert(cells@.contains(pf1) && cells@.contains(pf2));
                    assert(list[ia]@ == pf1 && list[ib]@ == pf2);
                    if ib <= ia {
                        assert(list[ib]@ <= list[ia]@);
                    }
                }
            }
            let ghost n_mid = effects.actions_spec().len();
            if check_floors(board, single, pair, &list, &found_type_ones, &mut effects) {
                return Some(effects);
            }
            proof {
                if w2 && g == gw2 && found_type_ones.len() == 0 {
                    assert(ur_pair_fires(*board, list[ia]@, list[ib]@));
                    assert(effects.actions_spec().len() > n_mid);
                }
            }
        } else {
            proof {
                if w2 && g == gw2 {
                    assert(set![pf1, pf2].subset_of(cells@));
                    assert(set![pf1].len() == 1);
                    assert(set![pf1, pf2].len() == 2);
                    vstd::set_lib::lemma_len_subset(set![pf1, pf2], cells@);
                }
            }
        }
        g = g + 1;
    }
    if effects.has_actions() {
        Some(effects)
    } else {
        None
    }
}

/// Looks at every two of the cells, which hold only `pair`, as the floor
/// of a rectangle of types two to five; tells whether to stop.
#[verifier::rlimit(50)]
fn check_floors(
    board: &Board,
    single: bool,
    pair: KnownSet,
    list: &Vec<Cell>,
    found_type_ones: &Vec<Rectangle>,
    effects: &mut Effects,
) -> (stop: bool)
    requires
        valid_effects(*board, *old(effects), Strategy::UniqueRectangle),
        single ==> old(effects).actions_spec().len() == 0,
        pair@.len() == 2,
        forall|x: int| 0 <= x < list.len() ==> #[trigger] board.cands_spec()[list[x]@ as int] == pair@ && list[x]@ < 81,
        forall|x: int, y: int| 0 <= x < y < list.len() ==> list[x]@ < list[y]@,
    ensures
        valid_effects(*board, *final(effects), Strategy::UniqueRectangle),
        single && !stop ==> final(effects).actions_spec().len() == 0,
        stop ==> single && final(effects).actions_spec().len() == 1,
        final(effects).actions_spec().len() >= old(effects).actions_spec().len(),
        final(effects).actions_spec().len() > old(effects).actions_spec().len() ==> exists|f1: nat, f2: nat|
            #[trigger] ur_pair_fires(*board, f1, f2),
        found_type_ones.len() == 0 && (exists|i: int, j: int|
            0 <= i < j < list.len() && #[trigger] ur_pair_fires(*board, list[i]@, list[j]@)) ==> stop
            || final(effects).actions_spec().len() > old(effects).actions_spec().len(),
        ur_all(*board, old(effects).actions_spec()) ==> ur_all(*board, final(effects).actions_spec()),
{
    let pairs = combinations(list.len(), 2);
    let ghost w = exists|i: int, j: int| 0 <= i < j < list.len() && #[trigger] ur_pair_fires(*board, list[i]@, list[j]@);
    let ghost (ia, ib) = choose|i: int, j: int| 0 <= i < j < list.len() && #[trigger] ur_pair_fires(*board, list[i]@, list[j]@);
    let ghost kw: int = choose|x: int| 0 <= x < pairs.len() && pairs[x]@ == seq![ia as usize, ib as usize];
    proof {
        if w {
            let sq = seq![ia as usize, ib as usize];
            assert(crate::solve::algorithms::combinations::is_combination(sq, list.len() as nat, 2));
        }
    }
    let mut k: usize = 0;
    while k < pairs.len()
        invariant
            k <= pairs.len(),
            valid_effects(*board, *effects, Strategy::UniqueRectangle),
            single ==> effects.actions_spec().len() == 0,
            effects.actions_spec().len() >= old(effects).actions_spec().len(),
            ur_all(*board, old(effects).actions_spec()) ==> ur_all(*board, effects.actions_spec()),
            forall|x: int| 0 <= x < pairs.len() ==> (#[trigger] pairs[x]).len() == 2,
            forall|x: int, a: int|
                0 <= x < pairs.len() && 0 <= a < 2 ==> #[trigger] pairs[x][a] < list.len(),
            forall|x: int| 0 <= x < list.len() ==> #[trigger] board.cands_spec()[list[x]@ as int] == pair@ && list[x]@ < 81,
            forall|x: int, y: int| 0 <= x < y < list.len() ==> list[x]@ < list[y]@,
            forall|x: int| 0 <= x < pairs.len() ==> (#[trigger] pairs[x])[0] < pairs[x][1],
            pair@.len() == 2,
            effects.actions_spec().len() > old(effects).actions_spec().len() ==> exists|f1: nat, f2: nat|
                #[trigger] ur_pair_fires(*board, f1, f2),
            w ==> 0 <= kw < pairs.len() && pairs[kw]@ == seq![ia as usize, ib as usize] && 0 <= ia < ib < list.len()
                && ur_pair_fires(*board, list[ia]@, list[ib]@),
            w && found_type_ones.len() == 0 && k > kw ==> effects.actions_spec().len() > old(effects).actions_spec().len(),
        decreases pairs.len() - k,
    {
        let first = list[pairs[k][0]];
        let second = list[pairs[k][1]];
        let ghost n_before = effects.actions_spec().len();
        proof {
            assert(first@ < second@);
            assert(board.cands_spec()[first@ as int] == pair@);
            assert(board.cands_spec()[second@ as int] == pair@);
        }
        let stop = if first.row() == second.row() {
            proof {
                assert(row_of(first@) == row_of(second@));
            }
            check_neighbors(board, single, pair, first, second, Shape::Row, found_type_ones, effects)
        } else if first.column() == second.column() {
            proof {
                assert(row_of(first@) != row_of(second@));
                assert(col_of(first@) == col_of(second@));
            }
            check_neighbors(board, single, pair, first, second, Shape::Column, found_type_ones, effects)
        } else {
            proof {
                assert(row_of(first@) != row_of(second@));
                assert(col_of(first@) != col_of(second@));
            }
            check_diagonals(board, single, pair, first, second, found_type_ones, effects)
        };
        proof {
            if effects.actions_spec().len() > n_before {
                assert(ur_pair_fires(*board, first@, second@));
            }
            if w && k == kw {
                assert(pairs[k as int][0] == ia && pairs[k as int][1] == ib);
                assert(first@ == list[ia]@ && second@ == list[ib]@);
            }
        }
        if stop {
            return true;
        }
        k = k + 1;
    }
    false
}

/// Whether the rectangle is a type one to act on: it spans two blocks, no
/// rectangle with the same corners was acted on, exactly one of its cells
/// is not among `corners`, and that cell holds the pair.
pub open spec fn type_one_fits(board: Board, corners: Set<nat>, rectangle: Rectangle, pair: Set<nat>, found: Seq<
    Rectangle,
>) -> bool {
    let rest = rectangle.cell_set()@.difference(corners);
    &&& rectangle.blocks() == 2
    &&& !exists|i: int| 0 <= i < found.len() && (#[trigger] found[i]).tl() == rectangle.tl() && found[i].br() == rectangle.br()
    &&& rest.len() == 1
    &&& pair.subset_of(board.cands_spec()[rest.choose() as int])
}

/// Type one: three corners hold only the pair, so the fourth cannot take
/// either digit of it.
fn check_type_one(
    board: &Board,
    single: bool,
    corners: CellSet,
    rectangle: Rectangle,
    pair: KnownSet,
    found_type_ones: &mut Vec<Rectangle>,
    effects: &mut Effects,
) -> (stop: bool)
    requires
        valid_effects(*board, *old(effects), Strategy::UniqueRectangle),
        single ==> old(effects).actions_spec().len() == 0,
    ensures
        valid_effects(*board, *final(effects), Strategy::UniqueRectangle),
        single && !stop ==> final(effects).actions_spec().len() == 0,
        stop ==> single && final(effects).actions_spec().len() == 1,
        final(found_type_ones)@ == if type_one_fits(*board, corners@, rectangle, pair@, old(found_type_ones)@) {
            old(found_type_ones)@.push(rectangle)
        } else {
            old(found_type_ones)@
        },
        final(effects).actions_spec().len() == old(effects).actions_spec().len() + if type_one_fits(
            *board,
            corners@,
            rectangle,
            pair@,
            old(found_type_ones)@,
        ) && pair@ != Set::<nat>::empty() {
            1int
        } else {
            0int
        },
        stop == (single && type_one_fits(*board, corners@, rectangle, pair@, old(found_type_ones)@) && pair@
            != Set::<nat>::empty()),
        final(effects).actions_spec().len() > old(effects).actions_spec().len() ==> {
            let a = final(effects).actions_spec().last();
            &&& final(effects).actions_spec() == old(effects).actions_spec().push(a)
            &&& a.sets_spec() == Seq::new(81, |i: int| 0nat)
            &&& forall|i: int|
                0 <= i < 81 ==> #[trigger] a.erases_spec()[i] == if rectangle.cell_set()@.difference(corners@).contains(
                    i as nat,
                ) {
                    pair@
                } else {
                    Set::<nat>::empty()
                }
        },
        final(effects).actions_spec().len() == old(effects).actions_spec().len() ==> final(effects).actions_spec()
            == old(effects).actions_spec(),
{
    if rectangle.block_count() != 2 || contains_rectangle(found_type_ones, &rectangle) {
        return false;
    }
    let fourth = match rectangle.cells().minus(corners).as_single() {
        Some(c) => c,
        None => {
            return false;
        },
    };
    proof {
        let rest = rectangle.cell_set()@.difference(corners@);
        assert(rest == set![fourth@]);
        assert(rest.contains(rest.choose()));
    }
    let candidates = board.candidates(fourth);
    if !candidates.has_all(pair) {
        return false;
    }
    found_type_ones.push(rectangle);
    let _index: u8 = fourth.index();
    let mut action = Action::new(Strategy::UniqueRectangle);
    let ghost before = action;
    action.erase_knowns(fourth, pair);
    proof {
        lemma_erase_knowns_keeps(*board, before, action, fourth@, pair@);
    }
    action.clue_cells_for_knowns(Verdict::Primary, corners, pair);
    action.clue_cell_for_knowns(Verdict::Secondary, fourth, candidates.minus(pair));
    proof {
        assert forall|i: int| 0 <= i < 81 implies #[trigger] action.erases_spec()[i] == if rectangle.cell_set()@.difference(corners@).contains(
            i as nat,
        ) {
            pair@
        } else {
            Set::<nat>::empty()
        } by {
            if i == fourth@ {
                assert(action.erases_spec()[i] =~= pair@);
            }
        }
        if pair@ != Set::<nat>::empty() {
            crate::layout::set_lemmas::lemma_nonempty_choose(pair@);
            assert(action.erases_spec()[fourth@ as int].contains(pair@.choose()));
        } else {
            assert forall|i: int| 0 <= i < 81 implies #[trigger] action.erases_spec()[i] == Set::<nat>::empty() by {
                if i == fourth@ {
                    assert(action.erases_spec()[i] =~= Set::<nat>::empty());
                }
            }
        }
    }
    add_valid(board, action, effects) && single
}

/// Looks for the roof of a rectangle whose floor is two bivalue cells of
/// one row or column, among the houses of `shape` that make it span two
/// blocks.
fn check_neighbors(
    board: &Board,
    single: bool,
    pair: KnownSet,
    floor_left: Cell,
    floor_right: Cell,
    shape: Shape,
    found_type_ones: &Vec<Rectangle>,
    effects: &mut Effects,
) -> (stop: bool)
    requires
        valid_effects(*board, *old(effects), Strategy::UniqueRectangle),
        single ==> old(effects).actions_spec().len() == 0,
        board.cands_spec()[floor_left@ as int] == pair@,
        board.cands_spec()[floor_right@ as int] == pair@,
        shape == Shape::Row || shape == Shape::Column,
    ensures
        valid_effects(*board, *final(effects), Strategy::UniqueRectangle),
        single && !stop ==> final(effects).actions_spec().len() == 0,
        stop ==> single && final(effects).actions_spec().len() == 1,
        final(effects).actions_spec().len() >= old(effects).actions_spec().len(),
        final(effects).actions_spec().len() > old(effects).actions_spec().len() ==> exists|h: nat|
            #[trigger] neighbor_fires_at(*board, pair@, floor_left@, floor_right@, shape, h),
        found_type_ones.len() == 0 && (exists|h: nat| #[trigger] neighbor_fires_at(*board, pair@, floor_left@, floor_right@, shape, h))
            ==> stop || final(effects).actions_spec().len() > old(effects).actions_spec().len(),
        ur_all(*board, old(effects).actions_spec()) ==> ur_all(*board, final(effects).actions_spec()),
{
    let floor_left_block = floor_left.block();
    let houses = if floor_left_block == floor_right.block() {
        let mut all = HouseSet::full(shape);
        all.subtract(floor_left_block.houses(shape));
        all
    } else {
        let mut near = floor_left_block.houses(shape);
        near.remove(floor_left.house(shape));
        near
    };
    proof {
        assert(houses@ == (shape, roof_houses(shape, floor_left@, floor_right@)));
    }
    let list = houses.to_vec();
    let mut i: usize = 0;
    while i < list.len()
        invariant
            i <= list.len(),
            valid_effects(*board, *effects, Strategy::UniqueRectangle),
            single ==> effects.actions_spec().len() == 0,
            effects.actions_spec().len() >= old(effects).actions_spec().len(),
            ur_all(*board, old(effects).actions_spec()) ==> ur_all(*board, effects.actions_spec()),
            board.cands_spec()[floor_left@ as int] == pair@,
            board.cands_spec()[floor_right@ as int] == pair@,
            shape == Shape::Row || shape == Shape::Column,
            forall|x: int|
                0 <= x < list.len() ==> (#[trigger] list[x])@.0 == shape && roof_houses(shape, floor_left@, floor_right@).contains(
                    list[x]@.1,
                ),
            effects.actions_spec().len() > old(effects).actions_spec().len() ==> exists|h: nat|
                #[trigger] neighbor_fires_at(*board, pair@, floor_left@, floor_right@, shape, h),
            found_type_ones.len() == 0 && effects.actions_spec().len() == old(effects).actions_spec().len() ==> forall|x: int|
                0 <= x < i ==> !neighbor_fires_at(*board, pair@, floor_left@, floor_right@, shape, (#[trigger] list[x])@.1),
        decreases list.len() - i,
    {
        let ghost h = list[i as int]@.1;
        let ghost n_before = effects.actions_spec().len();
        proof {
            assert(list[i as int]@ == (shape, h));
        }
        if let Ok(candidate) = Candidate::try_from_neighbors(board, pair, floor_left, floor_right, list[i]) {
            proof {
                lemma_pair_digits(pair@, candidate.pair1@, candidate.pair2@);
                candidate.lemma_fires(*board);
            }
            if !contains_rectangle(found_type_ones, &candidate.rectangle) {
                let stop = candidate.check(board, single, effects);
                proof {
                    if effects.actions_spec().len() > n_before {
                        assert(neighbor_fires_at(*board, pair@, floor_left@, floor_right@, shape, h));
                    }
                }
                if stop {
                    return true;
                }
                proof {
                    if effects.actions_spec().len() > n_before {
                        assert(neighbor_fires_at(*board, pair@, floor_left@, floor_right@, shape, h));
                    }
                }
            }
        }
        i = i + 1;
    }
    proof {
        if found_type_ones.len() == 0 && effects.actions_spec().len() == old(effects).actions_spec().len() {
            assert forall|h: nat| !#[trigger] neighbor_fires_at(*board, pair@, floor_left@, floor_right@, shape, h) by {
                if neighbor_fires_at(*board, pair@, floor_left@, floor_right@, shape, h) {
                    let x = choose|x: int| 0 <= x < list.len() && (#[trigger] list[x])@.1 == h;
                }
            }
        }
    }
    false
}

/// Looks for the rectangle whose floor is two bivalue cells at opposite
/// corners.
fn check_diagonals(
    board: &Board,
    single: bool,
    pair: KnownSet,
    top: Cell,
    bottom: Cell,
    found_type_ones: &Vec<Rectangle>,
    effects: &mut Effects,
) -> (stop: bool)
    requires
        valid_effects(*board, *old(effects), Strategy::UniqueRectangle),
        single ==> old(effects).actions_spec().len() == 0,
        board.cands_spec()[top@ as int] == pair@,
        board.cands_spec()[bottom@ as int] == pair@,
    ensures
        valid_effects(*board, *final(effects), Strategy::UniqueRectangle),
        single && !stop ==> final(effects).actions_spec().len() == 0,
        stop ==> single && final(effects).actions_spec().len() == 1,
        final(effects).actions_spec().len() >= old(effects).actions_spec().len(),
        final(effects).actions_spec().len() > old(effects).actions_spec().len() ==> diagonal_fires(
            *board,
            pair@,
            top@,
            bottom@,
        ),
        found_type_ones.len() == 0 && diagonal_fires(*board, pair@, top@, bottom@) ==> stop
            || final(effects).actions_spec().len() > old(effects).actions_spec().len(),
        ur_all(*board, old(effects).actions_spec()) ==> ur_all(*board, final(effects).actions_spec()),
{
    if let Ok(candidate) = Candidate::try_from_diagonals(board, pair, top, bottom) {
        proof {
            lemma_pair_digits(pair@, candidate.pair1@, candidate.pair2@);
            candidate.lemma_fires(*board);
        }
        if !contains_rectangle(found_type_ones, &candidate.rectangle) {
            if candidate.check(board, single, effects) {
                return true;
            }
        }
    }
    false
}

/// The lowest of four cells.
pub open spec fn min4(a: nat, b: nat, c: nat, d: nat) -> nat {
    let ab = if a <= b { a } else { b };
    let abc = if ab <= c { ab } else { c };
    if abc <= d { abc } else { d }
}

/// The highest of four cells.
pub open spec fn max4(a: nat, b: nat, c: nat, d: nat) -> nat {
    let ab = if a >= b { a } else { b };
    let abc = if ab >= c { ab } else { c };
    if abc >= d { abc } else { d }
}

/// Whether the rectangle with floor `fl`, `fr` and roof `rl`, `rr` is one
/// to check: both roof cells hold the pair, the corners span two blocks,
/// and the pair has two digits.
pub open spec fn corners_fit(board: Board, pair: Set<nat>, fl: nat, fr: nat, rl: nat, rr: nat) -> bool {
    &&& pair.subset_of(board.cands_spec()[rl as int])
    &&& pair.subset_of(board.cands_spec()[rr as int])
    &&& block_span(block_of(min4(fl, fr, rl, rr)), block_of(max4(fl, fr, rl, rr))) == 2
    &&& pair.len() == 2
}

/// Whether the rectangle with opposite corners `f1` and `f2` is one to
/// check: the two cells lie in different blocks that span the same rows or
/// the same columns, in different rows and columns, the rectangle spans two
/// blocks, both other corners hold the pair, and the pair has two digits.
pub open spec fn diagonal_fit(board: Board, pair: Set<nat>, f1: nat, f2: nat) -> bool {
    let (r1, c1, r2, c2) = (row_of(f1), col_of(f1), row_of(f2), col_of(f2));
    let top = if r1 <= r2 { r1 } else { r2 };
    let bottom = if r1 <= r2 { r2 } else { r1 };
    let left = if c1 <= c2 { c1 } else { c2 };
    let right = if c1 <= c2 { c2 } else { c1 };
    &&& block_of(f1) != block_of(f2)
    &&& (houses_of_cells(Shape::Row, house_cells(Shape::Block, block_of(f1))) == houses_of_cells(
        Shape::Row,
        house_cells(Shape::Block, block_of(f2)),
    ) || houses_of_cells(Shape::Column, house_cells(Shape::Block, block_of(f1))) == houses_of_cells(
        Shape::Column,
        house_cells(Shape::Block, block_of(f2)),
    ))
    &&& r1 != r2
    &&& c1 != c2
    &&& block_span(block_of(top * 9 + left), block_of(bottom * 9 + right)) == 2
    &&& pair.subset_of(board.cands_spec()[(r1 * 9 + c2) as int])
    &&& pair.subset_of(board.cands_spec()[(r2 * 9 + c1) as int])
    &&& pair.len() == 2
}

/// A cell is its row and column.
proof fn lemma_cell_coords(x: nat)
    requires
        x < 81,
    ensures
        x == row_of(x) * 9 + col_of(x),
        row_of(x) < 9,
        col_of(x) < 9,
{
}

/// Row and column give back the cell.
proof fn lemma_coords_cell(r: nat, c: nat)
    requires
        r < 9,
        c < 9,
    ensures
        row_of(r * 9 + c) == r,
        col_of(r * 9 + c) == c,
        r * 9 + c < 81,
{
}

/// Whether the action erases something.
pub open spec fn any_erase(a: Action) -> bool {
    exists|i: int| 0 <= i < 81 && a.erases_spec()[i] != Set::<nat>::empty()
}

/// `m` lists the members of `set` in increasing order.
pub open spec fn enumerates(m: Seq<nat>, set: Set<nat>) -> bool {
    &&& forall|i: int, j: int| 0 <= i < j < m.len() ==> m[i] < m[j]
    &&& forall|x: nat| set.contains(x) <==> exists|i: int| 0 <= i < m.len() && m[i] == x
}

/// Two increasing lists of the same members are the same list.
proof fn lemma_enumeration_unique(a: Seq<nat>, b: Seq<nat>, set: Set<nat>)
    requires
        enumerates(a, set),
        enumerates(b, set),
    ensures
        a == b,
    decreases a.len(),
{
    if a.len() == 0 {
        if b.len() > 0 {
            assert(set.contains(b[0]));
        }
    } else {
        assert(set.contains(a[0]));
        let j = choose|j: int| 0 <= j < b.len() && b[j] == a[0];
        assert(set.contains(b[0]));
        let i = choose|i: int| 0 <= i < a.len() && a[i] == b[0];
        if i > 0 {
            assert(a[0] < a[i]);
        }
        if j > 0 {
            assert(b[0] < b[j]);
        }
        assert(a[0] == b[0]);
        let rest = set.remove(a[0]);
        assert forall|x: nat| rest.contains(x) <==> exists|k: int| 0 <= k < a.drop_first().len() && a.drop_first()[k] == x by {
            if rest.contains(x) {
                let k = choose|k: int| 0 <= k < a.len() && a[k] == x;
                assert(k != 0);
                assert(a.drop_first()[k - 1] == x);
            }
            if exists|k: int| 0 <= k < a.drop_first().len() && a.drop_first()[k] == x {
                let k = choose|k: int| 0 <= k < a.drop_first().len() && a.drop_first()[k] == x;
                assert(a[k + 1] == x);
                assert(a[0] < a[k + 1]);
            }
        }
        assert forall|x: nat| rest.contains(x) <==> exists|k: int| 0 <= k < b.drop_first().len() && b.drop_first()[k] == x by {
            if rest.contains(x) {
                let k = choose|k: int| 0 <= k < b.len() && b[k] == x;
                assert(k != 0);
                assert(b.drop_first()[k - 1] == x);
            }
            if exists|k: int| 0 <= k < b.drop_first().len() && b.drop_first()[k] == x {
                let k = choose|k: int| 0 <= k < b.drop_first().len() && b.drop_first()[k] == x;
                assert(b[k + 1] == x);
                assert(b[0] < b[k + 1]);
            }
        }
        lemma_enumeration_unique(a.drop_first(), b.drop_first(), rest);
        assert(a =~= seq![a[0]] + a.drop_first());
        assert(b =~= seq![b[0]] + b.drop_first());
    }
}

/// The union of a list of digit sets.
pub open spec fn sets_union(ks: Seq<Set<nat>>) -> Set<nat>
    decreases ks.len(),
{
    if ks.len() == 0 {
        Set::empty()
    } else {
        sets_union(ks.drop_last()).union(ks.last())
    }
}

/// The union of the sets at the first `n` positions of `t`.
pub open spec fn picked_union(ks: Seq<Set<nat>>, t: Seq<usize>, n: nat) -> Set<nat>
    decreases n,
{
    if n == 0 {
        Set::empty()
    } else {
        picked_union(ks, t, (n - 1) as nat).union(ks[t[n - 1] as int])
    }
}

/// Whether `k` of the sets hold at most `k` digits together, fewer than
/// `size` of them.
pub open spec fn hides(ks: Seq<Set<nat>>, size: nat, k: nat) -> bool {
    size > k && exists|t: Seq<usize>|
        #[trigger] crate::solve::algorithms::combinations::is_combination(t, ks.len(), k) && picked_union(ks, t, k).len()
            <= k
}

proof fn lemma_picked_union_views(ks: Seq<Set<nat>>, sets: Seq<KnownSet>, t: Seq<usize>, n: nat)
    requires
        ks.len() == sets.len(),
        forall|i: int| 0 <= i < ks.len() ==> ks[i] == #[trigger] sets[i]@,
        forall|a: int| 0 <= a < n ==> t[a] < ks.len(),
        n <= t.len(),
    ensures
        picked_union(ks, t, n) == crate::solve::algorithms::naked_tuples::union_at(sets, t, n),
    decreases n,
{
    if n > 0 {
        lemma_picked_union_views(ks, sets, t, (n - 1) as nat);
    }
}

/// The digit sets of a type three: those of the members at the positions
/// of `t`, then the roof's extras.
pub open spec fn t3_sets(board: Board, extras: Set<nat>, m: Seq<nat>, t: Seq<usize>) -> Seq<Set<nat>> {
    Seq::new(t.len(), |a: int| board.cands_spec()[m[t[a] as int] as int]).push(extras)
}

/// The members at the positions of `t`.
pub open spec fn picked_cells(m: Seq<nat>, t: Seq<usize>) -> Set<nat> {
    Set::new(|x: nat| exists|a: int| 0 <= a < t.len() && m[t[a] as int] == x)
}

/// Whether the members at `t` and the roof's extras hold `size` digits
/// together with no smaller tuple among them.
pub open spec fn t3_qualifies(board: Board, extras: Set<nat>, m: Seq<nat>, t: Seq<usize>, size: nat) -> bool {
    let ks = t3_sets(board, extras, m, t);
    &&& sets_union(ks).len() == size
    &&& !hides(ks, size, 2)
    &&& !hides(ks, size, 3)
}

/// The cells of the house of shape `s` through both roof cells, but the
/// roof.
pub open spec fn t3_peers(roof_left: nat, roof: Set<nat>, s: Shape) -> Set<nat> {
    house_cells(s, house_of(s, roof_left)).difference(roof)
}

/// Those of them with two to `size` candidates.
pub open spec fn t3_member_set(board: Board, roof_left: nat, roof: Set<nat>, s: Shape, size: nat) -> Set<nat> {
    Set::new(|x: nat| t3_peers(roof_left, roof, s).contains(x) && 2 <= board.cands_spec()[x as int].len() <= size)
}

/// Whether the tuple at `t` erases something: a digit of it is a
/// candidate of another cell of the house.
pub open spec fn t3_erases(board: Board, extras: Set<nat>, peers: Set<nat>, m: Seq<nat>, t: Seq<usize>) -> bool {
    exists|x: nat, d: nat|
        #![trigger board.cands_spec()[x as int].contains(d)]
        peers.difference(picked_cells(m, t)).contains(x) && sets_union(t3_sets(board, extras, m, t)).contains(d)
            && board.cands_spec()[x as int].contains(d)
}

/// A type three in the house of shape `s` with a tuple of `size` digits:
/// among the combinations of the members (in the order the combinations
/// come), the first that qualifies erases something.
pub open spec fn t3_fires_at(board: Board, roof_left: nat, roof_right: nat, roof: Set<nat>, extras: Set<nat>, s: Shape, size: nat) -> bool {
    &&& house_of(s, roof_left) == house_of(s, roof_right)
    &&& 2 <= size <= 4
    &&& extras.len() <= size
    &&& exists|m: Seq<nat>|
        #[trigger] enumerates(m, t3_member_set(board, roof_left, roof, s, size)) && {
            let cs = crate::solve::algorithms::combinations::index_combinations(m.len(), (size - 1) as nat);
            exists|j: int|
                0 <= j < cs.len() && #[trigger] t3_qualifies(board, extras, m, cs[j], size) && (forall|i: int|
                    0 <= i < j ==> !t3_qualifies(board, extras, m, cs[i], size)) && t3_erases(
                    board,
                    extras,
                    t3_peers(roof_left, roof, s),
                    m,
                    cs[j],
                )
        }
}

/// Digit `d` leaves cell `x` by a type three in the house of shape `s`
/// with a tuple of `size` digits: the first qualifying tuple is that of
/// the combinations of the members, `x` is a cell of the house outside the
/// roof and the tuple, and `d` is a digit of the tuple that `x` holds.
pub open spec fn t3_erases_at(
    board: Board,
    roof_left: nat,
    roof_right: nat,
    roof: Set<nat>,
    extras: Set<nat>,
    s: Shape,
    size: nat,
    x: nat,
    d: nat,
) -> bool {
    &&& house_of(s, roof_left) == house_of(s, roof_right)
    &&& 2 <= size <= 4
    &&& extras.len() <= size
    &&& exists|m: Seq<nat>|
        #[trigger] enumerates(m, t3_member_set(board, roof_left, roof, s, size)) && {
            let cs = crate::solve::algorithms::combinations::index_combinations(m.len(), (size - 1) as nat);
            exists|j: int|
                0 <= j < cs.len() && #[trigger] t3_qualifies(board, extras, m, cs[j], size) && (forall|i: int|
                    0 <= i < j ==> !t3_qualifies(board, extras, m, cs[i], size)) && t3_peers(
                    roof_left,
                    roof,
                    s,
                ).difference(picked_cells(m, cs[j])).contains(x) && sets_union(t3_sets(board, extras, m, cs[j])).contains(
                    d,
                ) && board.cands_spec()[x as int].contains(d)
        }
}

/// With the members listed in order as `m` and `j` the first qualifying
/// combination, what a type three erases is what that tuple erases.
proof fn lemma_t3_erases_first(
    board: Board,
    roof_left: nat,
    roof_right: nat,
    roof: Set<nat>,
    extras: Set<nat>,
    s: Shape,
    size: nat,
    m: Seq<nat>,
    j: int,
    x: nat,
    d: nat,
)
    requires
        enumerates(m, t3_member_set(board, roof_left, roof, s, size)),
        house_of(s, roof_left) == house_of(s, roof_right),
        2 <= size <= 4,
        extras.len() <= size,
        0 <= j < crate::solve::algorithms::combinations::index_combinations(m.len(), (size - 1) as nat).len(),
        t3_qualifies(
            board,
            extras,
            m,
            crate::solve::algorithms::combinations::index_combinations(m.len(), (size - 1) as nat)[j],
            size,
        ),
        forall|i: int|
            0 <= i < j ==> !t3_qualifies(
                board,
                extras,
                m,
                #[trigger] crate::solve::algorithms::combinations::index_combinations(m.len(), (size - 1) as nat)[i],
                size,
            ),
    ensures
        t3_erases_at(board, roof_left, roof_right, roof, extras, s, size, x, d) <==> {
            let t = crate::solve::algorithms::combinations::index_combinations(m.len(), (size - 1) as nat)[j];
            &&& t3_peers(roof_left, roof, s).difference(picked_cells(m, t)).contains(x)
            &&& sets_union(t3_sets(board, extras, m, t)).contains(d)
            &&& board.cands_spec()[x as int].contains(d)
        },
{
    let cs = crate::solve::algorithms::combinations::index_combinations(m.len(), (size - 1) as nat);
    if t3_erases_at(board, roof_left, roof_right, roof, extras, s, size, x, d) {
        let m2 = choose|m2: Seq<nat>|
            #[trigger] enumerates(m2, t3_member_set(board, roof_left, roof, s, size)) && {
                let cs2 = crate::solve::algorithms::combinations::index_combinations(m2.len(), (size - 1) as nat);
                exists|j2: int|
                    0 <= j2 < cs2.len() && #[trigger] t3_qualifies(board, extras, m2, cs2[j2], size) && (forall|i: int|
                        0 <= i < j2 ==> !t3_qualifies(board, extras, m2, cs2[i], size)) && t3_peers(
                        roof_left,
                        roof,
                        s,
                    ).difference(picked_cells(m2, cs2[j2])).contains(x) && sets_union(
                        t3_sets(board, extras, m2, cs2[j2]),
                    ).contains(d) && board.cands_spec()[x as int].contains(d)
            };
        lemma_enumeration_unique(m2, m, t3_member_set(board, roof_left, roof, s, size));
        let j2 = choose|j2: int|
            0 <= j2 < cs.len() && #[trigger] t3_qualifies(board, extras, m, cs[j2], size) && (forall|i: int|
                0 <= i < j2 ==> !t3_qualifies(board, extras, m, cs[i], size)) && t3_peers(
                roof_left,
                roof,
                s,
            ).difference(picked_cells(m, cs[j2])).contains(x) && sets_union(t3_sets(board, extras, m, cs[j2])).contains(
                d,
            ) && board.cands_spec()[x as int].contains(d);
        if j2 < j {
        } else if j < j2 {
            assert(!t3_qualifies(board, extras, m, cs[j], size));
        }
        assert(j2 == j);
    }
}

/// Where no combination of the members qualifies, a type three erases
/// nothing.
proof fn lemma_t3_erases_none(
    board: Board,
    roof_left: nat,
    roof_right: nat,
    roof: Set<nat>,
    extras: Set<nat>,
    s: Shape,
    size: nat,
    m: Seq<nat>,
    x: nat,
    d: nat,
)
    requires
        enumerates(m, t3_member_set(board, roof_left, roof, s, size)),
        forall|i: int|
            0 <= i < crate::solve::algorithms::combinations::index_combinations(m.len(), (size - 1) as nat).len()
                ==> !t3_qualifies(
                board,
                extras,
                m,
                #[trigger] crate::solve::algorithms::combinations::index_combinations(m.len(), (size - 1) as nat)[i],
                size,
            ),
    ensures
        !t3_erases_at(board, roof_left, roof_right, roof, extras, s, size, x, d),
{
    if t3_erases_at(board, roof_left, roof_right, roof, extras, s, size, x, d) {
        let m2 = choose|m2: Seq<nat>|
            #[trigger] enumerates(m2, t3_member_set(board, roof_left, roof, s, size)) && {
                let cs2 = crate::solve::algorithms::combinations::index_combinations(m2.len(), (size - 1) as nat);
                exists|j2: int|
                    0 <= j2 < cs2.len() && #[trigger] t3_qualifies(board, extras, m2, cs2[j2], size) && (forall|i: int|
                        0 <= i < j2 ==> !t3_qualifies(board, extras, m2, cs2[i], size)) && t3_peers(
                        roof_left,
                        roof,
                        s,
                    ).difference(picked_cells(m2, cs2[j2])).contains(x) && sets_union(
                        t3_sets(board, extras, m2, cs2[j2]),
                    ).contains(d) && board.cands_spec()[x as int].contains(d)
            };
        lemma_enumeration_unique(m2, m, t3_member_set(board, roof_left, roof, s, size));
    }
}

/// The members, in order: the cells of `peer_cells` with two to `size`
/// candidates, and their candidates.
fn t3_members(board: &Board, peer_cells: &Vec<Cell>, size: usize) -> (r: Vec<(Cell, KnownSet)>)
    requires
        forall|i: int, j: int| 0 <= i < j < peer_cells.len() ==> peer_cells[i]@ < peer_cells[j]@,
    ensures
        forall|i: int, j: int| 0 <= i < j < r.len() ==> r[i].0@ < r[j].0@,
        forall|i: int|
            0 <= i < r.len() ==> (#[trigger] r[i]).1@ == board.cands_spec()[r[i].0@ as int] && 2 <= r[i].1@.len()
                <= size && exists|q: int| 0 <= q < peer_cells.len() && r[i].0 == peer_cells[q],
        forall|q: int|
            0 <= q < peer_cells.len() && 2 <= board.cands_spec()[(#[trigger] peer_cells[q])@ as int].len() <= size
                ==> exists|i: int| 0 <= i < r.len() && r[i].0 == peer_cells[q],
{
    let mut members: Vec<(Cell, KnownSet)> = Vec::new();
    let mut p: usize = 0;
    while p < peer_cells.len()
        invariant
            p <= peer_cells.len(),
            forall|i: int, j: int| 0 <= i < j < peer_cells.len() ==> peer_cells[i]@ < peer_cells[j]@,
            forall|i: int, j: int| 0 <= i < j < members.len() ==> members[i].0@ < members[j].0@,
            forall|i: int|
                0 <= i < members.len() ==> (#[trigger] members[i]).1@ == board.cands_spec()[members[i].0@ as int] && 2
                    <= members[i].1@.len() <= size && exists|q: int| 0 <= q < p && members[i].0 == peer_cells[q],
            forall|q: int|
                0 <= q < p && 2 <= board.cands_spec()[(#[trigger] peer_cells[q])@ as int].len() <= size ==> exists|i: int|
                    0 <= i < members.len() && members[i].0 == peer_cells[q],
        decreases peer_cells.len() - p,
    {
        let ks = board.candidates(peer_cells[p]);
        let n: usize = ks.len();
        let ghost before = members@;
        if 2 <= n && n <= size {
            members.push((peer_cells[p], ks));
            proof {
                assert forall|i: int, j: int| 0 <= i < j < members.len() implies members[i].0@ < members[j].0@ by {
                    assert(members[i] == before[i] || i == before.len());
                    if j == members.len() - 1 {
                        assert(members[i] == before[i]);
                        let q = choose|q: int| 0 <= q < p && before[i].0 == peer_cells[q];
                        assert(peer_cells[q]@ < peer_cells[p as int]@);
                    } else {
                        assert(members[j] == before[j]);
                    }
                }
                assert forall|i: int| 0 <= i < members.len() implies (#[trigger] members[i]).1@ == board.cands_spec()[members[i].0@ as int] && 2
                    <= members[i].1@.len() <= size && exists|q: int| 0 <= q < p + 1 && members[i].0 == peer_cells[q] by {
                    if i < before.len() {
                        assert(members[i] == before[i]);
                        let q = choose|q: int| 0 <= q < p && before[i].0 == peer_cells[q];
                        assert(members[i].0 == peer_cells[q]);
                    } else {
                        assert(members[i].0 == peer_cells[p as int]);
                    }
                }
                assert forall|q: int|
                    0 <= q < p + 1 && 2 <= board.cands_spec()[(#[trigger] peer_cells[q])@ as int].len() <= size implies exists|i: int|
                        0 <= i < members.len() && members[i].0 == peer_cells[q] by {
                    if q < p {
                        let i = choose|i: int| 0 <= i < before.len() && before[i].0 == peer_cells[q];
                        assert(members[i] == before[i]);
                    } else {
                        assert(members[members.len() - 1].0 == peer_cells[q]);
                    }
                }
            }
        } else {
            proof {
                assert forall|q: int|
                    0 <= q < p + 1 && 2 <= board.cands_spec()[(#[trigger] peer_cells[q])@ as int].len() <= size implies exists|i: int|
                        0 <= i < members.len() && members[i].0 == peer_cells[q] by {
                    assert(q != p);
                }
            }
        }
        p = p + 1;
    }
    members
}

/// The members' cells.
pub open spec fn member_cells(members: Seq<(Cell, KnownSet)>) -> Seq<nat> {
    members.map_values(|e: (Cell, KnownSet)| e.0@)
}

/// The cells and digits of the tuple of the members at `combo` and the
/// roof's extras, when it qualifies.
fn t3_combo(board: &Board, members: &Vec<(Cell, KnownSet)>, combo: &Vec<usize>, extras: KnownSet, size: usize) -> (r:
    Option<(CellSet, KnownSet)>)
    requires
        2 <= size <= 4,
        combo.len() == size - 1,
        forall|a: int| 0 <= a < combo.len() ==> #[trigger] combo[a] < members.len(),
        forall|i: int| 0 <= i < members.len() ==> (#[trigger] members[i]).1@ == board.cands_spec()[members[i].0@ as int],
    ensures
        r is Some <==> t3_qualifies(*board, extras@, member_cells(members@), combo@, size as nat),
        r matches Some(p) ==> p.0@ == picked_cells(member_cells(members@), combo@) && p.1@ == sets_union(
            t3_sets(*board, extras@, member_cells(members@), combo@),
        ),
{
    let ghost m = member_cells(members@);
    let ghost ks = t3_sets(*board, extras@, m, combo@);
    let mut known_sets: Vec<KnownSet> = Vec::new();
    let mut combo_cells = CellSet::empty();
    let mut a: usize = 0;
    while a < combo.len()
        invariant
            a <= combo.len(),
            combo.len() == size - 1,
            m == member_cells(members@),
            ks == t3_sets(*board, extras@, m, combo@),
            forall|b: int| 0 <= b < combo.len() ==> #[trigger] combo[b] < members.len(),
            forall|i: int| 0 <= i < members.len() ==> (#[trigger] members[i]).1@ == board.cands_spec()[members[i].0@ as int],
            known_sets.len() == a,
            forall|b: int| 0 <= b < a ==> (#[trigger] known_sets[b])@ == ks[b],
            combo_cells@ == Set::new(|x: nat| exists|b: int| 0 <= b < a && m[combo[b] as int] == x),
        decreases combo.len() - a,
    {
        let (c, k) = members[combo[a]];
        known_sets.push(k);
        combo_cells = combo_cells.with(c);
        proof {
            assert(m[combo[a as int] as int] == c@);
            assert(known_sets[a as int]@ == ks[a as int]);
            assert(combo_cells@ =~= Set::new(|x: nat| exists|b: int| 0 <= b < a + 1 && m[combo[b] as int] == x)) by {
                assert forall|x: nat| combo_cells@.contains(x) implies exists|b: int| 0 <= b < a + 1 && m[combo[b] as int] == x by {
                    if x == c@ {
                        assert(m[combo[a as int] as int] == x);
                    }
                }
            }
        }
        a = a + 1;
    }
    known_sets.push(extras);
    proof {
        assert(ks.len() == known_sets.len());
        assert forall|b: int| 0 <= b < ks.len() implies ks[b] == #[trigger] known_sets[b]@ by {
            if b < combo.len() {
            } else {
                assert(ks[b] == extras@);
            }
        }
        assert(combo_cells@ =~= picked_cells(m, combo@));
    }
    let mut knowns = KnownSet::empty();
    let mut b: usize = 0;
    while b < known_sets.len()
        invariant
            b <= known_sets.len(),
            ks.len() == known_sets.len(),
            forall|i: int| 0 <= i < ks.len() ==> ks[i] == #[trigger] known_sets[i]@,
            knowns@ == sets_union(ks.take(b as int)),
        decreases known_sets.len() - b,
    {
        knowns = knowns.union(known_sets[b]);
        proof {
            assert(ks.take(b + 1).drop_last() =~= ks.take(b as int));
        }
        b = b + 1;
    }
    proof {
        assert(ks.take(ks.len() as int) =~= ks);
    }
    let d2 = is_degenerate(&known_sets, size, 2);
    let d3 = is_degenerate(&known_sets, size, 3);
    proof {
        assert forall|t: Seq<usize>, k: nat|
            #[trigger] crate::solve::algorithms::combinations::is_combination(t, ks.len(), k) implies picked_union(ks, t, k)
            == crate::solve::algorithms::naked_tuples::union_at(known_sets@, t, k) by {
            lemma_picked_union_views(ks, known_sets@, t, k);
        }
        assert(d2 == hides(ks, size as nat, 2));
        assert(d3 == hides(ks, size as nat, 3));
    }
    if knowns.len() != size || d2 || d3 {
        return None;
    }
    Some((combo_cells, knowns))
}

/// Makes the action erase each digit of `knowns` from the cells of
/// `cells` that hold it; tells whether there was any.
fn t3_erase(board: &Board, action: &mut Action, cells: CellSet, knowns: KnownSet) -> (found: bool)
    requires
        erases_candidates(*board, *old(action)),
    ensures
        final(action).strategy_spec() == old(action).strategy_spec(),
        final(action).sets_spec() == old(action).sets_spec(),
        erases_candidates(*board, *final(action)),
        forall|i: int|
            0 <= i < 81 ==> #[trigger] final(action).erases_spec()[i] == old(action).erases_spec()[i].union(
                if cells@.contains(i as nat) {
                    knowns@.intersect(board.cands_spec()[i])
                } else {
                    Set::<nat>::empty()
                },
            ),
        found == exists|x: nat, d: nat|
            #![trigger board.cands_spec()[x as int].contains(d)]
            cells@.contains(x) && knowns@.contains(d) && board.cands_spec()[x as int].contains(d),
{
    let ghost e0 = action.erases_spec();
    let digits = knowns.to_vec();
    let mut found = false;
    let mut d: usize = 0;
    while d < digits.len()
        invariant
            d <= digits.len(),
            action.strategy_spec() == old(action).strategy_spec(),
            action.sets_spec() == old(action).sets_spec(),
            e0 == old(action).erases_spec(),
            erases_candidates(*board, *action),
            forall|i: int, j: int| 0 <= i < j < digits.len() ==> digits[i]@ < digits[j]@,
            forall|i: int| 0 <= i < digits.len() ==> knowns@.contains(#[trigger] digits[i]@),
            forall|x: nat| knowns@.contains(x) ==> exists|i: int| 0 <= i < digits.len() && (#[trigger] digits[i])@ == x,
            forall|i: int|
                0 <= i < 81 ==> #[trigger] action.erases_spec()[i] == e0[i].union(
                    if cells@.contains(i as nat) {
                        Set::new(|k: nat| exists|q: int| 0 <= q < d && digits[q]@ == k).intersect(board.cands_spec()[i])
                    } else {
                        Set::<nat>::empty()
                    },
                ),
            found == exists|x: nat, q: int|
                #![trigger board.cands_spec()[x as int].contains(digits[q]@)]
                0 <= q < d && cells@.contains(x) && board.cands_spec()[x as int].contains(digits[q]@),
        decreases digits.len() - d,
    {
        let ghost before = *action;
        let ghost found_before = found;
        let erase = cells.intersect(board.candidate_cells(digits[d]));
        if !erase.is_empty() {
            found = true;
            action.erase_cells(erase, digits[d]);
            proof {
                lemma_erase_cells_keeps(*board, before, *action, erase@, digits[d as int]@);
                crate::layout::set_lemmas::lemma_nonempty_choose(erase@);
                let x = erase@.choose();
                assert(board.cands_spec()[x as int].contains(digits[d as int]@));
            }
        } else {
            proof {
                assert forall|x: nat| cells@.contains(x) implies !board.cands_spec()[x as int].contains(digits[d as int]@) by {
                    if board.cands_spec()[x as int].contains(digits[d as int]@) {
                        assert(erase@.contains(x));
                    }
                }
            }
        }
        proof {
            assert forall|i: int| 0 <= i < 81 implies #[trigger] action.erases_spec()[i] == e0[i].union(
                if cells@.contains(i as nat) {
                    Set::new(|k: nat| exists|q: int| 0 <= q < d + 1 && digits[q]@ == k).intersect(board.cands_spec()[i])
                } else {
                    Set::<nat>::empty()
                },
            ) by {
                if cells@.contains(i as nat) {
                    assert(Set::new(|k: nat| exists|q: int| 0 <= q < d + 1 && digits[q]@ == k) =~= Set::new(
                        |k: nat| exists|q: int| 0 <= q < d && digits[q]@ == k,
                    ).insert(digits[d as int]@));
                }
                assert(action.erases_spec()[i] =~= e0[i].union(
                    if cells@.contains(i as nat) {
                        Set::new(|k: nat| exists|q: int| 0 <= q < d + 1 && digits[q]@ == k).intersect(board.cands_spec()[i])
                    } else {
                        Set::<nat>::empty()
                    },
                ));
            }
        }
        d = d + 1;
    }
    proof {
        let all = Set::new(|k: nat| exists|q: int| 0 <= q < digits.len() && digits[q]@ == k);
        assert(all =~= knowns@);
        if found {
            let (x, q) = choose|x: nat, q: int|
                #![trigger board.cands_spec()[x as int].contains(digits[q]@)]
                0 <= q < digits.len() && cells@.contains(x) && board.cands_spec()[x as int].contains(digits[q]@);
            assert(board.cands_spec()[x as int].contains(digits[q]@));
        }
        if exists|x: nat, k: nat|
            #![trigger board.cands_spec()[x as int].contains(k)]
            cells@.contains(x) && knowns@.contains(k) && board.cands_spec()[x as int].contains(k) {
            let (x, k) = choose|x: nat, k: nat|
                #![trigger board.cands_spec()[x as int].contains(k)]
                cells@.contains(x) && knowns@.contains(k) && board.cands_spec()[x as int].contains(k);
            let q = choose|i: int| 0 <= i < digits.len() && (#[trigger] digits[i])@ == k;
            assert(board.cands_spec()[x as int].contains(digits[q]@));
        }
    }
    found
}

/// A rectangle whose floor holds only the pair and whose roof holds the
/// pair and more.
struct Candidate {
    rectangle: Rectangle,
    pair: KnownSet,
    pair1: Known,
    pair2: Known,
    diagonal: bool,
    floor: CellSet,
    floor_left: Cell,
    floor_right: Cell,
    roof: CellSet,
    roof_extras: KnownSet,
    roof_left: Cell,
    roof_left_extras: KnownSet,
    roof_right: Cell,
    roof_right_extras: KnownSet,
}

/// The first cell is in an earlier column than the second, or the same.
fn sort_by_column(first: Cell, second: Cell) -> (r: (Cell, Cell))
    ensures
        (r.0 == first && r.1 == second) || (r.0 == second && r.1 == first),
        (r.0@, r.1@) == by_column(first@, second@),
{
    if first.column_coord().index() < second.column_coord().index() {
        (first, second)
    } else {
        (second, first)
    }
}

impl Candidate {
    /// What the checks rely on: the floor cells hold only the pair, and the
    /// roof cells hold the pair.
    spec fn wf(&self, board: Board) -> bool {
        &&& board.cands_spec()[self.floor_left@ as int] == self.pair@
        &&& board.cands_spec()[self.floor_right@ as int] == self.pair@
        &&& self.pair@.subset_of(board.cands_spec()[self.roof_left@ as int])
        &&& self.pair@.subset_of(board.cands_spec()[self.roof_right@ as int])
        &&& self.pair@.contains(self.pair1@)
        &&& self.pair@.contains(self.pair2@)
        &&& self.pair@ == set![self.pair1@, self.pair2@]
        &&& self.pair1@ < self.pair2@
        &&& self.roof_left_extras@ == board.cands_spec()[self.roof_left@ as int].difference(self.pair@)
        &&& self.roof_right_extras@ == board.cands_spec()[self.roof_right@ as int].difference(self.pair@)
        &&& self.roof_extras@ == self.roof_left_extras@.union(self.roof_right_extras@)
        &&& self.roof@ == set![self.roof_left@, self.roof_right@]
        &&& self.floor_left@ < 81
        &&& self.floor_right@ < 81
        &&& self.roof_left@ < 81
        &&& self.roof_right@ < 81
    }

    fn try_from_neighbors(board: &Board, pair: KnownSet, floor_left: Cell, floor_right: Cell, roof_house: House) -> (r:
        Result<Self, ()>)
        requires
            board.cands_spec()[floor_left@ as int] == pair@,
            board.cands_spec()[floor_right@ as int] == pair@,
        ensures
            r is Ok <==> match roof_house@.0 {
                Shape::Row => corners_fit(
                    *board,
                    pair@,
                    floor_left@,
                    floor_right@,
                    roof_house@.1 * 9 + col_of(floor_left@),
                    roof_house@.1 * 9 + col_of(floor_right@),
                ),
                Shape::Column => corners_fit(
                    *board,
                    pair@,
                    floor_left@,
                    floor_right@,
                    row_of(floor_left@) * 9 + roof_house@.1,
                    row_of(floor_right@) * 9 + roof_house@.1,
                ),
                Shape::Block => false,
            },
            r matches Ok(c) ==> c.wf(*board) && !c.diagonal && c.built_from(
                *board,
                pair,
                floor_left,
                floor_right,
                c.roof_left,
                c.roof_right,
            ) && match roof_house@.0 {
                Shape::Row => c.roof_left@ == roof_house@.1 * 9 + col_of(floor_left@) && c.roof_right@ == roof_house@.1
                    * 9 + col_of(floor_right@),
                _ => c.roof_left@ == row_of(floor_left@) * 9 + roof_house@.1 && c.roof_right@ == row_of(floor_right@)
                    * 9 + roof_house@.1,
            },
    {
        match roof_house.shape() {
            Shape::Row => Self::try_from_corners(
                board,
                pair,
                floor_left,
                floor_right,
                Cell::from_coords(roof_house.coord(), floor_left.column_coord()),
                Cell::from_coords(roof_house.coord(), floor_right.column_coord()),
            ),
            Shape::Column => Self::try_from_corners(
                board,
                pair,
                floor_left,
                floor_right,
                Cell::from_coords(floor_left.row_coord(), roof_house.coord()),
                Cell::from_coords(floor_right.row_coord(), roof_house.coord()),
            ),
            Shape::Block => Err(()),
        }
    }

    /// The candidate with these floor and roof cells, as built from them.
    spec fn built_from(&self, board: Board, pair: KnownSet, fl: Cell, fr: Cell, rl: Cell, rr: Cell) -> bool {
        &&& self.pair == pair
        &&& self.floor_left == fl
        &&& self.floor_right == fr
        &&& self.roof_left == rl
        &&& self.roof_right == rr
        &&& self.floor@ == set![fl@, fr@]
        &&& self.rectangle.blocks() == 2
        &&& self.roof_left_extras@ == board.cands_spec()[rl@ as int].difference(pair@)
        &&& self.roof_right_extras@ == board.cands_spec()[rr@ as int].difference(pair@)
        &&& self.roof_extras@ == self.roof_left_extras@.union(self.roof_right_extras@)
    }

    /// Whether one of types two to five fires on this rectangle (type
    /// five only on a diagonal one).
    spec fn any_type_fires(&self, board: Board) -> bool {
        ||| self.diagonal && exists|t: nat| t < 4 && #[trigger] self.type_five_at(board, t)
        ||| self.type_two_fires(board)
        ||| self.type_three_fires(board)
        ||| exists|s: Shape| #[trigger] self.type_four_at(board, s)
    }

    spec fn type_three_fires(&self, board: Board) -> bool {
        ur_type_three(board, self.roof_left@, self.roof_right@, self.roof_extras@)
    }

    /// Whether a type three on this rectangle erases `d` from cell `x`.
    spec fn type_three_erases(&self, board: Board, x: nat, d: nat) -> bool {
        exists|s: Shape, size: nat|
            #[trigger] t3_erases_at(board, self.roof_left@, self.roof_right@, self.roof@, self.roof_extras@, s, size, x, d)
    }

    spec fn type_two_fires(&self, board: Board) -> bool {
        ur_type_two(board, self.roof_left_extras@, self.roof_right_extras@, self.roof_left@, self.roof_right@)
    }

    spec fn type_four_at(&self, board: Board, s: Shape) -> bool {
        ur_type_four_at(board, self.pair1@, self.pair2@, self.roof_left@, self.roof_right@, s)
    }

    spec fn type_five_at(&self, board: Board, t: nat) -> bool {
        ur_type_five_at(board, self.pair1@, self.pair2@, self.floor_left@, self.floor_right@, t)
    }

    /// What the candidate's checks decide is a matter of its cells, its
    /// pair and whether it is diagonal.
    proof fn lemma_fires(&self, board: Board)
        requires
            self.wf(board),
        ensures
            self.any_type_fires(board) == ur_fires(
                board,
                self.pair1@,
                self.pair2@,
                self.floor_left@,
                self.floor_right@,
                self.roof_left@,
                self.roof_right@,
                self.diagonal,
            ),
    {
        let pair = set![self.pair1@, self.pair2@];
        let lx = board.cands_spec()[self.roof_left@ as int].difference(pair);
        let rx = board.cands_spec()[self.roof_right@ as int].difference(pair);
        assert(self.roof_extras@ == lx.union(rx));
        if exists|t: nat| t < 4 && #[trigger] ur_type_five_at(board, self.pair1@, self.pair2@, self.floor_left@, self.floor_right@, t) {
            let t = choose|t: nat| t < 4 && #[trigger] ur_type_five_at(board, self.pair1@, self.pair2@, self.floor_left@, self.floor_right@, t);
            assert(self.type_five_at(board, t));
        }
        if exists|t: nat| t < 4 && #[trigger] self.type_five_at(board, t) {
            let t = choose|t: nat| t < 4 && #[trigger] self.type_five_at(board, t);
            assert(ur_type_five_at(board, self.pair1@, self.pair2@, self.floor_left@, self.floor_right@, t));
        }
        if exists|s: Shape| #[trigger] ur_type_four_at(board, self.pair1@, self.pair2@, self.roof_left@, self.roof_right@, s) {
            let s = choose|s: Shape| #[trigger] ur_type_four_at(board, self.pair1@, self.pair2@, self.roof_left@, self.roof_right@, s);
            assert(self.type_four_at(board, s));
        }
        if exists|s: Shape| #[trigger] self.type_four_at(board, s) {
            let s = choose|s: Shape| #[trigger] self.type_four_at(board, s);
            assert(ur_type_four_at(board, self.pair1@, self.pair2@, self.roof_left@, self.roof_right@, s));
        }
    }

    fn try_from_corners(
        board: &Board,
        pair: KnownSet,
        floor_left: Cell,
        floor_right: Cell,
        roof_left: Cell,
        roof_right: Cell,
    ) -> (r: Result<Self, ()>)
        requires
            board.cands_spec()[floor_left@ as int] == pair@,
            board.cands_spec()[floor_right@ as int] == pair@,
        ensures
            r is Ok <==> corners_fit(*board, pair@, floor_left@, floor_right@, roof_left@, roof_right@),
            r matches Ok(c) ==> c.wf(*board) && !c.diagonal && c.built_from(
                *board,
                pair,
                floor_left,
                floor_right,
                roof_left,
                roof_right,
            ),
    {
        let roof_left_candidates = board.candidates(roof_left);
        if !roof_left_candidates.has_all(pair) {
            return Err(());
        }
        let roof_right_candidates = board.candidates(roof_right);
        if !roof_right_candidates.has_all(pair) {
            return Err(());
        }
        let roof_left_extras = roof_left_candidates.minus(pair);
        let roof_right_extras = roof_right_candidates.minus(pair);
        let rectangle = Rectangle::from(floor_left, floor_right, roof_left, roof_right);
        proof {
            let lo = min4(floor_left@, floor_right@, roof_left@, roof_right@);
            let hi = max4(floor_left@, floor_right@, roof_left@, roof_right@);
            let (l, h) = choose|l: nat, h: nat|
                rectangle.spanning(l, h) && l <= floor_left@ && l <= floor_right@ && l <= roof_left@ && l <= roof_right@
                    && (l == floor_left@ || l == floor_right@ || l == roof_left@ || l == roof_right@) && h
                    >= floor_left@ && h >= floor_right@ && h >= roof_left@ && h >= roof_right@ && (h == floor_left@ || h
                    == floor_right@ || h == roof_left@ || h == roof_right@);
            assert(l == lo && h == hi);
        }
        if rectangle.block_count() != 2 {
            return Err(());
        }
        let (pair1, pair2) = match pair.as_pair() {
            Some(p) => p,
            None => {
                return Err(());
            },
        };
        let _a: u8 = floor_left.index();
        let _b: u8 = floor_right.index();
        let _c: u8 = roof_left.index();
        let _d: u8 = roof_right.index();
        let floor = CellSet::empty().with(floor_left).with(floor_right);
        let roof = CellSet::empty().with(roof_left).with(roof_right);
        proof {
            assert(roof@ =~= set![roof_left@, roof_right@]);
            assert(floor@ =~= set![floor_left@, floor_right@]);
        }
        Ok(
            Candidate {
                rectangle,
                pair,
                pair1,
                pair2,
                diagonal: false,
                floor,
                floor_left,
                floor_right,
                roof,
                roof_extras: roof_left_extras.union(roof_right_extras),
                roof_left,
                roof_left_extras,
                roof_right,
                roof_right_extras,
            },
        )
    }

    #[verifier::rlimit(50)]
    fn try_from_diagonals(board: &Board, pair: KnownSet, floor1: Cell, floor2: Cell) -> (r: Result<Self, ()>)
        requires
            board.cands_spec()[floor1@ as int] == pair@,
            board.cands_spec()[floor2@ as int] == pair@,
        ensures
            r is Ok <==> diagonal_fit(*board, pair@, floor1@, floor2@),
            r matches Ok(c) ==> {
                &&& c.wf(*board)
                &&& c.diagonal
                &&& c.pair == pair
                &&& c.floor@ == set![floor1@, floor2@]
                &&& set![c.floor_left@, c.floor_right@] == set![floor1@, floor2@]
                &&& set![c.roof_left@, c.roof_right@] == set![
                    row_of(floor1@) * 9 + col_of(floor2@),
                    row_of(floor2@) * 9 + col_of(floor1@),
                ]
                &&& c.rectangle.blocks() == 2
                &&& (c.floor_left@, c.floor_right@) == by_column(floor1@, floor2@)
                &&& (c.roof_left@, c.roof_right@) == by_column(
                    row_of(floor1@) * 9 + col_of(floor2@),
                    row_of(floor2@) * 9 + col_of(floor1@),
                )
                &&& c.roof_left_extras@ == board.cands_spec()[c.roof_left@ as int].difference(pair@)
                &&& c.roof_right_extras@ == board.cands_spec()[c.roof_right@ as int].difference(pair@)
                &&& c.roof_extras@ == c.roof_left_extras@.union(c.roof_right_extras@)
            },
    {
        let _i1: u8 = floor1.index();
        let _i2: u8 = floor2.index();
        proof {
            lemma_cell_coords(floor1@);
            lemma_cell_coords(floor2@);
            lemma_coords_cell(row_of(floor1@), col_of(floor2@));
            lemma_coords_cell(row_of(floor2@), col_of(floor1@));
        }
        let block1 = floor1.block();
        let block2 = floor2.block();
        if block1 == block2 || (!block1.rows().equals(&block2.rows()) && !block1.columns().equals(
            &block2.columns(),
        )) {
            return Err(());
        }
        let floor = CellSet::empty().with(floor1).with(floor2);
        let ghost (r1, c1, r2, c2) = (row_of(floor1@), col_of(floor1@), row_of(floor2@), col_of(floor2@));
        proof {
            assert(floor@ =~= set![floor1@, floor2@]);
            assert(floor1@ != floor2@);
            assert(houses_of_cells(Shape::Row, floor@) =~= set![r1, r2]) by {
                assert(floor@.contains(floor1@) && floor@.contains(floor2@));
            }
            assert(houses_of_cells(Shape::Column, floor@) =~= set![c1, c2]) by {
                assert(floor@.contains(floor1@) && floor@.contains(floor2@));
            }
            assert(set![floor1@, floor2@].len() == 2) by {
                assert(set![floor1@].len() == 1);
            }
            if r1 == r2 {
                assert(set![r1, r2] =~= set![r1]);
            } else {
                assert(set![r1].len() == 1);
            }
            if c1 == c2 {
                assert(set![c1, c2] =~= set![c1]);
            } else {
                assert(set![c1].len() == 1);
            }
        }
        let rectangle = match Rectangle::try_from_cells(floor) {
            Ok(r) => r,
            Err(e) => {
                return Err(e);
            },
        };
        let ghost top = if r1 <= r2 { r1 } else { r2 };
        let ghost bottom = if r1 <= r2 { r2 } else { r1 };
        let ghost left = if c1 <= c2 { c1 } else { c2 };
        let ghost right = if c1 <= c2 { c2 } else { c1 };
        proof {
            let (t, b, l, rt) = choose|t: nat, b: nat, l: nat, rt: nat|
                t < b && l < rt && houses_of_cells(Shape::Row, floor@) == set![t, b] && houses_of_cells(
                    Shape::Column,
                    floor@,
                ) == set![l, rt] && rectangle.spanning(t * 9 + l, b * 9 + rt);
            assert(set![t, b].contains(t) && set![t, b].contains(b));
            assert(set![l, rt].contains(l) && set![l, rt].contains(rt));
            assert(set![r1, r2].contains(r1) && set![r1, r2].contains(r2));
            assert(set![c1, c2].contains(c1) && set![c1, c2].contains(c2));
            assert(t == top && b == bottom && l == left && rt == right);
            lemma_coords_cell(top, left);
            lemma_coords_cell(top, right);
            lemma_coords_cell(bottom, left);
            lemma_coords_cell(bottom, right);
        }
        if rectangle.block_count() != 2 {
            return Err(());
        }
        let roof = rectangle.cells().minus(floor);
        proof {
            assert(roof@ =~= set![r1 * 9 + c2, r2 * 9 + c1]) by {
                assert forall|x: nat| roof@.contains(x) implies set![r1 * 9 + c2, r2 * 9 + c1].contains(x) by {
                    assert(rectangle.cell_set()@.contains(x));
                }
                assert forall|x: nat| set![r1 * 9 + c2, r2 * 9 + c1].contains(x) implies roof@.contains(x) by {
                    assert(rectangle.cell_set()@.contains(x));
                }
            }
            assert(set![r1 * 9 + c2, r2 * 9 + c1].len() == 2) by {
                assert(set![r1 * 9 + c2].len() == 1);
            }
        }
        let (roof_a, roof_b) = match roof.as_pair() {
            Some(p) => p,
            None => {
                return Err(());
            },
        };
        let (floor_left, floor_right) = sort_by_column(floor1, floor2);
        let (roof_left, roof_right) = sort_by_column(roof_a, roof_b);
        proof {
            assert(set![roof_a@, roof_b@].contains(roof_a@) && set![roof_a@, roof_b@].contains(roof_b@));
            assert(roof_a@ == r1 * 9 + c2 || roof_a@ == r2 * 9 + c1);
            assert(roof_b@ == r1 * 9 + c2 || roof_b@ == r2 * 9 + c1);
            assert(roof_a@ != roof_b@);
            assert(set![r1 * 9 + c2, r2 * 9 + c1].contains(r1 * 9 + c2));
            assert(set![r1 * 9 + c2, r2 * 9 + c1].contains(r2 * 9 + c1));
        }
        let roof_left_candidates = board.candidates(roof_left);
        if !roof_left_candidates.has_all(pair) {
            return Err(());
        }
        let roof_right_candidates = board.candidates(roof_right);
        if !roof_right_candidates.has_all(pair) {
            return Err(());
        }
        let roof_left_extras = roof_left_candidates.minus(pair);
        let roof_right_extras = roof_right_candidates.minus(pair);
        let (pair1, pair2) = match pair.as_pair() {
            Some(p) => p,
            None => {
                return Err(());
            },
        };
        let _a: u8 = floor_left.index();
        let _b: u8 = floor_right.index();
        let _c: u8 = roof_left.index();
        let _d: u8 = roof_right.index();
        proof {
            assert(roof@ =~= set![roof_left@, roof_right@]);
            assert(set![roof_left@, roof_right@] =~= set![roof_a@, roof_b@]);
            assert(set![floor_left@, floor_right@] =~= set![floor1@, floor2@]);
            assert(c1 != c2);
            lemma_coords_cell(r1, c2);
            lemma_coords_cell(r2, c1);
            assert(by_column(roof_a@, roof_b@) == by_column(r1 * 9 + c2, r2 * 9 + c1));
        }
        Ok(
            Candidate {
                rectangle,
                pair,
                pair1,
                pair2,
                diagonal: true,
                floor,
                floor_left,
                floor_right,
                roof,
                roof_extras: roof_left_extras.union(roof_right_extras),
                roof_left,
                roof_left_extras,
                roof_right,
                roof_right_extras,
            },
        )
    }

    /// Tries the types that apply, in order; tells whether to stop.
    fn check(&self, board: &Board, single: bool, effects: &mut Effects) -> (stop: bool)
        requires
            self.wf(*board),
            valid_effects(*board, *old(effects), Strategy::UniqueRectangle),
            single ==> old(effects).actions_spec().len() == 0,
        ensures
            valid_effects(*board, *final(effects), Strategy::UniqueRectangle),
            single && !stop ==> final(effects).actions_spec().len() == 0,
            stop ==> single && final(effects).actions_spec().len() == 1,
            final(effects).actions_spec().len() >= old(effects).actions_spec().len(),
            self.any_type_fires(*board) ==> stop || final(effects).actions_spec().len() > old(
                effects,
            ).actions_spec().len(),
            final(effects).actions_spec().len() > old(effects).actions_spec().len() ==> self.any_type_fires(*board),
            ur_all(*board, old(effects).actions_spec()) ==> ur_all(*board, final(effects).actions_spec()),
    {
        let ghost e0 = effects.actions_spec();
        if self.diagonal {
            let added = self.check_type_five(board, effects);
            proof {
                self.lemma_keeps_ur(*board, e0, effects.actions_spec(), added);
            }
            if added && single {
                return true;
            }
        }
        let ghost e1 = effects.actions_spec();
        let added = self.check_type_two(board, effects);
        proof {
            self.lemma_keeps_ur(*board, e1, effects.actions_spec(), added);
        }
        if added && single {
            return true;
        }
        let ghost e2 = effects.actions_spec();
        let added = self.check_type_three(board, effects);
        proof {
            self.lemma_keeps_ur(*board, e2, effects.actions_spec(), added);
        }
        if added && single {
            return true;
        }
        let ghost e3 = effects.actions_spec();
        let added = self.check_type_four(board, effects);
        proof {
            self.lemma_keeps_ur(*board, e3, effects.actions_spec(), added);
        }
        if added && single {
            return true;
        }
        false
    }

    /// An action of this rectangle added to a list of unique rectangle
    /// actions keeps it one.
    proof fn lemma_keeps_ur(&self, board: Board, before: Seq<Action>, after: Seq<Action>, added: bool)
        requires
            self.wf(board),
            added ==> after == before.push(after.last()),
            added ==> ur_rect_action(
                board,
                self.pair1@,
                self.pair2@,
                self.floor_left@,
                self.floor_right@,
                self.roof_left@,
                self.roof_right@,
                self.diagonal,
                after.last(),
            ),
            !added ==> after == before,
        ensures
            ur_all(board, before) ==> ur_all(board, after),
    {
        if added && ur_all(board, before) {
            assert(ur_action(board, after.last()));
            lemma_ur_all_push(board, before, after.last());
        }
    }

    /// Type two: both roof cells have the same one extra digit, which leaves
    /// the cells that see both.
    fn check_type_two(&self, board: &Board, effects: &mut Effects) -> (added: bool)
        requires
            self.wf(*board),
            valid_effects(*board, *old(effects), Strategy::UniqueRectangle),
        ensures
            valid_effects(*board, *final(effects), Strategy::UniqueRectangle),
            final(effects).actions_spec().len() == old(effects).actions_spec().len() + if added {
                1int
            } else {
                0int
            },
            added == self.type_two_fires(*board),
            added ==> final(effects).actions_spec() == old(effects).actions_spec().push(
                final(effects).actions_spec().last(),
            ),
            added ==> ur_rect_action(
                *board,
                self.pair1@,
                self.pair2@,
                self.floor_left@,
                self.floor_right@,
                self.roof_left@,
                self.roof_right@,
                self.diagonal,
                final(effects).actions_spec().last(),
            ),
            !added ==> final(effects).actions_spec() == old(effects).actions_spec(),
    {
        if self.roof_left_extras.len() != 1 || !self.roof_left_extras.equals(&self.roof_right_extras) {
            return false;
        }
        let extra = match self.roof_left_extras.as_single() {
            Some(k) => k,
            None => {
                return false;
            },
        };
        proof {
            assert(self.roof_left_extras@.contains(self.roof_left_extras@.choose()));
            assert(self.roof_left_extras@.choose() == extra@);
        }
        let cells = board.candidate_cells(extra).intersect(self.roof_left.peers()).intersect(
            self.roof_right.peers(),
        );
        if cells.is_empty() {
            proof {
                assert forall|x: nat|
                    #[trigger] candidate_cells_of(board.cands_spec(), extra@).contains(x) && peers_of(self.roof_left@).contains(x)
                        implies !peers_of(self.roof_right@).contains(x) by {
                    if peers_of(self.roof_right@).contains(x) {
                        assert(cells@.contains(x));
                    }
                }
            }
            return false;
        }
        let mut action = Action::new(Strategy::UniqueRectangle);
        let ghost before = action;
        action.erase_cells(cells, extra);
        proof {
            lemma_erase_cells_keeps(*board, before, action, cells@, extra@);
            crate::layout::set_lemmas::lemma_nonempty_choose(cells@);
            let x = cells@.choose();
            assert(action.erases_spec()[x as int].contains(extra@));
            assert(candidate_cells_of(board.cands_spec(), extra@).contains(x));
        }
        action.clue_cells_for_knowns(Verdict::Primary, self.rectangle.cells(), self.pair);
        action.clue_cells_for_known(Verdict::Secondary, self.roof, extra);
        proof {
            assert forall|i: int| 0 <= i < 81 implies #[trigger] action.erases_spec()[i] == ur_two_erasure(
                *board,
                self.roof_left@,
                self.roof_right@,
                self.roof_left_extras@.choose(),
                i as nat,
            ) by {
                if cells@.contains(i as nat) {
                    assert(action.erases_spec()[i] =~= set![extra@]);
                }
            }
        }
        add_valid(board, action, effects)
    }

    /// Type three: the roof's extra digits with cells of a house they share
    /// form a naked tuple, whose digits leave the other cells of the house.
    fn check_type_three(&self, board: &Board, effects: &mut Effects) -> (added: bool)
        requires
            self.wf(*board),
            valid_effects(*board, *old(effects), Strategy::UniqueRectangle),
        ensures
            valid_effects(*board, *final(effects), Strategy::UniqueRectangle),
            final(effects).actions_spec().len() == old(effects).actions_spec().len() + if added {
                1int
            } else {
                0int
            },
            added == self.type_three_fires(*board),
            added ==> final(effects).actions_spec() == old(effects).actions_spec().push(
                final(effects).actions_spec().last(),
            ),
            added ==> final(effects).actions_spec().last().sets_spec() == Seq::new(81, |i: int| 0nat),
            added ==> forall|i: int, d: nat|
                0 <= i < 81 ==> (#[trigger] final(effects).actions_spec().last().erases_spec()[i].contains(d)
                    <==> self.type_three_erases(*board, i as nat, d)),
            added ==> ur_rect_action(
                *board,
                self.pair1@,
                self.pair2@,
                self.floor_left@,
                self.floor_right@,
                self.roof_left@,
                self.roof_right@,
                self.diagonal,
                final(effects).actions_spec().last(),
            ),
            !added ==> final(effects).actions_spec() == old(effects).actions_spec(),
    {
        let extras_count: usize = self.roof_extras.len();
        if extras_count < 2 || extras_count > 4 {
            return false;
        }
        let ghost rl = self.roof_left@;
        let ghost rr = self.roof_right@;
        let ghost roof = self.roof@;
        let ghost ex = self.roof_extras@;
        let mut action = Action::new(Strategy::UniqueRectangle);
        action.clue_cells_for_knowns(Verdict::Primary, self.rectangle.cells(), self.pair);
        action.clue_cell_for_knowns(Verdict::Secondary, self.roof_left, self.roof_left_extras);
        action.clue_cell_for_knowns(Verdict::Secondary, self.roof_right, self.roof_right_extras);
        let houses = self.roof_left.common_houses(self.roof_right);
        proof {
            assert(!any_erase(action));
        }
        let mut h: usize = 0;
        while h < houses.len()
            invariant
                h <= houses.len(),
                action.strategy_spec() == Strategy::UniqueRectangle,
                action.sets_spec() == Seq::new(81, |i: int| 0nat),
                erases_candidates(*board, action),
                rl == self.roof_left@,
                roof == self.roof@,
                ex == self.roof_extras@,
                extras_count == ex.len(),
                forall|k: int|
                    0 <= k < houses.len() ==> house_of((#[trigger] houses[k])@.0, rl) == houses[k]@.1 && house_of(
                        houses[k]@.0,
                        rr,
                    ) == houses[k]@.1,
                any_erase(action) <==> exists|x: int, sz: nat|
                    0 <= x < h && #[trigger] t3_fires_at(*board, rl, rr, roof, ex, houses[x]@.0, sz),
                forall|i: int, d: nat|
                    0 <= i < 81 ==> (#[trigger] action.erases_spec()[i].contains(d) <==> exists|x: int, sz: nat|
                        0 <= x < h && #[trigger] t3_erases_at(*board, rl, rr, roof, ex, houses[x]@.0, sz, i as nat, d)),
            decreases houses.len() - h,
        {
            let ghost shape = houses[h as int]@.0;
            let peers = houses[h].cells().minus(self.roof);
            let peer_cells = peers.to_vec();
            proof {
                assert(peers@ == t3_peers(rl, roof, shape));
            }
            let ghost before_h = any_erase(action);
            let ghost e_h = action.erases_spec();
            let mut size: usize = 2;
            while size <= 4
                invariant
                    2 <= size <= 5,
                    h < houses.len(),
                    shape == houses[h as int]@.0,
                    house_of(shape, rl) == house_of(shape, rr),
                    action.strategy_spec() == Strategy::UniqueRectangle,
                    action.sets_spec() == Seq::new(81, |i: int| 0nat),
                    erases_candidates(*board, action),
                    rl == self.roof_left@,
                    roof == self.roof@,
                    ex == self.roof_extras@,
                    extras_count == ex.len(),
                    peers@ == t3_peers(rl, roof, shape),
                    forall|i: int, j: int| 0 <= i < j < peer_cells.len() ==> peer_cells[i]@ < peer_cells[j]@,
                    forall|i: int| 0 <= i < peer_cells.len() ==> peers@.contains(#[trigger] peer_cells[i]@),
                    forall|x: nat| peers@.contains(x) ==> exists|i: int| 0 <= i < peer_cells.len() && (#[trigger] peer_cells[i])@ == x,
                    any_erase(action) <==> before_h || exists|sz: nat|
                        sz < size && #[trigger] t3_fires_at(*board, rl, rr, roof, ex, shape, sz),
                    forall|i: int, d: nat|
                        0 <= i < 81 ==> (#[trigger] action.erases_spec()[i].contains(d) <==> e_h[i].contains(d)
                            || exists|sz: nat| sz < size && #[trigger] t3_erases_at(*board, rl, rr, roof, ex, shape, sz, i as nat, d)),
                decreases 5 - size,
            {
                let ghost before_size = any_erase(action);
                let ghost e_s = action.erases_spec();
                if size >= extras_count {
                    let members = t3_members(board, &peer_cells, size);
                    let combos = combinations(members.len(), size - 1);
                    let ghost m = member_cells(members@);
                    let ghost cs = crate::solve::algorithms::combinations::index_combinations(
                        m.len(),
                        (size - 1) as nat,
                    );
                    proof {
                        assert(m.len() == members.len());
                        assert forall|x: nat|
                            t3_member_set(*board, rl, roof, shape, size as nat).contains(x) <==> exists|i: int|
                                0 <= i < m.len() && m[i] == x by {
                            if t3_member_set(*board, rl, roof, shape, size as nat).contains(x) {
                                let q = choose|i: int| 0 <= i < peer_cells.len() && (#[trigger] peer_cells[i])@ == x;
                                assert(2 <= board.cands_spec()[peer_cells[q]@ as int].len() <= size);
                                let i = choose|i: int| 0 <= i < members.len() && members[i].0 == peer_cells[q];
                                assert(m[i] == x);
                            }
                            if exists|i: int| 0 <= i < m.len() && m[i] == x {
                                let i = choose|i: int| 0 <= i < m.len() && m[i] == x;
                                assert(members[i].0@ == x);
                                let q = choose|q: int| 0 <= q < peer_cells.len() && members[i].0 == peer_cells[q];
                                assert(peers@.contains(peer_cells[q]@));
                            }
                        }
                        assert(enumerates(m, t3_member_set(*board, rl, roof, shape, size as nat)));
                    }
                    let mut chosen: Option<(CellSet, KnownSet, usize)> = None;
                    let mut j: usize = 0;
                    while j < combos.len() && chosen.is_none()
                        invariant
                            j <= combos.len(),
                            2 <= size <= 4,
                            m == member_cells(members@),
                            cs == crate::solve::algorithms::combinations::index_combinations(m.len(), (size - 1) as nat),
                            combos.len() == cs.len(),
                            forall|x: int| 0 <= x < combos.len() ==> (#[trigger] combos[x])@ == cs[x],
                            forall|x: int| 0 <= x < combos.len() ==> (#[trigger] combos[x]).len() == size - 1,
                            forall|x: int, a: int|
                                0 <= x < combos.len() && 0 <= a < size - 1 ==> #[trigger] combos[x][a] < members.len(),
                            forall|i: int|
                                0 <= i < members.len() ==> (#[trigger] members[i]).1@ == board.cands_spec()[members[i].0@ as int],
                            ex == self.roof_extras@,
                            chosen is None ==> forall|i: int| 0 <= i < j ==> !t3_qualifies(*board, ex, m, cs[i], size as nat),
                            chosen matches Some(c) ==> {
                                &&& c.2 < combos.len()
                                &&& t3_qualifies(*board, ex, m, cs[c.2 as int], size as nat)
                                &&& forall|i: int| 0 <= i < c.2 ==> !t3_qualifies(*board, ex, m, cs[i], size as nat)
                                &&& c.0@ == picked_cells(m, cs[c.2 as int])
                                &&& c.1@ == sets_union(t3_sets(*board, ex, m, cs[c.2 as int]))
                            },
                        decreases combos.len() - j,
                    {
                        let combo = &combos[j];
                        proof {
                            assert forall|a: int| 0 <= a < combo.len() implies #[trigger] combo[a] < members.len() by {
                                assert(combos[j as int][a] < members.len());
                            }
                        }
                        if let Some((cc, kk)) = t3_combo(board, &members, combo, self.roof_extras, size) {
                            chosen = Some((cc, kk, j));
                        }
                        j = j + 1;
                    }
                    proof {
                        if chosen is None {
                            assert(j == combos.len());
                        }
                    }
                    match chosen {
                        Some((cc, kk, jj)) => {
                            let cells = peers.minus(cc);
                            let ghost e_before = action.erases_spec();
                            let found = t3_erase(board, &mut action, cells, kk);
                            proof {
                                assert(found == t3_erases(*board, ex, t3_peers(rl, roof, shape), m, cs[jj as int]));
                                if found {
                                    let (x, d) = choose|x: nat, d: nat|
                                        #![trigger board.cands_spec()[x as int].contains(d)]
                                        cells@.contains(x) && kk@.contains(d) && board.cands_spec()[x as int].contains(d);
                                    assert(action.erases_spec()[x as int].contains(d));
                                } else {
                                    assert forall|i: int| 0 <= i < 81 implies #[trigger] action.erases_spec()[i] == e_before[i] by {
                                        if cells@.contains(i as nat) {
                                            assert(kk@.intersect(board.cands_spec()[i]) =~= Set::<nat>::empty());
                                        }
                                        assert(action.erases_spec()[i] =~= e_before[i]);
                                    }
                                }
                                if any_erase(action) && !before_size {
                                    let i = choose|i: int| 0 <= i < 81 && action.erases_spec()[i] != Set::<nat>::empty();
                                    assert(e_before[i] == Set::<nat>::empty());
                                }
                                if before_size {
                                    let i = choose|i: int| 0 <= i < 81 && e_before[i] != Set::<nat>::empty();
                                    assert(action.erases_spec()[i] != Set::<nat>::empty()) by {
                                        let y = e_before[i].choose();
                                        crate::layout::set_lemmas::lemma_nonempty_choose(e_before[i]);
                                        assert(action.erases_spec()[i].contains(y));
                                    }
                                }
                                assert(any_erase(action) <==> before_size || found);
                                assert forall|i: int, d: nat| 0 <= i < 81 implies (#[trigger] action.erases_spec()[i].contains(d)
                                    <==> e_s[i].contains(d) || t3_erases_at(*board, rl, rr, roof, ex, shape, size as nat, i as nat, d)) by {
                                    lemma_t3_erases_first(*board, rl, rr, roof, ex, shape, size as nat, m, jj as int, i as nat, d);
                                }
                                assert(found <==> t3_fires_at(*board, rl, rr, roof, ex, shape, size as nat)) by {
                                    if t3_fires_at(*board, rl, rr, roof, ex, shape, size as nat) {
                                        let m2 = choose|m2: Seq<nat>|
                                            #[trigger] enumerates(m2, t3_member_set(*board, rl, roof, shape, size as nat)) && {
                                                let cs2 = crate::solve::algorithms::combinations::index_combinations(m2.len(), (size - 1) as nat);
                                                exists|j2: int|
                                                    0 <= j2 < cs2.len() && #[trigger] t3_qualifies(*board, ex, m2, cs2[j2], size as nat) && (forall|i: int|
                                                        0 <= i < j2 ==> !t3_qualifies(*board, ex, m2, cs2[i], size as nat)) && t3_erases(
                                                        *board,
                                                        ex,
                                                        t3_peers(rl, roof, shape),
                                                        m2,
                                                        cs2[j2],
                                                    )
                                            };
                                        lemma_enumeration_unique(m2, m, t3_member_set(*board, rl, roof, shape, size as nat));
                                        let j2 = choose|j2: int|
                                            0 <= j2 < cs.len() && #[trigger] t3_qualifies(*board, ex, m, cs[j2], size as nat) && (forall|i: int|
                                                0 <= i < j2 ==> !t3_qualifies(*board, ex, m, cs[i], size as nat)) && t3_erases(
                                                *board,
                                                ex,
                                                t3_peers(rl, roof, shape),
                                                m,
                                                cs[j2],
                                            );
                                        if j2 < jj {
                                        } else if jj < j2 {
                                            assert(!t3_qualifies(*board, ex, m, cs[jj as int], size as nat));
                                        }
                                        assert(j2 == jj);
                                    }
                                    if found {
                                        assert(t3_qualifies(*board, ex, m, cs[jj as int], size as nat));
                                        assert(enumerates(m, t3_member_set(*board, rl, roof, shape, size as nat)));
                                        assert(t3_erases(*board, ex, t3_peers(rl, roof, shape), m, cs[jj as int]));
                                        assert(0 <= jj < cs.len());
                                        assert(ex.len() <= size);
                                    }
                                }
                            }
                            let ghost e_done = action.erases_spec();
                            if found {
                                let mut e: usize = 0;
                                while e < combos[jj].len()
                                    invariant
                                        jj < combos.len(),
                                        e <= combos[jj as int].len(),
                                        combos[jj as int].len() == size - 1,
                                        forall|a: int| 0 <= a < size - 1 ==> #[trigger] combos[jj as int][a] < members.len(),
                                        action.strategy_spec() == Strategy::UniqueRectangle,
                                        action.sets_spec() == Seq::new(81, |i: int| 0nat),
                                        erases_candidates(*board, action),
                                        any_erase(action),
                                        any_erase(action) <==> before_size || t3_fires_at(*board, rl, rr, roof, ex, shape, size as nat),
                                        action.erases_spec() == e_done,
                                    decreases combos[jj as int].len() - e,
                                {
                                    let (c, ks) = members[combos[jj][e]];
                                    action.clue_cell_for_knowns(Verdict::Secondary, c, ks);
                                    e = e + 1;
                                }
                            }
                        },
                        None => {
                            proof {
                                assert forall|x: nat, d: nat| !#[trigger] t3_erases_at(*board, rl, rr, roof, ex, shape, size as nat, x, d) by {
                                    lemma_t3_erases_none(*board, rl, rr, roof, ex, shape, size as nat, m, x, d);
                                }
                                assert(!t3_fires_at(*board, rl, rr, roof, ex, shape, size as nat)) by {
                                    if t3_fires_at(*board, rl, rr, roof, ex, shape, size as nat) {
                                        let m2 = choose|m2: Seq<nat>|
                                            #[trigger] enumerates(m2, t3_member_set(*board, rl, roof, shape, size as nat)) && {
                                                let cs2 = crate::solve::algorithms::combinations::index_combinations(m2.len(), (size - 1) as nat);
                                                exists|j2: int|
                                                    0 <= j2 < cs2.len() && #[trigger] t3_qualifies(*board, ex, m2, cs2[j2], size as nat) && (forall|i: int|
                                                        0 <= i < j2 ==> !t3_qualifies(*board, ex, m2, cs2[i], size as nat)) && t3_erases(
                                                        *board,
                                                        ex,
                                                        t3_peers(rl, roof, shape),
                                                        m2,
                                                        cs2[j2],
                                                    )
                                            };
                                        lemma_enumeration_unique(m2, m, t3_member_set(*board, rl, roof, shape, size as nat));
                                        let j2 = choose|j2: int|
                                            0 <= j2 < cs.len() && #[trigger] t3_qualifies(*board, ex, m, cs[j2], size as nat) && (forall|i: int|
                                                0 <= i < j2 ==> !t3_qualifies(*board, ex, m, cs[i], size as nat)) && t3_erases(
                                                *board,
                                                ex,
                                                t3_peers(rl, roof, shape),
                                                m,
                                                cs[j2],
                                            );
                                    }
                                }
                            }
                        },
                    }
                } else {
                    proof {
                        assert(!t3_fires_at(*board, rl, rr, roof, ex, shape, size as nat));
                    }
                }
                proof {
                    assert forall|sz: nat| sz < size + 1 && #[trigger] t3_fires_at(*board, rl, rr, roof, ex, shape, sz) implies sz < size
                        || sz == size by {
                    }
                    if size < extras_count {
                        assert forall|x: nat, d: nat| !#[trigger] t3_erases_at(*board, rl, rr, roof, ex, shape, size as nat, x, d) by {
                        }
                    }
                    assert forall|i: int, d: nat| 0 <= i < 81 implies (#[trigger] action.erases_spec()[i].contains(d)
                        <==> e_h[i].contains(d) || exists|sz: nat| sz < size + 1 && #[trigger] t3_erases_at(*board, rl, rr, roof, ex, shape, sz, i as nat, d)) by {
                        if exists|sz: nat| sz < size + 1 && #[trigger] t3_erases_at(*board, rl, rr, roof, ex, shape, sz, i as nat, d) {
                            let sz = choose|sz: nat| sz < size + 1 && #[trigger] t3_erases_at(*board, rl, rr, roof, ex, shape, sz, i as nat, d);
                            if sz < size {
                                assert(e_s[i].contains(d));
                            }
                        }
                        if e_s[i].contains(d) {
                        }
                    }
                }
                size = size + 1;
            }
            proof {
                assert(any_erase(action) <==> exists|x: int, sz: nat|
                    0 <= x < h + 1 && #[trigger] t3_fires_at(*board, rl, rr, roof, ex, houses[x]@.0, sz)) by {
                    if exists|sz: nat| sz < size && #[trigger] t3_fires_at(*board, rl, rr, roof, ex, shape, sz) {
                        let sz = choose|sz: nat| sz < size && #[trigger] t3_fires_at(*board, rl, rr, roof, ex, shape, sz);
                        assert(t3_fires_at(*board, rl, rr, roof, ex, houses[h as int]@.0, sz));
                    }
                    if exists|x: int, sz: nat| 0 <= x < h + 1 && #[trigger] t3_fires_at(*board, rl, rr, roof, ex, houses[x]@.0, sz) {
                        let (x, sz) = choose|x: int, sz: nat| 0 <= x < h + 1 && #[trigger] t3_fires_at(*board, rl, rr, roof, ex, houses[x]@.0, sz);
                        if x == h {
                            assert(sz <= 4);
                        }
                    }
                }
            }
            h = h + 1;
        }
        proof {
            assert(sets_candidates(*board, action));
            assert(any_erase(action) <==> self.type_three_fires(*board)) by {
                if self.type_three_fires(*board) {
                    let (sh, sz) = choose|sh: Shape, sz: nat| #[trigger] t3_fires_at(*board, rl, rr, roof, ex, sh, sz);
                    let k = choose|k: int| 0 <= k < houses.len() && (#[trigger] houses[k])@.0 == sh;
                    assert(t3_fires_at(*board, rl, rr, roof, ex, houses[k]@.0, sz));
                }
                if any_erase(action) {
                    let (x, sz) = choose|x: int, sz: nat| 0 <= x < houses.len() && #[trigger] t3_fires_at(*board, rl, rr, roof, ex, houses[x]@.0, sz);
                    assert(t3_fires_at(*board, rl, rr, roof, ex, houses[x]@.0, sz));
                }
            }
            assert(!action.is_empty_spec() <==> any_erase(action));
        }
        add_valid(board, action, effects)
    }

    /// Type four: one digit of the pair must sit in the roof, within a house
    /// both roof cells share, so the other leaves the roof.
    fn check_type_four(&self, board: &Board, effects: &mut Effects) -> (added: bool)
        requires
            self.wf(*board),
            valid_effects(*board, *old(effects), Strategy::UniqueRectangle),
        ensures
            valid_effects(*board, *final(effects), Strategy::UniqueRectangle),
            final(effects).actions_spec().len() == old(effects).actions_spec().len() + if added {
                1int
            } else {
                0int
            },
            added == exists|s: Shape| #[trigger] self.type_four_at(*board, s),
            added ==> final(effects).actions_spec() == old(effects).actions_spec().push(
                final(effects).actions_spec().last(),
            ),
            added ==> ur_rect_action(
                *board,
                self.pair1@,
                self.pair2@,
                self.floor_left@,
                self.floor_right@,
                self.roof_left@,
                self.roof_right@,
                self.diagonal,
                final(effects).actions_spec().last(),
            ),
            !added ==> final(effects).actions_spec() == old(effects).actions_spec(),
    {
        let mut s: u8 = 0;
        while s < 3
            invariant
                s <= 3,
                self.wf(*board),
                valid_effects(*board, *effects, Strategy::UniqueRectangle),
                effects.actions_spec() == old(effects).actions_spec(),
                forall|sh: Shape| shape_index(sh) < s ==> !#[trigger] self.type_four_at(*board, sh),
            decreases 3 - s,
        {
            let shape = Shape::new(s);
            let house = self.roof_left.house(shape);
            if house == self.roof_right.house(shape) {
                let pair1_required = board.house_candidate_cells(house, self.pair1).equals(&self.roof);
                let pair2_required = board.house_candidate_cells(house, self.pair2).equals(&self.roof);
                if pair1_required != pair2_required {
                    let (required, erase) = if pair1_required {
                        (self.pair1, self.pair2)
                    } else {
                        (self.pair2, self.pair1)
                    };
                    let mut action = Action::new(Strategy::UniqueRectangle);
                    let ghost before = action;
                    action.erase_cells(self.roof, erase);
                    proof {
                        assert(self.roof@.subset_of(candidate_cells_of(board.cands_spec(), erase@)));
                        lemma_erase_cells_keeps(*board, before, action, self.roof@, erase@);
                    }
                    action.clue_cells_for_knowns(Verdict::Primary, self.floor, self.pair);
                    action.clue_cells_for_known(Verdict::Secondary, self.roof, required);
                    proof {
                        assert(self.roof@.contains(self.roof_left@));
                        assert(action.erases_spec()[self.roof_left@ as int].contains(erase@));
                        assert(self.type_four_at(*board, shape));
                    }
                    proof {
                        assert forall|i: int| 0 <= i < 81 implies #[trigger] action.erases_spec()[i] == ur_four_erasure(
                            *board,
                            self.pair1@,
                            self.pair2@,
                            self.roof_left@,
                            self.roof_right@,
                            shape,
                            i as nat,
                        ) by {
                            if self.roof@.contains(i as nat) {
                                assert(action.erases_spec()[i] =~= set![erase@]);
                            }
                        }
                        assert(ur_type_four_at(*board, self.pair1@, self.pair2@, self.roof_left@, self.roof_right@, shape));
                        assert forall|s2: Shape| shape_index(s2) < shape_index(shape) implies !#[trigger] ur_type_four_at(
                            *board,
                            self.pair1@,
                            self.pair2@,
                            self.roof_left@,
                            self.roof_right@,
                            s2,
                        ) by {
                            assert(!self.type_four_at(*board, s2));
                        }
                    }
                    if add_valid(board, action, effects) {
                        return true;
                    }
                }
            }
            proof {
                assert(!self.type_four_at(*board, shape));
                assert forall|sh: Shape| shape_index(sh) < s + 1 implies !#[trigger] self.type_four_at(*board, sh) by {
                    if shape_index(sh) == s {
                        assert(sh == shape);
                    }
                }
            }
            s = s + 1;
        }
        proof {
            assert forall|sh: Shape| !#[trigger] self.type_four_at(*board, sh) by {
                assert(shape_index(sh) < 3);
            }
        }
        false
    }

    /// Type five: a digit of the pair is confined to two cells in each
    /// floor cell's row or column, so the other digit leaves the floor.
    fn check_type_five(&self, board: &Board, effects: &mut Effects) -> (added: bool)
        requires
            self.wf(*board),
            self.diagonal,
            valid_effects(*board, *old(effects), Strategy::UniqueRectangle),
        ensures
            valid_effects(*board, *final(effects), Strategy::UniqueRectangle),
            final(effects).actions_spec().len() == old(effects).actions_spec().len() + if added {
                1int
            } else {
                0int
            },
            added == exists|t: nat| t < 4 && #[trigger] self.type_five_at(*board, t),
            added ==> final(effects).actions_spec() == old(effects).actions_spec().push(
                final(effects).actions_spec().last(),
            ),
            added ==> ur_rect_action(
                *board,
                self.pair1@,
                self.pair2@,
                self.floor_left@,
                self.floor_right@,
                self.roof_left@,
                self.roof_right@,
                self.diagonal,
                final(effects).actions_spec().last(),
            ),
            !added ==> final(effects).actions_spec() == old(effects).actions_spec(),
    {
        let mut erase: Option<Known> = None;
        let ghost mut last_t: nat = 0;
        let mut t: u8 = 0;
        while t < 4
            invariant
                t <= 4,
                self.wf(*board),
                erase matches Some(k) ==> self.pair@.contains(k@),
                erase is Some <==> exists|u: nat| u < t && #[trigger] self.type_five_at(*board, u),
                erase matches Some(k) ==> last_t < t && self.type_five_at(*board, last_t) && (forall|u: nat|
                    last_t < u < t ==> !#[trigger] self.type_five_at(*board, u)) && k@ == if last_t % 2 == 0 {
                    self.pair2@
                } else {
                    self.pair1@
                },
            decreases 4 - t,
        {
            let shape = if t < 2 {
                Shape::Row
            } else {
                Shape::Column
            };
            let (pair_check, pair_erase) = if t % 2 == 0 {
                (self.pair1, self.pair2)
            } else {
                (self.pair2, self.pair1)
            };
            let house_left = self.floor_left.house(shape);
            let house_right = self.floor_right.house(shape);
            let ghost before = erase;
            if board.house_candidate_cells(house_left, pair_check).len() == 2
                && board.house_candidate_cells(house_right, pair_check).len() == 2 {
                erase = Some(pair_erase);
                proof {
                    last_t = t as nat;
                }
            }
            proof {
                assert(erase is Some <==> (before is Some || self.type_five_at(*board, t as nat)));
                assert((exists|u: nat| u < t + 1 && #[trigger] self.type_five_at(*board, u)) <==> (before is Some
                    || self.type_five_at(*board, t as nat)));
            }
            t = t + 1;
        }
        if let Some(erase) = erase {
            let floor_cells = CellSet::empty().with(self.floor_left).with(self.floor_right);
            let mut action = Action::new(Strategy::UniqueRectangle);
            let ghost before = action;
            action.erase_cells(floor_cells, erase);
            proof {
                assert(floor_cells@.subset_of(candidate_cells_of(board.cands_spec(), erase@)));
                lemma_erase_cells_keeps(*board, before, action, floor_cells@, erase@);
                assert(floor_cells@.contains(self.floor_left@));
                assert(action.erases_spec()[self.floor_left@ as int].contains(erase@));
            }
            action.clue_cells_for_knowns(Verdict::Primary, self.roof, self.pair);
            action.clue_cells_for_knowns(Verdict::Primary, self.floor, self.pair.without(erase));
            proof {
                assert forall|i: int| 0 <= i < 81 implies #[trigger] action.erases_spec()[i] == ur_five_erasure(
                    self.pair1@,
                    self.pair2@,
                    self.floor_left@,
                    self.floor_right@,
                    last_t,
                    i as nat,
                ) by {
                    if floor_cells@.contains(i as nat) {
                        assert(action.erases_spec()[i] =~= set![erase@]);
                    }
                }
                assert(ur_type_five_at(*board, self.pair1@, self.pair2@, self.floor_left@, self.floor_right@, last_t));
                assert forall|u: nat| last_t < u < 4 implies !#[trigger] ur_type_five_at(
                    *board,
                    self.pair1@,
                    self.pair2@,
                    self.floor_left@,
                    self.floor_right@,
                    u,
                ) by {
                    assert(!self.type_five_at(*board, u));
                }
            }
            add_valid(board, action, effects)
        } else {
            false
        }
    }
}

} // verus!
