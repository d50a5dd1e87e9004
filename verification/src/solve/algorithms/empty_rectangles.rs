use vstd::prelude::*;

use crate::layout::cell::{block_of, lemma_cell_at, Cell};
use crate::layout::cell_set::{lemma_cell_set_bounded, CellSet};
use crate::layout::coord::Coord;
use crate::layout::house::{houses_of_cells, lemma_house_view_injective, House};
use crate::layout::known::Known;
use crate::layout::known_set::lemma_known_set_bounded;
use crate::layout::shape::{house_cells, house_of, Shape};
use crate::solve::action::Action;
use crate::solve::algorithms::{
    erases_candidates, found_by, sets_candidates, valid_action, valid_effects, Solver,
};
use crate::solve::board::{candidate_cells_of, lemma_board_cands_shape, lemma_board_values_shape, Board};
use crate::solve::effects::Effects;
use crate::solve::strategy::{Strategy, Verdict};

verus! {

broadcast use {
    lemma_cell_at,
    lemma_cell_set_bounded,
    lemma_known_set_bounded,
    lemma_board_values_shape,
    lemma_board_cands_shape,
    lemma_house_view_injective,
};

/// The candidate cells of digit `k` in house `h`.
pub open spec fn house_cands(board: Board, h: (Shape, nat), k: nat) -> Set<nat> {
    candidate_cells_of(board.cands_spec(), k).intersect(house_cells(h.0, h.1))
}

/// Whether the candidate cells of `k` in `block` lie within row `r` and
/// column `c`, both crossing the block.
pub open spec fn fits(board: Board, block: (Shape, nat), k: nat, r: nat, c: nat) -> bool {
    &&& houses_of_cells(Shape::Row, house_cells(block.0, block.1)).contains(r)
    &&& houses_of_cells(Shape::Column, house_cells(block.0, block.1)).contains(c)
    &&& house_cands(board, block, k).subset_of(
        house_cells(Shape::Row, r).union(house_cells(Shape::Column, c)),
    )
}

/// Row `r` and column `c` fit the block first: the lowest fitting row,
/// with the lowest column that fits together with it.
pub open spec fn first_fit(board: Board, block: (Shape, nat), k: nat, r: nat, c: nat) -> bool {
    &&& fits(board, block, k, r, c)
    &&& forall|rr: nat, cc: nat| #[trigger] fits(board, block, k, rr, cc) ==> r < rr || (r == rr && c <= cc)
}

/// The two houses through the block on one side, the top and the left:
/// row `r` and column `c` on side 0, column `c` and row `r` on side 1.
pub open spec fn framing(side: nat, r: nat, c: nat) -> ((Shape, nat), (Shape, nat)) {
    if side == 0 {
        ((Shape::Row, r), (Shape::Column, c))
    } else {
        ((Shape::Column, c), (Shape::Row, r))
    }
}

/// An empty rectangle on digit `k` in block `b` that erases `k` from
/// `end`: the block holds `k` in at least three cells, all within row `r`
/// and column `c`, the first that fit; `start` holds `k` in the top house
/// outside the block; the house through `start` parallel to the left one
/// holds `k` elsewhere only in `pivot`, in another block; and the house
/// through `pivot` parallel to the top meets the candidate cells of the
/// left house outside the block in `end` alone.
pub open spec fn empty_rectangle(
    board: Board,
    k: nat,
    b: nat,
    r: nat,
    c: nat,
    side: nat,
    start: nat,
    pivot: nat,
    end: nat,
) -> bool {
    let block = (Shape::Block, b);
    let top = framing(side, r, c).0;
    let left = framing(side, r, c).1;
    let cells = house_cands(board, block, k);
    &&& k < 9
    &&& b < 9
    &&& side < 2
    &&& cells.len() >= 3
    &&& first_fit(board, block, k, r, c)
    &&& house_cands(board, top, k).contains(start)
    &&& !cells.contains(start)
    &&& house_cands(board, (left.0, house_of(left.0, start)), k).remove(start) == set![pivot]
    &&& block_of(start) != block_of(pivot)
    &&& house_cands(board, (top.0, house_of(top.0, pivot)), k).remove(pivot).intersect(
        house_cands(board, left, k).difference(cells),
    ) == set![end]
}

/// What an empty rectangle erases from cell `i`: the digit from `end`,
/// and from `start` too where the house through the pivot parallel to the
/// top holds the digit only in the pivot and `end`.
pub open spec fn er_erasure(
    board: Board,
    k: nat,
    r: nat,
    c: nat,
    side: nat,
    start: nat,
    pivot: nat,
    end: nat,
    i: nat,
) -> Set<nat> {
    let top = framing(side, r, c).0;
    if i == end || (i == start && house_cands(board, (top.0, house_of(top.0, pivot)), k).remove(pivot).len() == 1) {
        set![k]
    } else {
        Set::<nat>::empty()
    }
}

/// An action of an empty rectangle of the board: it erases what the
/// rectangle rules out and sets nothing.
pub open spec fn er_action(board: Board, a: Action) -> bool {
    exists|k: nat, b: nat, r: nat, c: nat, side: nat, start: nat, pivot: nat, end: nat|
        #[trigger] empty_rectangle(board, k, b, r, c, side, start, pivot, end) && a.sets_spec() == Seq::new(
            81,
            |i: int| 0nat,
        ) && forall|i: int|
            0 <= i < 81 ==> #[trigger] a.erases_spec()[i] == er_erasure(board, k, r, c, side, start, pivot, end, i as nat)
}

/// Whether the board has an empty rectangle.
pub open spec fn has_empty_rectangle(board: Board) -> bool {
    exists|k: nat, b: nat, r: nat, c: nat, side: nat, start: nat, pivot: nat, end: nat|
        #[trigger] empty_rectangle(board, k, b, r, c, side, start, pivot, end)
}

/// Whether a search at digit `kn`, block `b` and side `side` has gone past
/// the rectangle on digit `k`, block `bb` and side `sd`; `seen` tells
/// whether its start was tried already when all else is equal.
spec fn passed(kn: nat, b: nat, side: nat, k: nat, bb: nat, sd: nat, seen: bool) -> bool {
    k < kn || (k == kn && (bb < b || (bb == b && (sd < side || (sd == side && seen)))))
}

/// Two first fits of a block are the same.
proof fn lemma_first_fit_unique(board: Board, block: (Shape, nat), k: nat, r1: nat, c1: nat, r2: nat, c2: nat)
    requires
        first_fit(board, block, k, r1, c1),
        first_fit(board, block, k, r2, c2),
    ensures
        r1 == r2 && c1 == c2,
{
    assert(fits(board, block, k, r1, c1));
    assert(fits(board, block, k, r2, c2));
}

/// The technique of a block whose candidates for a digit lie in one row and
/// one column, seen with a strong link that points back at it.
pub struct EmptyRectangleSolver;

impl Solver for EmptyRectangleSolver {
    fn strategy(&self) -> (r: Strategy)
        ensures
            r == Strategy::EmptyRectangle,
    {
        Strategy::EmptyRectangle
    }

    fn apply(&self, board: &Board, single: bool) -> (r: Option<Effects>)
        ensures
            found_by(*board, r, single, Strategy::EmptyRectangle),
            r is Some <==> has_empty_rectangle(*board),
            r matches Some(e) ==> forall|x: int|
                0 <= x < e.actions_spec().len() ==> er_action(*board, #[trigger] e.actions_spec()[x]),
    {
        find_empty_rectangles(board, single)
    }
}

/// The empty rectangles of the board, only the first when `single`; there
/// are some exactly when the board has an empty rectangle.
pub fn find_empty_rectangles(board: &Board, single: bool) -> (r: Option<Effects>)
    ensures
        found_by(*board, r, single, Strategy::EmptyRectangle),
        r is Some <==> has_empty_rectangle(*board),
        r matches Some(e) ==> forall|x: int|
            0 <= x < e.actions_spec().len() ==> er_action(*board, #[trigger] e.actions_spec()[x]),
{
    let mut effects = Effects::new();
    let mut kn: u8 = 0;
    while kn < 9
        invariant
            kn <= 9,
            valid_effects(*board, effects, Strategy::EmptyRectangle),
            single ==> effects.actions_spec().len() == 0,
            effects.actions_spec().len() > 0 ==> has_empty_rectangle(*board),
            forall|x: int| 0 <= x < effects.actions_spec().len() ==> er_action(*board, #[trigger] effects.actions_spec()[x]),
            effects.actions_spec().len() == 0 ==> forall|
                k: nat,
                bb: nat,
                r: nat,
                c: nat,
                sd: nat,
                start: nat,
                pivot: nat,
                end: nat,
            |
                #[trigger] empty_rectangle(*board, k, bb, r, c, sd, start, pivot, end) ==> !passed(
                    kn as nat,
                    0,
                    0,
                    k,
                    bb,
                    sd,
                    false,
                ),
        decreases 9 - kn,
    {
        let known = Known::from_index(kn);
        let mut b: u8 = 0;
        while b < 9
            invariant
                b <= 9,
                kn < 9,
                known@ == kn,
                valid_effects(*board, effects, Strategy::EmptyRectangle),
                single ==> effects.actions_spec().len() == 0,
                effects.actions_spec().len() > 0 ==> has_empty_rectangle(*board),
                forall|x: int| 0 <= x < effects.actions_spec().len() ==> er_action(*board, #[trigger] effects.actions_spec()[x]),
                effects.actions_spec().len() == 0 ==> forall|
                    k: nat,
                    bb: nat,
                    r: nat,
                    c: nat,
                    sd: nat,
                    start: nat,
                    pivot: nat,
                    end: nat,
                |
                    #[trigger] empty_rectangle(*board, k, bb, r, c, sd, start, pivot, end) ==> !passed(
                        kn as nat,
                        b as nat,
                        0,
                        k,
                        bb,
                        sd,
                        false,
                    ),
            decreases 9 - b,
        {
            let block = House::new(Shape::Block, Coord::new(b));
            if let Some((cells, row, column)) = fit_row_column(board, block, known) {
                let mut erased = CellSet::empty();
                let mut side: u8 = 0;
                while side < 2
                    invariant
                        side <= 2,
                        kn < 9,
                        b < 9,
                        known@ == kn,
                        block@ == (Shape::Block, b as nat),
                        cells@ == house_cands(*board, block@, known@),
                        cells@.len() >= 3,
                        row@.0 == Shape::Row,
                        column@.0 == Shape::Column,
                        first_fit(*board, block@, known@, row@.1, column@.1),
                        valid_effects(*board, effects, Strategy::EmptyRectangle),
                        single ==> effects.actions_spec().len() == 0,
                        effects.actions_spec().len() > 0 ==> has_empty_rectangle(*board),
                        forall|x: int| 0 <= x < effects.actions_spec().len() ==> er_action(*board, #[trigger] effects.actions_spec()[x]),
                        erased@ != Set::<nat>::empty() ==> effects.actions_spec().len() > 0,
                        effects.actions_spec().len() == 0 ==> forall|
                            k: nat,
                            bb: nat,
                            r: nat,
                            c: nat,
                            sd: nat,
                            start: nat,
                            pivot: nat,
                            end: nat,
                        |
                            #[trigger] empty_rectangle(*board, k, bb, r, c, sd, start, pivot, end) ==> !passed(
                                kn as nat,
                                b as nat,
                                side as nat,
                                k,
                                bb,
                                sd,
                                false,
                            ),
                    decreases 2 - side,
                {
                    let (top, left) = if side == 0 {
                        (row, column)
                    } else {
                        (column, row)
                    };
                    let candidates = board.house_candidate_cells(left, known).minus(cells);
                    let starts = board.house_candidate_cells(top, known).minus(cells).to_vec();
                    let mut s: usize = 0;
                    while s < starts.len()
                        invariant
                            s <= starts.len(),
                            side < 2,
                            kn < 9,
                            b < 9,
                            known@ == kn,
                            block@ == (Shape::Block, b as nat),
                            cells@ == house_cands(*board, block@, known@),
                            cells@.len() >= 3,
                            row@.0 == Shape::Row,
                            column@.0 == Shape::Column,
                            first_fit(*board, block@, known@, row@.1, column@.1),
                            top@ == framing(side as nat, row@.1, column@.1).0,
                            left@ == framing(side as nat, row@.1, column@.1).1,
                            candidates@ == house_cands(*board, left@, known@).difference(cells@),
                            forall|x: int|
                                0 <= x < starts.len() ==> house_cands(*board, top@, known@).difference(cells@).contains(
                                    #[trigger] starts[x]@,
                                ),
                            forall|y: nat|
                                house_cands(*board, top@, known@).difference(cells@).contains(y) ==> exists|x: int|
                                    0 <= x < starts.len() && (#[trigger] starts[x])@ == y,
                            valid_effects(*board, effects, Strategy::EmptyRectangle),
                            single ==> effects.actions_spec().len() == 0,
                            effects.actions_spec().len() > 0 ==> has_empty_rectangle(*board),
                            forall|x: int| 0 <= x < effects.actions_spec().len() ==> er_action(*board, #[trigger] effects.actions_spec()[x]),
                            erased@ != Set::<nat>::empty() ==> effects.actions_spec().len() > 0,
                            effects.actions_spec().len() == 0 ==> forall|
                                k: nat,
                                bb: nat,
                                r: nat,
                                c: nat,
                                sd: nat,
                                start: nat,
                                pivot: nat,
                                end: nat,
                            |
                                #[trigger] empty_rectangle(*board, k, bb, r, c, sd, start, pivot, end) ==> !passed(
                                    kn as nat,
                                    b as nat,
                                    side as nat,
                                    k,
                                    bb,
                                    sd,
                                    exists|x: int| 0 <= x < s && (#[trigger] starts[x])@ == start,
                                ),
                        decreases starts.len() - s,
                    {
                        let start = starts[s];
                        proof {
                            assert(house_cands(*board, top@, known@).difference(cells@).contains(start@));
                        }
                        if erased.has(start) {
                            s = s + 1;
                            continue;
                        }
                        let right = start.house(left.shape());
                        if let Some(pivot) = board.house_candidate_cells(right, known).without(start).as_single() {
                            if start.block() == pivot.block() {
                                proof {
                                    assert forall|r2: nat, c2: nat, p2: nat, e2: nat|
                                        !empty_rectangle(*board, kn as nat, b as nat, r2, c2, side as nat, start@, p2, e2) by {
                                        if empty_rectangle(*board, kn as nat, b as nat, r2, c2, side as nat, start@, p2, e2) {
                                            lemma_first_fit_unique(*board, block@, known@, r2, c2, row@.1, column@.1);
                                            assert(set![p2].contains(p2));
                                        }
                                    }
                                }
                                s = s + 1;
                                continue;
                            }
                            let bottom = pivot.house(top.shape());
                            let ends = board.house_candidate_cells(bottom, known).without(pivot);
                            if let Some(end) = ends.intersect(candidates).as_single() {
                                erased = erased.with(end);
                                let mut action = Action::new_erase(Strategy::EmptyRectangle, end, known);
                                proof {
                                    assert(set![end@].contains(end@));
                                    assert(ends@.intersect(candidates@).contains(end@));
                                    assert(candidates@.contains(end@));
                                    assert forall|c: int, j: nat|
                                        0 <= c < 81 && #[trigger] action.erases_spec()[c].contains(j) implies board.cands_spec()[c].contains(j) by {
                                        assert(c == end@ && j == known@);
                                    }
                                    assert(empty_rectangle(
                                        *board,
                                        kn as nat,
                                        b as nat,
                                        row@.1,
                                        column@.1,
                                        side as nat,
                                        start@,
                                        pivot@,
                                        end@,
                                    ));
                                }
                                let ghost e0 = action.erases_spec();
                                if ends.len() == 1 {
                                    let ghost before = action;
                                    action.erase(start, known);
                                    proof {
                                        assert forall|c: int, j: nat|
                                            0 <= c < 81 && #[trigger] action.erases_spec()[c].contains(j) implies board.cands_spec()[c].contains(j) by {
                                            if c == start@ && j == known@ {
                                            } else {
                                                assert(before.erases_spec()[c].contains(j));
                                            }
                                        }
                                    }
                                } else {
                                    action.clue_cell_for_known(Verdict::Secondary, start, known);
                                }
                                let ghost e1 = action.erases_spec();
                                proof {
                                    assert(ends@ == house_cands(*board, (framing(side as nat, row@.1, column@.1).0.0, house_of(framing(side as nat, row@.1, column@.1).0.0, pivot@)), known@).remove(pivot@));
                                    assert forall|i: int| 0 <= i < 81 implies #[trigger] e1[i] == er_erasure(*board, known@, row@.1, column@.1, side as nat, start@, pivot@, end@, i as nat) by {
                                        if i == start@ && ends@.len() == 1 {
                                            if i == end@ {
                                                assert(e1[i] =~= set![known@]);
                                            } else {
                                                assert(e1[i] =~= set![known@]);
                                            }
                                        }
                                    }
                                }
                                action.clue_cells_for_known(Verdict::Primary, cells, known);
                                action.clue_cell_for_known(Verdict::Secondary, pivot, known);
                                proof {
                                    assert(sets_candidates(*board, action));
                                    assert(action.erases_spec()[end@ as int].contains(known@));
                                    assert(!action.is_empty_spec());
                                }
                                let ghost act = action;
                                let added = effects.add_action(action);
                                proof {
                                    assert(er_action(*board, act));
                                    assert forall|x: int| 0 <= x < effects.actions_spec().len() implies er_action(*board, #[trigger] effects.actions_spec()[x]) by {
                                        if added && x == effects.actions_spec().len() - 1 {
                                            assert(effects.actions_spec()[x] == act);
                                        }
                                    }
                                    assert forall|x: int| 0 <= x < effects.actions_spec().len() implies valid_action(
                                        *board,
                                        #[trigger] effects.actions_spec()[x],
                                        Strategy::EmptyRectangle,
                                    ) by {
                                        if added && x == effects.actions_spec().len() - 1 {
                                            assert(effects.actions_spec()[x] == act);
                                        }
                                    }
                                }
                                if added && single {
                                    return Some(effects);
                                }
                            } else {
                                proof {
                                    assert forall|r2: nat, c2: nat, p2: nat, e2: nat|
                                        !empty_rectangle(*board, kn as nat, b as nat, r2, c2, side as nat, start@, p2, e2) by {
                                        if empty_rectangle(*board, kn as nat, b as nat, r2, c2, side as nat, start@, p2, e2) {
                                            lemma_first_fit_unique(*board, block@, known@, r2, c2, row@.1, column@.1);
                                            assert(set![p2].contains(p2));
                                            assert(set![e2].len() == 1);
                                        }
                                    }
                                }
                            }
                        } else {
                            proof {
                                assert forall|r2: nat, c2: nat, p2: nat, e2: nat|
                                    !empty_rectangle(*board, kn as nat, b as nat, r2, c2, side as nat, start@, p2, e2) by {
                                    if empty_rectangle(*board, kn as nat, b as nat, r2, c2, side as nat, start@, p2, e2) {
                                        lemma_first_fit_unique(*board, block@, known@, r2, c2, row@.1, column@.1);
                                        assert(set![p2].len() == 1);
                                    }
                                }
                            }
                        }
                        s = s + 1;
                    }
                    proof {
                        if effects.actions_spec().len() == 0 {
                            assert forall|k: nat, bb: nat, r: nat, c: nat, sd: nat, start: nat, pivot: nat, end: nat|
                                #[trigger] empty_rectangle(*board, k, bb, r, c, sd, start, pivot, end) implies !passed(
                                kn as nat,
                                b as nat,
                                (side + 1) as nat,
                                k,
                                bb,
                                sd,
                                false,
                            ) by {
                                if k == kn && bb == b && sd == side {
                                    lemma_first_fit_unique(*board, block@, known@, r, c, row@.1, column@.1);
                                    assert(house_cands(*board, top@, known@).difference(cells@).contains(start));
                                    let x = choose|x: int| 0 <= x < starts.len() && (#[trigger] starts[x])@ == start;
                                    assert(starts[x]@ == start);
                                }
                            }
                        }
                    }
                    side = side + 1;
                }
            } else {
                proof {
                    if effects.actions_spec().len() == 0 {
                        assert forall|k: nat, bb: nat, r: nat, c: nat, sd: nat, start: nat, pivot: nat, end: nat|
                            #[trigger] empty_rectangle(*board, k, bb, r, c, sd, start, pivot, end) implies !passed(
                            kn as nat,
                            (b + 1) as nat,
                            0,
                            k,
                            bb,
                            sd,
                            false,
                        ) by {
                            if k == kn && bb == b {
                                assert(fits(*board, block@, known@, r, c));
                            }
                        }
                    }
                }
            }
            b = b + 1;
        }
        kn = kn + 1;
    }
    proof {
        if effects.actions_spec().len() == 0 && has_empty_rectangle(*board) {
            let (k, bb, r, c, sd, start, pivot, end) = choose|
                k: nat,
                bb: nat,
                r: nat,
                c: nat,
                sd: nat,
                start: nat,
                pivot: nat,
                end: nat,
            | #[trigger] empty_rectangle(*board, k, bb, r, c, sd, start, pivot, end);
            assert(empty_rectangle(*board, k, bb, r, c, sd, start, pivot, end));
        }
    }
    if effects.has_actions() {
        Some(effects)
    } else {
        None
    }
}

/// The candidate cells of `known` in `block`, with a row and a column of
/// the block that hold them all, when there are at least three of them and
/// such a row and column exist; the first row, then the first column, in
/// order.
pub fn fit_row_column(board: &Board, block: House, known: Known) -> (r: Option<(CellSet, House, House)>)
    ensures
        r is None <==> house_cands(*board, block@, known@).len() < 3 || !exists|rr: nat, cc: nat|
            #[trigger] fits(*board, block@, known@, rr, cc),
        r matches Some((cells, row, column)) ==> {
            &&& cells@ == house_cands(*board, block@, known@)
            &&& row@.0 == Shape::Row
            &&& column@.0 == Shape::Column
            &&& first_fit(*board, block@, known@, row@.1, column@.1)
        },
{
    let cells = board.house_candidate_cells(block, known);
    if cells.len() < 3 {
        return None;
    }
    let rows = block.rows().to_vec();
    let columns = block.columns().to_vec();
    let mut i: usize = 0;
    while i < rows.len()
        invariant
            i <= rows.len(),
            cells@.len() >= 3,
            cells@ == house_cands(*board, block@, known@),
            forall|a: int| 0 <= a < rows.len() ==> (#[trigger] rows[a])@.0 == Shape::Row
                && houses_of_cells(Shape::Row, house_cells(block@.0, block@.1)).contains(rows[a]@.1),
            forall|x: nat| houses_of_cells(Shape::Row, house_cells(block@.0, block@.1)).contains(x) ==> exists|a: int|
                0 <= a < rows.len() && (#[trigger] rows[a])@.1 == x,
            forall|a: int| 0 <= a < columns.len() ==> (#[trigger] columns[a])@.0 == Shape::Column
                && houses_of_cells(Shape::Column, house_cells(block@.0, block@.1)).contains(columns[a]@.1),
            forall|x: nat| houses_of_cells(Shape::Column, house_cells(block@.0, block@.1)).contains(x) ==> exists|a: int|
                0 <= a < columns.len() && (#[trigger] columns[a])@.1 == x,
            forall|a: int, cc: nat| 0 <= a < i ==> !#[trigger] fits(*board, block@, known@, rows[a]@.1, cc),
            forall|a: int, b: int| 0 <= a < b < rows.len() ==> rows[a]@.1 < rows[b]@.1,
            forall|a: int, b: int| 0 <= a < b < columns.len() ==> columns[a]@.1 < columns[b]@.1,
        decreases rows.len() - i,
    {
        let mut j: usize = 0;
        while j < columns.len()
            invariant
                j <= columns.len(),
                i < rows.len(),
                cells@.len() >= 3,
                cells@ == house_cands(*board, block@, known@),
                forall|a: int| 0 <= a < rows.len() ==> (#[trigger] rows[a])@.0 == Shape::Row
                    && houses_of_cells(Shape::Row, house_cells(block@.0, block@.1)).contains(rows[a]@.1),
                forall|a: int| 0 <= a < columns.len() ==> (#[trigger] columns[a])@.0 == Shape::Column
                    && houses_of_cells(Shape::Column, house_cells(block@.0, block@.1)).contains(columns[a]@.1),
                forall|x: nat| houses_of_cells(Shape::Column, house_cells(block@.0, block@.1)).contains(x) ==> exists|a: int|
                    0 <= a < columns.len() && (#[trigger] columns[a])@.1 == x,
                forall|a: int| 0 <= a < j ==> !#[trigger] fits(*board, block@, known@, rows[i as int]@.1, columns[a]@.1),
                forall|x: nat| houses_of_cells(Shape::Row, house_cells(block@.0, block@.1)).contains(x) ==> exists|a: int|
                    0 <= a < rows.len() && (#[trigger] rows[a])@.1 == x,
                forall|a: int, cc: nat| 0 <= a < i ==> !#[trigger] fits(*board, block@, known@, rows[a]@.1, cc),
                forall|a: int, b: int| 0 <= a < b < rows.len() ==> rows[a]@.1 < rows[b]@.1,
                forall|a: int, b: int| 0 <= a < b < columns.len() ==> columns[a]@.1 < columns[b]@.1,
            decreases columns.len() - j,
        {
            let row = rows[i];
            let column = columns[j];
            if cells.is_subset_of(row.cells().union(column.cells())) {
                proof {
                    assert(fits(*board, block@, known@, row@.1, column@.1));
                    assert forall|rr: nat, cc: nat| #[trigger] fits(*board, block@, known@, rr, cc) implies row@.1 < rr || (
                    row@.1 == rr && column@.1 <= cc) by {
                        let a = choose|a: int| 0 <= a < rows.len() && (#[trigger] rows[a])@.1 == rr;
                        let a2 = choose|a2: int| 0 <= a2 < columns.len() && (#[trigger] columns[a2])@.1 == cc;
                        if a < i {
                            assert(!fits(*board, block@, known@, rows[a]@.1, cc));
                        } else if a == i {
                            if a2 < j {
                                assert(!fits(*board, block@, known@, rows[i as int]@.1, columns[a2]@.1));
                            }
                        }
                    }
                }
                return Some((cells, row, column));
            }
            j = j + 1;
        }
        proof {
            assert forall|cc: nat| !#[trigger] fits(*board, block@, known@, rows[i as int]@.1, cc) by {
                if fits(*board, block@, known@, rows[i as int]@.1, cc) {
                    let a = choose|a: int| 0 <= a < columns.len() && (#[trigger] columns[a])@.1 == cc;
                    assert(!fits(*board, block@, known@, rows[i as int]@.1, columns[a]@.1));
                }
            }
        }
        i = i + 1;
    }
    proof {
        assert forall|rr: nat, cc: nat| !#[trigger] fits(*board, block@, known@, rr, cc) by {
            if fits(*board, block@, known@, rr, cc) {
                let a = choose|a: int| 0 <= a < rows.len() && (#[trigger] rows[a])@.1 == rr;
                assert(!fits(*board, block@, known@, rows[a]@.1, cc));
            }
        }
    }
    None
}

} // verus!
