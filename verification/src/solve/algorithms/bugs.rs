use vstd::prelude::*;

use crate::layout::cell::{lemma_cell_at, Cell};
use crate::layout::cell_set::lemma_cell_set_bounded;
use crate::layout::known::Known;
use crate::layout::known_set::{lemma_known_set_bounded, KnownSet};
use crate::layout::set_lemmas::lemma_nonempty_choose;
use crate::layout::shape::{house_cells, house_of, Shape};
use crate::solve::action::Action;
use crate::solve::algorithms::{found_by, valid_action, Solver};
use crate::solve::board::{
    candidate_cells_of, cells_with_n, lemma_board_cands_shape, lemma_board_values_shape, Board,
};
use crate::solve::effects::Effects;
use crate::solve::strategy::{Strategy, Verdict};

verus! {

broadcast use {
    lemma_cell_at,
    lemma_cell_set_bounded,
    lemma_known_set_bounded,
    lemma_board_values_shape,
    lemma_board_cands_shape,
};

/// Whether digit `k` has exactly two candidate cells in some house of cell
/// `t`.
pub open spec fn twice_in_a_house(cands: Seq<Set<nat>>, t: nat, k: nat) -> bool {
    exists|s: Shape|
        #[trigger] candidate_cells_of(cands, k).intersect(house_cells(s, house_of(s, t))).len() == 2
}

/// The candidates of cell `t` that have exactly two candidate cells in one
/// of its houses.
pub open spec fn bug_eliminated(cands: Seq<Set<nat>>, t: nat) -> Set<nat> {
    cands[t as int].filter(|k: nat| twice_in_a_house(cands, t, k))
}

/// The board has the shape of a bivalue universal grave plus one: some cells
/// have two candidates, exactly one has three, and no unknown cell has
/// another number of them.
pub open spec fn bug_shape(cands: Seq<Set<nat>>) -> bool {
    &&& cells_with_n(cands, 2) != Set::<nat>::empty()
    &&& cells_with_n(cands, 3).len() == 1
    &&& cells_with_n(cands, 1) == Set::<nat>::empty()
    &&& forall|n: nat| 4 <= n <= 9 ==> #[trigger] cells_with_n(cands, n) == Set::<nat>::empty()
}

/// The one cell with three candidates.
pub open spec fn bug_cell(cands: Seq<Set<nat>>) -> nat {
    cells_with_n(cands, 3).choose()
}

/// The technique that solves the one cell with three candidates on a board
/// where every other unsolved cell has two.
pub struct BugSolver;

impl Solver for BugSolver {
    fn strategy(&self) -> (r: Strategy)
        ensures
            r == Strategy::Bug,
    {
        Strategy::Bug
    }

    fn apply(&self, board: &Board, single: bool) -> (r: Option<Effects>)
        ensures
            found_by(*board, r, single, Strategy::Bug),
            r is Some <==> bug_shape(board.cands_spec()) && bug_eliminated(
                board.cands_spec(),
                bug_cell(board.cands_spec()),
            ).len() == 2,
    {
        find_bugs(board, single)
    }
}

/// On a board with the shape of a bivalue universal grave plus one, where
/// two of the three candidates of the odd cell have two candidate cells in
/// one of its houses, the action that sets the third; else nothing.
pub fn find_bugs(board: &Board, single: bool) -> (r: Option<Effects>)
    ensures
        found_by(*board, r, single, Strategy::Bug),
        r is Some <==> bug_shape(board.cands_spec()) && bug_eliminated(
            board.cands_spec(),
            bug_cell(board.cands_spec()),
        ).len() == 2,
        r matches Some(e) ==> {
            let t = bug_cell(board.cands_spec());
            let solution = board.cands_spec()[t as int].difference(
                bug_eliminated(board.cands_spec(), t),
            );
            &&& e.actions_spec().len() == 1
            &&& e.actions_spec()[0].erases_spec() == Seq::new(81, |i: int| Set::<nat>::empty())
            &&& exists|k: nat|
                solution == set![k] && e.actions_spec()[0].sets_spec() == Seq::new(
                    81,
                    |i: int| 0nat,
                ).update(t as int, k + 1)
        },
{
    let ghost cands = board.cands_spec();
    let mut effects = Effects::new();
    let pairs = board.cells_with_n_candidates(2);
    let triples = board.cells_with_n_candidates(3);
    if pairs.is_empty() || triples.len() != 1 {
        return None;
    }
    let counts: [usize; 7] = [1, 4, 5, 6, 7, 8, 9];
    let mut idx: usize = 0;
    while idx < 7
        invariant
            idx <= 7,
            counts@ == seq![1usize, 4, 5, 6, 7, 8, 9],
            cands == board.cands_spec(),
            forall|j: int| 0 <= j < idx ==> cells_with_n(cands, #[trigger] counts@[j] as nat) == Set::<nat>::empty(),
        decreases 7 - idx,
    {
        let n: usize = counts[idx];
        if !board.cells_with_n_candidates(n).is_empty() {
            proof {
                assert(!bug_shape(cands)) by {
                    if n >= 4 {
                        assert(cells_with_n(cands, n as nat) != Set::<nat>::empty());
                    }
                }
            }
            return None;
        }
        idx = idx + 1;
    }
    proof {
        assert forall|n: nat| 4 <= n <= 9 implies #[trigger] cells_with_n(cands, n) == Set::<nat>::empty() by {
            assert(cells_with_n(cands, counts@[n - 3] as nat) == Set::<nat>::empty());
        }
        assert(cells_with_n(cands, counts@[0] as nat) == Set::<nat>::empty());
        assert(bug_shape(cands));
    }
    let triple = match triples.as_single() {
        Some(c) => c,
        None => {
            return None;
        },
    };
    proof {
        assert(cells_with_n(cands, 3) == set![triple@]);
        lemma_nonempty_choose(cells_with_n(cands, 3));
        assert(bug_cell(cands) == triple@);
    }
    let candidates = board.candidates(triple);
    let houses = triple.houses();
    let mut eliminated = KnownSet::empty();
    let list = candidates.to_vec();
    let mut i: usize = 0;
    while i < list.len()
        invariant
            i <= list.len(),
            cands == board.cands_spec(),
            candidates@ == cands[triple@ as int],
            houses@.len() == 3,
            houses[0]@ == (Shape::Row, house_of(Shape::Row, triple@)),
            houses[1]@ == (Shape::Column, house_of(Shape::Column, triple@)),
            houses[2]@ == (Shape::Block, house_of(Shape::Block, triple@)),
            forall|a: int, b: int| 0 <= a < b < list.len() ==> list[a]@ < list[b]@,
            forall|a: int| 0 <= a < list.len() ==> candidates@.contains(#[trigger] list[a]@),
            forall|x: nat| candidates@.contains(x) ==> exists|a: int| 0 <= a < list.len() && (#[trigger] list[a])@ == x,
            eliminated@ == bug_eliminated(cands, triple@).filter(
                |k: nat| exists|a: int| 0 <= a < i && (#[trigger] list[a])@ == k,
            ),
        decreases list.len() - i,
    {
        let known = list[i];
        let mut h: usize = 0;
        let mut twice = false;
        while h < 3
            invariant
                h <= 3,
                cands == board.cands_spec(),
                houses@.len() == 3,
                houses[0]@ == (Shape::Row, house_of(Shape::Row, triple@)),
                houses[1]@ == (Shape::Column, house_of(Shape::Column, triple@)),
                houses[2]@ == (Shape::Block, house_of(Shape::Block, triple@)),
                twice == exists|j: int|
                    0 <= j < h && #[trigger] candidate_cells_of(cands, known@).intersect(
                        house_cells(houses[j]@.0, houses[j]@.1),
                    ).len() == 2,
            decreases 3 - h,
        {
            if board.house_candidate_cells(houses[h], known).len() == 2 {
                twice = true;
            }
            h = h + 1;
        }
        proof {
            let tw = twice_in_a_house(cands, triple@, known@);
            if twice {
                let j = choose|j: int|
                    0 <= j < 3 && #[trigger] candidate_cells_of(cands, known@).intersect(
                        house_cells(houses[j]@.0, houses[j]@.1),
                    ).len() == 2;
                let s = houses[j]@.0;
                assert(candidate_cells_of(cands, known@).intersect(house_cells(s, house_of(s, triple@))).len() == 2);
            }
            if tw {
                let s = choose|s: Shape|
                    #[trigger] candidate_cells_of(cands, known@).intersect(house_cells(s, house_of(s, triple@))).len() == 2;
                match s {
                    Shape::Row => assert(candidate_cells_of(cands, known@).intersect(
                        house_cells(houses[0]@.0, houses[0]@.1),
                    ).len() == 2),
                    Shape::Column => assert(candidate_cells_of(cands, known@).intersect(
                        house_cells(houses[1]@.0, houses[1]@.1),
                    ).len() == 2),
                    Shape::Block => assert(candidate_cells_of(cands, known@).intersect(
                        house_cells(houses[2]@.0, houses[2]@.1),
                    ).len() == 2),
                }
            }
            assert(twice == tw);
        }
        if twice {
            eliminated = eliminated.with(known);
        }
        proof {
            assert(eliminated@ =~= bug_eliminated(cands, triple@).filter(
                |k: nat| exists|a: int| 0 <= a < i + 1 && (#[trigger] list[a])@ == k,
            ));
        }
        i = i + 1;
    }
    proof {
        assert(eliminated@ =~= bug_eliminated(cands, triple@));
    }
    if eliminated.len() == 2 {
        let rest = candidates.minus(eliminated);
        proof {
            assert(eliminated@.subset_of(candidates@));
            vstd::set_lib::lemma_set_difference_len(candidates@, eliminated@);
            assert(candidates@.difference(eliminated@).len() == 1) by {
                assert(candidates@.intersect(eliminated@) =~= eliminated@);
            }
        }
        let solution = match rest.as_single() {
            Some(k) => k,
            None => {
                return None;
            },
        };
        let mut action = Action::new_set(Strategy::Bug, triple, solution);
        let peers_with = triple.peers().intersect(board.candidate_cells(solution));
        action.clue_cells_for_known(Verdict::Secondary, peers_with, solution);
        proof {
            assert(cells_with_n(cands, 3).contains(triple@));
            assert(triple@ < 81);
            assert(rest@.contains(solution@));
            assert(candidates@.contains(solution@));
            assert(action.sets_spec()[triple@ as int] != 0);
            assert forall|c: int|
                0 <= c < 81 && #[trigger] action.sets_spec()[c] != 0 implies board.cands_spec()[c].contains(
                (action.sets_spec()[c] - 1) as nat,
            ) by {
                if c != triple@ {
                    assert(action.sets_spec()[c] == 0);
                }
            }
            assert(valid_action(*board, action, Strategy::Bug));
        }
        effects.add_action(action);
        return Some(effects);
    }
    None
}

} // verus!
