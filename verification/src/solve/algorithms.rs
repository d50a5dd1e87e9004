//! Solving techniques: each looks at a board and reports the actions it
//! finds, all of them or only the first.

pub mod combinations;
pub mod peers;
pub mod bugs;
pub mod naked_tuples;
pub mod xyz_wings;
pub mod skyscrapers;
pub mod empty_rectangles;
pub mod hidden_tuples;
pub mod fireworks;
pub mod brute_force;
pub mod wxyz_wings;
pub mod unique_rectangles;
pub mod singles;

use vstd::prelude::*;

use crate::layout::coord::Coord;
use crate::layout::house::House;
use crate::layout::shape::{shape_index, Shape};
use crate::solve::action::{lemma_action_erases_len, lemma_action_shape, Action};
use crate::layout::cell_set::{lemma_cell_set_bounded, CellSet};
use crate::layout::known_set::KnownSet;
use crate::solve::board::candidate_cells_of;
use crate::solve::board::Board;
use crate::solve::effects::Effects;
use crate::solve::strategy::Strategy;

verus! {

broadcast use {lemma_action_shape, lemma_action_erases_len, lemma_cell_set_bounded};

/// A technique that finds actions on a board.
pub trait Solver {
    fn strategy(&self) -> Strategy;

    /// The actions found on the board, only the first when `single`;
    /// `None` when there are none.
    fn apply(&self, board: &Board, single: bool) -> Option<Effects>;
}

/// Every digit the action erases is a candidate of its cell on the board.
pub open spec fn erases_candidates(board: Board, a: Action) -> bool {
    forall|c: int, k: nat|
        0 <= c < 81 && #[trigger] a.erases_spec()[c].contains(k) ==> board.cands_spec()[c].contains(k)
}

/// Every digit the action sets is a candidate of its cell on the board.
pub open spec fn sets_candidates(board: Board, a: Action) -> bool {
    forall|c: int|
        0 <= c < 81 && #[trigger] a.sets_spec()[c] != 0 ==> board.cands_spec()[c].contains(
            (a.sets_spec()[c] - 1) as nat,
        )
}

/// An action of the technique that does something, and only sets and
/// erases candidates of the board.
pub open spec fn valid_action(board: Board, a: Action, strategy: Strategy) -> bool {
    &&& a.strategy_spec() == strategy
    &&& !a.is_empty_spec()
    &&& erases_candidates(board, a)
    &&& sets_candidates(board, a)
}

/// Effects with no errors whose actions are all valid for the technique.
pub open spec fn valid_effects(board: Board, e: Effects, strategy: Strategy) -> bool {
    &&& e.errors_spec().len() == 0
    &&& forall|i: int| 0 <= i < e.actions_spec().len() ==> valid_action(board, #[trigger] e.actions_spec()[i], strategy)
}

/// What every technique reports: nothing, or at least one valid action,
/// exactly one when only the first was asked for.
pub open spec fn found_by(board: Board, r: Option<Effects>, single: bool, strategy: Strategy) -> bool {
    match r {
        None => true,
        Some(e) => {
            &&& valid_effects(board, e, strategy)
            &&& e.actions_spec().len() > 0
            &&& single ==> e.actions_spec().len() == 1
        },
    }
}

/// House number `n` (0..27): the rows, then the columns, then the blocks.
pub fn house_at(n: u8) -> (r: House)
    requires
        n < 27,
    ensures
        shape_index(r@.0) == n / 9,
        r@.1 == n % 9,
{
    House::new(Shape::new(n / 9), Coord::new(n % 9))
}

/// Erasing a digit from cells that have it as a candidate keeps an
/// action's erasures within the board's candidates.
pub proof fn lemma_erase_cells_keeps(board: Board, before: Action, after: Action, cells: Set<nat>, k: nat)
    requires
        erases_candidates(board, before),
        cells.subset_of(candidate_cells_of(board.cands_spec(), k)),
        after.erases_spec() == Seq::new(
            81,
            |i: int|
                if cells.contains(i as nat) {
                    before.erases_spec()[i].insert(k)
                } else {
                    before.erases_spec()[i]
                },
        ),
    ensures
        erases_candidates(board, after),
{
    assert forall|c: int, j: nat|
        0 <= c < 81 && #[trigger] after.erases_spec()[c].contains(j) implies board.cands_spec()[c].contains(j) by {
        if cells.contains(c as nat) && j == k {
            assert(candidate_cells_of(board.cands_spec(), k).contains(c as nat));
        } else {
            assert(before.erases_spec()[c].contains(j));
        }
    }
}

/// Erasing candidates of a cell keeps an action's erasures within the
/// board's candidates.
pub proof fn lemma_erase_knowns_keeps(board: Board, before: Action, after: Action, c: nat, ks: Set<nat>)
    requires
        erases_candidates(board, before),
        c < 81,
        ks.subset_of(board.cands_spec()[c as int]),
        after.erases_spec() == before.erases_spec().update(c as int, before.erases_spec()[c as int].union(ks)),
    ensures
        erases_candidates(board, after),
{
    assert forall|x: int, j: nat|
        0 <= x < 81 && #[trigger] after.erases_spec()[x].contains(j) implies board.cands_spec()[x].contains(j) by {
        if x == c && ks.contains(j) {
        } else {
            assert(before.erases_spec()[x].contains(j));
        }
    }
}

/// Every cell of every group has the group's digits as its candidates.
pub open spec fn groups_match(board: Board, groups: Seq<(KnownSet, CellSet)>) -> bool {
    forall|g: int, c: nat|
        0 <= g < groups.len() && #[trigger] groups[g].1@.contains(c) ==> c < 81
            && board.cands_spec()[c as int] == groups[g].0@
}

/// The cells with exactly `n` candidates, grouped by their candidates, in
/// order of first cell: every such cell is in the one group of its
/// candidates.
pub fn group_by_candidates(board: &Board, n: usize) -> (r: Vec<(KnownSet, CellSet)>)
    ensures
        groups_match(*board, r@),
        forall|g: int, c: nat| 0 <= g < r.len() && #[trigger] r[g].1@.contains(c) ==> board.cands_spec()[c as int].len() == n,
        forall|c: nat|
            c < 81 && #[trigger] board.cands_spec()[c as int].len() == n ==> exists|g: int|
                0 <= g < r.len() && r[g].1@.contains(c),
        forall|g1: int, g2: int| 0 <= g1 < r.len() && 0 <= g2 < r.len() && g1 != g2 ==> r[g1].0@ != r[g2].0@,
{
    let list = board.cell_candidates_with_n_candidates(n);
    let mut groups: Vec<(KnownSet, CellSet)> = Vec::new();
    let mut i: usize = 0;
    while i < list.len()
        invariant
            i <= list.len(),
            groups_match(*board, groups@),
            forall|a: int| 0 <= a < list.len() ==> {
                &&& (#[trigger] list[a]).0@ < 81
                &&& list[a].1@ == board.cands_spec()[list[a].0@ as int]
                &&& list[a].1@.len() == n
            },
            forall|g: int, c: nat| 0 <= g < groups.len() && #[trigger] groups[g].1@.contains(c) ==> board.cands_spec()[c as int].len() == n,
            forall|a: int| 0 <= a < i ==> exists|g: int| 0 <= g < groups.len() && groups[g].1@.contains(#[trigger] list[a].0@),
            forall|g1: int, g2: int| 0 <= g1 < groups.len() && 0 <= g2 < groups.len() && g1 != g2 ==> groups[g1].0@ != groups[g2].0@,
        decreases list.len() - i,
    {
        let (cell, ks) = list[i];
        let mut found = false;
        let mut next: Vec<(KnownSet, CellSet)> = Vec::new();
        let mut g: usize = 0;
        while g < groups.len()
            invariant
                g <= groups.len(),
                next.len() == g,
                groups_match(*board, groups@),
                groups_match(*board, next@),
                cell@ < 81,
                ks@ == board.cands_spec()[cell@ as int],
                ks@.len() == n,
                forall|x: int, c: nat| 0 <= x < groups.len() && #[trigger] groups[x].1@.contains(c) ==> board.cands_spec()[c as int].len() == n,
                forall|x: int, c: nat| 0 <= x < next.len() && #[trigger] next[x].1@.contains(c) ==> board.cands_spec()[c as int].len() == n,
                forall|y: int| 0 <= y < g ==> (#[trigger] next[y]).0@ == groups[y].0@ && groups[y].1@.subset_of(next[y].1@),
                found <==> exists|y: int| 0 <= y < g && (#[trigger] groups[y]).0@ == ks@,
                found ==> exists|y: int| 0 <= y < g && (#[trigger] next[y]).1@.contains(cell@),
            decreases groups.len() - g,
        {
            let (key, cells) = groups[g];
            let ghost was_found = found;
            let ghost before = next@;
            if key.equals(&ks) {
                next.push((key, cells.with(cell)));
                found = true;
            } else {
                next.push((key, cells));
            }
            proof {
                assert forall|x: int, c: nat|
                    0 <= x < next@.len() && #[trigger] next@[x].1@.contains(c) implies c < 81
                        && board.cands_spec()[c as int] == next@[x].0@ by {
                    if x == g {
                        if c != cell@ {
                            assert(groups@[x].1@.contains(c));
                        }
                    }
                }
                assert forall|x: int, c: nat| 0 <= x < next.len() && #[trigger] next[x].1@.contains(c) implies board.cands_spec()[
                    c as int].len() == n by {
                    if x == g && c != cell@ {
                        assert(groups[x].1@.contains(c));
                    }
                }
                if was_found {
                    let y = choose|y: int| 0 <= y < g && (#[trigger] before[y]).1@.contains(cell@);
                    assert(next[y].1@.contains(cell@));
                } else if found {
                    assert(next[g as int].1@.contains(cell@));
                }
            }
            g = g + 1;
        }
        let ghost prev = groups@;
        if !found {
            next.push((ks, CellSet::empty().with(cell)));
            proof {
                assert forall|x: int, c: nat|
                    0 <= x < next@.len() && #[trigger] next@[x].1@.contains(c) implies c < 81
                        && board.cands_spec()[c as int] == next@[x].0@ by {
                    if x < next@.len() - 1 {
                    }
                }
                assert(next[next.len() - 1].1@.contains(cell@));
            }
        }
        proof {
            assert forall|a: int| 0 <= a < i + 1 implies exists|x: int| 0 <= x < next.len() && next[x].1@.contains(
                #[trigger] list[a].0@,
            ) by {
                if a < i {
                    let x = choose|x: int| 0 <= x < prev.len() && prev[x].1@.contains(list[a].0@);
                    assert(next[x].1@.contains(list[a].0@));
                } else if found {
                    let y = choose|y: int| 0 <= y < prev.len() && (#[trigger] next[y]).1@.contains(cell@);
                } else {
                    assert(next[next.len() - 1].1@.contains(cell@));
                }
            }
            assert forall|x: int, c: nat| 0 <= x < next.len() && #[trigger] next[x].1@.contains(c) implies board.cands_spec()[
                c as int].len() == n by {
                if x == prev.len() {
                    assert(c == cell@);
                }
            }
            assert forall|g1: int, g2: int| 0 <= g1 < next.len() && 0 <= g2 < next.len() && g1 != g2 implies next[g1].0@
                != next[g2].0@ by {
                if g1 < prev.len() && g2 < prev.len() {
                    assert(next[g1].0@ == prev[g1].0@ && next[g2].0@ == prev[g2].0@);
                } else if g1 < prev.len() {
                    assert(next[g1].0@ == prev[g1].0@);
                } else {
                    assert(next[g2].0@ == prev[g2].0@);
                }
            }
        }
        groups = next;
        i = i + 1;
    }
    proof {
        assert forall|c: nat| c < 81 && #[trigger] board.cands_spec()[c as int].len() == n implies exists|g: int|
            0 <= g < groups.len() && groups[g].1@.contains(c) by {
            let a = choose|a: int| 0 <= a < list.len() && (#[trigger] list[a]).0@ == c;
        }
    }
    groups
}

} // verus!
