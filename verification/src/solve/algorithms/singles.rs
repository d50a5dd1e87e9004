use vstd::prelude::*;

use crate::layout::cell::lemma_cell_at;
use crate::layout::cell_set::{lemma_cell_set_bounded, CellSet};
use crate::layout::known::Known;
use crate::layout::known_set::lemma_known_set_bounded;
use crate::layout::set_lemmas::{lemma_nonempty_choose, lemma_singleton_len};
use crate::layout::shape::{house_cells, shape_index, Shape};
use crate::layout::cell::Cell;
use crate::solve::action::Action;
use crate::solve::algorithms::{found_by, house_at, valid_action, valid_effects};
use crate::solve::board::{
    candidate_cells_of, cells_with_n, lemma_board_cands_shape, lemma_board_values_shape,
    unknown_cells, Board,
};
use crate::solve::effects::Effects;
use crate::solve::strategy::Strategy;

verus! {

broadcast use {
    lemma_cell_at,
    lemma_cell_set_bounded,
    lemma_known_set_bounded,
    lemma_board_values_shape,
    lemma_board_cands_shape,
};

/// The unknown cells with a single candidate.
pub open spec fn naked_single_cells(board: Board) -> Set<nat> {
    unknown_cells(board.values_spec()).intersect(cells_with_n(board.cands_spec(), 1))
}

/// Digit `k` has a single candidate cell in house `h` of shape `s`.
pub open spec fn hidden_single_in(board: Board, s: Shape, h: nat, k: nat) -> bool {
    &&& h < 9
    &&& k < 9
    &&& candidate_cells_of(board.cands_spec(), k).intersect(house_cells(s, h)).len() == 1
}

/// Some digit has a single candidate cell in some house.
pub open spec fn has_hidden_single(board: Board) -> bool {
    exists|s: Shape, h: nat, k: nat| #[trigger] hidden_single_in(board, s, h, k)
}

/// The action sets cell `c` to `k` and does nothing else.
pub open spec fn sets_only(a: Action, c: nat, k: nat) -> bool {
    &&& a.sets_spec() == Seq::new(81, |i: int| 0nat).update(c as int, k + 1)
    &&& a.erases_spec() == Seq::new(81, |i: int| Set::<nat>::empty())
}

/// The action sets the unknown cell `c` to its one candidate.
pub open spec fn naked_single_action(board: Board, a: Action, c: nat) -> bool {
    &&& naked_single_cells(board).contains(c)
    &&& exists|k: nat| board.cands_spec()[c as int] == set![k] && #[trigger] sets_only(a, c, k)
}

/// The actions set the cells `cs`, in increasing order, each to its one
/// candidate.
pub open spec fn singles_in_order(board: Board, actions: Seq<Action>, cs: Seq<nat>) -> bool {
    &&& cs.len() == actions.len()
    &&& forall|i: int, j: int| 0 <= i < j < cs.len() ==> cs[i] < cs[j]
    &&& forall|j: int| 0 <= j < cs.len() ==> naked_single_action(board, #[trigger] actions[j], cs[j])
}

/// The action sets the one cell of a house that may hold `k` to `k`.
pub open spec fn hidden_single_action(board: Board, a: Action) -> bool {
    exists|s: Shape, h: nat, k: nat, c: nat|
        #![trigger hidden_single_in(board, s, h, k), sets_only(a, c, k)]
        hidden_single_in(board, s, h, k) && candidate_cells_of(board.cands_spec(), k).intersect(
            house_cells(s, h),
        ) == set![c] && sets_only(a, c, k)
}

/// Naked singles: every unknown cell with a single candidate gets it, in
/// cell order; only the first when `single`.
pub fn find_naked_singles(board: &Board, single: bool) -> (r: Option<Effects>)
    ensures
        found_by(*board, r, single, Strategy::NakedSingle),
        r is None <==> naked_single_cells(*board) == Set::<nat>::empty(),
        r matches Some(e) ==> {
            &&& e.actions_spec().len() == if single {
                1
            } else {
                naked_single_cells(*board).len()
            }
            &&& exists|cs: Seq<nat>| #[trigger] singles_in_order(*board, e.actions_spec(), cs)
        },
{
    let cells = board.unknowns().intersect(board.cells_with_n_candidates(1));
    if cells.is_empty() {
        return None;
    }
    let list = cells.to_vec();
    proof {
        lemma_nonempty_choose(cells@);
        let x = cells@.choose();
        let j = choose|j: int| 0 <= j < list.len() && (#[trigger] list[j])@ == x;
    }
    let mut effects = Effects::new();
    let mut i: usize = 0;
    while i < list.len() && !(single && i >= 1)
        invariant
            list.len() > 0,
            i <= list.len(),
            list.len() == cells@.len(),
            cells@ == naked_single_cells(*board),
            forall|j: int| 0 <= j < list.len() ==> cells@.contains(#[trigger] list[j]@),
            valid_effects(*board, effects, Strategy::NakedSingle),
            effects.actions_spec().len() == i,
            single ==> i <= 1,
            forall|a: int, b: int| 0 <= a < b < list.len() ==> list[a]@ < list[b]@,
            forall|j: int| 0 <= j < i ==> naked_single_action(*board, #[trigger] effects.actions_spec()[j], list[j]@),
        decreases list.len() - i,
    {
        let c = list[i];
        proof {
            assert(cells@.contains(list[i as int]@));
        }
        let k = match board.candidates(c).as_single() {
            Some(k) => k,
            None => {
                proof {
                    assert(cells_with_n(board.cands_spec(), 1).contains(c@));
                }
                return None;
            },
        };
        let ghost before = effects;
        effects.add_set(Strategy::NakedSingle, c, k);
        proof {
            let a = effects.actions_spec().last();
            assert(sets_only(a, c@, k@));
            assert(naked_single_action(*board, a, c@));
            assert forall|j: int| 0 <= j < i + 1 implies naked_single_action(*board, #[trigger] effects.actions_spec()[j], list[j]@) by {
                if j < i {
                    assert(effects.actions_spec()[j] == effects.actions_spec().subrange(
                        0,
                        before.actions_spec().len() as int,
                    )[j]);
                }
            }
            assert(a.sets_spec()[c@ as int] != 0);
            assert(valid_action(*board, a, Strategy::NakedSingle));
            assert forall|j: int| 0 <= j < effects.actions_spec().len() implies valid_action(
                *board,
                #[trigger] effects.actions_spec()[j],
                Strategy::NakedSingle,
            ) by {
                if j < before.actions_spec().len() {
                    assert(effects.actions_spec()[j] == effects.actions_spec().subrange(
                        0,
                        before.actions_spec().len() as int,
                    )[j]);
                }
            }
        }
        i = i + 1;
    }
    proof {
        let cs = list@.map_values(|c: Cell| c@).take(i as int);
        assert(cs.len() == effects.actions_spec().len());
        assert forall|j: int| 0 <= j < cs.len() implies naked_single_action(*board, #[trigger] effects.actions_spec()[j], cs[j]) by {
            assert(cs[j] == list[j]@);
        }
        assert(singles_in_order(*board, effects.actions_spec(), cs));
        if !single {
            assert(i == list.len());
        }
    }
    Some(effects)
}

/// Hidden singles: a digit with a single candidate cell in a house is set
/// there, house by house (rows, columns, blocks) and digit by digit; only
/// the first when `single`.
pub fn find_hidden_singles(board: &Board, single: bool) -> (r: Option<Effects>)
    ensures
        found_by(*board, r, single, Strategy::HiddenSingle),
        r is Some <==> has_hidden_single(*board),
        r matches Some(e) ==> forall|j: int|
            0 <= j < e.actions_spec().len() ==> hidden_single_action(*board, #[trigger] e.actions_spec()[j]),
{
    let mut effects = Effects::new();
    let mut h: u8 = 0;
    while h < 27
        invariant
            h <= 27,
            valid_effects(*board, effects, Strategy::HiddenSingle),
            single ==> effects.actions_spec().len() == 0,
            effects.actions_spec().len() > 0 ==> has_hidden_single(*board),
            forall|j: int|
                0 <= j < effects.actions_spec().len() ==> hidden_single_action(*board, #[trigger] effects.actions_spec()[j]),
            effects.actions_spec().len() == 0 ==> forall|s: Shape, hh: nat, k: nat|
                shape_index(s) * 9 + hh < h ==> !#[trigger] hidden_single_in(*board, s, hh, k),
        decreases 27 - h,
    {
        let house = house_at(h);
        let mut d: u8 = 1;
        while d <= 9
            invariant
                1 <= d <= 10,
                h < 27,
                shape_index(house@.0) == h / 9,
                house@.1 == h % 9,
                valid_effects(*board, effects, Strategy::HiddenSingle),
                single ==> effects.actions_spec().len() == 0,
                effects.actions_spec().len() > 0 ==> has_hidden_single(*board),
                forall|j: int|
                    0 <= j < effects.actions_spec().len() ==> hidden_single_action(*board, #[trigger] effects.actions_spec()[j]),
                effects.actions_spec().len() == 0 ==> forall|s: Shape, hh: nat, k: nat|
                    shape_index(s) * 9 + hh < h ==> !#[trigger] hidden_single_in(*board, s, hh, k),
                effects.actions_spec().len() == 0 ==> forall|k: nat|
                    k < d - 1 ==> !#[trigger] hidden_single_in(*board, house@.0, house@.1, k),
            decreases 10 - d,
        {
            let k = Known::new(d);
            let cells: CellSet = board.house_candidate_cells(house, k);
            match cells.as_single() {
                Some(c) => {
                    proof {
                        lemma_singleton_len(c@);
                        assert(hidden_single_in(*board, house@.0, house@.1, k@));
                    }
                    let ghost before = effects;
                    proof {
                        assert(cells@.contains(c@));
                        assert(candidate_cells_of(board.cands_spec(), k@).contains(c@));
                    }
                    effects.add_set(Strategy::HiddenSingle, c, k);
                    proof {
                        let a = effects.actions_spec().last();
                        assert(a.sets_spec()[c@ as int] != 0);
                        assert(valid_action(*board, a, Strategy::HiddenSingle));
                        assert(sets_only(a, c@, k@));
                        assert(hidden_single_action(*board, a));
                        assert forall|j: int| 0 <= j < effects.actions_spec().len() implies hidden_single_action(
                            *board,
                            #[trigger] effects.actions_spec()[j],
                        ) by {
                            if j < before.actions_spec().len() {
                                assert(effects.actions_spec()[j] == effects.actions_spec().subrange(
                                    0,
                                    before.actions_spec().len() as int,
                                )[j]);
                            }
                        }
                        assert forall|j: int| 0 <= j < effects.actions_spec().len() implies valid_action(
                            *board,
                            #[trigger] effects.actions_spec()[j],
                            Strategy::HiddenSingle,
                        ) by {
                            if j < before.actions_spec().len() {
                                assert(effects.actions_spec()[j] == effects.actions_spec().subrange(
                                    0,
                                    before.actions_spec().len() as int,
                                )[j]);
                            }
                        }
                    }
                    if single {
                        return Some(effects);
                    }
                },
                None => {},
            }
            d = d + 1;
        }
        proof {
            if effects.actions_spec().len() == 0 {
                assert forall|s: Shape, hh: nat, k: nat|
                    shape_index(s) * 9 + hh < h + 1 implies !#[trigger] hidden_single_in(*board, s, hh, k) by {
                    if hidden_single_in(*board, s, hh, k) && shape_index(s) * 9 + hh == h {
                        assert(shape_index(s) == h / 9 && hh == h % 9);
                        assert(s == house@.0);
                    }
                }
            }
        }
        h = h + 1;
    }
    proof {
        if effects.actions_spec().len() == 0 {
            assert forall|s: Shape, hh: nat, k: nat| !#[trigger] hidden_single_in(*board, s, hh, k) by {
                if hidden_single_in(*board, s, hh, k) {
                    assert(shape_index(s) * 9 + hh < 27);
                }
            }
        }
    }
    if effects.has_actions() {
        Some(effects)
    } else {
        None
    }
}

} // verus!
