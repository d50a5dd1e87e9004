use vstd::prelude::*;

use crate::solve::action::{action_model, apply_sets, set_step, Action, BoardModel};
use crate::layout::shape::Shape;
use crate::solve::algorithms::bugs::{bug_cell, bug_eliminated, bug_shape, find_bugs};
use crate::solve::algorithms::empty_rectangles::{er_action, find_empty_rectangles, has_empty_rectangle};
use crate::solve::algorithms::fireworks::{find_fireworks, firework_action, has_firework};
use crate::solve::algorithms::naked_tuples::{
    find_naked_pairs, find_naked_quads, find_naked_triples, has_naked_tuple, naked_tuple_action,
};
use crate::solve::algorithms::singles::{
    find_hidden_singles, find_naked_singles, has_hidden_single, hidden_single_action, naked_single_action,
    naked_single_cells,
};
use crate::solve::algorithms::skyscrapers::{find_skyscrapers, has_skyscraper, sky_action};
use crate::solve::algorithms::unique_rectangles::{find_unique_rectangles, has_unique_rectangle, ur_action};
use crate::solve::algorithms::wxyz_wings::{find_wxyz_wings, quad_with_three, two_quads_with_two, wxyz_action, wxyz_wing};
use crate::solve::algorithms::xyz_wings::{find_xyz_wings, has_xyz_wing, xyz_action};
use crate::solve::algorithms::{found_by, valid_action};
use crate::solve::algorithms::brute_force::{extends, is_solved};
use crate::solve::board::{lemma_board_cands_shape, lemma_board_values_shape, Board};
use crate::solve::cancelable::Cancelable;
use crate::solve::changer::{ChangeResult, Changer, Options};
use crate::solve::consistency::{consistent, lemma_action_keeps_consistent, model_of};
use crate::solve::effects::Effects;
use crate::solve::strategy::{difficulty_rank, strategy_difficulty, Difficulty, Strategy};

verus! {

broadcast use {lemma_board_values_shape, lemma_board_cands_shape};

/// How a solving run ended: with the board reached, the actions applied
/// and the hardest difficulty met.
#[derive(Debug)]
pub enum Resolution {
    Canceled(Board, Effects, Difficulty),
    /// An action met a contradiction: the board before it, the actions
    /// applied, the difficulty, the action and the errors it met.
    Failed(Board, Effects, Difficulty, Action, Effects),
    /// No technique found anything more.
    Unsolved(Board, Effects, Difficulty),
    Solved(Board, Effects, Difficulty),
}

impl Resolution {
    pub fn is_canceled(&self) -> (r: bool)
        ensures
            r == (self is Canceled),
    {
        matches!(self, Self::Canceled(..))
    }

    pub fn is_solved(&self) -> (r: bool)
        ensures
            r == (self is Solved),
    {
        matches!(self, Self::Solved(..))
    }
}

/// How often each technique was tried and how many actions it found, in
/// the order the techniques were first tried.
pub struct Timings {
    entries: Vec<(Strategy, u64, u64)>,
}

/// The position of the entry of `strategy`, if any.
pub open spec fn entry_of(entries: Seq<(Strategy, u64, u64)>, strategy: Strategy) -> Option<int> {
    if exists|i: int| 0 <= i < entries.len() && #[trigger] entries[i].0 == strategy {
        Some(choose|i: int| 0 <= i < entries.len() && #[trigger] entries[i].0 == strategy)
    } else {
        None
    }
}

/// `a + b`, or the largest `u64` when that is larger.
pub open spec fn capped(a: nat, b: nat) -> u64 {
    if a + b > u64::MAX {
        u64::MAX
    } else {
        (a + b) as u64
    }
}

impl Timings {
    pub closed spec fn entries_spec(&self) -> Seq<(Strategy, u64, u64)> {
        self.entries@
    }

    /// No technique is listed twice.
    pub open spec fn wf(&self) -> bool {
        forall|i: int, j: int|
            0 <= i < j < self.entries_spec().len() ==> (#[trigger] self.entries_spec()[i]).0
                != (#[trigger] self.entries_spec()[j]).0
    }

    pub fn new() -> (r: Self)
        ensures
            r.wf(),
            r.entries_spec() == Seq::<(Strategy, u64, u64)>::empty(),
    {
        Timings { entries: Vec::new() }
    }

    /// Counts one more try of `strategy` that found `found` actions.
    pub fn add(&mut self, strategy: Strategy, found: usize)
        requires
            old(self).wf(),
        ensures
            final(self).wf(),
            match entry_of(old(self).entries_spec(), strategy) {
                Some(i) => {
                    let e = old(self).entries_spec()[i];
                    final(self).entries_spec() == old(self).entries_spec().update(
                        i,
                        (strategy, capped(e.1 as nat, 1), capped(e.2 as nat, found as nat)),
                    )
                },
                None => final(self).entries_spec() == old(self).entries_spec().push(
                    (strategy, 1u64, capped(0, found as nat)),
                ),
            },
    {
        let found64: u64 = found as u64;
        let mut i: usize = 0;
        while i < self.entries.len()
            invariant
                i <= self.entries@.len(),
                self.entries@ == old(self).entries@,
                old(self).wf(),
                found64 as nat == found as nat,
                forall|j: int| 0 <= j < i ==> (#[trigger] self.entries@[j]).0 != strategy,
            decreases self.entries@.len() - i,
        {
            let e = self.entries[i];
            if e.0 == strategy {
                let calls: u64 = e.1.saturating_add(1);
                let total: u64 = e.2.saturating_add(found64);
                proof {
                    let k = choose|k: int|
                        0 <= k < self.entries_spec().len() && #[trigger] self.entries_spec()[k].0 == strategy;
                    if k < i {
                        assert(self.entries_spec()[k].0 != self.entries_spec()[i as int].0);
                    } else if k > i {
                        assert(self.entries_spec()[i as int].0 != self.entries_spec()[k].0);
                    }
                }
                self.entries.set(i, (strategy, calls, total));
                proof {
                    assert(entry_of(old(self).entries_spec(), strategy) == Some(i as int));
                    assert(calls == capped(e.1 as nat, 1));
                    assert(total == capped(e.2 as nat, found as nat));
                    assert(self.entries_spec() == old(self).entries_spec().update(
                        i as int,
                        (strategy, capped(e.1 as nat, 1), capped(e.2 as nat, found as nat)),
                    ));
                    assert forall|a: int, b: int|
                        0 <= a < b < self.entries@.len() implies (#[trigger] self.entries@[a]).0
                        != (#[trigger] self.entries@[b]).0 by {
                        assert(old(self).entries_spec()[a].0 != old(self).entries_spec()[b].0);
                    }
                }
                return;
            }
            i = i + 1;
        }
        self.entries.push((strategy, 1, found64));
        proof {
            assert forall|a: int, b: int|
                0 <= a < b < self.entries@.len() implies (#[trigger] self.entries@[a]).0
                != (#[trigger] self.entries@[b]).0 by {
                if b == self.entries@.len() - 1 {
                    assert(old(self).entries@[a].0 != strategy);
                } else {
                    assert(old(self).entries_spec()[a].0 != old(self).entries_spec()[b].0);
                }
            }
        }
    }

    /// How often `strategy` was tried and how many actions it found.
    pub fn counts(&self, strategy: Strategy) -> (r: (u64, u64))
        requires
            self.wf(),
        ensures
            match entry_of(self.entries_spec(), strategy) {
                Some(i) => r == (self.entries_spec()[i].1, self.entries_spec()[i].2),
                None => r == (0u64, 0u64),
            },
    {
        let mut i: usize = 0;
        while i < self.entries.len()
            invariant
                i <= self.entries@.len(),
                self.wf(),
                forall|j: int| 0 <= j < i ==> (#[trigger] self.entries@[j]).0 != strategy,
            decreases self.entries@.len() - i,
        {
            let e = self.entries[i];
            if e.0 == strategy {
                proof {
                    let k = choose|k: int|
                        0 <= k < self.entries_spec().len() && #[trigger] self.entries_spec()[k].0 == strategy;
                    if k < i {
                        assert(self.entries_spec()[k].0 != self.entries_spec()[i as int].0);
                    } else if k > i {
                        assert(self.entries_spec()[i as int].0 != self.entries_spec()[k].0);
                    }
                }
                return (e.1, e.2);
            }
            i = i + 1;
        }
        (0, 0)
    }
}

/// The number of techniques the solver tries, in order.
pub const TECHNIQUE_COUNT: usize = 12;

/// The technique tried in place `index`: singles first, then ever harder
/// techniques.
pub open spec fn technique(index: nat) -> Strategy {
    if index == 0 {
        Strategy::NakedSingle
    } else if index == 1 {
        Strategy::HiddenSingle
    } else if index == 2 {
        Strategy::NakedPair
    } else if index == 3 {
        Strategy::NakedTriple
    } else if index == 4 {
        Strategy::NakedQuad
    } else if index == 5 {
        Strategy::Skyscraper
    } else if index == 6 {
        Strategy::XYZWing
    } else if index == 7 {
        Strategy::EmptyRectangle
    } else if index == 8 {
        Strategy::WXYZWing
    } else if index == 9 {
        Strategy::Fireworks
    } else if index == 10 {
        Strategy::UniqueRectangle
    } else {
        Strategy::Bug
    }
}

/// Whether the technique in place `index` finds something on the board.
/// For WXYZ-wings (place 8) this is not decided here: see `wxyz_promised`
/// and `wxyz_possible`.
pub open spec fn technique_finds(index: nat, board: Board) -> bool {
    if index == 0 {
        naked_single_cells(board) != Set::<nat>::empty()
    } else if index == 1 {
        has_hidden_single(board)
    } else if index == 2 {
        has_naked_tuple(board, 2)
    } else if index == 3 {
        has_naked_tuple(board, 3)
    } else if index == 4 {
        has_naked_tuple(board, 4)
    } else if index == 5 {
        has_skyscraper(board)
    } else if index == 6 {
        has_xyz_wing(board)
    } else if index == 7 {
        has_empty_rectangle(board)
    } else if index == 9 {
        has_firework(board)
    } else if index == 10 {
        has_unique_rectangle(board)
    } else if index == 11 {
        bug_shape(board.cands_spec()) && bug_eliminated(board.cands_spec(), bug_cell(board.cands_spec())).len() == 2
    } else {
        false
    }
}

/// The WXYZ-wings that are always found: one cell with four digits and
/// three with two or three of them, or two cells with the same four and
/// two others.
pub open spec fn wxyz_promised(board: Board) -> bool {
    ||| exists|q: nat, t1: nat, t2: nat, t3: nat| #[trigger] quad_with_three(board, q, t1, t2, t3)
    ||| exists|p1: nat, p2: nat, v1: nat, v2: nat| #[trigger] two_quads_with_two(board, p1, p2, v1, v2)
}

/// Some WXYZ-wing is on the board, as any WXYZ-wing found is.
pub open spec fn wxyz_possible(board: Board) -> bool {
    exists|wing: Set<nat>, z: nat| #[trigger] wxyz_wing(board, wing, z)
}

/// What an action of the technique in place `index` does on the board.
pub open spec fn technique_action(index: nat, board: Board, a: Action) -> bool {
    if index == 0 {
        exists|c: nat| #[trigger] naked_single_action(board, a, c)
    } else if index == 1 {
        hidden_single_action(board, a)
    } else if index == 2 {
        naked_tuple_action(board, a, 2)
    } else if index == 3 {
        naked_tuple_action(board, a, 3)
    } else if index == 4 {
        naked_tuple_action(board, a, 4)
    } else if index == 5 {
        sky_action(board, Shape::Column, a) || sky_action(board, Shape::Row, a)
    } else if index == 6 {
        xyz_action(board, a)
    } else if index == 7 {
        er_action(board, a)
    } else if index == 8 {
        wxyz_action(board, a)
    } else if index == 9 {
        firework_action(board, a)
    } else if index == 10 {
        ur_action(board, a)
    } else {
        let t = bug_cell(board.cands_spec());
        let solution = board.cands_spec()[t as int].difference(bug_eliminated(board.cands_spec(), t));
        &&& a.erases_spec() == Seq::new(81, |i: int| Set::<nat>::empty())
        &&& exists|k: nat| solution == set![k] && a.sets_spec() == Seq::new(81, |i: int| 0nat).update(t as int, k + 1)
    }
}

/// Runs the technique in place `index` on the board.
fn run_technique(index: usize, board: &Board, single: bool) -> (r: (Strategy, Option<Effects>))
    requires
        index < TECHNIQUE_COUNT,
    ensures
        r.0 == technique(index as nat),
        found_by(*board, r.1, single, r.0),
        index != 8 ==> (r.1 is Some <==> technique_finds(index as nat, *board)),
        index == 8 && wxyz_promised(*board) ==> r.1 is Some,
        index == 8 && r.1 is Some ==> wxyz_possible(*board),
        r.1 matches Some(e) ==> forall|x: int|
            0 <= x < e.actions_spec().len() ==> technique_action(index as nat, *board, #[trigger] e.actions_spec()[x]),
{
    match index {
        0 => (Strategy::NakedSingle, find_naked_singles(board, single)),
        1 => (Strategy::HiddenSingle, find_hidden_singles(board, single)),
        2 => (Strategy::NakedPair, find_naked_pairs(board, single)),
        3 => (Strategy::NakedTriple, find_naked_triples(board, single)),
        4 => (Strategy::NakedQuad, find_naked_quads(board, single)),
        5 => (Strategy::Skyscraper, find_skyscrapers(board, single)),
        6 => (Strategy::XYZWing, find_xyz_wings(board, single)),
        7 => (Strategy::EmptyRectangle, find_empty_rectangles(board, single)),
        8 => {
            let found = find_wxyz_wings(board, single);
            proof {
                if found is Some {
                    let e = found->0;
                    assert(wxyz_action(*board, e.actions_spec()[0]));
                }
            }
            (Strategy::WXYZWing, found)
        },
        9 => (Strategy::Fireworks, find_fireworks(board, single)),
        10 => (Strategy::UniqueRectangle, find_unique_rectangles(board, single)),
        _ => (Strategy::Bug, find_bugs(board, single)),
    }
}

/// What trying one technique gave: the search was canceled before it, it
/// found nothing, or it found this action.
pub enum TechniqueStep {
    Canceled,
    Nothing,
    Found(Action),
}

/// The harder of two difficulties.
pub open spec fn harder(a: Difficulty, b: Difficulty) -> Difficulty {
    if difficulty_rank(b) > difficulty_rank(a) {
        b
    } else {
        a
    }
}

/// Tries the technique in place `index` on the board, the cancel flag
/// having been read as `canceled` just before: nothing is tried when it is
/// raised; else the technique runs for its first action, which comes back
/// with the difficulty raised to the technique's, and the try is counted.
pub fn technique_step(
    index: usize,
    board: &Board,
    canceled: bool,
    difficulty: &mut Difficulty,
    timings: &mut Timings,
) -> (r: TechniqueStep)
    requires
        index < TECHNIQUE_COUNT,
        old(timings).wf(),
    ensures
        final(timings).wf(),
        (r is Canceled) == canceled,
        canceled ==> *final(timings) == *old(timings),
        !canceled && index != 8 ==> ((r is Found) <==> technique_finds(index as nat, *board)),
        !canceled && index == 8 && wxyz_promised(*board) ==> r is Found,
        index == 8 && r is Found ==> wxyz_possible(*board),
        r matches TechniqueStep::Found(a) ==> {
            &&& a.strategy_spec() == technique(index as nat)
            &&& valid_action(*board, a, technique(index as nat))
            &&& technique_action(index as nat, *board, a)
        },
        *final(difficulty) == if r is Found {
            harder(*old(difficulty), strategy_difficulty(technique(index as nat)))
        } else {
            *old(difficulty)
        },
{
    if canceled {
        return TechniqueStep::Canceled;
    }
    let (strategy, result) = run_technique(index, board, true);
    match result {
        Some(moves) => {
            timings.add(strategy, moves.action_count());
            let d = difficulty_of(strategy);
            if d.rank() > difficulty.rank() {
                *difficulty = d;
            }
            proof {
                assert(valid_action(*board, moves.actions_spec()[0], strategy));
                assert(technique_action(index as nat, *board, moves.actions_spec()[0]));
            }
            TechniqueStep::Found(moves.into_first_action())
        },
        None => {
            timings.add(strategy, 0);
            TechniqueStep::Nothing
        },
    }
}

/// The difficulty of a technique.
fn difficulty_of(s: Strategy) -> (r: Difficulty)
    ensures
        r == strategy_difficulty(s),
{
    s.difficulty()
}

/// Setting a digit keeps every known value.
proof fn lemma_set_step_keeps(m: BoardModel, c: nat, k: nat)
    requires
        c < m.0.len(),
    ensures
        set_step(m, c, k).0.len() == m.0.len(),
        forall|i: int| #![trigger set_step(m, c, k).0[i]]
            0 <= i < m.0.len() && m.0[i] != 0 ==> set_step(m, c, k).0[i] == m.0[i],
{
}

/// Applying the sets of the first `n` cells keeps every known value.
proof fn lemma_apply_sets_keeps(m: BoardModel, sets: Seq<nat>, n: nat)
    requires
        n <= m.0.len(),
    ensures
        apply_sets(m, sets, n).0.len() == m.0.len(),
        forall|i: int|
            0 <= i < m.0.len() && m.0[i] != 0 ==> #[trigger] apply_sets(m, sets, n).0[i] == m.0[i],
    decreases n,
{
    if n > 0 {
        lemma_apply_sets_keeps(m, sets, (n - 1) as nat);
        let prev = apply_sets(m, sets, (n - 1) as nat);
        if sets[n - 1] != 0 {
            lemma_set_step_keeps(prev, (n - 1) as nat, (sets[n - 1] - 1) as nat);
            assert forall|i: int| 0 <= i < m.0.len() && m.0[i] != 0 implies #[trigger] apply_sets(
                m,
                sets,
                n,
            ).0[i] == m.0[i] by {
                assert(prev.0[i] == m.0[i]);
                assert(set_step(prev, (n - 1) as nat, (sets[n - 1] - 1) as nat).0[i] == prev.0[i]);
            }
        }
    }
}

/// An action keeps every known value of the board.
pub proof fn lemma_action_keeps_known(m: BoardModel, a: Action)
    requires
        m.0.len() == 81,
    ensures
        forall|i: int| 0 <= i < m.0.len() && m.0[i] != 0 ==> #[trigger] action_model(m, a).0[i] == m.0[i],
{
    lemma_apply_sets_keeps(m, a.sets_spec(), 81);
}

/// Solves boards by applying the first action that the techniques find,
/// easiest technique first, until the board is solved or none finds
/// anything.
pub struct Solver {
    changer: Changer,
    cancelable: Cancelable,
    check: bool,
}

/// The most rounds a run takes; each applied action sets a digit or
/// erases a candidate, of which a board has fewer.
pub const MAX_ROUNDS: u32 = 1_000;

impl Solver {
    pub closed spec fn changer_spec(&self) -> Changer {
        self.changer
    }

    /// A solver that stops applying at the first contradiction. `check` is
    /// kept for reporting and changes nothing in the run.
    pub fn new(check: bool) -> (r: Self)
        ensures
            r.changer_spec().options.stop_on_errors,
    {
        Solver { changer: Changer::new(Options::errors()), cancelable: Cancelable::new(), check }
    }

    /// Solves the board: applies the first action found, again and again,
    /// until it is solved, no technique finds anything, an action meets a
    /// contradiction, or the rounds are used up. Every board reached keeps
    /// the known values of the start.
    pub fn solve(&self, start: &Board, _effects: &Effects, timings: &mut Timings) -> (r: Resolution)
        requires
            old(timings).wf(),
        ensures
            final(timings).wf(),
            r !is Canceled,
            r matches Resolution::Solved(b, _, _) ==> is_solved(b.values_spec()) && extends(
                start.values_spec(),
                b.values_spec(),
            ),
            is_solved(start.values_spec()) ==> r is Solved,
            r matches Resolution::Unsolved(b, _, _) ==> extends(start.values_spec(), b.values_spec())
                && !is_solved(b.values_spec()),
            r matches Resolution::Failed(b, _, _, _, errors) ==> extends(
                start.values_spec(),
                b.values_spec(),
            ) && errors.errors_spec().len() > 0,
            consistent(model_of(*start)) ==> match r {
                Resolution::Solved(b, _, _) => consistent(model_of(b)),
                Resolution::Unsolved(b, _, _) => consistent(model_of(b)),
                Resolution::Failed(b, _, _, _, _) => consistent(model_of(b)),
                Resolution::Canceled(b, _, _) => consistent(model_of(b)),
            },
    {
        let mut board = start.copy();
        let mut applied = Effects::new();
        let mut difficulty = Difficulty::Basic;
        let mut rounds: u32 = 0;
        while rounds < MAX_ROUNDS
            invariant
                extends(start.values_spec(), board.values_spec()),
                consistent(model_of(*start)) ==> consistent(model_of(board)),
                timings.wf(),
            decreases MAX_ROUNDS - rounds,
        {
            proof {
                if is_solved(start.values_spec()) {
                    assert forall|i: int| 0 <= i < 81 implies #[trigger] board.values_spec()[i] != 0 by {
                        assert(start.values_spec()[i] != 0);
                    }
                }
            }
            if board.is_fully_solved() {
                return Resolution::Solved(board, applied, difficulty);
            }
            rounds = rounds + 1;
            let (next, _readings) = self.find_next_action(&board, &mut difficulty, timings);
            let action = match next {
                TechniqueStep::Found(a) => a,
                _ => {
                    return Resolution::Unsolved(board, applied, difficulty);
                },
            };
            match self.changer.apply(&board, &action) {
                ChangeResult::Nothing => {},
                ChangeResult::Valid(after, _) => {
                    proof {
                        lemma_action_keeps_known((board.values_spec(), board.cands_spec()), action);
                        if consistent(model_of(*start)) {
                            lemma_action_keeps_consistent(model_of(board), action);
                        }
                        assert forall|i: int|
                            0 <= i < 81 && #[trigger] start.values_spec()[i] != 0 implies after.values_spec()[i]
                            == start.values_spec()[i] by {
                            assert(board.values_spec()[i] == start.values_spec()[i]);
                            assert(action_model((board.values_spec(), board.cands_spec()), action).0[i]
                                == board.values_spec()[i]);
                        }
                    }
                    applied.add_action(action);
                    board = after;
                },
                ChangeResult::Invalid(before, _, act, errors) => {
                    return Resolution::Failed(before, applied, difficulty, act, errors);
                },
            }
        }
        proof {
            if is_solved(start.values_spec()) {
                assert forall|i: int| 0 <= i < 81 implies #[trigger] board.values_spec()[i] != 0 by {
                    assert(start.values_spec()[i] != 0);
                }
            }
        }
        if board.is_fully_solved() {
            Resolution::Solved(board, applied, difficulty)
        } else {
            Resolution::Unsolved(board, applied, difficulty)
        }
    }

    /// The first action of the first technique that finds one, and the
    /// difficulty raised to that technique's; `Nothing` when none finds
    /// one, `Canceled` when the flag, read before each technique, was seen
    /// raised. Also the readings of the flag, one per technique tried.
    fn find_next_action(&self, board: &Board, difficulty: &mut Difficulty, timings: &mut Timings) -> (r: (
        TechniqueStep,
        Ghost<Seq<bool>>,
    ))
        requires
            old(timings).wf(),
        ensures
            final(timings).wf(),
            difficulty_rank(*final(difficulty)) >= difficulty_rank(*old(difficulty)),
            r.0 matches TechniqueStep::Found(a) ==> exists|k: nat| #[trigger] found_first(*board, k, a),
            r.0 is Nothing ==> nothing_found(*board),
            1 <= r.1@.len() <= TECHNIQUE_COUNT,
            forall|i: int| 0 <= i < r.1@.len() - 1 ==> !r.1@[i],
            (r.0 is Canceled) == r.1@.last(),
            r.0 is Nothing ==> r.1@.len() == TECHNIQUE_COUNT,
    {
        let mut index: usize = 0;
        let ghost mut readings: Seq<bool> = Seq::empty();
        while index < TECHNIQUE_COUNT
            invariant
                timings.wf(),
                difficulty_rank(*difficulty) >= difficulty_rank(*old(difficulty)),
                forall|i: nat| i < index && i != 8 ==> !#[trigger] technique_finds(i, *board),
                index > 8 ==> !wxyz_promised(*board),
                index <= TECHNIQUE_COUNT,
                readings.len() == index,
                forall|i: int| 0 <= i < readings.len() ==> !readings[i],
            decreases TECHNIQUE_COUNT - index,
        {
            let canceled = self.cancelable.is_canceled();
            proof {
                readings = readings.push(canceled);
            }
            match technique_step(index, board, canceled, difficulty, timings) {
                TechniqueStep::Canceled => {
                    return (TechniqueStep::Canceled, Ghost(readings));
                },
                TechniqueStep::Found(a) => {
                    proof {
                        assert(!canceled);
                        assert(found_first(*board, index as nat, a));
                    }
                    let res = TechniqueStep::Found(a);
                    proof {
                        assert(res matches TechniqueStep::Found(b) && b == a);
                        assert(exists|k: nat| #[trigger] found_first(*board, k, a));
                    }
                    return (res, Ghost(readings));
                },
                TechniqueStep::Nothing => {},
            }
            index = index + 1;
        }
        proof {
            assert(readings.len() == TECHNIQUE_COUNT);
        }
        (TechniqueStep::Nothing, Ghost(readings))
    }
}

/// No technique finds anything on the board (WXYZ-wings as far as their
/// finding is promised).
pub open spec fn nothing_found(board: Board) -> bool {
    &&& forall|i: nat| i < TECHNIQUE_COUNT && i != 8 ==> !#[trigger] technique_finds(i, board)
    &&& !wxyz_promised(board)
}

/// The action comes from the technique in place `k`, the first that finds
/// anything on the board: it is one of that technique's actions.
pub open spec fn found_first(board: Board, k: nat, a: Action) -> bool {
    &&& k < TECHNIQUE_COUNT
    &&& a.strategy_spec() == technique(k)
    &&& valid_action(board, a, technique(k))
    &&& technique_action(k, board, a)
    &&& first_finder(board, k)
}

/// No technique before place `k` finds anything on the board (WXYZ-wings
/// only as far as their finding is promised), and the one in place `k`
/// does, where that is decided.
pub open spec fn first_finder(board: Board, k: nat) -> bool {
    &&& forall|i: nat| i < k && i != 8 ==> !#[trigger] technique_finds(i, board)
    &&& k > 8 ==> !wxyz_promised(board)
    &&& k != 8 ==> technique_finds(k, board)
    &&& k == 8 ==> wxyz_possible(board)
}

} // verus!
