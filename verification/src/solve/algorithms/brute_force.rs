use vstd::prelude::*;
use vstd::relations::injective_on;
use vstd::set_lib::{lemma_int_range, lemma_len_subset, lemma_map_size, set_int_range};

use crate::layout::cell::{col_of, lemma_cell_at, peers_of, row_of, Cell};
use crate::layout::cell_set::{lemma_cell_set_bounded, CellSet};
use crate::layout::grid::known_cells;
use crate::layout::known_set::{lemma_known_set_bounded, KnownSet};
use crate::solve::action::{
    lemma_single_set_may_fail, lemma_single_set_model, set_fails, set_step, Action, BoardModel,
};
use crate::solve::algorithms::Solver;
use crate::solve::board::{
    cells_with_n, emptied_by_set, lemma_board_cands_shape, lemma_board_values_shape, unknown_cells, Board,
};
use crate::solve::changer::{ChangeResult, Changer, Options};
use crate::solve::consistency::{consistent, lemma_set_step_consistent, model_of};
use crate::solve::effects::Effects;
use crate::solve::strategy::Strategy;

verus! {

broadcast use {
    lemma_cell_at,
    lemma_cell_set_bounded,
    lemma_known_set_bounded,
    lemma_board_values_shape,
    lemma_board_cands_shape,
};

/// Fewer givens than this never make a puzzle with one solution.
pub const MINIMUM_KNOWNS_TO_BE_UNIQUELY_SOLVABLE: usize = 17;

/// The largest number of solutions a search may be asked to collect.
pub const MAXIMUM_SOLUTIONS: usize = 1_000_000;

/// The number of solutions collected when the number asked for is out of
/// range.
pub const DEFAULT_MAXIMUM_SOLUTIONS: usize = 1_000;

/// Every cell of the values is known.
pub open spec fn is_solved(values: Seq<nat>) -> bool {
    forall|i: int| 0 <= i < 81 ==> #[trigger] values[i] != 0
}

/// The board `b` keeps every known value of `start`.
pub open spec fn extends(start: Seq<nat>, b: Seq<nat>) -> bool {
    forall|i: int| 0 <= i < 81 && #[trigger] start[i] != 0 ==> b[i] == start[i]
}

/// A solution found from `start`: fully known, keeping the known values of
/// `start`.
pub open spec fn solution_of(start: Seq<nat>, b: Board) -> bool {
    is_solved(b.values_spec()) && extends(start, b.values_spec())
}

/// A complete grid: every cell holds a digit 1..=9, and no two peers hold
/// the same one.
pub open spec fn valid_grid(s: Seq<nat>) -> bool {
    &&& s.len() == 81
    &&& forall|i: int| 0 <= i < 81 ==> 1 <= #[trigger] s[i] <= 9
    &&& forall|i: nat, p: nat| i < 81 && #[trigger] peers_of(i).contains(p) ==> s[i as int] != s[p as int]
}

/// The grid `s` completes the board model `m`: it is valid, keeps every
/// known value, and puts one of its candidates in every unknown cell.
pub open spec fn completes(m: BoardModel, s: Seq<nat>) -> bool {
    &&& valid_grid(s)
    &&& forall|i: int|
        #![trigger s[i]]
        0 <= i < 81 ==> (m.0[i] != 0 ==> s[i] == m.0[i]) && (m.0[i] == 0 ==> m.1[i].contains((s[i] - 1) as nat))
}

/// The model `m` grew from `start` by setting candidates: it keeps the
/// known values of `start`, and each cell unknown there holds one of its
/// candidates there or keeps some of them.
pub open spec fn grown_from(start: BoardModel, m: BoardModel) -> bool {
    &&& extends(start.0, m.0)
    &&& forall|i: int|
        0 <= i < 81 && #[trigger] start.0[i] == 0 ==> (m.0[i] == 0 ==> m.1[i].subset_of(start.1[i])) && (m.0[i]
            != 0 ==> start.1[i].contains((m.0[i] - 1) as nat))
}

/// A solution found from `start`: one of `start` that also completes it
/// when `start` is consistent.
pub open spec fn found_from(start: BoardModel, b: Board) -> bool {
    &&& solution_of(start.0, b)
    &&& consistent(start) ==> completes(start, b.values_spec())
}

/// Eight different digits leave one free: two digits that differ from all
/// of them are the same.
proof fn lemma_one_digit_left(f: spec_fn(int) -> int, a: int, b: int)
    requires
        forall|j: int| 0 <= j < 8 ==> 1 <= #[trigger] f(j) <= 9,
        forall|j1: int, j2: int| 0 <= j1 < j2 < 8 ==> #[trigger] f(j1) != #[trigger] f(j2),
        1 <= a <= 9,
        1 <= b <= 9,
        forall|j: int| 0 <= j < 8 ==> #[trigger] f(j) != a && f(j) != b,
    ensures
        a == b,
{
    let x = set_int_range(0, 8);
    lemma_int_range(0, 8);
    lemma_int_range(1, 10);
    assert(injective_on(f, x)) by {
        assert forall|j1: int, j2: int| x.contains(j1) && x.contains(j2) && #[trigger] f(j1) == #[trigger] f(j2) implies j1
            == j2 by {
            if j1 < j2 {
                assert(f(j1) != f(j2));
            } else if j2 < j1 {
                assert(f(j2) != f(j1));
            }
        }
    }
    let y = x.map(f);
    lemma_map_size(x, y, f);
    if a != b {
        let z = y.insert(a).insert(b);
        assert(!y.contains(a)) by {
            if y.contains(a) {
                let j = choose|j: int| x.contains(j) && f(j) == a;
            }
        }
        assert(!y.insert(a).contains(b)) by {
            if y.contains(b) {
                let j = choose|j: int| x.contains(j) && f(j) == b;
            }
        }
        assert(z.subset_of(set_int_range(1, 10))) by {
            assert forall|v: int| z.contains(v) implies set_int_range(1, 10).contains(v) by {
                if y.contains(v) {
                    let j = choose|j: int| x.contains(j) && f(j) == v;
                }
            }
        }
        lemma_len_subset(z, set_int_range(1, 10));
    }
}

/// The cell of the row of `c` at position `j` (0..8) among the others.
spec fn row_mate(c: nat, j: int) -> nat {
    row_of(c) * 9 + (if j < col_of(c) {
        j
    } else {
        j + 1
    }) as nat
}

/// On a consistent model where only `c` is unknown, two of its candidates
/// that complete a row with its known cells are the same digit.
proof fn lemma_last_cell_digit(m: BoardModel, c: nat, a: nat, b: nat)
    requires
        m.0.len() == 81,
        consistent(m),
        c < 81,
        forall|i: int| 0 <= i < 81 && i != c ==> #[trigger] m.0[i] != 0 && m.0[i] <= 9,
        1 <= a <= 9,
        1 <= b <= 9,
        forall|i: nat| #[trigger] peers_of(c).contains(i) ==> m.0[i as int] != a && m.0[i as int] != b,
    ensures
        a == b,
{
    let f = |j: int| m.0[row_mate(c, j) as int] as int;
    assert forall|j: int| 0 <= j < 8 implies row_mate(c, j) < 81 && row_mate(c, j) != c && peers_of(c).contains(
        #[trigger] row_mate(c, j),
    ) && row_of(row_mate(c, j)) == row_of(c) by {
        assert(row_of(c) < 9);
    }
    assert forall|j1: int, j2: int| 0 <= j1 < j2 < 8 implies #[trigger] f(j1) != #[trigger] f(j2) by {
        let c1 = row_mate(c, j1);
        let c2 = row_mate(c, j2);
        assert(peers_of(c1).contains(c2));
        assert(m.0[c1 as int] != 0);
    }
    lemma_one_digit_left(f, a as int, b as int);
}

/// A solved consistent board holds a valid grid.
pub proof fn lemma_solved_valid(b: Board)
    requires
        is_solved(b.values_spec()),
        consistent(model_of(b)),
    ensures
        valid_grid(b.values_spec()),
{
    assert forall|i: nat, p: nat| i < 81 && #[trigger] peers_of(i).contains(p) implies b.values_spec()[i as int]
        != b.values_spec()[p as int] by {
        let m = model_of(b);
        assert(m.0[i as int] != 0);
        assert(peers_of(i).contains(p));
        assert(m.0[p as int] != m.0[i as int]);
    }
}

/// Setting in an unknown cell the digit that a completing grid has there
/// fails nowhere, and the grid completes the board after.
pub proof fn lemma_set_step_completes(m: BoardModel, c: nat, k: nat, s: Seq<nat>)
    requires
        m.0.len() == 81,
        m.1.len() == 81,
        completes(m, s),
        c < 81,
        m.0[c as int] == 0,
        s[c as int] == k + 1,
    ensures
        !set_fails(m, c, k),
        completes(set_step(m, c, k), s),
{
    assert(s[c as int] == s[c as int]);
    assert forall|p: nat| !#[trigger] emptied_by_set(m.0, m.1, c, k, p) by {
        if emptied_by_set(m.0, m.1, c, k, p) {
            assert(s[p as int] != s[c as int]);
            assert(m.1[p as int].remove(k).contains((s[p as int] - 1) as nat));
        }
    }
    let ma = set_step(m, c, k);
    assert forall|i: int|
        #![trigger s[i]]
        0 <= i < 81 implies (ma.0[i] != 0 ==> s[i] == ma.0[i]) && (ma.0[i] == 0 ==> ma.1[i].contains(
        (s[i] - 1) as nat,
    )) by {
        if i != c && peers_of(c).contains(i as nat) {
            assert(s[i] != s[c as int]);
        }
    }
}

/// The outcome of a search by trial and error.
#[derive(Debug)]
pub enum BruteForceResult {
    AlreadySolved,
    TooFewKnowns,
    UnsolvableCells(CellSet),
    Canceled,
    Unsolvable,
    Solved(Box<Board>),
    MultipleSolutions(Vec<Board>),
}

impl BruteForceResult {
    /// Whether the board was solved, before or by the search.
    pub fn is_solved(&self) -> (r: bool)
        ensures
            r == (self is AlreadySolved || self is Solved),
    {
        matches!(self, BruteForceResult::AlreadySolved | BruteForceResult::Solved(_))
    }
}

/// The search by trial and error: set each candidate of the first unknown
/// cell in turn and search on.
pub struct BruteForceSolver {
    pub log: bool,
    pub pause: u32,
    pub max_solutions: usize,
}

impl Solver for BruteForceSolver {
    fn strategy(&self) -> (r: Strategy)
        ensures
            r == Strategy::BruteForce,
    {
        Strategy::BruteForce
    }

    /// The search reports no actions: whatever it finds, the answer is
    /// `None`.
    fn apply(&self, board: &Board, single: bool) -> (r: Option<Effects>)
        ensures
            r is None,
    {
        match self.find_brute_force(board, single) {
            BruteForceResult::Solved(_) | BruteForceResult::AlreadySolved => None,
            BruteForceResult::MultipleSolutions(_) => None,
            BruteForceResult::TooFewKnowns => None,
            BruteForceResult::UnsolvableCells(_) => None,
            BruteForceResult::Canceled => None,
            BruteForceResult::Unsolvable => None,
        }
    }
}

/// The number of known values grows by one when an unknown cell gets one.
proof fn lemma_known_cells_update(values: Seq<nat>, c: nat, v: nat, n: nat)
    requires
        c < 81,
        n <= 81,
        values.len() == 81,
        values[c as int] == 0,
        v != 0,
    ensures
        known_cells(values.update(c as int, v), n) == known_cells(values, n) + if c < n {
            1nat
        } else {
            0nat
        },
    decreases n,
{
    if n > 0 {
        lemma_known_cells_update(values, c, v, (n - 1) as nat);
    }
}

/// At most `n` of the first `n` values are known.
proof fn lemma_known_cells_bound(values: Seq<nat>, n: nat)
    ensures
        known_cells(values, n) <= n,
    decreases n,
{
    if n > 0 {
        lemma_known_cells_bound(values, (n - 1) as nat);
    }
}

/// With an unknown cell among the first `n`, fewer than `n` are known.
proof fn lemma_known_cells_gap(values: Seq<nat>, c: nat, n: nat)
    requires
        c < n,
        values[c as int] == 0,
    ensures
        known_cells(values, n) < n,
    decreases n,
{
    if n - 1 == c {
        lemma_known_cells_bound(values, (n - 1) as nat);
    } else {
        lemma_known_cells_gap(values, c, (n - 1) as nat);
    }
}

impl BruteForceSolver {
    /// The most solutions a search collects: `max_solutions`, or one when
    /// it is zero.
    pub open spec fn solution_cap(&self) -> nat {
        if self.max_solutions == 0 {
            1
        } else {
            self.max_solutions as nat
        }
    }

    /// A search that collects at most `max_solutions` solutions, or the
    /// default number of them when that is 0 or above the largest allowed.
    pub fn new(log: bool, pause: u32, max_solutions: usize) -> (r: Self)
        ensures
            r.log == log,
            r.pause == pause,
            r.max_solutions == if 1 <= max_solutions <= MAXIMUM_SOLUTIONS {
                max_solutions
            } else {
                DEFAULT_MAXIMUM_SOLUTIONS
            },
    {
        let max_solutions = if 1 <= max_solutions && max_solutions <= MAXIMUM_SOLUTIONS {
            max_solutions
        } else {
            DEFAULT_MAXIMUM_SOLUTIONS
        };
        BruteForceSolver { log, pause, max_solutions }
    }

    /// Searches on from `board` by setting each candidate of its first
    /// unknown cell in turn. Tells whether the search is over: the first
    /// solution when `single`, or as many solutions as allowed. When it is
    /// not over and `start` is consistent, every grid that completes the
    /// board has been collected.
    fn search(&self, board: &Board, single: bool, changer: &Changer, solutions: &mut Vec<Board>, start: Ghost<
        BoardModel,
    >) -> (stop: bool)
        requires
            !is_solved(board.values_spec()),
            grown_from(start@, model_of(*board)),
            consistent(start@) ==> consistent(model_of(*board)),
            changer.options.stop_on_errors,
            forall|i: int| 0 <= i < old(solutions).len() ==> found_from(start@, #[trigger] old(solutions)[i]),
            old(solutions).len() == 0 || old(solutions).len() < self.max_solutions,
            !single || old(solutions).len() == 0,
        ensures
            forall|i: int| 0 <= i < final(solutions).len() ==> found_from(start@, #[trigger] final(solutions)[i]),
            final(solutions).len() >= old(solutions).len(),
            final(solutions)@.subrange(0, old(solutions).len() as int) == old(solutions)@,
            final(solutions).len() <= self.solution_cap(),
            stop ==> final(solutions).len() >= 1 && ((single && final(solutions).len() == 1) || (!single
                && final(solutions).len() >= self.max_solutions)),
            !stop ==> (final(solutions).len() == 0 || final(solutions).len() < self.max_solutions) && (!single
                || final(solutions).len() == 0),
            consistent(start@) && !stop ==> forall|s: Seq<nat>|
                #[trigger] completes(model_of(*board), s) ==> exists|j: int|
                    0 <= j < final(solutions).len() && final(solutions)[j].values_spec() == s,
            forall|i: int|
                old(solutions).len() <= i < final(solutions).len() ==> extends(
                    board.values_spec(),
                    #[trigger] final(solutions)[i].values_spec(),
                ),
            forall|i: int, j: int|
                old(solutions).len() <= i < j < final(solutions).len() ==> #[trigger] final(solutions)[i].values_spec()
                    != #[trigger] final(solutions)[j].values_spec(),
        decreases 81 - known_cells(board.values_spec(), 81),
    {
        let cell = match board.unknowns().first() {
            Some(c) => c,
            None => {
                proof {
                    assert(unknown_cells(board.values_spec()) == Set::<nat>::empty());
                    assert forall|i: int| 0 <= i < 81 implies #[trigger] board.values_spec()[i] != 0 by {
                        if board.values_spec()[i] == 0 {
                            assert(unknown_cells(board.values_spec()).contains(i as nat));
                        }
                    }
                }
                return false;
            },
        };
        let _index: u8 = cell.index();
        let mut candidates = board.candidates(cell);
        let ghost m = model_of(*board);
        let ghost old_sols = solutions@;
        proof {
            assert(unknown_cells(board.values_spec()).contains(cell@));
            lemma_known_cells_gap(board.values_spec(), cell@, 81);
            assert(solutions@.subrange(0, solutions.len() as int) =~= solutions@);
        }
        loop
            invariant
                cell@ < 81,
                board.values_spec()[cell@ as int] == 0,
                candidates@.subset_of(board.cands_spec()[cell@ as int]),
                m == model_of(*board),
                !is_solved(board.values_spec()),
                grown_from(start@, m),
                consistent(start@) ==> consistent(m),
                changer.options.stop_on_errors,
                known_cells(board.values_spec(), 81) < 81,
                old_sols == old(solutions)@,
                forall|i: int| 0 <= i < solutions.len() ==> found_from(start@, #[trigger] solutions[i]),
                solutions.len() >= old_sols.len(),
                solutions@.subrange(0, old_sols.len() as int) == old_sols,
                solutions.len() == 0 || solutions.len() < self.max_solutions,
                !single || solutions.len() == 0,
                consistent(start@) ==> forall|s: Seq<nat>|
                    #[trigger] completes(m, s) && !candidates@.contains((s[cell@ as int] - 1) as nat) ==> exists|j: int|
                        0 <= j < solutions.len() && solutions[j].values_spec() == s,
                forall|i: int|
                    old_sols.len() <= i < solutions.len() ==> extends(m.0, #[trigger] solutions[i].values_spec())
                        && solutions[i].values_spec()[cell@ as int] != 0 && !candidates@.contains(
                        (solutions[i].values_spec()[cell@ as int] - 1) as nat,
                    ),
                forall|i: int, j: int|
                    old_sols.len() <= i < j < solutions.len() ==> #[trigger] solutions[i].values_spec()
                        != #[trigger] solutions[j].values_spec(),
            decreases candidates@.len(),
        {
            let ghost before = candidates@;
            let ghost sols_before = solutions@;
            let known = match candidates.pop() {
                Some(k) => k,
                None => {
                    return false;
                },
            };
            proof {
                assert(before.contains(known@));
                assert(candidates@.len() < before.len());
            }
            let action = Action::new_set(Strategy::BruteForce, cell, known);
            proof {
                lemma_single_set_model(m, action, cell@, known@);
                assert(board.cands_spec()[cell@ as int].contains(known@));
            }
            match changer.apply(board, &action) {
                ChangeResult::Nothing => {
                    proof {
                        assert(set_step(m, cell@, known@).0[cell@ as int] == known@ + 1);
                    }
                },
                ChangeResult::Valid(after, _) => {
                    let ghost ma = model_of(after);
                    proof {
                        let v2 = board.values_spec().update(cell@ as int, known@ + 1);
                        assert(after.values_spec() == v2);
                        lemma_known_cells_update(board.values_spec(), cell@, known@ + 1, 81);
                        assert(ma == set_step(m, cell@, known@));
                        if consistent(start@) {
                            lemma_set_step_consistent(m, cell@, known@);
                        }
                        assert(grown_from(start@, ma));
                        assert forall|s: Seq<nat>|
                            #[trigger] completes(m, s) && s[cell@ as int] == known@ + 1 implies completes(ma, s) by {
                            assert forall|i: int| #![trigger s[i]] 0 <= i < 81 implies (ma.0[i] != 0 ==> s[i] == ma.0[i]) && (
                            ma.0[i] == 0 ==> ma.1[i].contains((s[i] - 1) as nat)) by {
                                assert(s[i] == s[i]);
                                if i != cell@ && peers_of(cell@).contains(i as nat) {
                                    assert(s[i] != s[cell@ as int]);
                                }
                            }
                        }
                    }
                    if after.is_fully_solved() {
                        solutions.push(after);
                        proof {
                            assert(found_from(start@, after)) by {
                                if consistent(start@) {
                                    assert forall|i: nat, p: nat| i < 81 && #[trigger] peers_of(i).contains(p) implies after.values_spec()[i as int]
                                        != after.values_spec()[p as int] by {
                                        assert(after.values_spec()[i as int] != 0);
                                    }
                                    assert forall|i: int| #![trigger after.values_spec()[i]] 0 <= i < 81 implies (start@.0[i] != 0
                                        ==> after.values_spec()[i] == start@.0[i]) && (start@.0[i] == 0 ==> start@.1[i].contains(
                                        (after.values_spec()[i] - 1) as nat,
                                    )) by {
                                        assert(after.values_spec()[i] != 0);
                                    }
                                }
                            }
                            assert forall|i: int| 0 <= i < solutions.len() implies found_from(
                                start@,
                                #[trigger] solutions[i],
                            ) by {
                                if i < solutions.len() - 1 {
                                    assert(solutions[i] == sols_before[i]);
                                }
                            }
                            assert(solutions@.subrange(0, old_sols.len() as int) =~= sols_before.subrange(
                                0,
                                old_sols.len() as int,
                            ));
                            if consistent(start@) {
                                assert forall|s: Seq<nat>|
                                    #[trigger] completes(m, s) && !candidates@.contains((s[cell@ as int] - 1) as nat) implies exists|
                                    j: int,
                                | 0 <= j < solutions.len() && solutions[j].values_spec() == s by {
                                    if s[cell@ as int] == known@ + 1 {
                                        assert(completes(ma, s));
                                        assert(s =~= after.values_spec()) by {
                                            assert forall|i: int| 0 <= i < 81 implies s[i] == after.values_spec()[i] by {
                                                assert(after.values_spec()[i] != 0);
                                            }
                                        }
                                        assert(solutions[solutions.len() - 1] == after);
                                    } else {
                                        assert(!before.contains((s[cell@ as int] - 1) as nat));
                                        let j = choose|j: int| 0 <= j < sols_before.len() && sols_before[j].values_spec() == s;
                                        assert(solutions[j] == sols_before[j]);
                                    }
                                }
                            }
                        }
                        if single {
                            return true;
                        }
                        if solutions.len() >= self.max_solutions {
                            return true;
                        }
                        proof {
                            if consistent(start@) {
                                assert forall|s: Seq<nat>| #[trigger] completes(m, s) implies exists|j: int|
                                    0 <= j < solutions.len() && solutions[j].values_spec() == s by {
                                    if candidates@.contains((s[cell@ as int] - 1) as nat) {
                                        let k2 = (s[cell@ as int] - 1) as nat;
                                        assert(s[cell@ as int] == s[cell@ as int]);
                                        assert forall|i: int| 0 <= i < 81 && i != cell@ implies #[trigger] m.0[i] != 0 && m.0[i]
                                            <= 9 by {
                                            assert(after.values_spec()[i] != 0);
                                        }
                                        assert forall|i: nat| #[trigger] peers_of(cell@).contains(i) implies m.0[i as int]
                                            != known@ + 1 && m.0[i as int] != s[cell@ as int] by {
                                            assert(s[i as int] == s[i as int]);
                                            if m.0[i as int] != 0 {
                                                assert(peers_of(i).contains(cell@));
                                            }
                                        }
                                        lemma_last_cell_digit(m, cell@, known@ + 1, s[cell@ as int]);
                                    }
                                }
                            }
                        }
                        return false;
                    } else {
                        let stop_after = self.search(&after, single, changer, solutions, start);
                        proof {
                            assert forall|i: int| 0 <= i < sols_before.len() implies solutions[i] == sols_before[i] by {
                                assert(solutions@.subrange(0, sols_before.len() as int)[i] == sols_before[i]);
                            }
                            assert forall|i: int| old_sols.len() <= i < solutions.len() implies extends(
                                m.0,
                                #[trigger] solutions[i].values_spec(),
                            ) && solutions[i].values_spec()[cell@ as int] != 0 && !candidates@.contains(
                                (solutions[i].values_spec()[cell@ as int] - 1) as nat,
                            ) by {
                                let v = solutions[i].values_spec();
                                if i >= sols_before.len() {
                                    assert(extends(after.values_spec(), v));
                                    assert(after.values_spec()[cell@ as int] == known@ + 1);
                                    assert(v[cell@ as int] == known@ + 1);
                                    assert forall|j: int| 0 <= j < 81 && #[trigger] m.0[j] != 0 implies v[j] == m.0[j] by {
                                        assert(after.values_spec()[j] == m.0[j]);
                                    }
                                } else {
                                    assert(solutions[i] == sols_before[i]);
                                }
                            }
                            assert forall|i: int, j: int|
                                old_sols.len() <= i < j < solutions.len() implies #[trigger] solutions[i].values_spec()
                                    != #[trigger] solutions[j].values_spec() by {
                                if j >= sols_before.len() {
                                    assert(after.values_spec()[cell@ as int] == known@ + 1);
                                    assert(solutions[j].values_spec()[cell@ as int] == known@ + 1);
                                    if i < sols_before.len() {
                                        assert(solutions[i] == sols_before[i]);
                                        assert(!before.contains((sols_before[i].values_spec()[cell@ as int] - 1) as nat));
                                    }
                                } else {
                                    assert(solutions[i] == sols_before[i]);
                                    assert(solutions[j] == sols_before[j]);
                                }
                            }
                        }
                        if stop_after {
                            return true;
                        }
                        proof {
                            assert forall|i: int| 0 <= i < old_sols.len() implies solutions[i] == old_sols[i] by {
                                assert(solutions@.subrange(0, sols_before.len() as int)[i] == sols_before[i]);
                            }
                            assert(solutions@.subrange(0, old_sols.len() as int) =~= old_sols);
                            if consistent(start@) {
                                assert forall|s: Seq<nat>|
                                    #[trigger] completes(m, s) && !candidates@.contains((s[cell@ as int] - 1) as nat) implies exists|
                                    j: int,
                                | 0 <= j < solutions.len() && solutions[j].values_spec() == s by {
                                    if s[cell@ as int] == known@ + 1 {
                                        assert(completes(ma, s));
                                    } else {
                                        assert(!before.contains((s[cell@ as int] - 1) as nat));
                                        let j = choose|j: int| 0 <= j < sols_before.len() && sols_before[j].values_spec() == s;
                                        assert(solutions@.subrange(0, sols_before.len() as int)[j] == sols_before[j]);
                                    }
                                }
                            }
                        }
                    }
                },
                ChangeResult::Invalid(..) => {
                    proof {
                        lemma_single_set_may_fail(m, action, cell@, known@);
                        if consistent(start@) {
                            assert forall|s: Seq<nat>|
                                #[trigger] completes(m, s) && !candidates@.contains((s[cell@ as int] - 1) as nat) implies exists|
                                j: int,
                            | 0 <= j < solutions.len() && solutions[j].values_spec() == s by {
                                if s[cell@ as int] == known@ + 1 {
                                    let p = choose|p: nat| #[trigger] emptied_by_set(m.0, m.1, cell@, known@, p);
                                    assert(m.1[p as int].contains((s[p as int] - 1) as nat));
                                    assert(m.1[p as int].remove(known@).contains((s[p as int] - 1) as nat));
                                } else {
                                    assert(!before.contains((s[cell@ as int] - 1) as nat));
                                }
                            }
                        }
                    }
                },
            }
        }
    }

    /// Searches for the solutions of the board by trial and error: none
    /// when it is solved already, has fewer than 17 known cells, or has an
    /// unknown cell without candidates. Else the first solution when
    /// `single`, or all of them up to the allowed number.
    pub fn find_brute_force(&self, board: &Board, single: bool) -> (r: BruteForceResult)
        ensures
            is_solved(board.values_spec()) ==> r is AlreadySolved,
            !is_solved(board.values_spec()) && known_cells(board.values_spec(), 81)
                < MINIMUM_KNOWNS_TO_BE_UNIQUELY_SOLVABLE ==> r is TooFewKnowns,
            !is_solved(board.values_spec()) && known_cells(board.values_spec(), 81)
                >= MINIMUM_KNOWNS_TO_BE_UNIQUELY_SOLVABLE && unknown_cells(board.values_spec()).intersect(
                cells_with_n(board.cands_spec(), 0),
            ) != Set::<nat>::empty() ==> (r matches BruteForceResult::UnsolvableCells(cells) && cells@
                == unknown_cells(board.values_spec()).intersect(cells_with_n(board.cands_spec(), 0))),
            !is_solved(board.values_spec()) && known_cells(board.values_spec(), 81)
                >= MINIMUM_KNOWNS_TO_BE_UNIQUELY_SOLVABLE && unknown_cells(board.values_spec()).intersect(
                cells_with_n(board.cands_spec(), 0),
            ) == Set::<nat>::empty() ==> {
                &&& (r is Unsolvable || r is Solved || r is MultipleSolutions)
                &&& r matches BruteForceResult::Solved(b) ==> solution_of(board.values_spec(), *b)
                &&& r matches BruteForceResult::MultipleSolutions(v) ==> {
                    &&& !single
                    &&& v.len() >= 1
                    &&& (v.len() >= 2 || v.len() >= self.max_solutions)
                    &&& v.len() <= self.solution_cap()
                    &&& forall|i: int| 0 <= i < v.len() ==> solution_of(board.values_spec(), #[trigger] v[i])
                    &&& forall|i: int, j: int|
                        0 <= i < j < v.len() ==> #[trigger] v[i].values_spec() != #[trigger] v[j].values_spec()
                }
            },
            consistent(model_of(*board)) ==> {
                &&& r is Unsolvable ==> forall|s: Seq<nat>| !#[trigger] completes(model_of(*board), s)
                &&& r matches BruteForceResult::Solved(b) ==> completes(model_of(*board), b.values_spec())
                &&& !single ==> (r matches BruteForceResult::Solved(b) ==> forall|s: Seq<nat>|
                    #[trigger] completes(model_of(*board), s) <==> s == b.values_spec())
                &&& r matches BruteForceResult::MultipleSolutions(v) ==> {
                    &&& forall|i: int| 0 <= i < v.len() ==> completes(model_of(*board), #[trigger] v[i].values_spec())
                    &&& v.len() < self.max_solutions ==> forall|s: Seq<nat>|
                        #[trigger] completes(model_of(*board), s) ==> exists|i: int|
                            0 <= i < v.len() && v[i].values_spec() == s
                }
            },
    {
        if board.is_fully_solved() {
            return BruteForceResult::AlreadySolved;
        }
        if board.known_count() < MINIMUM_KNOWNS_TO_BE_UNIQUELY_SOLVABLE {
            return BruteForceResult::TooFewKnowns;
        }
        let empty = board.unknowns().intersect(board.cells_with_n_candidates(0));
        if !empty.is_empty() {
            return BruteForceResult::UnsolvableCells(empty);
        }
        let changer = Changer::new(Options::errors());
        let mut solutions: Vec<Board> = Vec::new();
        let ghost start = model_of(*board);
        proof {
            assert(solutions@.subrange(0, 0) =~= solutions@);
        }
        let stop = self.search(board, single, &changer, &mut solutions, Ghost(start));
        let n: usize = solutions.len();
        proof {
            assert(forall|i: int| 0 <= i < solutions.len() ==> solution_of(start.0, #[trigger] solutions[i]));
        }
        if stop {
            if single {
                let b = solutions.remove(0);
                return BruteForceResult::Solved(Box::new(b));
            }
            return BruteForceResult::MultipleSolutions(solutions);
        }
        if n == 0 {
            BruteForceResult::Unsolvable
        } else if n == 1 {
            let b = solutions.remove(0);
            BruteForceResult::Solved(Box::new(b))
        } else {
            BruteForceResult::MultipleSolutions(solutions)
        }
    }
}

/// Searches for the solutions of the board, collecting at most the default
/// number of them, as `BruteForceSolver::find_brute_force`.
pub fn find_brute_force(board: &Board, single: bool) -> (r: BruteForceResult)
    ensures
        is_solved(board.values_spec()) ==> r is AlreadySolved,
        !is_solved(board.values_spec()) && known_cells(board.values_spec(), 81)
            < MINIMUM_KNOWNS_TO_BE_UNIQUELY_SOLVABLE ==> r is TooFewKnowns,
        r matches BruteForceResult::Solved(b) ==> solution_of(board.values_spec(), *b),
        r matches BruteForceResult::MultipleSolutions(v) ==> forall|i: int|
            0 <= i < v.len() ==> solution_of(board.values_spec(), #[trigger] v[i]),
        r matches BruteForceResult::MultipleSolutions(v) ==> forall|i: int, j: int|
            0 <= i < j < v.len() ==> #[trigger] v[i].values_spec() != #[trigger] v[j].values_spec(),
        r matches BruteForceResult::MultipleSolutions(v) ==> 2 <= v.len() <= DEFAULT_MAXIMUM_SOLUTIONS,
        consistent(model_of(*board)) ==> {
            &&& r is Unsolvable ==> forall|s: Seq<nat>| !#[trigger] completes(model_of(*board), s)
            &&& r matches BruteForceResult::Solved(b) ==> completes(model_of(*board), b.values_spec())
            &&& !single ==> (r matches BruteForceResult::Solved(b) ==> forall|s: Seq<nat>|
                #[trigger] completes(model_of(*board), s) <==> s == b.values_spec())
        },
{
    let solver = BruteForceSolver::new(false, 0, DEFAULT_MAXIMUM_SOLUTIONS);
    solver.find_brute_force(board, single)
}

} // verus!
