use vstd::prelude::*;

use crate::layout::cell::{peers_of, Cell};
use crate::layout::known::Known;
use crate::layout::known_set::all_knowns;
use crate::solve::action::{apply_sets, set_step, BoardModel};
use crate::layout::grid::known_cells;
use crate::solve::algorithms::brute_force::{
    completes, valid_grid, BruteForceResult, BruteForceSolver, MINIMUM_KNOWNS_TO_BE_UNIQUELY_SOLVABLE,
};
use crate::solve::algorithms::brute_force::is_solved;
use crate::solve::board::{cells_with_n, lemma_board_cands_shape, lemma_board_values_shape, unknown_cells, Board};
use crate::solve::consistency::{consistent, lemma_apply_sets_consistent, lemma_empty_consistent, model_of};
use crate::solve::effects::Effects;

verus! {

broadcast use {lemma_board_values_shape, lemma_board_cands_shape};

/// The digits of `part` are digits of `whole`: where `part` has one, it is
/// the one of `whole`.
pub open spec fn within(part: Seq<nat>, whole: Seq<nat>) -> bool {
    forall|i: int| 0 <= i < 81 && #[trigger] part[i] != 0 ==> part[i] == whole[i]
}

/// The board model of an empty board: no digits, every candidate.
pub open spec fn empty_model() -> BoardModel {
    (Seq::new(81, |i: int| 0nat), Seq::new(81, |i: int| all_knowns()))
}

/// The board model of the givens `g` (0 for none) set one after another on
/// an empty board.
pub open spec fn givens_model(g: Seq<nat>) -> BoardModel {
    apply_sets(empty_model(), g, 81)
}

/// The givens `g` have exactly one completion: `solution`.
pub open spec fn unique_completion(g: Seq<nat>, solution: Seq<nat>) -> bool {
    forall|s: Seq<nat>| #[trigger] completes(givens_model(g), s) <==> s == solution
}

/// The digits as numbers.
pub open spec fn digit_seq(digits: Seq<u8>) -> Seq<nat> {
    Seq::new(81, |i: int| digits[i] as nat)
}

/// What setting the givens of the first `n` cells leaves in cell `i`: the
/// given when there is one, else no digit and the digit of `sol` among the
/// candidates.
spec fn prefix_cell(m: BoardModel, g: Seq<nat>, sol: Seq<nat>, n: nat, i: int) -> bool {
    &&& (i < n && g[i] != 0) ==> m.0[i] == g[i]
    &&& !(i < n && g[i] != 0) ==> m.0[i] == 0 && m.1[i].contains((sol[i] - 1) as nat)
}

/// Setting givens of a valid grid one after another on an empty board
/// always succeeds and keeps the grid's digits among the candidates.
proof fn lemma_givens_prefix(g: Seq<nat>, sol: Seq<nat>, n: nat)
    requires
        valid_grid(sol),
        g.len() == 81,
        within(g, sol),
        n <= 81,
    ensures
        apply_sets(empty_model(), g, n).0.len() == 81,
        apply_sets(empty_model(), g, n).1.len() == 81,
        forall|i: int| 0 <= i < 81 ==> #[trigger] prefix_cell(apply_sets(empty_model(), g, n), g, sol, n, i),
    decreases n,
{
    if n == 0 {
        assert forall|i: int| 0 <= i < 81 implies #[trigger] prefix_cell(apply_sets(empty_model(), g, n), g, sol, n, i) by {
            assert(1 <= sol[i] <= 9);
        }
    } else {
        let prev = apply_sets(empty_model(), g, (n - 1) as nat);
        lemma_givens_prefix(g, sol, (n - 1) as nat);
        let c = (n - 1) as nat;
        assert(prefix_cell(prev, g, sol, (n - 1) as nat, c as int));
        if g[c as int] != 0 {
            let k = (g[c as int] - 1) as nat;
            assert(g[c as int] == sol[c as int]);
            let m = apply_sets(empty_model(), g, n);
            assert(m == set_step(prev, c, k));
            assert forall|i: int| 0 <= i < 81 implies #[trigger] prefix_cell(m, g, sol, n, i) by {
                assert(prefix_cell(prev, g, sol, (n - 1) as nat, i));
                if i != c && peers_of(c).contains(i as nat) && !(i < n && g[i] != 0) {
                    assert(sol[i] != sol[c as int]);
                    assert(1 <= sol[i] <= 9);
                }
            }
        } else {
            assert forall|i: int| 0 <= i < 81 implies #[trigger] prefix_cell(
                apply_sets(empty_model(), g, n),
                g,
                sol,
                n,
                i,
            ) by {
                assert(prefix_cell(prev, g, sol, (n - 1) as nat, i));
            }
        }
    }
}

/// The givens of a valid grid, set on an empty board, give a consistent
/// board that shows exactly those givens and that the grid completes.
pub proof fn lemma_givens_model(g: Seq<nat>, sol: Seq<nat>)
    requires
        valid_grid(sol),
        g.len() == 81,
        within(g, sol),
    ensures
        givens_model(g).0 == g,
        completes(givens_model(g), sol),
        consistent(givens_model(g)),
{
    lemma_givens_prefix(g, sol, 81);
    let m = givens_model(g);
    assert forall|i: int| 0 <= i < 81 implies m.0[i] == g[i] by {
        assert(prefix_cell(m, g, sol, 81, i));
    }
    assert(m.0 =~= g);
    assert forall|i: int|
        #![trigger sol[i]]
        0 <= i < 81 implies (m.0[i] != 0 ==> sol[i] == m.0[i]) && (m.0[i] == 0 ==> m.1[i].contains(
        (sol[i] - 1) as nat,
    )) by {
        assert(prefix_cell(m, g, sol, 81, i));
    }
    lemma_empty_consistent(empty_model());
    lemma_apply_sets_consistent(empty_model(), g, 81);
}

/// The givens of a whole valid grid have that grid as their one completion.
proof fn lemma_full_givens_unique(sol: Seq<nat>)
    requires
        valid_grid(sol),
    ensures
        unique_completion(sol, sol),
{
    lemma_givens_model(sol, sol);
    assert forall|s: Seq<nat>| #[trigger] completes(givens_model(sol), s) implies s == sol by {
        assert forall|i: int| 0 <= i < 81 implies s[i] == sol[i] by {
            assert(1 <= sol[i] <= 9);
        }
        assert(s =~= sol);
    }
}

/// The given in cell `c` cannot be taken away: without it the givens would
/// have another completion than `solution`, or be too few (under 17) for
/// the search to answer with one.
pub open spec fn essential(g: Seq<nat>, solution: Seq<nat>, c: int) -> bool {
    let h = g.update(c, 0);
    ||| !unique_completion(h, solution)
    ||| known_cells(h, 81) < MINIMUM_KNOWNS_TO_BE_UNIQUELY_SOLVABLE
}

/// Clearing a cell that holds a digit takes one off the count of known
/// cells from there on.
proof fn lemma_known_cells_clear(g: Seq<nat>, c: int, n: nat)
    requires
        0 <= c < g.len(),
        n <= g.len(),
    ensures
        known_cells(g.update(c, 0), n) == known_cells(g, n) - if c < n && g[c] != 0 {
            1int
        } else {
            0int
        },
        known_cells(g.update(c, 0), n) <= known_cells(g, n),
    decreases n,
{
    if n > 0 {
        lemma_known_cells_clear(g, c, (n - 1) as nat);
    }
}

/// A completion of some givens completes any part of them.
proof fn lemma_completes_part(h: Seq<nat>, part: Seq<nat>, sol: Seq<nat>, s: Seq<nat>)
    requires
        valid_grid(sol),
        h.len() == 81,
        part.len() == 81,
        within(h, sol),
        within(part, h),
        completes(givens_model(h), s),
    ensures
        completes(givens_model(part), s),
{
    lemma_givens_model(h, sol);
    assert forall|i: int| 0 <= i < 81 && #[trigger] part[i] != 0 implies part[i] == s[i] by {
        assert(h[i] == part[i]);
        assert(givens_model(h).0[i] == h[i]);
    }
    lemma_givens_model(part, s);
}

/// A given that cannot be taken away stays so when other givens are taken
/// away.
pub proof fn lemma_essential_stays(g: Seq<nat>, sol: Seq<nat>, c: int, j: int)
    requires
        valid_grid(sol),
        g.len() == 81,
        within(g, sol),
        0 <= c < 81,
        0 <= j < 81,
        c != j,
        essential(g, sol, j),
    ensures
        essential(g.update(c, 0), sol, j),
{
    let h = g.update(j, 0);
    let h2 = g.update(c, 0).update(j, 0);
    assert(h2 =~= h.update(c, 0));
    lemma_known_cells_clear(h, c, 81);
    if !unique_completion(h, sol) {
        assert(within(h, sol));
        lemma_givens_model(h, sol);
        let s = choose|s: Seq<nat>| !(#[trigger] completes(givens_model(h), s) <==> s == sol);
        assert(completes(givens_model(h), s) && s != sol);
        assert(within(h2, h));
        lemma_completes_part(h, h2, sol, s);
        assert(!unique_completion(h2, sol));
    }
}

/// Takes givens away from a solved board while the search by trial and
/// error still finds a single solution, down to a number of givens.
pub struct Finder {
    target: usize,
    bar: bool,
}

/// The board with the given digits (0 for none) set one after another on
/// an empty board.
fn board_from_digits(digits: &Vec<u8>) -> (r: Board)
    requires
        digits.len() == 81,
        forall|i: int| 0 <= i < 81 ==> #[trigger] digits[i] <= 9,
    ensures
        model_of(r) == givens_model(digit_seq(digits@)),
        forall|i: int| 0 <= i < 81 && #[trigger] r.values_spec()[i] != 0 ==> r.values_spec()[i] == digits[i] as nat,
{
    let mut board = Board::new();
    let mut effects = Effects::new();
    let ghost g = digit_seq(digits@);
    proof {
        assert(model_of(board) == empty_model());
    }
    let mut i: u8 = 0;
    while i < 81
        invariant
            i <= 81,
            digits.len() == 81,
            g == digit_seq(digits@),
            forall|j: int| 0 <= j < 81 ==> #[trigger] digits[j] <= 9,
            model_of(board) == apply_sets(empty_model(), g, i as nat),
            forall|j: int| 0 <= j < 81 && #[trigger] board.values_spec()[j] != 0 ==> board.values_spec()[j] == digits[j] as nat,
        decreases 81 - i,
    {
        let d: u8 = digits[i as usize];
        if d != 0 {
            let ghost before = board.values_spec();
            board.set_known(Cell::new(i), Known::new(d), &mut effects);
            proof {
                assert forall|j: int| 0 <= j < 81 && #[trigger] board.values_spec()[j] != 0 implies board.values_spec()[j]
                    == digits[j] as nat by {
                    if j != i as int {
                        assert(board.values_spec()[j] == before[j]);
                    }
                }
            }
        }
        proof {
            assert(g[i as int] == d as nat);
        }
        i = i + 1;
    }
    board
}

impl Finder {
    /// A finder that stops at `target` givens.
    pub fn new(target: usize, _tries: usize, bar: bool) -> (r: Self)
        ensures
            r.target_spec() == target,
    {
        Finder { target, bar }
    }

    pub closed spec fn target_spec(&self) -> usize {
        self.target
    }

    /// Goes through the cells in order and takes each given away when the
    /// search still finds a single solution without it, until only the
    /// target number of givens is left. The board of the givens kept, and
    /// no effects. When the solved board is a valid grid, the givens kept
    /// have it as their one completion.
    pub fn backtracking_find(&mut self, solved: Board) -> (r: (Board, Effects))
        ensures
            within(r.0.values_spec(), solved.values_spec()),
            valid_grid(solved.values_spec()) ==> unique_completion(r.0.values_spec(), solved.values_spec()),
            valid_grid(solved.values_spec()) ==> known_cells(r.0.values_spec(), 81) <= old(self).target_spec() || forall|
                c: int,
            | 0 <= c < 81 && #[trigger] r.0.values_spec()[c] != 0 ==> essential(
                r.0.values_spec(),
                solved.values_spec(),
                c,
            ),
    {
        let ghost sol = solved.values_spec();
        let mut digits: Vec<u8> = Vec::new();
        let mut count: usize = 0;
        let mut i: u8 = 0;
        while i < 81
            invariant
                i <= 81,
                digits.len() == i,
                count <= i,
                count == known_cells(solved.values_spec(), i as nat),
                forall|j: int| 0 <= j < i ==> #[trigger] digits[j] as nat == solved.values_spec()[j],
            decreases 81 - i,
        {
            let v = solved.value(Cell::new(i));
            let d: u8 = v.value();
            digits.push(d);
            if d != 0 {
                count = count + 1;
            }
            i = i + 1;
        }
        proof {
            assert(digit_seq(digits@) =~= sol);
            if valid_grid(sol) {
                lemma_full_givens_unique(sol);
            }
        }
        let searcher = BruteForceSolver::new(false, 0, 2);
        let mut c: u8 = 0;
        while c < 81 && count > self.target
            invariant
                c <= 81,
                digits.len() == 81,
                sol == solved.values_spec(),
                forall|j: int| 0 <= j < 81 ==> #[trigger] digits[j] <= 9,
                forall|j: int| 0 <= j < 81 && #[trigger] digits[j] != 0 ==> digits[j] as nat == solved.values_spec()[j],
                valid_grid(sol) ==> unique_completion(digit_seq(digits@), sol),
                count == known_cells(digit_seq(digits@), 81),
                searcher.max_solutions == 2,
                valid_grid(sol) ==> forall|j: int|
                    0 <= j < c && #[trigger] digit_seq(digits@)[j] != 0 ==> essential(digit_seq(digits@), sol, j),
            decreases 81 - c,
        {
            let d: u8 = digits[c as usize];
            if d != 0 {
                let ghost kept = digits@;
                digits.set(c as usize, 0);
                let trial = board_from_digits(&digits);
                proof {
                    assert(digit_seq(digits@) =~= digit_seq(kept).update(c as int, 0));
                    lemma_known_cells_clear(digit_seq(kept), c as int, 81);
                    if valid_grid(sol) {
                        lemma_givens_model(digit_seq(digits@), sol);
                    }
                }
                match searcher.find_brute_force(&trial, false) {
                    BruteForceResult::Solved(b) => {
                        proof {
                            if valid_grid(sol) {
                                assert(completes(model_of(trial), sol));
                                assert(sol == b.values_spec());
                                assert forall|j: int|
                                    0 <= j < c + 1 && #[trigger] digit_seq(digits@)[j] != 0 implies essential(
                                    digit_seq(digits@),
                                    sol,
                                    j,
                                ) by {
                                    assert(digit_seq(kept)[j] != 0);
                                    lemma_essential_stays(digit_seq(kept), sol, c as int, j);
                                }
                            }
                        }
                        count = count - 1;
                    },
                    other => {
                        proof {
                            if valid_grid(sol) {
                                let h = digit_seq(digits@);
                                assert(trial.values_spec() == h);
                                assert(h[c as int] == 0);
                                assert(!is_solved(trial.values_spec()));
                                if known_cells(trial.values_spec(), 81) >= MINIMUM_KNOWNS_TO_BE_UNIQUELY_SOLVABLE {
                                    assert(completes(model_of(trial), sol));
                                    assert(unknown_cells(trial.values_spec()).intersect(
                                        cells_with_n(trial.cands_spec(), 0),
                                    ) =~= Set::<nat>::empty()) by {
                                        assert forall|x: nat| !(unknown_cells(trial.values_spec()).intersect(
                                            cells_with_n(trial.cands_spec(), 0),
                                        )).contains(x) by {
                                            if unknown_cells(trial.values_spec()).contains(x) && x < 81 {
                                                assert(trial.cands_spec()[x as int].contains((sol[x as int] - 1) as nat));
                                                if trial.cands_spec()[x as int].len() == 0 {
                                                    vstd::set_lib::lemma_set_empty_equivalency_len(trial.cands_spec()[x as int]);
                                                }
                                            }
                                        }
                                    }
                                    match other {
                                        BruteForceResult::MultipleSolutions(v) => {
                                            let s0 = v[0].values_spec();
                                            let s1 = v[1].values_spec();
                                            assert(completes(model_of(trial), s0));
                                            assert(completes(model_of(trial), s1));
                                            assert(s0 != s1);
                                            assert(!unique_completion(h, sol));
                                        },
                                        _ => {
                                            assert(other is Unsolvable);
                                            assert(!completes(model_of(trial), sol));
                                        },
                                    }
                                }
                                assert(h =~= digit_seq(kept).update(c as int, 0));
                                assert(essential(digit_seq(kept), sol, c as int));
                            }
                        }
                        digits.set(c as usize, d);
                        proof {
                            assert(digits@ =~= kept);
                        }
                    },
                }
            }
            c = c + 1;
        }
        let kept = board_from_digits(&digits);
        proof {
            if valid_grid(sol) {
                lemma_givens_model(digit_seq(digits@), sol);
                assert(kept.values_spec() == digit_seq(digits@));
            }
        }
        (kept, Effects::new())
    }
}

} // verus!
