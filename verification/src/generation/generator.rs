use vstd::prelude::*;

use rand::rngs::ThreadRng;
use rand::seq::SliceRandom;

use crate::layout::cell::{lemma_cell_at, peers_of, Cell};
use crate::layout::cell_set::{lemma_cell_set_bounded, CellSet};
use crate::layout::grid::{known_cells, lemma_all_known};
use crate::layout::known::Known;
use crate::layout::known_set::{all_knowns, lemma_known_set_bounded, KnownSet};
use crate::layout::set_lemmas::lemma_len0_empty;
use crate::solve::action::set_step;
use crate::solve::algorithms::brute_force::{completes, is_solved, lemma_set_step_completes, lemma_solved_valid, valid_grid};
use crate::solve::board::{
    lemma_board_cands_shape, lemma_board_values_shape, unknown_cells, Board,
};
use crate::solve::cancelable::Cancelable;
use crate::solve::changer::{ChangeResult, Changer};
use crate::solve::consistency::{consistent, lemma_set_keeps_consistent, model_of};
use crate::solve::strategy::Strategy;

verus! {

broadcast use {
    lemma_cell_at,
    lemma_cell_set_bounded,
    lemma_known_set_bounded,
    lemma_board_values_shape,
    lemma_board_cands_shape,
};

#[verifier::external_type_specification]
#[verifier::external_body]
pub struct ExThreadRng(ThreadRng);

/// The random number generator of the current thread (`rand::thread_rng`).
///
/// Trusted: nothing is claimed of the generator.
#[verifier::external_body]
fn new_thread_rng() -> (r: ThreadRng) {
    rand::thread_rng()
}

/// Puts the digits in a random order (`SliceRandom::shuffle`).
///
/// Trusted: the contract claims what the crate's source shows, that the
/// digits are only swapped among themselves; the order that comes out
/// depends on chance and is left unsaid.
#[verifier::external_body]
fn shuffle_knowns(v: &mut Vec<Known>, rng: &mut ThreadRng)
    ensures
        final(v)@.to_multiset() == old(v)@.to_multiset(),
        final(v)@.len() == old(v)@.len(),
{
    v.shuffle(rng);
}

/// Makes complete solutions by filling cells with digits in random order,
/// backing up on contradictions.
pub struct Generator {
    rng: ThreadRng,
    bar: bool,
}

/// Whether an unknown cell with no candidates comes, in cell order, before
/// every unknown cell with exactly one.
pub open spec fn dead_before_single(values: Seq<nat>, cands: Seq<Set<nat>>) -> bool {
    exists|d: nat|
        #![trigger cands[d as int]]
        d < 81 && values[d as int] == 0 && cands[d as int].len() == 0 && forall|e: nat|
            e < d && values[e as int] == 0 ==> cands[e as int].len() != 1
}

/// The digit of cell `i` in a fixed complete grid: row `r` holds the
/// digits shifted by `3r + r/3`.
pub open spec fn pattern_digit(i: int) -> int {
    ((i / 9) * 3 + (i / 9) / 3 + i % 9) % 9 + 1
}

/// A fixed complete grid.
pub open spec fn pattern_grid() -> Seq<nat> {
    Seq::new(81, |i: int| pattern_digit(i) as nat)
}

/// Two different digits positions below 9, shifted alike, stay apart
/// modulo 9.
proof fn lemma_mod9_apart(k: int, u: int, v: int)
    requires
        k >= 0,
        0 <= u < 9,
        0 <= v < 9,
        u != v,
    ensures
        (k + u) % 9 != (k + v) % 9,
{
}

/// The digit of the fixed grid through the band, stack, and positions in
/// them.
proof fn lemma_pattern_digit_form(i: int)
    requires
        0 <= i < 81,
    ensures
        pattern_digit(i) == ((i / 9) / 3 + 3 * ((i / 9) % 3) + 3 * ((i % 9) / 3) + (i % 9) % 3) % 9 + 1,
{
    let r = i / 9;
    let c = i % 9;
    let a = r / 3;
    let x = r % 3;
    assert(r == 3 * a + x);
    assert(c == 3 * (c / 3) + c % 3);
    assert(r * 3 + a + c == 9 * a + (a + 3 * x + 3 * (c / 3) + c % 3));
}

/// The fixed grid is valid: some grid completes an empty board.
proof fn lemma_pattern_grid_valid()
    ensures
        valid_grid(pattern_grid()),
        forall|i: int| 0 <= i < 81 ==> 1 <= #[trigger] pattern_grid()[i] <= 9,
{
    assert forall|i: nat, p: nat| i < 81 && #[trigger] peers_of(i).contains(p) implies pattern_grid()[i as int]
        != pattern_grid()[p as int] by {
        let ii = i as int;
        let pp = p as int;
        lemma_pattern_digit_form(ii);
        lemma_pattern_digit_form(pp);
        let (a1, x1, b1, y1) = ((ii / 9) / 3, (ii / 9) % 3, (ii % 9) / 3, (ii % 9) % 3);
        let (a2, x2, b2, y2) = ((pp / 9) / 3, (pp / 9) % 3, (pp % 9) / 3, (pp % 9) % 3);
        assert(ii == 27 * a1 + 9 * x1 + 3 * b1 + y1);
        assert(pp == 27 * a2 + 9 * x2 + 3 * b2 + y2);
        assert(ii / 27 == a1);
        assert(pp / 27 == a2);
        if ii / 9 == pp / 9 {
            lemma_mod9_apart(a1 + 3 * x1, 3 * b1 + y1, 3 * b2 + y2);
        } else if ii % 9 == pp % 9 {
            lemma_mod9_apart(3 * b1 + y1, a1 + 3 * x1, a2 + 3 * x2);
        } else {
            assert(a1 == a2 && b1 == b2);
            lemma_mod9_apart(a1 + 3 * b1, 3 * x1 + y1, 3 * x2 + y2);
        }
    }
}

impl Generator {
    pub fn new(_shuffle: bool, bar: bool) -> (r: Self)
        ensures
            r.bar_spec() == bar,
    {
        Generator { rng: new_thread_rng(), bar }
    }

    pub closed spec fn bar_spec(&self) -> bool {
        self.bar
    }

    /// A complete solution built from an empty board, or the board reached
    /// when `cancelable` is raised. Some board always comes: the search
    /// meets a complete grid whenever one exists, and one does.
    pub fn generate(&mut self, changer: &Changer, cancelable: &Cancelable) -> (r: Option<Board>)
        ensures
            r is Some,
            changer.options.stop_on_errors ==> (r matches Some(b) ==> consistent(model_of(b))),
    {
        self.generate_or_stop(changer, cancelable).0
    }

    /// `generate`, with whether the search stopped because `cancelable`
    /// was seen raised: when it did not, every cell of the board is known,
    /// and with a changer that stops on errors the board is a valid grid.
    pub fn generate_or_stop(&mut self, changer: &Changer, cancelable: &Cancelable) -> (r: (Option<Board>, bool))
        ensures
            r.0 is Some,
            changer.options.stop_on_errors ==> (r.0 matches Some(b) ==> consistent(model_of(b))),
            !r.1 ==> (r.0 matches Some(b) && is_solved(b.values_spec())),
            !r.1 && changer.options.stop_on_errors ==> valid_grid(r.0->0.values_spec()),
    {
        let start = Board::new();
        proof {
            assert(unknown_cells(start.values_spec()).contains(0));
            if dead_before_single(start.values_spec(), start.cands_spec()) {
                let d = choose|d: nat|
                    #![trigger start.cands_spec()[d as int]]
                    d < 81 && start.values_spec()[d as int] == 0 && start.cands_spec()[d as int].len() == 0 && forall|e: nat|
                        e < d && start.values_spec()[e as int] == 0 ==> start.cands_spec()[e as int].len() != 1;
                lemma_len0_empty(start.cands_spec()[d as int]);
                assert(all_knowns().contains(0));
            }
        }
        let first = match self.pick_next_cell(&start) {
            Some(c) => c,
            None => {
                return (None, false);
            },
        };
        let candidates = self.shuffle_candidates(KnownSet::full());
        proof {
            lemma_known_cells_zero(start.values_spec(), 81);
            assert(consistent(model_of(start)));
            lemma_pattern_grid_valid();
            let g = pattern_grid();
            assert forall|i: int|
                #![trigger g[i]]
                0 <= i < 81 implies (start.values_spec()[i] != 0 ==> g[i] == start.values_spec()[i]) && (
            start.values_spec()[i] == 0 ==> start.cands_spec()[i].contains((g[i] - 1) as nat)) by {
                assert(1 <= g[i] <= 9);
            }
            assert(completes(model_of(start), g));
        }
        let r = self.fill(&start, first, candidates, changer, cancelable);
        proof {
            if !r.1 && changer.options.stop_on_errors {
                lemma_solved_valid(r.0->0);
            }
        }
        r
    }

    /// Tries each of `candidates` in `cell`, from the last, and fills the
    /// rest of the board after each that fits; the first complete board
    /// found, the board itself when canceled, or `None` when every choice
    /// failed, which happens only when no grid completes the board.
    fn fill(&mut self, board: &Board, cell: Cell, candidates: Vec<Known>, changer: &Changer, cancelable: &Cancelable) -> (r:
        (Option<Board>, bool))
        requires
            board.values_spec()[cell@ as int] == 0,
            cell@ < 81,
            forall|i: int| 0 <= i < candidates.len() ==> board.cands_spec()[cell@ as int].contains(
                #[trigger] candidates[i]@,
            ),
            forall|x: nat|
                board.cands_spec()[cell@ as int].contains(x) ==> exists|i: int|
                    0 <= i < candidates.len() && (#[trigger] candidates[i])@ == x,
            known_cells(board.values_spec(), 81) < 81,
            changer.options.stop_on_errors ==> consistent(model_of(*board)),
        ensures
            changer.options.stop_on_errors ==> (r.0 matches Some(b) ==> consistent(model_of(b))),
            r.0 is None ==> forall|s: Seq<nat>| !#[trigger] completes(model_of(*board), s),
            r.1 ==> r.0 is Some,
            !r.1 ==> (r.0 matches Some(b) ==> is_solved(b.values_spec())),
        decreases 81 - known_cells(board.values_spec(), 81),
    {
        let mut candidates = candidates;
        let ghost m = model_of(*board);
        proof {
            assert forall|s: Seq<nat>| #[trigger] completes(m, s) implies exists|i: int|
                0 <= i < candidates.len() && candidates[i]@ == (s[cell@ as int] - 1) as nat by {
                assert(s[cell@ as int] == s[cell@ as int]);
                let x = (s[cell@ as int] - 1) as nat;
                assert(board.cands_spec()[cell@ as int].contains(x));
                let i = choose|i: int| 0 <= i < candidates.len() && (#[trigger] candidates[i])@ == x;
                assert(candidates[i]@ == x);
            }
        }
        loop
            invariant
                board.values_spec()[cell@ as int] == 0,
                cell@ < 81,
                m == model_of(*board),
                forall|i: int| 0 <= i < candidates.len() ==> board.cands_spec()[cell@ as int].contains(
                    #[trigger] candidates[i]@,
                ),
                known_cells(board.values_spec(), 81) < 81,
                changer.options.stop_on_errors ==> consistent(model_of(*board)),
                forall|s: Seq<nat>| #[trigger] completes(m, s) ==> exists|i: int|
                    0 <= i < candidates.len() && candidates[i]@ == (s[cell@ as int] - 1) as nat,
            decreases candidates.len(),
        {
            if cancelable.is_canceled() {
                return (Some(board.copy()), true);
            }
            let ghost before = candidates@;
            let known = match candidates.pop() {
                Some(k) => k,
                None => {
                    proof {
                        assert forall|s: Seq<nat>| !#[trigger] completes(m, s) by {
                            if completes(m, s) {
                                let i = choose|i: int| 0 <= i < before.len() && before[i]@ == (s[cell@ as int] - 1) as nat;
                            }
                        }
                    }
                    return (None, false);
                },
            };
            proof {
                assert(board.cands_spec()[cell@ as int].contains(known@));
            }
            match changer.set_known(board, Strategy::BruteForce, cell, known) {
                ChangeResult::Nothing => {
                    proof {
                        assert forall|s: Seq<nat>| #[trigger] completes(m, s) implies s[cell@ as int] != known@ + 1 by {
                            assert(set_step(m, cell@, known@).0[cell@ as int] == known@ + 1);
                        }
                    }
                },
                ChangeResult::Invalid(..) => {
                    proof {
                        assert forall|s: Seq<nat>| #[trigger] completes(m, s) implies s[cell@ as int] != known@ + 1 by {
                            if s[cell@ as int] == known@ + 1 {
                                lemma_set_step_completes(m, cell@, known@, s);
                            }
                        }
                    }
                },
                ChangeResult::Valid(after, _) => {
                    proof {
                        lemma_known_cells_update(board.values_spec(), cell@, known@ + 1, 81);
                        assert(after.values_spec() == board.values_spec().update(cell@ as int, known@ + 1));
                        if changer.options.stop_on_errors {
                            lemma_set_keeps_consistent(model_of(*board), cell@, known@);
                        }
                        assert(model_of(after) == set_step(model_of(*board), cell@, known@));
                        assert forall|s: Seq<nat>| #[trigger] completes(m, s) && s[cell@ as int] == known@ + 1 implies completes(
                            model_of(after),
                            s,
                        ) by {
                            lemma_set_step_completes(m, cell@, known@, s);
                        }
                    }
                    if after.known_count() == 81 {
                        proof {
                            lemma_all_known(after.values_spec(), 81);
                        }
                        return (Some(after), false);
                    }
                    let next = self.pick_next_cell(&after);
                    if let Some(next_cell) = next {
                        let next_cands = after.candidates(next_cell);
                        if next_cands.len() != 0 {
                            let shuffled = self.shuffle_candidates(next_cands);
                            let (found, stopped) = self.fill(&after, next_cell, shuffled, changer, cancelable);
                            if let Some(b) = found {
                                return (Some(b), stopped);
                            }
                        }
                    } else {
                        proof {
                            assert forall|s: Seq<nat>| #[trigger] completes(model_of(after), s) implies false by {
                                if unknown_cells(after.values_spec()) == Set::<nat>::empty() {
                                    assert forall|i: int| 0 <= i < 81 implies #[trigger] after.values_spec()[i] != 0 by {
                                        if after.values_spec()[i] == 0 {
                                            assert(unknown_cells(after.values_spec()).contains(i as nat));
                                        }
                                    }
                                    lemma_known_cells_all(after.values_spec(), 81);
                                    assert(known_cells(after.values_spec(), 81) == 81);
                                } else {
                                    assert(dead_before_single(after.values_spec(), after.cands_spec()));
                                    let cands = after.cands_spec();
                                    let values = after.values_spec();
                                    let d = choose|d: nat|
                                        #![trigger cands[d as int]]
                                        d < 81 && values[d as int] == 0 && cands[d as int].len() == 0 && forall|e: nat|
                                            e < d && values[e as int] == 0 ==> cands[e as int].len() != 1;
                                    lemma_len0_empty(cands[d as int]);
                                    assert(s[d as int] == s[d as int]);
                                    assert(cands[d as int].contains((s[d as int] - 1) as nat));
                                }
                            }
                        }
                    }
                    proof {
                        assert forall|s: Seq<nat>| #[trigger] completes(m, s) implies s[cell@ as int] != known@ + 1 by {
                            if s[cell@ as int] == known@ + 1 {
                                assert(completes(model_of(after), s));
                            }
                        }
                    }
                },
            }
            proof {
                assert forall|s: Seq<nat>| #[trigger] completes(m, s) implies exists|i: int|
                    0 <= i < candidates.len() && candidates[i]@ == (s[cell@ as int] - 1) as nat by {
                    let i = choose|i: int| 0 <= i < before.len() && before[i]@ == (s[cell@ as int] - 1) as nat;
                    assert(s[cell@ as int] != known@ + 1);
                    assert(1 <= s[cell@ as int] <= 9);
                    assert(i != before.len() - 1);
                    assert(candidates[i] == before[i]);
                }
            }
        }
    }

    /// The unknown cell to fill next: the first with the fewest candidates,
    /// stopping at the first with one. `None` when no cell is unknown, or an
    /// unknown cell without candidates comes before one with a single one.
    pub fn pick_next_cell(&mut self, board: &Board) -> (r: Option<Cell>)
        ensures
            r is None <==> unknown_cells(board.values_spec()) == Set::<nat>::empty() || dead_before_single(
                board.values_spec(),
                board.cands_spec(),
            ),
            r matches Some(c) ==> {
                &&& c@ < 81
                &&& board.values_spec()[c@ as int] == 0
                &&& board.cands_spec()[c@ as int].len() >= 1
                &&& forall|d: nat|
                    d < c@ && board.values_spec()[d as int] == 0 ==> #[trigger] board.cands_spec()[d as int].len()
                        > board.cands_spec()[c@ as int].len()
                &&& (board.cands_spec()[c@ as int].len() == 1 || forall|d: nat|
                    d < 81 && board.values_spec()[d as int] == 0 ==> #[trigger] board.cands_spec()[d as int].len()
                        >= board.cands_spec()[c@ as int].len())
            },
    {
        let unknowns = board.unknowns().to_vec();
        let mut best: Option<(Cell, usize)> = None;
        let mut i: usize = 0;
        let mut single_found = false;
        while i < unknowns.len() && !single_found
            invariant
                single_found ==> (best matches Some((_, n)) && n == 1),
                i <= unknowns.len(),
                forall|a: int, b: int| 0 <= a < b < unknowns.len() ==> unknowns[a]@ < unknowns[b]@,
                forall|a: int| 0 <= a < unknowns.len() ==> unknown_cells(board.values_spec()).contains(
                    #[trigger] unknowns[a]@,
                ),
                forall|x: nat| unknown_cells(board.values_spec()).contains(x) ==> exists|a: int|
                    0 <= a < unknowns.len() && (#[trigger] unknowns[a])@ == x,
                forall|a: int| 0 <= a < i ==> #[trigger] board.cands_spec()[unknowns[a]@ as int].len() >= 1,
                !single_found ==> forall|a: int| 0 <= a < i ==> #[trigger] board.cands_spec()[unknowns[a]@ as int].len() != 1,
                i == 0 <==> best is None,
                best matches Some((c, n)) ==> {
                    &&& n == board.cands_spec()[c@ as int].len()
                    &&& exists|a: int| 0 <= a < i && (#[trigger] unknowns[a]) == c
                    &&& forall|a: int|
                        0 <= a < i && unknowns[a]@ < c@ ==> #[trigger] board.cands_spec()[unknowns[a]@ as int].len() > n
                    &&& forall|a: int| 0 <= a < i ==> #[trigger] board.cands_spec()[unknowns[a]@ as int].len() >= n
                },
            decreases unknowns.len() - i,
        {
            let cell = unknowns[i];
            let n: usize = board.candidates(cell).len();
            if n == 0 {
                proof {
                    assert(dead_before_single(board.values_spec(), board.cands_spec())) by {
                        let d = cell@;
                        assert(unknown_cells(board.values_spec()).contains(d));
                        assert forall|e: nat| e < d && board.values_spec()[e as int] == 0 implies board.cands_spec()[e as int].len() != 1 by {
                            assert(unknown_cells(board.values_spec()).contains(e));
                            let a = choose|a: int| 0 <= a < unknowns.len() && (#[trigger] unknowns[a])@ == e;
                            if a >= i {
                                assert(unknowns[i as int]@ <= unknowns[a]@);
                            }
                        }
                    }
                }
                return None;
            }
            let ghost old_best = best;
            best = match best {
                None => Some((cell, n)),
                Some((c, best_n)) => if n < best_n {
                    Some((cell, n))
                } else {
                    Some((c, best_n))
                },
            };
            if n == 1 {
                single_found = true;
            }
            i = i + 1;
        }
        proof {
            let values = board.values_spec();
            let cands = board.cands_spec();
            if best is None {
                assert(unknown_cells(values) =~= Set::<nat>::empty()) by {
                    assert forall|x: nat| !unknown_cells(values).contains(x) by {
                        if unknown_cells(values).contains(x) {
                            let a = choose|a: int| 0 <= a < unknowns.len() && (#[trigger] unknowns[a])@ == x;
                        }
                    }
                }
            } else {
                let (c, n) = best->0;
                let ac = choose|a: int| 0 <= a < i && (#[trigger] unknowns[a]) == c;
                assert(unknown_cells(values).contains(c@));
                assert(!dead_before_single(values, cands)) by {
                    if dead_before_single(values, cands) {
                        let d = choose|d: nat|
                            #![trigger cands[d as int]]
                            d < 81 && values[d as int] == 0 && cands[d as int].len() == 0 && forall|e: nat|
                                e < d && values[e as int] == 0 ==> cands[e as int].len() != 1;
                        assert(unknown_cells(values).contains(d));
                        let ad = choose|a: int| 0 <= a < unknowns.len() && (#[trigger] unknowns[a])@ == d;
                        if ad < i {
                            assert(cands[unknowns[ad]@ as int].len() >= 1);
                        } else {
                            assert(single_found);
                            let s1 = unknowns[i - 1];
                            assert(cands[s1@ as int].len() == 1) by {
                                assert(cands[unknowns[i - 1]@ as int].len() >= n);
                            }
                            assert(s1@ < d);
                            assert(unknown_cells(values).contains(s1@));
                        }
                    }
                }
                assert forall|d: nat| d < c@ && values[d as int] == 0 implies #[trigger] cands[d as int].len() > n by {
                    assert(unknown_cells(values).contains(d));
                    let ad = choose|a: int| 0 <= a < unknowns.len() && (#[trigger] unknowns[a])@ == d;
                    if ad >= i {
                        assert(unknowns[ac]@ < unknowns[ad]@);
                    }
                }
                if !single_found {
                    assert forall|d: nat| d < 81 && values[d as int] == 0 implies #[trigger] cands[d as int].len() >= n by {
                        assert(unknown_cells(values).contains(d));
                        let ad = choose|a: int| 0 <= a < unknowns.len() && (#[trigger] unknowns[a])@ == d;
                    }
                }
            }
        }
        match best {
            Some((c, _)) => Some(c),
            None => None,
        }
    }

    /// The digits of the set in a random order.
    pub fn shuffle_candidates(&mut self, candidates: KnownSet) -> (r: Vec<Known>)
        ensures
            forall|i: int| 0 <= i < r.len() ==> candidates@.contains(#[trigger] r[i]@),
            forall|x: nat| #[trigger] candidates@.contains(x) ==> exists|i: int| 0 <= i < r.len() && r[i]@ == x,
            r.len() == candidates@.len(),
    {
        let mut shuffled = candidates.to_vec();
        let ghost before = shuffled@;
        shuffle_knowns(&mut shuffled, &mut self.rng);
        proof {
            shuffled@.to_multiset_ensures();
            before.to_multiset_ensures();
            assert forall|i: int| 0 <= i < shuffled.len() implies candidates@.contains(#[trigger] shuffled[i]@) by {
                assert(shuffled@.contains(shuffled@[i]));
                assert(shuffled@.to_multiset().count(shuffled@[i]) > 0);
                assert(before.to_multiset().count(shuffled@[i]) > 0);
                before.to_multiset_ensures();
                assert(before.contains(shuffled@[i]));
            }
            assert forall|x: nat| #[trigger] candidates@.contains(x) implies exists|i: int|
                0 <= i < shuffled.len() && shuffled[i]@ == x by {
                let i0 = choose|i: int| 0 <= i < before.len() && before[i]@ == x;
                assert(before.contains(before[i0]));
                assert(before.to_multiset().count(before[i0]) > 0);
                assert(shuffled@.to_multiset().count(before[i0]) > 0);
                assert(shuffled@.contains(before[i0]));
                let j = choose|j: int| 0 <= j < shuffled@.len() && shuffled@[j] == before[i0];
                assert(shuffled[j]@ == x);
            }
        }
        shuffled
    }
}

/// The number of known values grows by one when an unknown cell gets one.
proof fn lemma_known_cells_update(values: Seq<nat>, c: nat, v: nat, n: nat)
    requires
        c < 81,
        n <= 81,
        values.len() == 81,
        values[c as int] == 0,
        v != 0,
    ensures
        known_cells(values.update(c as int, v), n) == known_cells(values, n) + if c < n {
            1nat
        } else {
            0nat
        },
    decreases n,
{
    if n > 0 {
        lemma_known_cells_update(values, c, v, (n - 1) as nat);
    }
}

/// An empty board has no known cells.
/// When the first `n` values are all known, `n` of them are.
proof fn lemma_known_cells_all(values: Seq<nat>, n: nat)
    requires
        n <= values.len(),
        forall|i: int| 0 <= i < n ==> #[trigger] values[i] != 0,
    ensures
        known_cells(values, n) == n,
    decreases n,
{
    if n > 0 {
        lemma_known_cells_all(values, (n - 1) as nat);
    }
}

proof fn lemma_known_cells_zero(values: Seq<nat>, n: nat)
    requires
        n <= values.len(),
        forall|i: int| 0 <= i < n ==> #[trigger] values[i] == 0,
    ensures
        known_cells(values, n) == 0,
    decreases n,
{
    if n > 0 {
        lemma_known_cells_zero(values, (n - 1) as nat);
    }
}

} // verus!
