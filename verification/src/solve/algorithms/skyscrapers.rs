use vstd::prelude::*;

use crate::layout::cell::{lemma_cell_at, peers_of, Cell};
use crate::layout::cell_set::{lemma_cell_set_bounded, CellSet};
use crate::layout::house::{lemma_house_view_injective, House};
use crate::layout::house_set::{all_coords, HouseSet};
use crate::layout::known::Known;
use crate::layout::known_set::lemma_known_set_bounded;
use crate::layout::set_lemmas::lemma_nonempty_choose;
use crate::layout::shape::{house_cells, house_of, Shape};
use crate::solve::action::Action;
use crate::solve::algorithms::combinations::{combinations, is_combination};
use crate::solve::algorithms::{
    erases_candidates, found_by, lemma_erase_cells_keeps, sets_candidates, valid_action,
    valid_effects, Solver,
};
use crate::solve::board::{candidate_cells_of, lemma_board_cands_shape, lemma_board_values_shape, Board};
use crate::solve::effects::Effects;
use crate::solve::strategy::{Strategy, Verdict};

verus! {

broadcast use {
    lemma_cell_at,
    lemma_cell_set_bounded,
    lemma_known_set_bounded,
    lemma_board_values_shape,
    lemma_board_cands_shape,
    lemma_house_view_injective,
};

/// The shape that crosses rows and columns: columns for rows, rows for
/// columns.
pub open spec fn cross_of(s: Shape) -> Shape {
    if s == Shape::Row {
        Shape::Column
    } else {
        Shape::Row
    }
}

/// The candidate cells of digit `k` in house `h` of shape `s`.
pub open spec fn cands_in(board: Board, s: Shape, h: nat, k: nat) -> Set<nat> {
    candidate_cells_of(board.cands_spec(), k).intersect(house_cells(s, h))
}

/// Whether the skyscraper on digit `k` with bases `f1`, `f2` and tops
/// `c1`, `c2` erases something: the tops lie in different crossing houses,
/// the crossing house of the bases does not hold `k` in exactly two cells,
/// and some cell that sees both tops has `k`.
pub open spec fn sky_fires(board: Board, cross: Shape, k: nat, f1: nat, c1: nat, f2: nat, c2: nat) -> bool {
    &&& house_of(cross, c1) != house_of(cross, c2)
    &&& cands_in(board, cross, house_of(cross, f1), k).len() != 2
    &&& exists|e: nat|
        #[trigger] candidate_cells_of(board.cands_spec(), k).contains(e) && peers_of(c1).contains(e)
            && peers_of(c2).contains(e)
}

/// A skyscraper on digit `k` that erases something: two houses of shape
/// `s` hold `k` only in `f1`, `c1` and only in `f2`, `c2`, and the bases
/// `f1`, `f2` share a crossing house.
pub open spec fn skyscraper(board: Board, s: Shape, k: nat, f1: nat, c1: nat, f2: nat, c2: nat) -> bool {
    &&& k < 9
    &&& f1 != c1
    &&& f2 != c2
    &&& house_of(s, f1) != house_of(s, f2)
    &&& cands_in(board, s, house_of(s, f1), k) == set![f1, c1]
    &&& cands_in(board, s, house_of(s, f2), k) == set![f2, c2]
    &&& house_of(cross_of(s), f1) == house_of(cross_of(s), f2)
    &&& sky_fires(board, cross_of(s), k, f1, c1, f2, c2)
}

/// The action of a skyscraper on `k` with top cells `c1` and `c2`: it
/// erases `k` from every cell that holds it and sees both tops, and nothing
/// else.
pub open spec fn sky_erasure(board: Board, k: nat, c1: nat, c2: nat, a: Action) -> bool {
    forall|i: int|
        0 <= i < 81 ==> #[trigger] a.erases_spec()[i] == if candidate_cells_of(board.cands_spec(), k).contains(i as nat)
            && peers_of(c1).contains(i as nat) && peers_of(c2).contains(i as nat) {
            set![k]
        } else {
            Set::<nat>::empty()
        }
}

/// An action of a skyscraper on the board whose bases share a house of
/// shape `cross`.
pub open spec fn sky_action(board: Board, cross: Shape, a: Action) -> bool {
    exists|k: nat, f1: nat, c1: nat, f2: nat, c2: nat|
        #[trigger] sky_fires(board, cross, k, f1, c1, f2, c2) && sky_erasure(board, k, c1, c2, a)
}

/// The actions after the first `n` are skyscraper actions.
pub open spec fn sky_actions_from(board: Board, cross: Shape, actions: Seq<Action>, n: int) -> bool {
    forall|x: int| n <= x < actions.len() ==> sky_action(board, cross, #[trigger] actions[x])
}

/// Whether some skyscraper on digit `k` has its first house `h1` and its
/// second `h2`, both of shape `s`.
pub open spec fn sky_between(board: Board, s: Shape, k: nat, h1: nat, h2: nat) -> bool {
    exists|f1: nat, c1: nat, f2: nat, c2: nat|
        #[trigger] skyscraper(board, s, k, f1, c1, f2, c2) && house_of(s, f1) == h1 && house_of(s, f2) == h2
}

/// Whether the board has a skyscraper whose houses have shape `s`.
pub open spec fn has_skyscraper_in(board: Board, s: Shape) -> bool {
    exists|k: nat, f1: nat, c1: nat, f2: nat, c2: nat| #[trigger] skyscraper(board, s, k, f1, c1, f2, c2)
}

/// Whether the board has a skyscraper, on rows or on columns.
pub open spec fn has_skyscraper(board: Board) -> bool {
    has_skyscraper_in(board, Shape::Row) || has_skyscraper_in(board, Shape::Column)
}

/// What the four alignments tried in turn on the pairs `c11`, `c12` and
/// `c21`, `c22` find: the first alignment of two cells in one crossing
/// house decides.
pub open spec fn chain_fires(board: Board, cross: Shape, k: nat, c11: nat, c12: nat, c21: nat, c22: nat) -> bool {
    if house_of(cross, c11) == house_of(cross, c21) {
        sky_fires(board, cross, k, c11, c12, c21, c22)
    } else if house_of(cross, c11) == house_of(cross, c22) {
        sky_fires(board, cross, k, c11, c12, c22, c21)
    } else if house_of(cross, c12) == house_of(cross, c21) {
        sky_fires(board, cross, k, c12, c11, c21, c22)
    } else if house_of(cross, c12) == house_of(cross, c22) {
        sky_fires(board, cross, k, c12, c11, c22, c21)
    } else {
        false
    }
}

/// Two cells of one row (column) lie in different columns (rows).
proof fn lemma_line_cells_cross(s: Shape, a: nat, b: nat)
    requires
        s == Shape::Row || s == Shape::Column,
        a < 81,
        b < 81,
        a != b,
        house_of(s, a) == house_of(s, b),
    ensures
        house_of(cross_of(s), a) != house_of(cross_of(s), b),
{
}

/// A skyscraper read from its second house is one too.
proof fn lemma_skyscraper_swap(board: Board, s: Shape, k: nat, f1: nat, c1: nat, f2: nat, c2: nat)
    requires
        skyscraper(board, s, k, f1, c1, f2, c2),
    ensures
        skyscraper(board, s, k, f2, c2, f1, c1),
{
    let e = choose|e: nat|
        #[trigger] candidate_cells_of(board.cands_spec(), k).contains(e) && peers_of(c1).contains(e)
            && peers_of(c2).contains(e);
    assert(candidate_cells_of(board.cands_spec(), k).contains(e));
}

/// On two houses of shape `s` that each hold `k` in two cells, the
/// alignments tried in turn find something exactly when the houses hold a
/// skyscraper.
proof fn lemma_chain(board: Board, s: Shape, k: nat, h1: nat, h2: nat, c11: nat, c12: nat, c21: nat, c22: nat)
    requires
        s == Shape::Row || s == Shape::Column,
        k < 9,
        h1 != h2,
        c11 != c12,
        c21 != c22,
        cands_in(board, s, h1, k) == set![c11, c12],
        cands_in(board, s, h2, k) == set![c21, c22],
    ensures
        sky_between(board, s, k, h1, h2) <==> chain_fires(board, cross_of(s), k, c11, c12, c21, c22),
{
    let cross = cross_of(s);
    assert(set![c11, c12].contains(c11) && set![c11, c12].contains(c12));
    assert(set![c21, c22].contains(c21) && set![c21, c22].contains(c22));
    assert(c11 < 81 && c12 < 81 && c21 < 81 && c22 < 81);
    assert(house_of(s, c11) == h1 && house_of(s, c12) == h1);
    assert(house_of(s, c21) == h2 && house_of(s, c22) == h2);
    lemma_line_cells_cross(s, c11, c12);
    lemma_line_cells_cross(s, c21, c22);
    assert(set![c12, c11] =~= set![c11, c12]);
    assert(set![c22, c21] =~= set![c21, c22]);
    if sky_between(board, s, k, h1, h2) {
        let (f1, c1, f2, c2) = choose|f1: nat, c1: nat, f2: nat, c2: nat|
            #[trigger] skyscraper(board, s, k, f1, c1, f2, c2) && house_of(s, f1) == h1 && house_of(s, f2) == h2;
        assert(set![f1, c1].contains(f1) && set![f1, c1].contains(c1));
        assert(set![f2, c2].contains(f2) && set![f2, c2].contains(c2));
    }
    if chain_fires(board, cross, k, c11, c12, c21, c22) {
        if house_of(cross, c11) == house_of(cross, c21) {
            assert(skyscraper(board, s, k, c11, c12, c21, c22));
        } else if house_of(cross, c11) == house_of(cross, c22) {
            assert(skyscraper(board, s, k, c11, c12, c22, c21));
        } else if house_of(cross, c12) == house_of(cross, c21) {
            assert(skyscraper(board, s, k, c12, c11, c21, c22));
        } else {
            assert(skyscraper(board, s, k, c12, c11, c22, c21));
        }
    }
}

/// The technique of two houses that each hold a digit in two cells, one
/// pair of them aligned: the other two ends see the cells that lose the
/// digit.
pub struct SkyscraperSolver;

impl Solver for SkyscraperSolver {
    fn strategy(&self) -> (r: Strategy)
        ensures
            r == Strategy::Skyscraper,
    {
        Strategy::Skyscraper
    }

    fn apply(&self, board: &Board, single: bool) -> (r: Option<Effects>)
        ensures
            found_by(*board, r, single, Strategy::Skyscraper),
            r is Some <==> has_skyscraper(*board),
            r matches Some(e) ==> forall|x: int|
                0 <= x < e.actions_spec().len() ==> sky_action(*board, Shape::Column, #[trigger] e.actions_spec()[x])
                    || sky_action(*board, Shape::Row, e.actions_spec()[x]),
    {
        self.find_skyscrapers(board, single)
    }
}

impl SkyscraperSolver {
    fn find_skyscrapers(&self, board: &Board, single: bool) -> (r: Option<Effects>)
        ensures
            found_by(*board, r, single, Strategy::Skyscraper),
            r is Some <==> has_skyscraper(*board),
            r matches Some(e) ==> forall|x: int|
                0 <= x < e.actions_spec().len() ==> sky_action(*board, Shape::Column, #[trigger] e.actions_spec()[x])
                    || sky_action(*board, Shape::Row, e.actions_spec()[x]),
    {
        let mut effects = Effects::new();
        if !self.check_houses(board, single, House::all_rows(), Shape::Column, &mut effects) {
            let ghost mid = effects.actions_spec();
            self.check_houses(board, single, House::all_columns(), Shape::Row, &mut effects);
            proof {
                assert forall|x: int| 0 <= x < effects.actions_spec().len() implies sky_action(
                    *board,
                    Shape::Column,
                    #[trigger] effects.actions_spec()[x],
                ) || sky_action(*board, Shape::Row, effects.actions_spec()[x]) by {
                    if x < mid.len() {
                        assert(effects.actions_spec().subrange(0, mid.len() as int)[x] == mid[x]);
                    }
                }
            }
        }
        if effects.has_actions() {
            Some(effects)
        } else {
            None
        }
    }

    /// Tries the skyscraper whose bases are `f1`, `f2` and whose tops are
    /// `c1`, `c2`; adds its action and tells whether to stop.
    fn check_candidate(
        &self,
        board: &Board,
        single: bool,
        known: Known,
        candidate_cells: CellSet,
        cross: Shape,
        f1: Cell,
        c1: Cell,
        f2: Cell,
        c2: Cell,
        effects: &mut Effects,
    ) -> (stop: bool)
        requires
            candidate_cells@ == candidate_cells_of(board.cands_spec(), known@),
        ensures
            valid_effects(*board, *old(effects), Strategy::Skyscraper) ==> valid_effects(
                *board,
                *final(effects),
                Strategy::Skyscraper,
            ),
            final(effects).errors_spec() == old(effects).errors_spec(),
            final(effects).actions_spec().len() == old(effects).actions_spec().len() + if sky_fires(
                *board,
                cross,
                known@,
                f1@,
                c1@,
                f2@,
                c2@,
            ) {
                1int
            } else {
                0int
            },
            single && !stop ==> final(effects).actions_spec().len() == old(effects).actions_spec().len(),
            stop ==> single && final(effects).actions_spec().len() == old(effects).actions_spec().len() + 1,
            final(effects).actions_spec().subrange(0, old(effects).actions_spec().len() as int) == old(
                effects,
            ).actions_spec(),
            sky_actions_from(*board, cross, final(effects).actions_spec(), old(effects).actions_spec().len() as int),
    {
        if c1.house(cross) == c2.house(cross) {
            return false;
        }
        if candidate_cells.intersect(f1.house(cross).cells()).len() == 2 {
            return false;
        }
        let candidates = c1.peers().intersect(c2.peers()).intersect(candidate_cells);
        if candidates.is_empty() {
            proof {
                assert forall|e: nat|
                    #[trigger] candidate_cells_of(board.cands_spec(), known@).contains(e) && peers_of(c1@).contains(e)
                        implies !peers_of(c2@).contains(e) by {
                    if peers_of(c2@).contains(e) {
                        assert(candidates@.contains(e));
                    }
                }
            }
            return false;
        }
        let mut action = Action::new(Strategy::Skyscraper);
        let ghost before = action;
        action.erase_cells(candidates, known);
        proof {
            lemma_erase_cells_keeps(*board, before, action, candidates@, known@);
            lemma_nonempty_choose(candidates@);
            let e = candidates@.choose();
            assert(action.erases_spec()[e as int].contains(known@));
            assert(candidate_cells_of(board.cands_spec(), known@).contains(e));
        }
        action.clue_cell_for_known(Verdict::Secondary, f1, known);
        action.clue_cell_for_known(Verdict::Secondary, c2, known);
        action.clue_cell_for_known(Verdict::Tertiary, f2, known);
        action.clue_cell_for_known(Verdict::Tertiary, c1, known);
        proof {
            assert(sets_candidates(*board, action));
            let e = candidates@.choose();
            assert(action.erases_spec()[e as int].contains(known@));
            assert(!action.is_empty_spec());
        }
        let ghost act = action;
        let ghost old_actions = effects.actions_spec();
        let added = effects.add_action(action);
        proof {
            if valid_effects(*board, *old(effects), Strategy::Skyscraper) {
                assert forall|x: int| 0 <= x < effects.actions_spec().len() implies valid_action(
                    *board,
                    #[trigger] effects.actions_spec()[x],
                    Strategy::Skyscraper,
                ) by {
                    if added && x == effects.actions_spec().len() - 1 {
                        assert(effects.actions_spec()[x] == act);
                    } else {
                        assert(effects.actions_spec()[x] == old_actions[x]);
                    }
                }
            }
            assert(effects.actions_spec().subrange(0, old_actions.len() as int) =~= old_actions);
            assert forall|i: int| 0 <= i < 81 implies #[trigger] act.erases_spec()[i] == if candidate_cells_of(
                board.cands_spec(),
                known@,
            ).contains(i as nat) && peers_of(c1@).contains(i as nat) && peers_of(c2@).contains(i as nat) {
                set![known@]
            } else {
                Set::<nat>::empty()
            } by {
                if candidates@.contains(i as nat) {
                    assert(act.erases_spec()[i] =~= set![known@]);
                }
            }
            assert(sky_erasure(*board, known@, c1@, c2@, act));
            assert(sky_fires(*board, cross, known@, f1@, c1@, f2@, c2@));
            assert forall|x: int| old_actions.len() <= x < effects.actions_spec().len() implies sky_action(
                *board,
                cross,
                #[trigger] effects.actions_spec()[x],
            ) by {
                assert(effects.actions_spec()[x] == act);
            }
        }
        added && single
    }

    /// Looks for skyscrapers whose bases lie in `houses`, aligned along
    /// `cross`; tells whether it stopped at the first one found.
    fn check_houses(&self, board: &Board, single: bool, houses: HouseSet, cross: Shape, effects: &mut Effects) -> (stop:
        bool)
        requires
            houses@.0 == Shape::Row || houses@.0 == Shape::Column,
            houses@.1 == all_coords(),
            cross == cross_of(houses@.0),
        ensures
            valid_effects(*board, *old(effects), Strategy::Skyscraper) ==> valid_effects(
                *board,
                *final(effects),
                Strategy::Skyscraper,
            ),
            final(effects).errors_spec() == old(effects).errors_spec(),
            single && !stop ==> final(effects).actions_spec().len() == old(effects).actions_spec().len(),
            stop ==> single && final(effects).actions_spec().len() == old(effects).actions_spec().len() + 1,
            final(effects).actions_spec().len() >= old(effects).actions_spec().len(),
            final(effects).actions_spec().len() > 0 && old(effects).actions_spec().len() == 0 ==> has_skyscraper_in(
                *board,
                houses@.0,
            ),
            has_skyscraper_in(*board, houses@.0) ==> final(effects).actions_spec().len() > 0,
            final(effects).actions_spec().subrange(0, old(effects).actions_spec().len() as int) == old(
                effects,
            ).actions_spec(),
            sky_actions_from(*board, cross, final(effects).actions_spec(), old(effects).actions_spec().len() as int),
    {
        let ghost s = houses@.0;
        let ghost n0 = effects.actions_spec().len();
        let list = houses.to_vec();
        let mut kn: u8 = 0;
        while kn < 9
            invariant
                kn <= 9,
                s == Shape::Row || s == Shape::Column,
                s == houses@.0,
                cross == cross_of(s),
                valid_effects(*board, *old(effects), Strategy::Skyscraper) ==> valid_effects(
                    *board,
                    *effects,
                    Strategy::Skyscraper,
                ),
                effects.errors_spec() == old(effects).errors_spec(),
                single ==> effects.actions_spec().len() == n0,
                n0 == old(effects).actions_spec().len(),
                effects.actions_spec().len() >= n0,
                effects.actions_spec().subrange(0, n0 as int) == old(effects).actions_spec(),
                sky_actions_from(*board, cross, effects.actions_spec(), n0 as int),
                effects.actions_spec().len() > 0 && n0 == 0 ==> has_skyscraper_in(*board, s),
                effects.actions_spec().len() == 0 ==> forall|k: nat, f1: nat, c1: nat, f2: nat, c2: nat|
                    k < kn ==> !#[trigger] skyscraper(*board, s, k, f1, c1, f2, c2),
                forall|i: int| 0 <= i < list.len() ==> (#[trigger] list[i])@.0 == s,
                forall|x: nat| all_coords().contains(x) ==> exists|i: int| 0 <= i < list.len() && (#[trigger] list[i])@.1 == x,
            decreases 9 - kn,
        {
            let known = Known::from_index(kn);
            let candidate_cells = board.candidate_cells(known);
            let mut pairs: Vec<CellSet> = Vec::new();
            let ghost mut hs: Seq<nat> = Seq::empty();
            let mut h: usize = 0;
            while h < list.len()
                invariant
                    h <= list.len(),
                    pairs.len() == hs.len(),
                    forall|i: int| 0 <= i < list.len() ==> (#[trigger] list[i])@.0 == s,
                    forall|x: int|
                        0 <= x < pairs.len() ==> (#[trigger] pairs[x])@.len() == 2 && pairs[x]@ == cands_in(
                            *board,
                            s,
                            hs[x],
                            known@,
                        ),
                    forall|i: int|
                        0 <= i < h && #[trigger] cands_in(*board, s, list[i]@.1, known@).len() == 2 ==> exists|x: int|
                            0 <= x < hs.len() && hs[x] == list[i]@.1,
                decreases list.len() - h,
            {
                let cells = board.house_candidate_cells(list[h], known);
                let ghost hs_old = hs;
                if cells.len() == 2 {
                    pairs.push(cells);
                    proof {
                        hs = hs.push(list[h as int]@.1);
                        assert(hs[hs.len() - 1] == list[h as int]@.1);
                    }
                }
                proof {
                    assert forall|i: int|
                        0 <= i < h + 1 && #[trigger] cands_in(*board, s, list[i]@.1, known@).len() == 2 implies exists|x: int|
                            0 <= x < hs.len() && hs[x] == list[i]@.1 by {
                        if i == h {
                            assert(hs[hs.len() - 1] == list[i]@.1);
                        } else {
                            let x = choose|x: int| 0 <= x < hs_old.len() && hs_old[x] == list[i]@.1;
                            assert(hs[x] == hs_old[x]);
                        }
                    }
                }
                h = h + 1;
            }
            let combos = combinations(pairs.len(), 2);
            let mut j: usize = 0;
            while j < combos.len()
                invariant
                    j <= combos.len(),
                    s == Shape::Row || s == Shape::Column,
                    s == houses@.0,
                    cross == cross_of(s),
                    known@ == kn,
                    kn < 9,
                    valid_effects(*board, *old(effects), Strategy::Skyscraper) ==> valid_effects(
                        *board,
                        *effects,
                        Strategy::Skyscraper,
                    ),
                    effects.errors_spec() == old(effects).errors_spec(),
                    single ==> effects.actions_spec().len() == n0,
                    n0 == old(effects).actions_spec().len(),
                    effects.actions_spec().len() >= n0,
                    effects.actions_spec().subrange(0, n0 as int) == old(effects).actions_spec(),
                    sky_actions_from(*board, cross, effects.actions_spec(), n0 as int),
                    effects.actions_spec().len() > 0 && n0 == 0 ==> has_skyscraper_in(*board, s),
                    effects.actions_spec().len() == 0 ==> forall|k: nat, f1: nat, c1: nat, f2: nat, c2: nat|
                        k < kn ==> !#[trigger] skyscraper(*board, s, k, f1, c1, f2, c2),
                    effects.actions_spec().len() == 0 ==> forall|x: int|
                        0 <= x < j ==> !sky_between(
                            *board,
                            s,
                            known@,
                            hs[(#[trigger] combos[x])[0] as int],
                            hs[combos[x][1] as int],
                        ),
                    candidate_cells@ == candidate_cells_of(board.cands_spec(), known@),
                    pairs.len() == hs.len(),
                    forall|x: int|
                        0 <= x < pairs.len() ==> (#[trigger] pairs[x])@.len() == 2 && pairs[x]@ == cands_in(
                            *board,
                            s,
                            hs[x],
                            known@,
                        ),
                    forall|x: int| 0 <= x < combos.len() ==> (#[trigger] combos[x]).len() == 2,
                    forall|x: int, a: int|
                        0 <= x < combos.len() && 0 <= a < 2 ==> #[trigger] combos[x][a] < pairs.len(),
                    forall|x: int| 0 <= x < combos.len() ==> (#[trigger] combos[x])[0] < combos[x][1],
                decreases combos.len() - j,
            {
                let a = combos[j][0];
                let b = combos[j][1];
                let first = pairs[a].as_pair();
                let second = pairs[b].as_pair();
                if let (Some((c11, c12)), Some((c21, c22))) = (first, second) {
                    let ghost before = effects.actions_spec().len();
                    let ghost before_actions = effects.actions_spec();
                    let stop = if c11.house(cross) == c21.house(cross) {
                        self.check_candidate(board, single, known, candidate_cells, cross, c11, c12, c21, c22, effects)
                    } else if c11.house(cross) == c22.house(cross) {
                        self.check_candidate(board, single, known, candidate_cells, cross, c11, c12, c22, c21, effects)
                    } else if c12.house(cross) == c21.house(cross) {
                        self.check_candidate(board, single, known, candidate_cells, cross, c12, c11, c21, c22, effects)
                    } else if c12.house(cross) == c22.house(cross) {
                        self.check_candidate(board, single, known, candidate_cells, cross, c12, c11, c22, c21, effects)
                    } else {
                        false
                    };
                    proof {
                        assert(before_actions.len() == before);
                        assert(effects.actions_spec().subrange(0, n0 as int) =~= before_actions.subrange(0, n0 as int));
                        assert forall|x: int| n0 <= x < effects.actions_spec().len() implies sky_action(
                            *board,
                            cross,
                            #[trigger] effects.actions_spec()[x],
                        ) by {
                            if x < before {
                                assert(effects.actions_spec().subrange(0, before as int)[x] == before_actions[x]);
                            }
                        }
                        assert(effects.actions_spec().len() == before + if chain_fires(
                            *board,
                            cross,
                            known@,
                            c11@,
                            c12@,
                            c21@,
                            c22@,
                        ) {
                            1int
                        } else {
                            0int
                        });
                        if hs[a as int] == hs[b as int] {
                            assert(set![c11@, c12@].contains(c21@) && set![c11@, c12@].contains(c22@));
                            assert(c11@ == c21@ && c12@ == c22@);
                            lemma_line_cells_cross(s, c11@, c12@);
                            assert(!chain_fires(*board, cross, known@, c11@, c12@, c21@, c22@));
                        } else {
                            lemma_chain(*board, s, known@, hs[a as int], hs[b as int], c11@, c12@, c21@, c22@);
                        }
                        if before == 0 && effects.actions_spec().len() > 0 {
                            let (f1, c1, f2, c2) = choose|f1: nat, c1: nat, f2: nat, c2: nat|
                                #[trigger] skyscraper(*board, s, known@, f1, c1, f2, c2) && house_of(s, f1) == hs[a as int]
                                    && house_of(s, f2) == hs[b as int];
                            assert(skyscraper(*board, s, known@, f1, c1, f2, c2));
                        }
                    }
                    if stop {
                        return true;
                    }
                }
                j = j + 1;
            }
            proof {
                if effects.actions_spec().len() == 0 {
                    assert forall|k: nat, f1: nat, c1: nat, f2: nat, c2: nat|
                        k < kn + 1 implies !#[trigger] skyscraper(*board, s, k, f1, c1, f2, c2) by {
                        if k == kn && skyscraper(*board, s, k, f1, c1, f2, c2) {
                            let h1 = house_of(s, f1);
                            let h2 = house_of(s, f2);
                            assert(set![f1, c1].contains(f1) && set![f2, c2].contains(f2));
                            assert(set![f1, c1].len() == 2);
                            assert(set![f2, c2].len() == 2);
                            assert(all_coords().contains(h1));
                            assert(all_coords().contains(h2));
                            let i1 = choose|i: int| 0 <= i < list.len() && (#[trigger] list[i])@.1 == h1;
                            let i2 = choose|i: int| 0 <= i < list.len() && (#[trigger] list[i])@.1 == h2;
                            assert(cands_in(*board, s, list[i1]@.1, known@).len() == 2);
                            assert(cands_in(*board, s, list[i2]@.1, known@).len() == 2);
                            let x1 = choose|x: int| 0 <= x < hs.len() && hs[x] == h1;
                            let x2 = choose|x: int| 0 <= x < hs.len() && hs[x] == h2;
                            let (lo, hi) = if x1 < x2 {
                                (x1, x2)
                            } else {
                                (x2, x1)
                            };
                            let sq = seq![lo as usize, hi as usize];
                            assert(is_combination(sq, pairs.len() as nat, 2));
                            let i = choose|i: int| 0 <= i < combos.len() && combos[i]@ == sq;
                            assert(combos[i][0] == lo as usize && combos[i][1] == hi as usize);
                            assert(!sky_between(*board, s, known@, hs[lo], hs[hi]));
                            lemma_skyscraper_swap(*board, s, k, f1, c1, f2, c2);
                            if x1 < x2 {
                                assert(sky_between(*board, s, known@, h1, h2));
                            } else {
                                assert(sky_between(*board, s, known@, h2, h1));
                            }
                        }
                    }
                }
            }
            kn = kn + 1;
        }
        proof {
            if has_skyscraper_in(*board, s) && effects.actions_spec().len() == 0 {
                let (k, f1, c1, f2, c2) = choose|k: nat, f1: nat, c1: nat, f2: nat, c2: nat|
                    #[trigger] skyscraper(*board, s, k, f1, c1, f2, c2);
                assert(!skyscraper(*board, s, k, f1, c1, f2, c2));
            }
        }
        false
    }
}

/// The skyscrapers of the board, only the first when `single`; there are
/// some exactly when the board has a skyscraper.
pub fn find_skyscrapers(board: &Board, single: bool) -> (r: Option<Effects>)
    ensures
        found_by(*board, r, single, Strategy::Skyscraper),
        r is Some <==> has_skyscraper(*board),
        r matches Some(e) ==> forall|x: int|
            0 <= x < e.actions_spec().len() ==> sky_action(*board, Shape::Column, #[trigger] e.actions_spec()[x])
                || sky_action(*board, Shape::Row, e.actions_spec()[x]),
{
    SkyscraperSolver.apply(board, single)
}

} // verus!
