use vstd::prelude::*;

use crate::layout::cell::{lemma_cell_at, peers_of, Cell};
use crate::layout::cell_set::{lemma_cell_set_bounded, CellSet};
use crate::layout::known::Known;
use crate::layout::set_lemmas::lemma_nonempty_choose;
use crate::layout::known_set::lemma_known_set_bounded;
use crate::solve::action::Action;
use crate::solve::algorithms::{found_by, valid_action, valid_effects, Solver};
use crate::solve::board::{
    candidate_cells_of, lemma_board_cands_shape, lemma_board_values_shape, Board,
};
use crate::solve::effects::Effects;
use crate::solve::strategy::{Strategy, Verdict};

verus! {

broadcast use {
    lemma_cell_at,
    lemma_cell_set_bounded,
    lemma_known_set_bounded,
    lemma_board_values_shape,
    lemma_board_cands_shape,
};

/// The peers of known cell `c` that still have its digit as a candidate.
pub open spec fn stale_peers(board: Board, c: nat) -> Set<nat> {
    peers_of(c).intersect(candidate_cells_of(board.cands_spec(), (board.values_spec()[c as int] - 1) as nat))
}

/// Whether some known cell has a peer that still has its digit as a
/// candidate.
pub open spec fn has_stale_peer(board: Board) -> bool {
    exists|c: nat| c < 81 && board.values_spec()[c as int] != 0 && #[trigger] stale_peers(board, c) != Set::<nat>::empty()
}

/// The technique that erases a known cell's digit from its peers.
pub struct PeerSolver;

impl Solver for PeerSolver {
    fn strategy(&self) -> (r: Strategy)
        ensures
            r == Strategy::Peer,
    {
        Strategy::Peer
    }

    fn apply(&self, board: &Board, single: bool) -> (r: Option<Effects>)
        ensures
            found_by(*board, r, single, Strategy::Peer),
            r is None <==> !has_stale_peer(*board),
    {
        find_peers(board, single)
    }
}

/// For each known cell in cell order whose peers still have its digit as a
/// candidate, an action that erases the digit from those peers.
pub fn find_peers(board: &Board, single: bool) -> (r: Option<Effects>)
    ensures
        found_by(*board, r, single, Strategy::Peer),
        r is None <==> !has_stale_peer(*board),
        r matches Some(e) ==> forall|i: int|
            0 <= i < e.actions_spec().len() ==> exists|c: nat|
                c < 81 && board.values_spec()[c as int] != 0 && (#[trigger] e.actions_spec()[i]).erases_spec()
                    == Seq::new(
                    81,
                    |x: int|
                        if stale_peers(*board, c).contains(x as nat) {
                            set![(board.values_spec()[c as int] - 1) as nat]
                        } else {
                            Set::<nat>::empty()
                        },
                ),
{
    let mut effects = Effects::new();
    let knowns = board.known_iter();
    let mut i: usize = 0;
    while i < knowns.len()
        invariant
            i <= knowns.len(),
            valid_effects(*board, effects, Strategy::Peer),
            single ==> effects.actions_spec().len() == 0,
            forall|a: int, b: int| 0 <= a < b < knowns.len() ==> (#[trigger] knowns[a]).0@ < (#[trigger] knowns[b]).0@,
            forall|a: int|
                0 <= a < knowns.len() ==> {
                    &&& (#[trigger] knowns[a]).0@ < 81
                    &&& board.values_spec()[knowns[a].0@ as int] == knowns[a].1@ + 1
                },
            forall|c: nat|
                c < 81 && #[trigger] board.values_spec()[c as int] != 0 ==> exists|a: int|
                    0 <= a < knowns.len() && (#[trigger] knowns[a]).0@ == c,
            effects.actions_spec().len() > 0 ==> has_stale_peer(*board),
            forall|a: int| 0 <= a < i ==> #[trigger] stale_peers(*board, knowns[a].0@) == Set::<nat>::empty()
                || effects.actions_spec().len() > 0,
            forall|x: int|
                0 <= x < effects.actions_spec().len() ==> exists|c: nat|
                    c < 81 && board.values_spec()[c as int] != 0 && (#[trigger] effects.actions_spec()[x]).erases_spec()
                        == Seq::new(
                        81,
                        |y: int|
                            if stale_peers(*board, c).contains(y as nat) {
                                set![(board.values_spec()[c as int] - 1) as nat]
                            } else {
                                Set::<nat>::empty()
                            },
                    ),
        decreases knowns.len() - i,
    {
        let (cell, known) = knowns[i];
        let peers: CellSet = cell.peers().intersect(board.candidate_cells(known));
        proof {
            assert(peers@ == stale_peers(*board, cell@));
        }
        if !peers.is_empty() {
            let mut action = Action::new_erase_cells(Strategy::Peer, peers, known);
            action.clue_cell_for_known(Verdict::Secondary, cell, known);
            proof {
                lemma_nonempty_choose(peers@);
                let c = peers@.choose();
                assert(action.erases_spec()[c as int].contains(known@));
                assert(!action.is_empty_spec());
                assert(valid_action(*board, action, Strategy::Peer));
                assert(stale_peers(*board, cell@) != Set::<nat>::empty());
                assert(has_stale_peer(*board));
            }
            let added = effects.add_action(action);
            proof {
                assert(valid_effects(*board, effects, Strategy::Peer)) by {
                    assert forall|x: int| 0 <= x < effects.actions_spec().len() implies valid_action(
                        *board,
                        #[trigger] effects.actions_spec()[x],
                        Strategy::Peer,
                    ) by {
                        if x < effects.actions_spec().len() - 1 {
                        }
                    }
                }
                assert forall|x: int|
                    0 <= x < effects.actions_spec().len() implies exists|c: nat|
                    c < 81 && board.values_spec()[c as int] != 0 && (#[trigger] effects.actions_spec()[x]).erases_spec()
                        == Seq::new(
                        81,
                        |y: int|
                            if stale_peers(*board, c).contains(y as nat) {
                                set![(board.values_spec()[c as int] - 1) as nat]
                            } else {
                                Set::<nat>::empty()
                            },
                    ) by {
                    if x == effects.actions_spec().len() - 1 {
                        assert(action.erases_spec() =~= Seq::new(
                            81,
                            |y: int|
                                if stale_peers(*board, cell@).contains(y as nat) {
                                    set![(board.values_spec()[cell@ as int] - 1) as nat]
                                } else {
                                    Set::<nat>::empty()
                                },
                        ));
                    }
                }
            }
            if added && single {
                return Some(effects);
            }
        }
        i = i + 1;
    }
    if effects.has_actions() {
        Some(effects)
    } else {
        proof {
            if has_stale_peer(*board) {
                let c = choose|c: nat|
                    c < 81 && board.values_spec()[c as int] != 0 && #[trigger] stale_peers(*board, c)
                        != Set::<nat>::empty();
                let a = choose|a: int| 0 <= a < knowns.len() && (#[trigger] knowns[a]).0@ == c;
                assert(stale_peers(*board, knowns[a].0@) == Set::<nat>::empty());
            }
        }
        None
    }
}

} // verus!
