use vstd::prelude::*;

use crate::layout::cell::{cell_at, lemma_cell_at, lemma_cell_view_injective, peers_of, Cell};
use crate::layout::value::{lemma_value_view_injective, Value};
use crate::solve::board::{lemma_board_cands_shape, lemma_board_values_shape, Board};

verus! {

broadcast use {
    lemma_cell_at,
    lemma_cell_view_injective,
    lemma_value_view_injective,
    lemma_board_values_shape,
    lemma_board_cands_shape,
};

/// Why a move breaks the rules.
#[derive(Clone, Copy, Debug, PartialEq, Eq, Structural)]
pub enum ValidationError {
    InvalidValue { cell: Cell, value: Value },
    GivenCellWasModified { cell: Cell, existing: Value, attempted: Value },
    CellAlreadyHasValue { cell: Cell, existing: Value, attempted: Value },
    ConflictWithPeer { cell: Cell, value: Value, peer: Cell },
    GivenCellWasCleared { cell: Cell },
}

/// The first peer (in cell order) of cell `c` that holds `v`, if any.
pub open spec fn first_conflict(values: Seq<nat>, c: nat, v: nat) -> Option<nat> {
    if exists|p: nat| #[trigger] peers_of(c).contains(p) && values[p as int] == v {
        Some(
            choose|p: nat|
                #[trigger] peers_of(c).contains(p) && values[p as int] == v && forall|q: nat|
                    q < p && #[trigger] peers_of(c).contains(q) ==> values[q as int] != v,
        )
    } else {
        None
    }
}

/// The first conflicting peer is the one before which no peer conflicts.
proof fn lemma_first_conflict(values: Seq<nat>, c: nat, v: nat, p: nat)
    requires
        peers_of(c).contains(p),
        values[p as int] == v,
        forall|q: nat| q < p && #[trigger] peers_of(c).contains(q) ==> values[q as int] != v,
    ensures
        first_conflict(values, c, v) == Some(p),
{
    assert(peers_of(c).contains(p) && values[p as int] == v && forall|q: nat|
        q < p && #[trigger] peers_of(c).contains(q) ==> values[q as int] != v);
    let w = first_conflict(values, c, v)->0;
    assert(peers_of(c).contains(w) && values[w as int] == v);
    if w < p {
        assert(values[w as int] != v);
    } else if w > p {
        assert(values[p as int] != v);
    }
}

/// Checks that placing `attempted` in `cell` is a legal move: a digit, not
/// changing a given or another digit, and held by no peer.
pub fn validate_place_move(board: &Board, cell: Cell, attempted: Value) -> (r: Result<(), ValidationError>)
    ensures
        ({
            let values = board.values_spec();
            let existing = values[cell@ as int];
            if attempted@ == 0 {
                r == Err::<(), ValidationError>(ValidationError::InvalidValue { cell, value: attempted })
            } else if board.givens_spec().contains(cell@) {
                if existing != attempted@ {
                    r matches Err(ValidationError::GivenCellWasModified { cell: c, existing: e, attempted: a })
                        && c == cell && e@ == existing && a == attempted
                } else {
                    r is Ok
                }
            } else if existing != 0 && existing != attempted@ {
                r matches Err(ValidationError::CellAlreadyHasValue { cell: c, existing: e, attempted: a })
                    && c == cell && e@ == existing && a == attempted
            } else {
                match first_conflict(values, cell@, attempted@) {
                    Some(p) => r matches Err(ValidationError::ConflictWithPeer { cell: c, value: v, peer })
                        && c == cell && v == attempted && peer@ == p,
                    None => r is Ok,
                }
            }
        }),
{
    let raw: u8 = attempted.raw();
    if raw == 0 || raw > 9 {
        return Err(ValidationError::InvalidValue { cell, value: attempted });
    }
    let existing = board.get(cell);
    if board.is_given(cell) {
        if existing.value() != attempted.value() {
            return Err(ValidationError::GivenCellWasModified { cell, existing, attempted });
        }
        return Ok(());
    }
    if existing.is_known() && existing.value() != attempted.value() {
        return Err(ValidationError::CellAlreadyHasValue { cell, existing, attempted });
    }
    let mut p: u8 = 0;
    while p < 81
        invariant
            p <= 81,
            raw == attempted@,
            1 <= raw <= 9,
            !board.givens_spec().contains(cell@),
            !(board.values_spec()[cell@ as int] != 0 && board.values_spec()[cell@ as int] != attempted@),
            forall|q: nat| q < p && #[trigger] peers_of(cell@).contains(q) ==> board.values_spec()[q as int]
                != attempted@,
        decreases 81 - p,
    {
        let peer = Cell::new(p);
        if cell.sees(peer) && board.get(peer).value() == raw {
            proof {
                lemma_first_conflict(board.values_spec(), cell@, attempted@, p as nat);
            }
            return Err(ValidationError::ConflictWithPeer { cell, value: attempted, peer });
        }
        p = p + 1;
    }
    proof {
        let values = board.values_spec();
        if exists|q: nat| #[trigger] peers_of(cell@).contains(q) && values[q as int] == attempted@ {
            let q = choose|q: nat| #[trigger] peers_of(cell@).contains(q) && values[q as int] == attempted@;
            assert(q < 81);
        }
    }
    Ok(())
}

/// Checks that clearing `cell` is a legal move: it is not given.
pub fn validate_clear_move(board: &Board, cell: Cell) -> (r: Result<(), ValidationError>)
    ensures
        r == if board.givens_spec().contains(cell@) {
            Err::<(), ValidationError>(ValidationError::GivenCellWasCleared { cell })
        } else {
            Ok(())
        },
{
    if board.is_given(cell) {
        return Err(ValidationError::GivenCellWasCleared { cell });
    }
    Ok(())
}

/// Checks a position for dead ends. No position is refused yet.
pub fn validate_deadliness(board: &Board) -> (r: Result<(), ValidationError>)
    ensures
        r is Ok,
{
    Ok(())
}

} // verus!
