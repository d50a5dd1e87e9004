use vstd::prelude::*;

use crate::layout::cell::Cell;
use crate::layout::known::Known;

verus! {

/// A contradiction met while changing a board.
#[derive(Clone, Copy, Debug, PartialEq, Eq, Structural)]
pub enum Error {
    /// The cell is unknown and has no candidate left.
    UnsolvableCell(Cell),
    /// The cell already holds another digit than the one to set.
    AlreadySolved(Cell, Known),
    /// The digit to set is no candidate of the cell.
    NotCandidate(Cell, Known),
}

} // verus!
