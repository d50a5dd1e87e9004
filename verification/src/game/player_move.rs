use vstd::prelude::*;

use crate::layout::cell::Cell;
use crate::layout::value::Value;

verus! {

/// A player's move: write a digit into a cell, or empty a cell.
#[derive(Clone, Copy, Debug, PartialEq, Eq, Structural)]
pub enum Move {
    Place { cell: Cell, value: Value },
    Clear { cell: Cell },
}

} // verus!
