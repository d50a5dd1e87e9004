use vstd::prelude::*;

use crate::layout::cell::Cell;
use crate::layout::grid::{lemma_grid_shape, Grid};
use crate::layout::value::Value;

verus! {

broadcast use lemma_grid_shape;

/// A puzzle: the digits shown at the start and the solution.
#[derive(Clone, Debug)]
pub struct Puzzle {
    givens: Grid,
    solution: Grid,
}

impl Puzzle {
    pub closed spec fn givens_spec(&self) -> Seq<nat> {
        self.givens@
    }

    pub closed spec fn solution_spec(&self) -> Seq<nat> {
        self.solution@
    }

    pub fn new(givens: Grid, solution: Grid) -> (r: Self)
        ensures
            r.givens_spec() == givens@,
            r.solution_spec() == solution@,
    {
        Puzzle { givens, solution }
    }

    pub fn givens(&self) -> (r: &Grid)
        ensures
            r@ == self.givens_spec(),
    {
        &self.givens
    }

    pub fn solution(&self) -> (r: &Grid)
        ensures
            r@ == self.solution_spec(),
    {
        &self.solution
    }

    /// Whether the cell shows a digit from the start.
    pub fn is_given(&self, cell: Cell) -> (r: bool)
        ensures
            r == (self.givens_spec()[cell@ as int] != 0),
    {
        self.givens.get(cell).is_known()
    }

    /// Whether `value` is the solution's digit at the cell.
    pub fn is_correct_value(&self, cell: Cell, value: Value) -> (r: bool)
        ensures
            r == (self.solution_spec()[cell@ as int] == value@ && value@ != 0),
    {
        let s: Value = self.solution.get(cell);
        s.value() == value.value() && value.is_known()
    }
}

} // verus!
