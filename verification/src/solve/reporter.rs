use vstd::prelude::*;

use crate::layout::cell::Cell;
use crate::layout::known::Known;
use crate::solve::action::Action;
use crate::solve::board::Board;
use crate::solve::effects::Effects;
use crate::solve::strategy::{Difficulty, Strategy};

verus! {

/// Receives how each puzzle of a batch run ended. Runtimes are in
/// milliseconds; counts give the number of actions applied per technique.
pub trait Reporter {
    /// The givens contradict each other: setting `known` in `cell` failed.
    fn invalid(&self, givens: &str, start: &Board, errors: &Effects, cell: Cell, known: Known, runtime_ms: u64);

    /// An action met a contradiction on the board reached.
    fn failed(
        &self,
        givens: &str,
        start: &Board,
        stopped: &Board,
        action: &Action,
        errors: &Effects,
        runtime_ms: u64,
        counts: &Vec<(Strategy, i32)>,
    );

    /// No technique found anything more on the board reached.
    fn unsolved(&self, givens: &str, start: &Board, stopped: &Board, runtime_ms: u64, counts: &Vec<(Strategy, i32)>);

    /// The puzzle was solved.
    fn solved(
        &self,
        givens: &str,
        start: &Board,
        solution: &Board,
        difficulty: Difficulty,
        runtime_ms: u64,
        counts: &Vec<(Strategy, i32)>,
    );
}

} // verus!
