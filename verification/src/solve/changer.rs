use vstd::prelude::*;

use crate::layout::cell::Cell;
use crate::layout::known::Known;
use crate::solve::action::{
    action_may_fail, action_model, lemma_single_set_may_fail, lemma_single_set_model, set_fails, set_step, Action,
};
use crate::solve::board::{lemma_board_cands_shape, lemma_board_values_shape, Board};
use crate::solve::change::Change;
use crate::solve::effects::{same_action, Effects};
use crate::solve::strategy::Strategy;

verus! {

broadcast use {lemma_board_values_shape, lemma_board_cands_shape};

/// How a changer treats contradictions.
#[derive(Clone, Copy, Debug, PartialEq, Eq, Structural)]
pub struct Options {
    /// Report a change that meets a contradiction as invalid.
    pub stop_on_errors: bool,
}

impl Options {
    /// Contradictions make a change invalid.
    pub fn errors() -> (r: Self)
        ensures
            r.stop_on_errors,
    {
        Options { stop_on_errors: true }
    }

    /// Contradictions are kept with the change, which counts as valid.
    pub fn none() -> (r: Self)
        ensures
            !r.stop_on_errors,
    {
        Options { stop_on_errors: false }
    }
}

/// The result of applying an action to a copy of a board.
#[derive(Debug)]
pub enum ChangeResult {
    /// The action changed nothing.
    Nothing,
    /// The board after the action, and the errors it met.
    Valid(Board, Effects),
    /// The board before and after the action, the action, and the errors.
    Invalid(Board, Board, Action, Effects),
}

/// Applies actions to copies of boards.
#[derive(Clone, Copy, Debug)]
pub struct Changer {
    pub options: Options,
}

impl Changer {
    pub fn new(options: Options) -> (r: Self)
        ensures
            r.options == options,
    {
        Changer { options }
    }

    /// Applies the action to a copy of the board. A change that meets a
    /// contradiction is invalid when the options stop on errors.
    pub fn apply(&self, board: &Board, action: &Action) -> (r: ChangeResult)
        ensures
            match r {
                ChangeResult::Nothing => {
                    &&& action_model((board.values_spec(), board.cands_spec()), *action) == (
                        board.values_spec(),
                        board.cands_spec(),
                    )
                    &&& !action_may_fail((board.values_spec(), board.cands_spec()), *action)
                },
                ChangeResult::Valid(after, effects) => {
                    &&& (after.values_spec(), after.cands_spec()) == action_model(
                        (board.values_spec(), board.cands_spec()),
                        *action,
                    )
                    &&& after.givens_spec() == board.givens_spec()
                    &&& effects.actions_spec().len() == 0
                    &&& self.options.stop_on_errors ==> effects.errors_spec().len() == 0
                    &&& self.options.stop_on_errors ==> !action_may_fail(
                        (board.values_spec(), board.cands_spec()),
                        *action,
                    )
                },
                ChangeResult::Invalid(before, after, act, effects) => {
                    &&& self.options.stop_on_errors
                    &&& before.values_spec() == board.values_spec()
                    &&& before.cands_spec() == board.cands_spec()
                    &&& before.givens_spec() == board.givens_spec()
                    &&& (after.values_spec(), after.cands_spec()) == action_model(
                        (board.values_spec(), board.cands_spec()),
                        *action,
                    )
                    &&& after.givens_spec() == board.givens_spec()
                    &&& same_action(act, *action)
                    &&& effects.errors_spec().len() > 0
                    &&& effects.actions_spec().len() == 0
                    &&& action_may_fail((board.values_spec(), board.cands_spec()), *action)
                },
            },
    {
        let mut after = board.copy();
        let mut effects = Effects::new();
        match action.apply(&mut after, &mut effects) {
            Change::Nothing => ChangeResult::Nothing,
            Change::Valid => ChangeResult::Valid(after, effects),
            Change::Invalid => {
                if self.options.stop_on_errors {
                    ChangeResult::Invalid(board.copy(), after, action.copy(), effects)
                } else {
                    ChangeResult::Valid(after, effects)
                }
            },
        }
    }

    /// Sets `known` in `cell` of a copy of the board, as `apply` with an
    /// action of `strategy` that does that.
    pub fn set_known(&self, board: &Board, strategy: Strategy, cell: Cell, known: Known) -> (r:
        ChangeResult)
        ensures
            match r {
                ChangeResult::Nothing => true,
                ChangeResult::Valid(after, effects) => {
                    &&& after.givens_spec() == board.givens_spec()
                    &&& effects.actions_spec().len() == 0
                    &&& self.options.stop_on_errors ==> effects.errors_spec().len() == 0
                },
                ChangeResult::Invalid(before, _, act, effects) => {
                    &&& self.options.stop_on_errors
                    &&& before.values_spec() == board.values_spec()
                    &&& act.strategy_spec() == strategy
                    &&& effects.errors_spec().len() > 0
                },
            },
            r matches ChangeResult::Valid(after, _) ==> (after.values_spec(), after.cands_spec())
                == set_step((board.values_spec(), board.cands_spec()), cell@, known@),
            r matches ChangeResult::Invalid(_, after, _, _) ==> (after.values_spec(), after.cands_spec())
                == set_step((board.values_spec(), board.cands_spec()), cell@, known@),
            r is Nothing ==> set_step((board.values_spec(), board.cands_spec()), cell@, known@) == (
                board.values_spec(),
                board.cands_spec(),
            ),
            r is Invalid <==> self.options.stop_on_errors && set_fails(
                (board.values_spec(), board.cands_spec()),
                cell@,
                known@,
            ),
    {
        let _index: u8 = cell.index();
        let action = Action::new_set(strategy, cell, known);
        proof {
            lemma_single_set_model((board.values_spec(), board.cands_spec()), action, cell@, known@);
            lemma_single_set_may_fail((board.values_spec(), board.cands_spec()), action, cell@, known@);
        }
        self.apply(board, &action)
    }
}

} // verus!
