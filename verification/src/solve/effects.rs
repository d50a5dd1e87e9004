use vstd::prelude::*;

use crate::layout::cell::{cell_label, lemma_cell_at, Cell};
use crate::layout::cell_set::{lemma_cell_set_bounded, CellSet};
use crate::layout::coord::digit_char;
use crate::layout::known::Known;
use crate::layout::known_set::{lemma_known_set_bounded, KnownSet};
use crate::layout::text::string_push;
use crate::solve::action::{action_may_fail, action_model, action_text, push_str, touches_known_at, Action, BoardModel};
use crate::solve::board::{lemma_board_cands_shape, lemma_board_values_shape, Board};
use crate::solve::change::{combine, Change};
use crate::solve::error::Error;
use crate::solve::strategy::Strategy;

verus! {

broadcast use {lemma_cell_at, lemma_known_set_bounded, lemma_cell_set_bounded, lemma_board_values_shape, lemma_board_cands_shape};

/// What applying techniques produced: errors met and actions found.
#[derive(Debug, PartialEq, Eq)]
pub struct Effects {
    errors: Vec<Error>,
    actions: Vec<Action>,
}

/// Two actions that do and show the same.
pub open spec fn same_action(a: Action, b: Action) -> bool {
    &&& a.strategy_spec() == b.strategy_spec()
    &&& a.sets_spec() == b.sets_spec()
    &&& a.erases_spec() == b.erases_spec()
    &&& a.clues_spec() == b.clues_spec()
}

/// Two sequences of actions that match one for one.
pub open spec fn same_actions(a: Seq<Action>, b: Seq<Action>) -> bool {
    &&& a.len() == b.len()
    &&& forall|i: int| 0 <= i < a.len() ==> same_action(#[trigger] a[i], b[i])
}

/// The board after the first `n` actions, in order.
pub open spec fn actions_model(m: BoardModel, actions: Seq<Action>, n: nat) -> BoardModel
    decreases n,
{
    if n == 0 {
        m
    } else {
        action_model(actions_model(m, actions, (n - 1) as nat), actions[n - 1])
    }
}

/// Whether applying the first `n` actions in order, from the board `m`,
/// makes an error.
pub open spec fn actions_fail(m: BoardModel, actions: Seq<Action>, n: nat) -> bool
    decreases n,
{
    if n == 0 {
        false
    } else {
        actions_fail(m, actions, (n - 1) as nat) || action_may_fail(actions_model(m, actions, (n - 1) as nat), actions[n - 1])
    }
}

/// The board after those of the first `n` actions that use `strategy`.
pub open spec fn strategy_model(m: BoardModel, actions: Seq<Action>, strategy: Strategy, n: nat) -> BoardModel
    decreases n,
{
    if n == 0 {
        m
    } else {
        let prev = strategy_model(m, actions, strategy, (n - 1) as nat);
        if actions[n - 1].strategy_spec() == strategy {
            action_model(prev, actions[n - 1])
        } else {
            prev
        }
    }
}

/// How many of the first `n` actions use `strategy`.
pub open spec fn strategy_count(actions: Seq<Action>, strategy: Strategy, n: nat) -> nat
    decreases n,
{
    if n == 0 {
        0
    } else {
        strategy_count(actions, strategy, (n - 1) as nat) + if actions[n - 1].strategy_spec()
            == strategy {
            1nat
        } else {
            0nat
        }
    }
}

/// Whether an action sets or erases something in cell `c`.
pub open spec fn affects_cell_spec(a: Action, c: nat) -> bool {
    a.sets_spec()[c as int] != 0 || a.erases_spec()[c as int] != Set::<nat>::empty()
}

/// Whether an action sets or erases digit `k` somewhere.
pub open spec fn affects_known_spec(a: Action, k: nat) -> bool {
    exists|i: int| 0 <= i < 81 && #[trigger] touches_known_at(a.sets_spec(), a.erases_spec(), k, i)
}

/// The first `n` actions that satisfy `p`, in order.
pub open spec fn actions_where(actions: Seq<Action>, p: spec_fn(Action) -> bool, n: nat) -> Seq<Action>
    decreases n,
{
    if n == 0 {
        Seq::empty()
    } else {
        actions_where(actions, p, (n - 1) as nat) + if p(actions[n - 1]) {
            seq![actions[n - 1]]
        } else {
            Seq::empty()
        }
    }
}

/// The text of an error.
pub open spec fn error_text(e: Error) -> Seq<char> {
    match e {
        Error::UnsolvableCell(c) => cell_label(c@) + " has no candidates"@,
        Error::AlreadySolved(c, _) => cell_label(c@) + " is already solved"@,
        Error::NotCandidate(c, k) => cell_label(c@) + " cannot be "@ + seq![digit_char(k@)],
    }
}

/// Each error of the first `n` on a line of its own, as `- ` and its text.
pub open spec fn error_lines(errors: Seq<Error>, n: nat) -> Seq<char>
    decreases n,
{
    if n == 0 {
        Seq::empty()
    } else {
        error_lines(errors, (n - 1) as nat) + "- "@ + error_text(errors[n - 1]) + "\n"@
    }
}

/// Each action of the first `n` on a line of its own, as `- ` and its text.
pub open spec fn action_lines(actions: Seq<Action>, n: nat) -> Seq<char>
    decreases n,
{
    if n == 0 {
        Seq::empty()
    } else {
        action_lines(actions, (n - 1) as nat) + "- "@ + action_text(actions[n - 1]) + "\n"@
    }
}

/// The text of effects: a section of errors and one of actions, each
/// only when it has lines, with a blank line between the two.
pub open spec fn effects_text(errors: Seq<Error>, actions: Seq<Action>) -> Seq<char> {
    (if errors.len() > 0 {
        "Errors:\n"@ + error_lines(errors, errors.len())
    } else {
        Seq::empty()
    }) + (if actions.len() > 0 {
        (if errors.len() > 0 {
            "\n"@
        } else {
            Seq::empty()
        }) + "Actions:\n"@ + action_lines(actions, actions.len())
    } else {
        Seq::empty()
    })
}

impl Clone for Effects {
    fn clone(&self) -> (r: Self)
        ensures
            r.errors_spec() == self.errors_spec(),
            same_actions(r.actions_spec(), self.actions_spec()),
    {
        self.copy()
    }
}

impl Effects {
    pub closed spec fn errors_spec(&self) -> Seq<Error> {
        self.errors@
    }

    pub closed spec fn actions_spec(&self) -> Seq<Action> {
        self.actions@
    }

    /// No errors and no actions.
    pub fn new() -> (r: Self)
        ensures
            r.errors_spec() == Seq::<Error>::empty(),
            r.actions_spec() == Seq::<Action>::empty(),
    {
        Effects { errors: Vec::new(), actions: Vec::new() }
    }

    /// Effects holding the one action, unless it does nothing.
    pub fn from_action(action: Action) -> (r: Self)
        ensures
            r.errors_spec() == Seq::<Error>::empty(),
            r.actions_spec() == if action.is_empty_spec() {
                Seq::<Action>::empty()
            } else {
                seq![action]
            },
    {
        let mut effects = Effects::new();
        effects.add_action(action);
        proof {
            if !action.is_empty_spec() {
                assert(effects.actions_spec() =~= seq![action]);
            }
        }
        effects
    }

    /// A copy of the effects.
    pub fn copy(&self) -> (r: Self)
        ensures
            r.errors_spec() == self.errors_spec(),
            same_actions(r.actions_spec(), self.actions_spec()),
    {
        let mut errors: Vec<Error> = Vec::new();
        let mut i: usize = 0;
        while i < self.errors.len()
            invariant
                i <= self.errors.len(),
                errors@ == self.errors@.subrange(0, i as int),
            decreases self.errors.len() - i,
        {
            errors.push(self.errors[i]);
            proof {
                assert(errors@ =~= self.errors@.subrange(0, i + 1));
            }
            i = i + 1;
        }
        proof {
            assert(errors@ =~= self.errors@);
        }
        let mut actions: Vec<Action> = Vec::new();
        let mut j: usize = 0;
        while j < self.actions.len()
            invariant
                j <= self.actions.len(),
                actions.len() == j,
                forall|x: int| 0 <= x < j ==> same_action(#[trigger] actions@[x], self.actions@[x]),
            decreases self.actions.len() - j,
        {
            actions.push(self.actions[j].copy());
            j = j + 1;
        }
        Effects { errors, actions }
    }

    pub fn is_empty(&self) -> (r: bool)
        ensures
            r == (self.errors_spec().len() == 0 && self.actions_spec().len() == 0),
    {
        self.errors.len() == 0 && self.actions.len() == 0
    }

    pub fn has_errors(&self) -> (r: bool)
        ensures
            r == (self.errors_spec().len() > 0),
    {
        self.errors.len() > 0
    }

    pub fn error_count(&self) -> (r: usize)
        ensures
            r == self.errors_spec().len(),
    {
        self.errors.len()
    }

    pub fn clear_errors(&mut self)
        ensures
            final(self).errors_spec() == Seq::<Error>::empty(),
            final(self).actions_spec() == old(self).actions_spec(),
    {
        self.errors = Vec::new();
    }

    pub fn errors(&self) -> (r: &[Error])
        ensures
            r@ == self.errors_spec(),
    {
        self.errors.as_slice()
    }

    /// The errors in the order met, one at a time.
    pub fn errors_iter(&self) -> (r: std::slice::Iter<'_, Error>)
        ensures
            vstd::std_specs::slice::into_iter_elts(r) == self.errors_spec(),
    {
        let s = self.errors.as_slice();
        let it = s.iter();
        proof {
            vstd::std_specs::slice::axiom_spec_slice_iter(s);
            assert(vstd::std_specs::slice::into_iter_elts(it) =~= s@);
        }
        it
    }

    pub fn add_error(&mut self, error: Error)
        ensures
            final(self).errors_spec() == old(self).errors_spec().push(error),
            final(self).actions_spec() == old(self).actions_spec(),
    {
        self.errors.push(error);
    }

    pub fn has_actions(&self) -> (r: bool)
        ensures
            r == (self.actions_spec().len() > 0),
    {
        self.actions.len() > 0
    }

    pub fn action_count(&self) -> (r: usize)
        ensures
            r == self.actions_spec().len(),
    {
        self.actions.len()
    }

    /// For each technique used by the actions, how many use it, in order of
    /// first use.
    pub fn action_counts(&self) -> (r: Vec<(Strategy, i32)>)
        requires
            self.actions_spec().len() <= i32::MAX,
        ensures
            forall|a: int, b: int| 0 <= a < b < r.len() ==> (#[trigger] r[a]).0 != (#[trigger] r[b]).0,
            forall|a: int|
                0 <= a < r.len() ==> (#[trigger] r[a]).1 == strategy_count(
                    self.actions_spec(),
                    r[a].0,
                    self.actions_spec().len(),
                ),
            forall|i: int|
                0 <= i < self.actions_spec().len() ==> exists|a: int|
                    0 <= a < r.len() && (#[trigger] r[a]).0 == (#[trigger] self.actions_spec()[i]).strategy_spec(),
    {
        let mut counts: Vec<(Strategy, i32)> = Vec::new();
        let mut i: usize = 0;
        while i < self.actions.len()
            invariant
                i <= self.actions.len(),
                self.actions.len() <= i32::MAX,
                forall|a: int, b: int|
                    0 <= a < b < counts.len() ==> (#[trigger] counts[a]).0 != (#[trigger] counts[b]).0,
                forall|a: int|
                    0 <= a < counts.len() ==> (#[trigger] counts[a]).1 == strategy_count(
                        self.actions@,
                        counts[a].0,
                        i as nat,
                    ),
                forall|x: int|
                    0 <= x < i ==> exists|a: int|
                        0 <= a < counts.len() && (#[trigger] counts[a]).0 == (
                        #[trigger] self.actions@[x]).strategy_spec(),
                forall|s: Strategy|
                    #[trigger] strategy_count(self.actions@, s, i as nat) > 0 ==> exists|a: int|
                        0 <= a < counts.len() && (#[trigger] counts[a]).0 == s,
            decreases self.actions.len() - i,
        {
            let s = self.actions[i].strategy();
            proof {
                lemma_strategy_count_bound(self.actions@, s, i as nat);
            }
            let mut found = false;
            let mut j: usize = 0;
            let ghost old_counts = counts@;
            let mut next: Vec<(Strategy, i32)> = Vec::new();
            while j < counts.len()
                invariant
                    j <= counts.len(),
                    counts@ == old_counts,
                    next.len() == j,
                    i < self.actions.len(),
                    self.actions.len() <= i32::MAX,
                    s == self.actions@[i as int].strategy_spec(),
                    forall|a: int|
                        0 <= a < counts.len() ==> (#[trigger] counts[a]).1 == strategy_count(
                            self.actions@,
                            counts[a].0,
                            i as nat,
                        ),
                    found == exists|a: int| 0 <= a < j && (#[trigger] counts[a]).0 == s,
                    forall|a: int|
                        0 <= a < j ==> (#[trigger] next[a]).0 == counts[a].0 && next[a].1 == if counts[a].0
                            == s {
                            counts[a].1 + 1
                        } else {
                            counts[a].1 as int
                        },
                decreases counts.len() - j,
            {
                let (t, n) = counts[j];
                if t == s {
                    proof {
                        lemma_strategy_count_bound(self.actions@, s, i as nat);
                    }
                    next.push((t, n + 1));
                    found = true;
                } else {
                    next.push((t, n));
                }
                j = j + 1;
            }
            if !found {
                next.push((s, 1));
            }
            counts = next;
            proof {
                assert forall|a: int|
                    0 <= a < counts.len() implies (#[trigger] counts[a]).1 == strategy_count(
                    self.actions@,
                    counts[a].0,
                    (i + 1) as nat,
                ) by {
                    if a < old_counts.len() {
                        assert(counts[a].0 == old_counts[a].0);
                    } else {
                        assert(strategy_count(self.actions@, s, i as nat) == 0);
                    }
                }
                assert forall|x: int|
                    0 <= x < i + 1 implies exists|a: int|
                    0 <= a < counts.len() && (#[trigger] counts[a]).0 == (
                    #[trigger] self.actions@[x]).strategy_spec() by {
                    if x < i {
                        let a0 = choose|a: int|
                            0 <= a < old_counts.len() && (#[trigger] old_counts[a]).0
                                == self.actions@[x].strategy_spec();
                        assert(counts[a0].0 == old_counts[a0].0);
                    } else {
                        if found {
                            let a0 = choose|a: int| 0 <= a < old_counts.len() && (#[trigger] old_counts[a]).0 == s;
                            assert(counts[a0].0 == s);
                        } else {
                            assert(counts[old_counts.len() as int].0 == s);
                        }
                    }
                }
                assert forall|t: Strategy|
                    #[trigger] strategy_count(self.actions@, t, (i + 1) as nat) > 0 implies exists|a: int|
                    0 <= a < counts.len() && (#[trigger] counts[a]).0 == t by {
                    if t == s {
                        if found {
                            let a0 = choose|a: int| 0 <= a < old_counts.len() && (#[trigger] old_counts[a]).0 == s;
                            assert(counts[a0].0 == s);
                        } else {
                            assert(counts[old_counts.len() as int].0 == s);
                        }
                    } else {
                        assert(strategy_count(self.actions@, t, i as nat) > 0);
                        let a0 = choose|a: int| 0 <= a < old_counts.len() && (#[trigger] old_counts[a]).0 == t;
                        assert(counts[a0].0 == t);
                    }
                }
                assert forall|a: int, b: int|
                    0 <= a < b < counts.len() implies (#[trigger] counts[a]).0 != (#[trigger] counts[b]).0 by {
                    if b == old_counts.len() && !found {
                        assert(counts[a].0 == old_counts[a].0);
                    } else {
                        assert(counts[a].0 == old_counts[a].0);
                        assert(counts[b].0 == old_counts[b].0);
                    }
                }
            }
            i = i + 1;
        }
        counts
    }

    pub fn clear_actions(&mut self)
        ensures
            final(self).errors_spec() == old(self).errors_spec(),
            final(self).actions_spec() == Seq::<Action>::empty(),
    {
        self.actions = Vec::new();
    }

    /// The first action, taken out of the effects.
    pub fn into_first_action(self) -> (r: Action)
        requires
            self.actions_spec().len() > 0,
        ensures
            r == self.actions_spec()[0],
    {
        let mut actions = self.actions;
        actions.remove(0)
    }

    pub fn actions(&self) -> (r: &[Action])
        ensures
            r@ == self.actions_spec(),
    {
        self.actions.as_slice()
    }

    /// Adds the action unless it does nothing; tells whether it was added.
    pub fn add_action(&mut self, action: Action) -> (r: bool)
        ensures
            r == !action.is_empty_spec(),
            final(self).errors_spec() == old(self).errors_spec(),
            final(self).actions_spec() == if r {
                old(self).actions_spec().push(action)
            } else {
                old(self).actions_spec()
            },
    {
        if action.is_empty() {
            false
        } else {
            self.actions.push(action);
            true
        }
    }

    /// Adds an action of `strategy` that sets `known` in `cell`.
    pub fn add_set(&mut self, strategy: Strategy, cell: Cell, known: Known)
        ensures
            final(self).errors_spec() == old(self).errors_spec(),
            final(self).actions_spec().len() == old(self).actions_spec().len() + 1,
            final(self).actions_spec().subrange(0, old(self).actions_spec().len() as int)
                == old(self).actions_spec(),
            final(self).actions_spec().last().strategy_spec() == strategy,
            final(self).actions_spec().last().sets_spec() == Seq::new(81, |i: int| 0nat).update(
                cell@ as int,
                known@ + 1,
            ),
            final(self).actions_spec().last().erases_spec() == Seq::new(
                81,
                |i: int| Set::<nat>::empty(),
            ),
    {
        let _index: u8 = cell.index();
        let a = Action::new_set(strategy, cell, known);
        proof {
            let _i: u8 = 0;
            assert(!a.is_empty_spec()) by {
                assert(a.sets_spec()[cell@ as int] != 0);
            }
        }
        self.add_action_known(a);
    }

    /// Adds an action of `strategy` that erases `known` from `cell`.
    pub fn add_erase(&mut self, strategy: Strategy, cell: Cell, known: Known)
        ensures
            final(self).errors_spec() == old(self).errors_spec(),
            final(self).actions_spec().len() == old(self).actions_spec().len() + 1,
            final(self).actions_spec().subrange(0, old(self).actions_spec().len() as int)
                == old(self).actions_spec(),
            final(self).actions_spec().last().strategy_spec() == strategy,
            final(self).actions_spec().last().sets_spec() == Seq::new(81, |i: int| 0nat),
            final(self).actions_spec().last().erases_spec() == Seq::new(
                81,
                |i: int| Set::<nat>::empty(),
            ).update(cell@ as int, set![known@]),
    {
        let _index: u8 = cell.index();
        let a = Action::new_erase(strategy, cell, known);
        proof {
            assert(!a.is_empty_spec()) by {
                assert(a.erases_spec()[cell@ as int].contains(known@));
            }
        }
        self.add_action_known(a);
    }

    /// Adds an action of `strategy` that erases `known` from `cells`,
    /// unless `cells` is empty.
    pub fn add_erase_cells(&mut self, strategy: Strategy, cells: CellSet, known: Known)
        ensures
            final(self).errors_spec() == old(self).errors_spec(),
            cells@.is_empty() ==> final(self).actions_spec() == old(self).actions_spec(),
            !cells@.is_empty() ==> {
                &&& final(self).actions_spec().len() == old(self).actions_spec().len() + 1
                &&& final(self).actions_spec().subrange(0, old(self).actions_spec().len() as int)
                    == old(self).actions_spec()
                &&& final(self).actions_spec().last().strategy_spec() == strategy
                &&& final(self).actions_spec().last().sets_spec() == Seq::new(81, |i: int| 0nat)
                &&& final(self).actions_spec().last().erases_spec() == Seq::new(
                    81,
                    |i: int|
                        if cells@.contains(i as nat) {
                            set![known@]
                        } else {
                            Set::<nat>::empty()
                        },
                )
            },
    {
        let a = Action::new_erase_cells(strategy, cells, known);
        proof {
            if !cells@.is_empty() {
                let c = cells@.choose();
                assert(a.erases_spec()[c as int].contains(known@));
            } else {
                assert(a.is_empty_spec());
            }
        }
        if self.add_action(a) {
            proof {
                assert(self.actions_spec().subrange(0, old(self).actions_spec().len() as int)
                    =~= old(self).actions_spec());
            }
        }
    }

    /// Adds an action of `strategy` that erases `knowns` from `cell`,
    /// unless `knowns` is empty.
    pub fn add_erase_knowns(&mut self, strategy: Strategy, cell: Cell, knowns: KnownSet)
        ensures
            final(self).errors_spec() == old(self).errors_spec(),
            knowns@.is_empty() ==> final(self).actions_spec() == old(self).actions_spec(),
            !knowns@.is_empty() ==> {
                &&& final(self).actions_spec().len() == old(self).actions_spec().len() + 1
                &&& final(self).actions_spec().subrange(0, old(self).actions_spec().len() as int)
                    == old(self).actions_spec()
                &&& final(self).actions_spec().last().strategy_spec() == strategy
                &&& final(self).actions_spec().last().sets_spec() == Seq::new(81, |i: int| 0nat)
                &&& final(self).actions_spec().last().erases_spec() == Seq::new(
                    81,
                    |i: int| Set::<nat>::empty(),
                ).update(cell@ as int, knowns@)
            },
    {
        let _index: u8 = cell.index();
        let a = Action::new_erase_knowns(strategy, cell, knowns);
        proof {
            if !knowns@.is_empty() {
                assert(a.erases_spec()[cell@ as int] == knowns@);
            } else {
                assert(a.is_empty_spec());
            }
        }
        if self.add_action(a) {
            proof {
                assert(self.actions_spec().subrange(0, old(self).actions_spec().len() as int)
                    =~= old(self).actions_spec());
            }
        }
    }

    fn add_action_known(&mut self, action: Action)
        requires
            !action.is_empty_spec(),
        ensures
            final(self).errors_spec() == old(self).errors_spec(),
            final(self).actions_spec() == old(self).actions_spec().push(action),
            final(self).actions_spec().subrange(0, old(self).actions_spec().len() as int)
                == old(self).actions_spec(),
    {
        self.add_action(action);
        proof {
            assert(self.actions_spec().subrange(0, old(self).actions_spec().len() as int)
                =~= old(self).actions_spec());
        }
    }

    /// Whether some action erases `known` from `cell`.
    pub fn erases(&self, cell: Cell, known: Known) -> (r: bool)
        ensures
            r == exists|i: int|
                0 <= i < self.actions_spec().len() && (
                #[trigger] self.actions_spec()[i]).erases_spec()[cell@ as int].contains(known@),
    {
        let mut i: usize = 0;
        while i < self.actions.len()
            invariant
                i <= self.actions.len(),
                forall|j: int|
                    0 <= j < i ==> !(#[trigger] self.actions@[j]).erases_spec()[cell@ as int].contains(
                        known@,
                    ),
            decreases self.actions.len() - i,
        {
            if self.actions[i].erases(cell, known) {
                assert(self.actions_spec()[i as int].erases_spec()[cell@ as int].contains(known@));
                return true;
            }
            i = i + 1;
        }
        false
    }

    /// The cells from which some action erases `known`.
    pub fn erases_from_cells(&self, known: Known) -> (r: CellSet)
        ensures
            r@ == Set::new(
                |c: nat|
                    c < 81 && exists|i: int|
                        0 <= i < self.actions_spec().len() && (
                        #[trigger] self.actions_spec()[i]).erases_spec()[c as int].contains(known@),
            ),
    {
        let mut acc = CellSet::empty();
        let mut i: usize = 0;
        while i < self.actions.len()
            invariant
                i <= self.actions.len(),
                acc@ == Set::new(
                    |c: nat|
                        c < 81 && exists|j: int|
                            0 <= j < i && (#[trigger] self.actions@[j]).erases_spec()[c as int].contains(
                                known@,
                            ),
                ),
            decreases self.actions.len() - i,
        {
            let more = self.actions[i].erases_from_cells(known);
            acc = acc.union(more);
            proof {
                let next = Set::new(
                    |c: nat|
                        c < 81 && exists|j: int|
                            0 <= j < i + 1 && (#[trigger] self.actions@[j]).erases_spec()[c as int].contains(
                                known@,
                            ),
                );
                assert forall|c: nat| acc@.contains(c) <==> next.contains(c) by {
                    if next.contains(c) {
                        let j = choose|j: int|
                            0 <= j < i + 1 && (#[trigger] self.actions@[j]).erases_spec()[c as int].contains(
                                known@,
                            );
                        if j < i {
                        }
                    }
                }
                assert(acc@ =~= next);
            }
            i = i + 1;
        }
        acc
    }

    /// The digits some action erases from `cell`.
    pub fn erases_knowns_from(&self, cell: Cell) -> (r: KnownSet)
        ensures
            r@ == Set::new(
                |k: nat|
                    exists|i: int|
                        0 <= i < self.actions_spec().len() && (
                        #[trigger] self.actions_spec()[i]).erases_spec()[cell@ as int].contains(k),
            ),
    {
        let mut acc = KnownSet::empty();
        let mut i: usize = 0;
        while i < self.actions.len()
            invariant
                i <= self.actions.len(),
                acc@ == Set::new(
                    |k: nat|
                        exists|j: int|
                            0 <= j < i && (#[trigger] self.actions@[j]).erases_spec()[cell@ as int].contains(
                                k,
                            ),
                ),
            decreases self.actions.len() - i,
        {
            let more = self.actions[i].erases_knowns_from(cell);
            acc = acc.union(more);
            proof {
                let next = Set::new(
                    |k: nat|
                        exists|j: int|
                            0 <= j < i + 1 && (#[trigger] self.actions@[j]).erases_spec()[cell@ as int].contains(
                                k,
                            ),
                );
                assert forall|k: nat| acc@.contains(k) <==> next.contains(k) by {
                    if next.contains(k) {
                        let j = choose|j: int|
                            0 <= j < i + 1 && (#[trigger] self.actions@[j]).erases_spec()[cell@ as int].contains(
                                k,
                            );
                        if j < i {
                        }
                    }
                }
                assert(acc@ =~= next);
            }
            i = i + 1;
        }
        acc
    }

    /// Copies of the actions that set or erase something in `cell`, in
    /// order, with no errors.
    pub fn affecting_cell(&self, cell: Cell) -> (r: Self)
        ensures
            r.errors_spec() == Seq::<Error>::empty(),
            same_actions(
                r.actions_spec(),
                actions_where(
                    self.actions_spec(),
                    |a: Action| affects_cell_spec(a, cell@),
                    self.actions_spec().len(),
                ),
            ),
    {
        let ghost p = |a: Action| affects_cell_spec(a, cell@);
        let mut actions: Vec<Action> = Vec::new();
        let mut i: usize = 0;
        while i < self.actions.len()
            invariant
                i <= self.actions.len(),
                p == (|a: Action| affects_cell_spec(a, cell@)),
                same_actions(actions@, actions_where(self.actions@, p, i as nat)),
            decreases self.actions.len() - i,
        {
            if self.actions[i].affects_cell(cell) {
                actions.push(self.actions[i].copy());
            }
            proof {
                assert(actions_where(self.actions@, p, (i + 1) as nat) == actions_where(
                    self.actions@,
                    p,
                    i as nat,
                ) + if p(self.actions@[i as int]) {
                    seq![self.actions@[i as int]]
                } else {
                    Seq::<Action>::empty()
                });
            }
            i = i + 1;
        }
        Effects { errors: Vec::new(), actions }
    }

    /// Copies of the actions that set or erase `known` somewhere, in order,
    /// with no errors.
    pub fn affecting_known(&self, known: Known) -> (r: Self)
        ensures
            r.errors_spec() == Seq::<Error>::empty(),
            same_actions(
                r.actions_spec(),
                actions_where(
                    self.actions_spec(),
                    |a: Action| affects_known_spec(a, known@),
                    self.actions_spec().len(),
                ),
            ),
    {
        let ghost p = |a: Action| affects_known_spec(a, known@);
        let mut actions: Vec<Action> = Vec::new();
        let mut i: usize = 0;
        while i < self.actions.len()
            invariant
                i <= self.actions.len(),
                p == (|a: Action| affects_known_spec(a, known@)),
                same_actions(actions@, actions_where(self.actions@, p, i as nat)),
            decreases self.actions.len() - i,
        {
            if self.actions[i].affects_known(known) {
                actions.push(self.actions[i].copy());
            }
            proof {
                assert(actions_where(self.actions@, p, (i + 1) as nat) == actions_where(
                    self.actions@,
                    p,
                    i as nat,
                ) + if p(self.actions@[i as int]) {
                    seq![self.actions@[i as int]]
                } else {
                    Seq::<Action>::empty()
                });
            }
            i = i + 1;
        }
        Effects { errors: Vec::new(), actions }
    }

    /// A copy without the action at `index`.
    pub fn without_action(&self, index: usize) -> (r: Self)
        requires
            index < self.actions_spec().len(),
        ensures
            r.errors_spec() == self.errors_spec(),
            same_actions(r.actions_spec(), self.actions_spec().remove(index as int)),
    {
        let mut effects = self.copy();
        let ghost before = effects.actions@;
        effects.actions.remove(index);
        proof {
            assert forall|i: int| 0 <= i < effects.actions@.len() implies same_action(
                #[trigger] effects.actions@[i],
                self.actions_spec().remove(index as int)[i],
            ) by {
                if i < index {
                    assert(effects.actions@[i] == before[i]);
                } else {
                    assert(effects.actions@[i] == before[i + 1]);
                }
            }
        }
        effects
    }

    /// Moves the actions of `from` to the end of these.
    pub fn take_actions(&mut self, from: Effects)
        ensures
            final(self).errors_spec() == old(self).errors_spec(),
            final(self).actions_spec() == old(self).actions_spec() + from.actions_spec(),
    {
        let mut from = from;
        self.actions.append(&mut from.actions);
    }

    /// Applies the actions to the board in order; errors met go to
    /// `effects`. Tells whether the board met a contradiction, else whether
    /// any action changed it.
    pub fn apply(&self, board: &mut Board, effects: &mut Effects) -> (r: Change)
        ensures
            (final(board).values_spec(), final(board).cands_spec()) == actions_model(
                (old(board).values_spec(), old(board).cands_spec()),
                self.actions_spec(),
                self.actions_spec().len(),
            ),
            final(board).givens_spec() == old(board).givens_spec(),
            final(effects).actions_spec() == old(effects).actions_spec(),
            old(effects).errors_spec().is_prefix_of(final(effects).errors_spec()),
            (r is Invalid) == (final(effects).errors_spec().len() > old(effects).errors_spec().len()),
            (r is Invalid) == actions_fail(
                (old(board).values_spec(), old(board).cands_spec()),
                self.actions_spec(),
                self.actions_spec().len(),
            ),
            r is Nothing ==> final(board).values_spec() == old(board).values_spec()
                && final(board).cands_spec() == old(board).cands_spec(),
    {
        let ghost m0 = (board.values_spec(), board.cands_spec());
        let mut change = Change::Nothing;
        let mut i: usize = 0;
        while i < self.actions.len()
            invariant
                i <= self.actions.len(),
                m0 == (old(board).values_spec(), old(board).cands_spec()),
                (board.values_spec(), board.cands_spec()) == actions_model(
                    m0,
                    self.actions@,
                    i as nat,
                ),
                board.givens_spec() == old(board).givens_spec(),
                effects.actions_spec() == old(effects).actions_spec(),
                old(effects).errors_spec().is_prefix_of(effects.errors_spec()),
                (change is Invalid) == (effects.errors_spec().len() > old(effects).errors_spec().len()),
                (change is Invalid) == actions_fail(m0, self.actions@, i as nat),
                change is Nothing ==> board.values_spec() == old(board).values_spec()
                    && board.cands_spec() == old(board).cands_spec(),
            decreases self.actions.len() - i,
        {
            let ghost errs = effects.errors_spec();
            let c = self.actions[i].apply(board, effects);
            change = change.and(c);
            proof {
                assert(errs.is_prefix_of(effects.errors_spec()));
                assert(old(effects).errors_spec().is_prefix_of(effects.errors_spec()));
            }
            i = i + 1;
        }
        change
    }

    /// Applies the actions of `strategy` to the board in order, as `apply`.
    pub fn apply_strategy(&self, board: &mut Board, strategy: Strategy, effects: &mut Effects) -> (r:
        Change)
        ensures
            (final(board).values_spec(), final(board).cands_spec()) == strategy_model(
                (old(board).values_spec(), old(board).cands_spec()),
                self.actions_spec(),
                strategy,
                self.actions_spec().len(),
            ),
            final(board).givens_spec() == old(board).givens_spec(),
            final(effects).actions_spec() == old(effects).actions_spec(),
            old(effects).errors_spec().is_prefix_of(final(effects).errors_spec()),
            (r is Invalid) == (final(effects).errors_spec().len() > old(effects).errors_spec().len()),
            r is Nothing ==> final(board).values_spec() == old(board).values_spec()
                && final(board).cands_spec() == old(board).cands_spec(),
    {
        let ghost m0 = (board.values_spec(), board.cands_spec());
        let mut change = Change::Nothing;
        let mut i: usize = 0;
        while i < self.actions.len()
            invariant
                i <= self.actions.len(),
                m0 == (old(board).values_spec(), old(board).cands_spec()),
                (board.values_spec(), board.cands_spec()) == strategy_model(
                    m0,
                    self.actions@,
                    strategy,
                    i as nat,
                ),
                board.givens_spec() == old(board).givens_spec(),
                effects.actions_spec() == old(effects).actions_spec(),
                old(effects).errors_spec().is_prefix_of(effects.errors_spec()),
                (change is Invalid) == (effects.errors_spec().len() > old(effects).errors_spec().len()),
                change is Nothing ==> board.values_spec() == old(board).values_spec()
                    && board.cands_spec() == old(board).cands_spec(),
            decreases self.actions.len() - i,
        {
            if self.actions[i].has_strategy(strategy) {
                let ghost errs = effects.errors_spec();
                let c = self.actions[i].apply(board, effects);
                change = change.and(c);
                proof {
                    assert(errs.is_prefix_of(effects.errors_spec()));
                    assert(old(effects).errors_spec().is_prefix_of(effects.errors_spec()));
                }
            }
            i = i + 1;
        }
        change
    }

    /// With errors already, hands back a copy of these effects and leaves
    /// the board alone. Otherwise applies the actions to the board, and
    /// hands back the errors that produced, if any.
    pub fn apply_all(&self, board: &mut Board) -> (r: Option<Effects>)
        ensures
            self.errors_spec().len() > 0 ==> {
                &&& r is Some
                &&& r->0.errors_spec() == self.errors_spec()
                &&& same_actions(r->0.actions_spec(), self.actions_spec())
                &&& final(board).values_spec() == old(board).values_spec()
                &&& final(board).cands_spec() == old(board).cands_spec()
            },
            self.errors_spec().len() == 0 ==> {
                &&& (final(board).values_spec(), final(board).cands_spec()) == actions_model(
                    (old(board).values_spec(), old(board).cands_spec()),
                    self.actions_spec(),
                    self.actions_spec().len(),
                )
                &&& r matches Some(e) ==> e.errors_spec().len() > 0 && e.actions_spec().len() == 0
                &&& r is Some <==> actions_fail(
                    (old(board).values_spec(), old(board).cands_spec()),
                    self.actions_spec(),
                    self.actions_spec().len(),
                )
            },
            final(board).givens_spec() == old(board).givens_spec(),
    {
        if self.has_errors() {
            return Some(self.copy());
        }
        if self.has_actions() {
            let mut next = Effects::new();
            self.apply(board, &mut next);
            if next.has_errors() {
                return Some(next);
            }
        }
        None
    }

    /// With errors already, hands back a copy of these effects and leaves
    /// the board alone. Otherwise applies the actions of `strategy` to the
    /// board; applying adds no actions, so that is the last round, and the
    /// errors it produced come back, if any.
    pub fn apply_all_strategy(&self, board: &mut Board, strategy: Strategy) -> (r: Option<Effects>)
        ensures
            self.errors_spec().len() > 0 ==> {
                &&& r is Some
                &&& r->0.errors_spec() == self.errors_spec()
                &&& final(board).values_spec() == old(board).values_spec()
                &&& final(board).cands_spec() == old(board).cands_spec()
            },
            self.errors_spec().len() == 0 ==> {
                &&& (final(board).values_spec(), final(board).cands_spec()) == strategy_model(
                    (old(board).values_spec(), old(board).cands_spec()),
                    self.actions_spec(),
                    strategy,
                    self.actions_spec().len(),
                )
                &&& r matches Some(e) ==> e.errors_spec().len() > 0 && e.actions_spec().len() == 0
            },
            final(board).givens_spec() == old(board).givens_spec(),
    {
        let mut effects = self.copy();
        let mut round: u8 = 0;
        proof {
            lemma_same_actions_models(
                (board.values_spec(), board.cands_spec()),
                effects.actions@,
                self.actions@,
                strategy,
                self.actions@.len(),
            );
        }
        loop
            invariant
                round <= 1,
                round == 0 ==> {
                    &&& effects.errors_spec() == self.errors_spec()
                    &&& same_actions(effects.actions_spec(), self.actions_spec())
                    &&& board.values_spec() == old(board).values_spec()
                    &&& board.cands_spec() == old(board).cands_spec()
                    &&& strategy_model(
                        (old(board).values_spec(), old(board).cands_spec()),
                        effects.actions@,
                        strategy,
                        effects.actions@.len(),
                    ) == strategy_model(
                        (old(board).values_spec(), old(board).cands_spec()),
                        self.actions_spec(),
                        strategy,
                        self.actions_spec().len(),
                    )
                },
                round == 1 ==> {
                    &&& self.errors_spec().len() == 0
                    &&& effects.actions_spec().len() == 0
                    &&& (board.values_spec(), board.cands_spec()) == strategy_model(
                        (old(board).values_spec(), old(board).cands_spec()),
                        self.actions_spec(),
                        strategy,
                        self.actions_spec().len(),
                    )
                },
                board.givens_spec() == old(board).givens_spec(),
            decreases 1 - round,
        {
            if effects.has_errors() {
                return Some(effects);
            }
            if effects.actions.len() == 0 {
                proof {
                    if round == 0 {
                        assert(self.actions_spec().len() == 0);
                    }
                }
                return None;
            }
            let mut next = Effects::new();
            effects.apply_strategy(board, strategy, &mut next);
            effects = next;
            round = 1;
        }
    }

    /// The effects as text: `Errors:` and one line per error, then, after a
    /// blank line when there were errors, `Actions:` and one line per
    /// action; each section only when it has lines.
    pub fn display_string(&self) -> (r: String)
        ensures
            r@ == effects_text(self.errors_spec(), self.actions_spec()),
    {
        let mut s = String::new();
        if self.errors.len() > 0 {
            push_str(&mut s, "Errors:\n");
            let mut i: usize = 0;
            while i < self.errors.len()
                invariant
                    i <= self.errors.len(),
                    s@ == "Errors:\n"@ + error_lines(self.errors@, i as nat),
                decreases self.errors.len() - i,
            {
                push_str(&mut s, "- ");
                let t = error_string(self.errors[i]);
                push_str(&mut s, t.as_str());
                push_str(&mut s, "\n");
                proof {
                    assert(s@ =~= "Errors:\n"@ + error_lines(self.errors@, (i + 1) as nat));
                }
                i = i + 1;
            }
        }
        let ghost head = s@;
        proof {
            assert(head == (if self.errors@.len() > 0 {
                "Errors:\n"@ + error_lines(self.errors@, self.errors@.len())
            } else {
                Seq::<char>::empty()
            }));
        }
        if self.actions.len() > 0 {
            if self.errors.len() > 0 {
                push_str(&mut s, "\n");
            }
            push_str(&mut s, "Actions:\n");
            let ghost base = s@;
            let mut i: usize = 0;
            while i < self.actions.len()
                invariant
                    i <= self.actions.len(),
                    s@ == base + action_lines(self.actions@, i as nat),
                decreases self.actions.len() - i,
            {
                push_str(&mut s, "- ");
                let t = self.actions[i].label_string();
                push_str(&mut s, t.as_str());
                push_str(&mut s, "\n");
                proof {
                    assert(s@ =~= base + action_lines(self.actions@, (i + 1) as nat));
                }
                i = i + 1;
            }
            proof {
                assert(s@ =~= effects_text(self.errors@, self.actions@));
            }
        } else {
            proof {
                assert(s@ =~= effects_text(self.errors@, self.actions@));
            }
        }
        s
    }
}

/// The text of an error.
pub fn error_string(e: Error) -> (r: String)
    ensures
        r@ == error_text(e),
{
    let mut s = String::new();
    match e {
        Error::UnsolvableCell(c) => {
            push_str(&mut s, c.label().as_str());
            push_str(&mut s, " has no candidates");
        },
        Error::AlreadySolved(c, _) => {
            push_str(&mut s, c.label().as_str());
            push_str(&mut s, " is already solved");
        },
        Error::NotCandidate(c, k) => {
            push_str(&mut s, c.label().as_str());
            push_str(&mut s, " cannot be ");
            string_push(&mut s, (49u8 + k.get_index()) as char);
        },
    }
    s
}

/// How many actions use a technique is at most how many actions there are.
proof fn lemma_strategy_count_bound(actions: Seq<Action>, s: Strategy, n: nat)
    ensures
        strategy_count(actions, s, n) <= n,
    decreases n,
{
    if n > 0 {
        lemma_strategy_count_bound(actions, s, (n - 1) as nat);
    }
}

/// Matching actions change a board alike.
proof fn lemma_same_actions_models(m: BoardModel, a: Seq<Action>, b: Seq<Action>, s: Strategy, n: nat)
    requires
        same_actions(a, b),
        n <= a.len(),
    ensures
        strategy_model(m, a, s, n) == strategy_model(m, b, s, n),
    decreases n,
{
    if n > 0 {
        lemma_same_actions_models(m, a, b, s, (n - 1) as nat);
        assert(same_action(a[n - 1], b[n - 1]));
    }
}

} // verus!
