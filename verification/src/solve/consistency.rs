use vstd::prelude::*;

use crate::layout::cell::peers_of;
use crate::solve::action::{action_model, apply_erases, apply_sets, set_step, Action, BoardModel};
use crate::solve::board::{cands_after_set, Board};

verus! {

/// No known digit repeats among a cell's peers, and no peer of a known cell
/// keeps its digit as a candidate.
pub open spec fn consistent(m: BoardModel) -> bool {
    forall|c: nat, p: nat|
        #![trigger peers_of(c).contains(p), m.0[c as int]]
        c < 81 && m.0[c as int] != 0 && peers_of(c).contains(p) ==> m.0[p as int] != m.0[c as int]
            && !m.1[p as int].contains((m.0[c as int] - 1) as nat)
}

/// The model of a board: its values and candidates.
pub open spec fn model_of(b: Board) -> BoardModel {
    (b.values_spec(), b.cands_spec())
}

/// Peers see each other.
proof fn lemma_peers_symmetric(c: nat, p: nat)
    requires
        c < 81,
        peers_of(c).contains(p),
    ensures
        peers_of(p).contains(c),
{
}

/// Setting a digit keeps a board consistent.
pub proof fn lemma_set_step_consistent(m: BoardModel, c: nat, k: nat)
    requires
        m.0.len() == 81,
        m.1.len() == 81,
        consistent(m),
        c < 81,
    ensures
        consistent(set_step(m, c, k)),
        set_step(m, c, k).0.len() == 81,
        set_step(m, c, k).1.len() == 81,
{
    if m.0[c as int] == 0 && m.1[c as int].contains(k) {
        let n = set_step(m, c, k);
        assert(n.0 == m.0.update(c as int, k + 1));
        assert(n.1 == cands_after_set(m.1, c, k));
        assert forall|x: nat, p: nat|
            #![trigger peers_of(x).contains(p), n.0[x as int]]
            x < 81 && n.0[x as int] != 0 && peers_of(x).contains(p) implies n.0[p as int] != n.0[x as int]
                && !n.1[p as int].contains((n.0[x as int] - 1) as nat) by {
            assert(p < 81 && p != x);
            if x == c {
                assert(n.0[x as int] == k + 1);
                assert(n.1[p as int] == m.1[p as int].remove(k));
                if m.0[p as int] == k + 1 {
                    lemma_peers_symmetric(c, p);
                    assert(peers_of(p).contains(c));
                    assert(!m.1[c as int].contains((m.0[p as int] - 1) as nat));
                }
            } else {
                if p == c {
                    lemma_peers_symmetric(x, c);
                    assert(n.1[p as int] == Set::<nat>::empty());
                    assert(n.0[p as int] == k + 1);
                } else {
                    assert(n.0[p as int] == m.0[p as int]);
                    assert(n.1[p as int].subset_of(m.1[p as int]));
                }
            }
        }
    }
}

/// Applying the sets of the first `n` cells keeps a board consistent.
pub proof fn lemma_apply_sets_consistent(m: BoardModel, sets: Seq<nat>, n: nat)
    requires
        m.0.len() == 81,
        m.1.len() == 81,
        consistent(m),
        n <= 81,
    ensures
        consistent(apply_sets(m, sets, n)),
        apply_sets(m, sets, n).0.len() == 81,
        apply_sets(m, sets, n).1.len() == 81,
    decreases n,
{
    if n > 0 {
        lemma_apply_sets_consistent(m, sets, (n - 1) as nat);
        let prev = apply_sets(m, sets, (n - 1) as nat);
        if sets[n - 1] != 0 {
            lemma_set_step_consistent(prev, (n - 1) as nat, (sets[n - 1] - 1) as nat);
        }
    }
}

/// Any action keeps a board consistent: it sets only candidates, which no
/// known peer holds, and it only ever takes candidates away.
pub proof fn lemma_action_keeps_consistent(m: BoardModel, a: Action)
    requires
        m.0.len() == 81,
        m.1.len() == 81,
        consistent(m),
    ensures
        consistent(action_model(m, a)),
{
    lemma_apply_sets_consistent(m, a.sets_spec(), 81);
    let after = apply_sets(m, a.sets_spec(), 81);
    let r = action_model(m, a);
    assert(r.0 == after.0);
    assert(r.1 == apply_erases(after.1, a.erases_spec()));
    assert forall|c: nat, p: nat|
        #![trigger peers_of(c).contains(p), r.0[c as int]]
        c < 81 && r.0[c as int] != 0 && peers_of(c).contains(p) implies r.0[p as int] != r.0[c as int]
            && !r.1[p as int].contains((r.0[c as int] - 1) as nat) by {
    }
}

/// Setting a digit keeps a board consistent.
pub proof fn lemma_set_keeps_consistent(m: BoardModel, c: nat, k: nat)
    requires
        m.0.len() == 81,
        m.1.len() == 81,
        consistent(m),
        c < 81,
    ensures
        consistent(set_step(m, c, k)),
{
    lemma_set_step_consistent(m, c, k);
}

/// A board without known values is consistent, whatever its candidates.
pub proof fn lemma_empty_consistent(m: BoardModel)
    requires
        forall|i: int| 0 <= i < 81 ==> #[trigger] m.0[i] == 0,
    ensures
        consistent(m),
{
}

} // verus!
