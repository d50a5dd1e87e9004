use vstd::prelude::*;

verus! {

/// `m` is the least element of `s`.
pub open spec fn is_least(s: Set<nat>, m: nat) -> bool {
    s.contains(m) && forall|x: nat| #[trigger] s.contains(x) ==> m <= x
}

pub proof fn lemma_len0_empty(s: Set<nat>)
    requires
        s.finite(),
        s.len() == 0,
    ensures
        s =~= Set::<nat>::empty(),
{
    assert forall|x: nat| !s.contains(x) by {
        if s.contains(x) {
            assert(s.remove(x).len() == s.len() - 1);
        }
    }
}

pub proof fn lemma_len1(s: Set<nat>, a: nat)
    requires
        s.finite(),
        s.len() == 1,
        s.contains(a),
    ensures
        s =~= set![a],
{
    lemma_len0_empty(s.remove(a));
    assert forall|x: nat| s.contains(x) implies x == a by {
        if x != a {
            assert(s.remove(a).contains(x));
        }
    }
}

pub proof fn lemma_singleton_len(a: nat)
    ensures
        set![a].finite(),
        set![a].len() == 1,
{
    assert(set![a] =~= Set::<nat>::empty().insert(a));
}

pub proof fn lemma_triple_len(a: nat, b: nat, c: nat)
    requires
        a != b,
        a != c,
        b != c,
    ensures
        set![a, b, c].finite(),
        set![a, b, c].len() == 3,
{
    assert(set![a, b, c] =~= Set::<nat>::empty().insert(a).insert(b).insert(c));
}

/// A set that is not empty holds what `choose` picks from it.
pub proof fn lemma_nonempty_choose(s: Set<nat>)
    requires
        s != Set::<nat>::empty(),
    ensures
        s.contains(s.choose()),
{
    if !(exists|x: nat| s.contains(x)) {
        assert(s =~= Set::<nat>::empty());
    }
}

} // verus!
