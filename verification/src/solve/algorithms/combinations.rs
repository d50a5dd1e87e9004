use vstd::prelude::*;

use itertools::Itertools;

verus! {

/// The `k`-element combinations of the positions `start..n`, in
/// lexicographic order: those that begin with `start`, then the others.
pub open spec fn lex_combinations(start: nat, n: nat, k: nat) -> Seq<Seq<usize>>
    decreases n - start,
{
    if k == 0 {
        seq![Seq::<usize>::empty()]
    } else if start >= n {
        Seq::empty()
    } else {
        lex_combinations(start + 1, n, (k - 1) as nat).map_values(|t: Seq<usize>| seq![start as usize] + t)
            + lex_combinations(start + 1, n, k)
    }
}

/// What `itertools::Itertools::combinations` yields on the positions
/// `0..n` taken `k` at a time: every combination, in lexicographic order.
pub open spec fn index_combinations(n: nat, k: nat) -> Seq<Seq<usize>> {
    lex_combinations(0, n, k)
}

/// `s` is a combination of `k` of the positions `0..n`: `k` positions
/// below `n` in increasing order.
pub open spec fn is_combination(s: Seq<usize>, n: nat, k: nat) -> bool {
    &&& s.len() == k
    &&& forall|a: int, b: int| 0 <= a < b < k ==> s[a] < s[b]
    &&& forall|a: int| 0 <= a < k ==> s[a] < n
}

/// The `k`-element combinations of the positions `0..n`
/// (`itertools::Itertools::combinations` on `0..n`, collected).
///
/// Trusted: the contract claims what the crate's documentation and source
/// show: the combinations come in lexicographic order (its index vector is
/// advanced from the right, as in its documented example), each item has
/// `k` positions, in increasing order, all below `n`, and every such
/// combination comes.
#[verifier::external_body]
pub(crate) fn combinations(n: usize, k: usize) -> (r: Vec<Vec<usize>>)
    ensures
        r.len() == index_combinations(n as nat, k as nat).len(),
        forall|i: int| 0 <= i < r.len() ==> (#[trigger] r[i])@ == index_combinations(n as nat, k as nat)[i],
        forall|i: int| 0 <= i < r.len() ==> (#[trigger] r[i]).len() == k,
        forall|i: int, a: int, b: int|
            0 <= i < r.len() && 0 <= a < b < k ==> #[trigger] r[i][a] < #[trigger] r[i][b],
        forall|i: int, a: int| 0 <= i < r.len() && 0 <= a < k ==> #[trigger] r[i][a] < n,
        forall|s: Seq<usize>|
            #[trigger] is_combination(s, n as nat, k as nat) ==> exists|i: int| 0 <= i < r.len() && r[i]@ == s,
{
    (0..n).combinations(k).collect()
}

} // verus!
