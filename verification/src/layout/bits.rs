use vstd::prelude::*;

verus! {

// ---------------------------------------------------------------------
// Finite sets of small naturals described by a predicate
// ---------------------------------------------------------------------

/// The naturals below `n` that satisfy `p`.
pub open spec fn below(p: spec_fn(nat) -> bool, n: nat) -> Set<nat> {
    Set::new(|i: nat| i < n && p(i))
}

/// How many naturals below `n` satisfy `p`.
pub open spec fn count_below(p: spec_fn(nat) -> bool, n: nat) -> nat
    decreases n,
{
    if n == 0 {
        0
    } else {
        count_below(p, (n - 1) as nat) + if p((n - 1) as nat) {
            1nat
        } else {
            0nat
        }
    }
}

pub proof fn lemma_below_len(p: spec_fn(nat) -> bool, n: nat)
    ensures
        below(p, n).finite(),
        below(p, n).len() == count_below(p, n),
    decreases n,
{
    if n == 0 {
        assert(below(p, 0) =~= Set::<nat>::empty());
    } else {
        let m = (n - 1) as nat;
        lemma_below_len(p, m);
        if p(m) {
            assert(below(p, n) =~= below(p, m).insert(m));
        } else {
            assert(below(p, n) =~= below(p, m));
        }
    }
}

pub proof fn lemma_count_below_bound(p: spec_fn(nat) -> bool, n: nat)
    ensures
        count_below(p, n) <= n,
    decreases n,
{
    if n > 0 {
        lemma_count_below_bound(p, (n - 1) as nat);
    }
}

// ---------------------------------------------------------------------
// 128-bit words holding sets of cells (bits 0..81)
// ---------------------------------------------------------------------

/// The word with the low 81 bits set.
pub const FULL81: u128 = 0x1_ffff_ffff_ffff_ffff_ffffu128;

/// Whether bit `i` of a 128-bit word is set.
pub open spec fn bit128(bits: u128, i: nat) -> bool {
    i < 128 && (bits >> (i as u128)) & 1u128 == 1u128
}

pub open spec fn pred128(bits: u128) -> spec_fn(nat) -> bool {
    |i: nat| bit128(bits, i)
}

/// The cell indices whose bits are set.
pub open spec fn set128(bits: u128) -> Set<nat> {
    below(pred128(bits), 81)
}

proof fn bv128_bits(a: u128, b: u128, k: u128, j: u128)
    by (bit_vector)
    requires
        k < 128,
        j < 128,
    ensures
        ((a | b) >> k) & 1u128 == 1u128 <==> ((a >> k) & 1u128 == 1u128 || (b >> k) & 1u128
            == 1u128),
        ((a & b) >> k) & 1u128 == 1u128 <==> ((a >> k) & 1u128 == 1u128 && (b >> k) & 1u128
            == 1u128),
        ((a & !b) >> k) & 1u128 == 1u128 <==> ((a >> k) & 1u128 == 1u128 && (b >> k) & 1u128
            != 1u128),
        ((1u128 << k) >> j) & 1u128 == 1u128 <==> j == k,
        (0x1_ffff_ffff_ffff_ffff_ffffu128 >> k) & 1u128 == 1u128 <==> k < 81,
        (a <= 0x1_ffff_ffff_ffff_ffff_ffffu128 && 81 <= k) ==> (a >> k) & 1u128 != 1u128,
        (0u128 >> k) & 1u128 == 0u128,
        !a & 0x1_ffff_ffff_ffff_ffff_ffffu128 == 0x1_ffff_ffff_ffff_ffff_ffffu128 & !a,
{
}


proof fn bv128_ops(a: u128, b: u128)
    by (bit_vector)
    ensures
        (a <= 0x1_ffff_ffff_ffff_ffff_ffffu128 && b <= 0x1_ffff_ffff_ffff_ffff_ffffu128) ==> a | b <= 0x1_ffff_ffff_ffff_ffff_ffffu128,
        a & b <= a,
        a & !b <= a,
        !a & 0x1_ffff_ffff_ffff_ffff_ffffu128 <= 0x1_ffff_ffff_ffff_ffff_ffffu128,
{
}

proof fn bv128_shifts(a: u128, k: u128)
    by (bit_vector)
    ensures
        k < 81 ==> (1u128 << k) <= 0x1_ffff_ffff_ffff_ffff_ffffu128,
        a <= 0x1_ffff_ffff_ffff_ffff_ffffu128 ==> a >> 81u128 == 0u128,
        a >> 0u128 == a,
{
}

proof fn bv128_ext_step(a: u128, b: u128, k: u128, m: u128)
    by (bit_vector)
    ensures
        (k == m + 1 && k <= 81 && b >> k == a >> k && ((a >> m) & 1u128 == 1u128) == ((b >> m)
            & 1u128 == 1u128)) ==> a >> m == b >> m,
{
}

pub proof fn lemma_bit128_or(a: u128, b: u128, i: nat)
    ensures
        bit128(a | b, i) == (bit128(a, i) || bit128(b, i)),
{
    if i < 128 {
        bv128_bits(a, b, i as u128, 0);
    }
}

pub proof fn lemma_bit128_and(a: u128, b: u128, i: nat)
    ensures
        bit128(a & b, i) == (bit128(a, i) && bit128(b, i)),
{
    if i < 128 {
        bv128_bits(a, b, i as u128, 0);
    }
}

pub proof fn lemma_bit128_and_not(a: u128, b: u128, i: nat)
    ensures
        bit128(a & !b, i) == (bit128(a, i) && !bit128(b, i)),
{
    if i < 128 {
        bv128_bits(a, b, i as u128, 0);
    }
}

pub proof fn lemma_bit128_single(k: u128, i: nat)
    requires
        k < 128,
    ensures
        bit128(1u128 << k, i) == (i == k),
{
    if i < 128 {
        bv128_bits(0, 0, k, i as u128);
    }
}

pub proof fn lemma_bit128_full(i: nat)
    ensures
        bit128(FULL81, i) == (i < 81),
{
    if i < 128 {
        bv128_bits(0, 0, i as u128, 0);
    }
}

pub proof fn lemma_bounds128(a: u128, b: u128)
    requires
        a <= FULL81,
        b <= FULL81,
    ensures
        a | b <= FULL81,
        a & b <= FULL81,
        a & !b <= FULL81,
        !a & FULL81 <= FULL81,
{
    bv128_ops(a, b);
        bv128_shifts(a, 0);
        bv128_ext_step(a, b, 0, 0);
}

pub proof fn lemma_single_bound128(k: u128)
    requires
        k < 81,
    ensures
        (1u128 << k) <= FULL81,
{
    bv128_ops(0, 0);
        bv128_shifts(0, k);
        bv128_ext_step(0, 0, k, 0);
}

proof fn lemma_ext128_from(a: u128, b: u128, n: nat)
    requires
        n <= 81,
        a >> (n as u128) == b >> (n as u128),
        forall|i: nat| i < n ==> bit128(a, i) == bit128(b, i),
    ensures
        a == b,
    decreases n,
{
    if n == 0 {
        bv128_ops(a, b);
        bv128_shifts(a, 0);
        bv128_ext_step(a, b, 0, 0);
        bv128_ops(b, a);
        bv128_shifts(b, 0);
        bv128_ext_step(b, a, 0, 0);
    } else {
        let k: u128 = n as u128;
        assert(bit128(a, (n - 1) as nat) == bit128(b, (n - 1) as nat));
        bv128_ops(a, b);
        bv128_shifts(a, k);
        bv128_ext_step(a, b, k, (n - 1) as u128);
        lemma_ext128_from(a, b, (n - 1) as nat);
    }
}

/// Two words within the 81-bit range that agree on every bit are equal.
pub proof fn lemma_ext128(a: u128, b: u128)
    requires
        a <= FULL81,
        b <= FULL81,
        set128(a) =~= set128(b),
    ensures
        a == b,
{
    assert forall|i: nat| i < 81 implies bit128(a, i) == bit128(b, i) by {
        assert(set128(a).contains(i) == set128(b).contains(i));
    }
    bv128_ops(a, 0);
        bv128_shifts(a, 0);
        bv128_ext_step(a, 0, 0, 0);
    bv128_ops(b, 0);
        bv128_shifts(b, 0);
        bv128_ext_step(b, 0, 0, 0);
    lemma_ext128_from(a, b, 81);
}

pub proof fn lemma_set128_union(a: u128, b: u128)
    ensures
        set128(a | b) =~= set128(a).union(set128(b)),
{
    assert forall|i: nat| #[trigger] set128(a | b).contains(i) == set128(a).union(
        set128(b),
    ).contains(i) by {
        lemma_bit128_or(a, b, i);
    }
}

pub proof fn lemma_set128_intersect(a: u128, b: u128)
    ensures
        set128(a & b) =~= set128(a).intersect(set128(b)),
{
    assert forall|i: nat| #[trigger] set128(a & b).contains(i) == set128(a).intersect(
        set128(b),
    ).contains(i) by {
        lemma_bit128_and(a, b, i);
    }
}

pub proof fn lemma_set128_difference(a: u128, b: u128)
    ensures
        set128(a & !b) =~= set128(a).difference(set128(b)),
{
    assert forall|i: nat| #[trigger] set128(a & !b).contains(i) == set128(a).difference(
        set128(b),
    ).contains(i) by {
        lemma_bit128_and_not(a, b, i);
    }
}

pub proof fn lemma_set128_complement(a: u128)
    ensures
        set128(!a & FULL81) =~= set128(FULL81).difference(set128(a)),
{
    assert forall|i: nat| #[trigger] set128(!a & FULL81).contains(i) == set128(
        FULL81,
    ).difference(set128(a)).contains(i) by {
        lemma_bit128_and_not(FULL81, a, i);
        lemma_bit128_and(!a, FULL81, i);
        bv128_bits(a, 0, 0, 0);
    }
}

pub proof fn lemma_set128_single(k: u128)
    requires
        k < 81,
    ensures
        set128(1u128 << k) =~= set![k as nat],
{
    assert forall|i: nat| #[trigger] set128(1u128 << k).contains(i) == set![k as nat].contains(i) by {
        lemma_bit128_single(k, i);
    }
}

pub proof fn lemma_set128_full()
    ensures
        set128(FULL81) =~= Set::new(|i: nat| i < 81),
{
    assert forall|i: nat| #[trigger] set128(FULL81).contains(i) == (i < 81) by {
        lemma_bit128_full(i);
    }
}

pub proof fn lemma_set128_zero()
    ensures
        set128(0u128) =~= Set::<nat>::empty(),
{
    assert forall|i: nat| !#[trigger] set128(0u128).contains(i) by {
        if i < 128 {
            bv128_bits(0, 0, i as u128, 0);
        }
    }
}

pub proof fn lemma_set128_finite(a: u128)
    ensures
        set128(a).finite(),
        set128(a).len() == count_below(pred128(a), 81),
        set128(a).len() <= 81,
        forall|i: nat| #[trigger] set128(a).contains(i) ==> i < 81,
{
    lemma_below_len(pred128(a), 81);
    lemma_count_below_bound(pred128(a), 81);
}

// ---------------------------------------------------------------------
// 16-bit words holding sets of nine elements (bits 0..9)
// ---------------------------------------------------------------------

/// The word with the low nine bits set.
pub const FULL9: u16 = 0x1ffu16;

/// Whether bit `i` of a 16-bit word is set.
pub open spec fn bit16(bits: u16, i: nat) -> bool {
    i < 16 && (bits >> (i as u16)) & 1u16 == 1u16
}

pub open spec fn pred16(bits: u16) -> spec_fn(nat) -> bool {
    |i: nat| bit16(bits, i)
}

/// The indices (0..9) whose bits are set.
pub open spec fn set16(bits: u16) -> Set<nat> {
    below(pred16(bits), 9)
}

proof fn bv16_bits(a: u16, b: u16, k: u16, j: u16)
    by (bit_vector)
    requires
        k < 16,
        j < 16,
    ensures
        ((a | b) >> k) & 1u16 == 1u16 <==> ((a >> k) & 1u16 == 1u16 || (b >> k) & 1u16
            == 1u16),
        ((a & b) >> k) & 1u16 == 1u16 <==> ((a >> k) & 1u16 == 1u16 && (b >> k) & 1u16
            == 1u16),
        ((a & !b) >> k) & 1u16 == 1u16 <==> ((a >> k) & 1u16 == 1u16 && (b >> k) & 1u16
            != 1u16),
        ((1u16 << k) >> j) & 1u16 == 1u16 <==> j == k,
        (0x1ffu16 >> k) & 1u16 == 1u16 <==> k < 9,
        (a <= 0x1ffu16 && 9 <= k) ==> (a >> k) & 1u16 != 1u16,
        (0u16 >> k) & 1u16 == 0u16,
        !a & 0x1ffu16 == 0x1ffu16 & !a,
{
}


proof fn bv16_ops(a: u16, b: u16)
    by (bit_vector)
    ensures
        (a <= 0x1ffu16 && b <= 0x1ffu16) ==> a | b <= 0x1ffu16,
        a & b <= a,
        a & !b <= a,
        !a & 0x1ffu16 <= 0x1ffu16,
{
}

proof fn bv16_shifts(a: u16, k: u16)
    by (bit_vector)
    ensures
        k < 9 ==> (1u16 << k) <= 0x1ffu16,
        a <= 0x1ffu16 ==> a >> 9u16 == 0u16,
        a >> 0u16 == a,
{
}

proof fn bv16_ext_step(a: u16, b: u16, k: u16, m: u16)
    by (bit_vector)
    ensures
        (k == m + 1 && k <= 9 && b >> k == a >> k && ((a >> m) & 1u16 == 1u16) == ((b >> m)
            & 1u16 == 1u16)) ==> a >> m == b >> m,
{
}

pub proof fn lemma_bit16_or(a: u16, b: u16, i: nat)
    ensures
        bit16(a | b, i) == (bit16(a, i) || bit16(b, i)),
{
    if i < 16 {
        bv16_bits(a, b, i as u16, 0);
    }
}

pub proof fn lemma_bit16_and(a: u16, b: u16, i: nat)
    ensures
        bit16(a & b, i) == (bit16(a, i) && bit16(b, i)),
{
    if i < 16 {
        bv16_bits(a, b, i as u16, 0);
    }
}

pub proof fn lemma_bit16_and_not(a: u16, b: u16, i: nat)
    ensures
        bit16(a & !b, i) == (bit16(a, i) && !bit16(b, i)),
{
    if i < 16 {
        bv16_bits(a, b, i as u16, 0);
    }
}

pub proof fn lemma_bit16_single(k: u16, i: nat)
    requires
        k < 16,
    ensures
        bit16(1u16 << k, i) == (i == k),
{
    if i < 16 {
        bv16_bits(0, 0, k, i as u16);
    }
}

pub proof fn lemma_bit16_full(i: nat)
    ensures
        bit16(FULL9, i) == (i < 9),
{
    if i < 16 {
        bv16_bits(0, 0, i as u16, 0);
    }
}

pub proof fn lemma_bounds16(a: u16, b: u16)
    requires
        a <= FULL9,
        b <= FULL9,
    ensures
        a | b <= FULL9,
        a & b <= FULL9,
        a & !b <= FULL9,
        !a & FULL9 <= FULL9,
{
    bv16_ops(a, b);
        bv16_shifts(a, 0);
        bv16_ext_step(a, b, 0, 0);
}

pub proof fn lemma_single_bound16(k: u16)
    requires
        k < 9,
    ensures
        (1u16 << k) <= FULL9,
{
    bv16_ops(0, 0);
        bv16_shifts(0, k);
        bv16_ext_step(0, 0, k, 0);
}

proof fn lemma_ext16_from(a: u16, b: u16, n: nat)
    requires
        n <= 9,
        a >> (n as u16) == b >> (n as u16),
        forall|i: nat| i < n ==> bit16(a, i) == bit16(b, i),
    ensures
        a == b,
    decreases n,
{
    if n == 0 {
        bv16_ops(a, b);
        bv16_shifts(a, 0);
        bv16_ext_step(a, b, 0, 0);
        bv16_ops(b, a);
        bv16_shifts(b, 0);
        bv16_ext_step(b, a, 0, 0);
    } else {
        let k: u16 = n as u16;
        assert(bit16(a, (n - 1) as nat) == bit16(b, (n - 1) as nat));
        bv16_ops(a, b);
        bv16_shifts(a, k);
        bv16_ext_step(a, b, k, (n - 1) as u16);
        lemma_ext16_from(a, b, (n - 1) as nat);
    }
}

/// Two words within the 9-bit range that agree on every bit are equal.
pub proof fn lemma_ext16(a: u16, b: u16)
    requires
        a <= FULL9,
        b <= FULL9,
        set16(a) =~= set16(b),
    ensures
        a == b,
{
    assert forall|i: nat| i < 9 implies bit16(a, i) == bit16(b, i) by {
        assert(set16(a).contains(i) == set16(b).contains(i));
    }
    bv16_ops(a, 0);
        bv16_shifts(a, 0);
        bv16_ext_step(a, 0, 0, 0);
    bv16_ops(b, 0);
        bv16_shifts(b, 0);
        bv16_ext_step(b, 0, 0, 0);
    lemma_ext16_from(a, b, 9);
}

pub proof fn lemma_set16_union(a: u16, b: u16)
    ensures
        set16(a | b) =~= set16(a).union(set16(b)),
{
    assert forall|i: nat| #[trigger] set16(a | b).contains(i) == set16(a).union(
        set16(b),
    ).contains(i) by {
        lemma_bit16_or(a, b, i);
    }
}

pub proof fn lemma_set16_intersect(a: u16, b: u16)
    ensures
        set16(a & b) =~= set16(a).intersect(set16(b)),
{
    assert forall|i: nat| #[trigger] set16(a & b).contains(i) == set16(a).intersect(
        set16(b),
    ).contains(i) by {
        lemma_bit16_and(a, b, i);
    }
}

pub proof fn lemma_set16_difference(a: u16, b: u16)
    ensures
        set16(a & !b) =~= set16(a).difference(set16(b)),
{
    assert forall|i: nat| #[trigger] set16(a & !b).contains(i) == set16(a).difference(
        set16(b),
    ).contains(i) by {
        lemma_bit16_and_not(a, b, i);
    }
}

pub proof fn lemma_set16_complement(a: u16)
    ensures
        set16(!a & FULL9) =~= set16(FULL9).difference(set16(a)),
{
    assert forall|i: nat| #[trigger] set16(!a & FULL9).contains(i) == set16(FULL9).difference(
        set16(a),
    ).contains(i) by {
        lemma_bit16_and(!a, FULL9, i);
        lemma_bit16_and_not(FULL9, a, i);
        bv16_bits(a, 0, 0, 0);
    }
}

pub proof fn lemma_set16_single(k: u16)
    requires
        k < 9,
    ensures
        set16(1u16 << k) =~= set![k as nat],
{
    assert forall|i: nat| #[trigger] set16(1u16 << k).contains(i) == set![k as nat].contains(i) by {
        lemma_bit16_single(k, i);
    }
}

pub proof fn lemma_set16_full()
    ensures
        set16(FULL9) =~= Set::new(|i: nat| i < 9),
{
    assert forall|i: nat| #[trigger] set16(FULL9).contains(i) == (i < 9) by {
        lemma_bit16_full(i);
    }
}

pub proof fn lemma_set16_zero()
    ensures
        set16(0u16) =~= Set::<nat>::empty(),
{
    assert forall|i: nat| !#[trigger] set16(0u16).contains(i) by {
        if i < 16 {
            bv16_bits(0, 0, i as u16, 0);
        }
    }
}

pub proof fn lemma_set16_finite(a: u16)
    ensures
        set16(a).finite(),
        set16(a).len() == count_below(pred16(a), 9),
        set16(a).len() <= 9,
        forall|i: nat| #[trigger] set16(a).contains(i) ==> i < 9,
{
    lemma_below_len(pred16(a), 9);
    lemma_count_below_bound(pred16(a), 9);
}

} // verus!
