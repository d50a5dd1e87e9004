use vstd::prelude::*;

use crate::layout::bits::{
    count_below, lemma_bounds16, lemma_ext16, lemma_set16_complement, lemma_set16_difference,
    lemma_set16_finite, lemma_set16_full, lemma_set16_intersect, lemma_set16_single,
    lemma_set16_union, lemma_set16_zero, lemma_single_bound16, pred16, set16, FULL9,
};
use crate::layout::known::{lemma_known_view_injective, Known, KnownLike};
use crate::layout::set_lemmas::{is_least, lemma_len1};

verus! {

broadcast use lemma_known_view_injective;

/// A set of digits, one bit per digit.
#[derive(Clone, Copy, Debug, Hash, PartialEq, Eq, Structural, PartialOrd, Ord)]
pub struct KnownSet {
    bits: u16,
}

impl View for KnownSet {
    type V = Set<nat>;

    closed spec fn view(&self) -> Set<nat> {
        set16(self.bits)
    }
}

/// The nine digit indices.
pub open spec fn all_knowns() -> Set<nat> {
    Set::new(|i: nat| i < 9)
}

/// Every digit set holds only digit indices and is finite.
pub broadcast proof fn lemma_known_set_bounded(s: KnownSet)
    ensures
        #![trigger s@]
        s@.finite(),
        s@.len() <= 9,
        forall|i: nat| #[trigger] s@.contains(i) ==> i < 9,
{
    lemma_set16_finite(s.bits);
}

impl Default for KnownSet {
    fn default() -> (r: Self)
        ensures
            r@ == Set::<nat>::empty(),
    {
        Self::empty()
    }
}

impl KnownSet {
    #[verifier::type_invariant]
    spec fn inv(self) -> bool {
        self.bits <= FULL9
    }

    fn from_bits(bits: u16) -> (r: Self)
        requires
            bits <= FULL9,
        ensures
            r@ == set16(bits),
    {
        KnownSet { bits }
    }

    /// The raw nine-bit word.
    pub fn bits(&self) -> (r: u16)
        ensures
            set16(r) == self@,
            r <= FULL9,
    {
        proof {
            use_type_invariant(self);
        }
        self.bits
    }

    pub fn empty() -> (r: Self)
        ensures
            r@ == Set::<nat>::empty(),
    {
        proof {
            lemma_set16_zero();
        }
        KnownSet { bits: 0 }
    }

    pub fn full() -> (r: Self)
        ensures
            r@ == all_knowns(),
    {
        proof {
            lemma_set16_full();
        }
        KnownSet { bits: FULL9 }
    }

    /// Whether both sets have the same members.
    pub fn equals(&self, other: &KnownSet) -> (r: bool)
        ensures
            r == (self@ == other@),
    {
        let a: u16 = self.bits();
        let b: u16 = other.bits();
        proof {
            if self@ == other@ {
                lemma_ext16(a, b);
            }
        }
        a == b
    }

    pub fn is_empty(&self) -> (r: bool)
        ensures
            r == (self@ == Set::<nat>::empty()),
    {
        let b: u16 = self.bits();
        proof {
            lemma_set16_zero();
            if self@ == Set::<nat>::empty() {
                lemma_ext16(b, 0);
            }
        }
        b == 0
    }

    pub fn is_full(&self) -> (r: bool)
        ensures
            r == (self@ == all_knowns()),
    {
        let b: u16 = self.bits();
        proof {
            lemma_set16_full();
            if self@ == all_knowns() {
                lemma_ext16(b, FULL9);
            }
        }
        b == FULL9
    }

    pub fn len(&self) -> (r: usize)
        ensures
            r == self@.len(),
            r <= 9,
    {
        let b: u16 = self.bits();
        let mut count: usize = 0;
        let mut i: u8 = 0;
        while i < 9
            invariant
                i <= 9,
                count == count_below(pred16(b), i as nat),
                count <= i,
            decreases 9 - i,
        {
            if (b >> (i as u16)) & 1u16 == 1u16 {
                count = count + 1;
            }
            i = i + 1;
        }
        proof {
            lemma_set16_finite(b);
        }
        count
    }

    pub fn has(&self, known: Known) -> (r: bool)
        ensures
            r == self@.contains(known@),
    {
        let b: u16 = self.bits();
        let i: u8 = known.get_index();
        (b >> (i as u16)) & 1u16 == 1u16
    }

    pub fn with(&self, known: Known) -> (r: Self)
        ensures
            r@ == self@.insert(known@),
    {
        let b: u16 = self.bits();
        let i: u8 = known.get_index();
        proof {
            lemma_set16_single(i as u16);
            lemma_single_bound16(i as u16);
            lemma_set16_union(b, 1u16 << (i as u16));
            lemma_bounds16(b, 1u16 << (i as u16));
            assert(set16(b | (1u16 << (i as u16))) =~= self@.insert(known@));
        }
        KnownSet { bits: b | (1u16 << (i as u16)) }
    }

    pub fn add(&mut self, known: Known)
        ensures
            final(self)@ == old(self)@.insert(known@),
    {
        *self = self.with(known);
    }

    pub fn without(&self, known: Known) -> (r: Self)
        ensures
            r@ == self@.remove(known@),
    {
        let b: u16 = self.bits();
        let i: u8 = known.get_index();
        proof {
            lemma_set16_single(i as u16);
            lemma_single_bound16(i as u16);
            lemma_set16_difference(b, 1u16 << (i as u16));
            lemma_bounds16(b, 1u16 << (i as u16));
            assert(set16(b & !(1u16 << (i as u16))) =~= self@.remove(known@));
        }
        KnownSet { bits: b & !(1u16 << (i as u16)) }
    }

    pub fn remove(&mut self, known: Known)
        ensures
            final(self)@ == old(self)@.remove(known@),
    {
        *self = self.without(known);
    }

    pub fn union(&self, set: Self) -> (r: Self)
        ensures
            r@ == self@.union(set@),
    {
        let a: u16 = self.bits();
        let b: u16 = set.bits();
        proof {
            lemma_set16_union(a, b);
            lemma_bounds16(a, b);
        }
        Self::from_bits(a | b)
    }

    pub fn intersect(&self, set: Self) -> (r: Self)
        ensures
            r@ == self@.intersect(set@),
    {
        let a: u16 = self.bits();
        let b: u16 = set.bits();
        proof {
            lemma_set16_intersect(a, b);
            lemma_bounds16(a, b);
        }
        Self::from_bits(a & b)
    }

    pub fn minus(&self, set: Self) -> (r: Self)
        ensures
            r@ == self@.difference(set@),
    {
        let a: u16 = self.bits();
        let b: u16 = set.bits();
        proof {
            lemma_set16_difference(a, b);
            lemma_bounds16(a, b);
        }
        Self::from_bits(a & !b)
    }

    pub fn inverted(&self) -> (r: Self)
        ensures
            r@ == all_knowns().difference(self@),
    {
        let a: u16 = self.bits();
        proof {
            lemma_set16_complement(a);
            lemma_set16_full();
            lemma_bounds16(a, a);
        }
        Self::from_bits(!a & FULL9)
    }

    pub fn has_any(&self, set: KnownSet) -> (r: bool)
        ensures
            r == !self@.disjoint(set@),
    {
        let i = self.intersect(set);
        let e = i.is_empty();
        proof {
            if e {
                assert forall|x: nat| self@.contains(x) implies !set@.contains(x) by {
                    assert(!i@.contains(x));
                }
            } else {
                assert(!(i@ =~= Set::<nat>::empty()));
            }
        }
        !e
    }

    pub fn has_all(&self, subset: KnownSet) -> (r: bool)
        ensures
            r == subset@.subset_of(self@),
    {
        let i = self.intersect(subset);
        proof {
            if subset@.subset_of(self@) {
                assert(i@ =~= subset@);
            }
        }
        i.equals(&subset)
    }

    pub fn is_subset_of(&self, superset: KnownSet) -> (r: bool)
        ensures
            r == self@.subset_of(superset@),
    {
        let i = self.intersect(superset);
        proof {
            if self@.subset_of(superset@) {
                assert(i@ =~= self@);
            }
        }
        i.equals(self)
    }

    /// The lowest digit, if any.
    pub fn first(&self) -> (r: Option<Known>)
        ensures
            match r {
                Some(k) => is_least(self@, k@),
                None => self@ == Set::<nat>::empty(),
            },
    {
        let b: u16 = self.bits();
        let mut i: u8 = 0;
        while i < 9
            invariant
                i <= 9,
                set16(b) == self@,
                forall|j: nat| j < i ==> !#[trigger] self@.contains(j),
            decreases 9 - i,
        {
            if (b >> (i as u16)) & 1u16 == 1u16 {
                return Some(Known::from_index(i));
            }
            i = i + 1;
        }
        proof {
            lemma_known_set_bounded(*self);
            assert(self@ =~= Set::<nat>::empty());
        }
        None
    }

    /// Removes and returns the highest digit.
    pub fn pop(&mut self) -> (r: Option<Known>)
        ensures
            match r {
                Some(k) => old(self)@.contains(k@) && (forall|x: nat| #[trigger] old(self)@.contains(
                    x,
                ) ==> x <= k@) && final(self)@ == old(self)@.remove(k@),
                None => old(self)@ == Set::<nat>::empty() && final(self)@ == old(self)@,
            },
    {
        let b: u16 = self.bits();
        let mut i: u8 = 9;
        while i > 0
            invariant
                i <= 9,
                set16(b) == old(self)@,
                *self == *old(self),
                forall|j: nat| i <= j ==> !#[trigger] old(self)@.contains(j),
            decreases i,
        {
            i = i - 1;
            if (b >> (i as u16)) & 1u16 == 1u16 {
                let k = Known::from_index(i);
                self.remove(k);
                return Some(k);
            }
        }
        proof {
            assert(old(self)@ =~= Set::<nat>::empty());
        }
        None
    }

    /// The only digit, if there is exactly one.
    pub fn as_single(&self) -> (r: Option<Known>)
        ensures
            r is Some <==> self@.len() == 1,
            r matches Some(k) ==> self@ == set![k@],
    {
        if self.len() != 1 {
            None
        } else {
            let k = self.first().unwrap();
            proof {
                lemma_known_set_bounded(*self);
                lemma_len1(self@, k@);
            }
            Some(k)
        }
    }

    /// The two digits in order, if there are exactly two.
    pub fn as_pair(&self) -> (r: Option<(Known, Known)>)
        ensures
            r is Some <==> self@.len() == 2,
            r matches Some((a, b)) ==> a@ < b@ && self@ == set![a@, b@],
    {
        if self.len() != 2 {
            None
        } else {
            let first = self.first().unwrap();
            let rest = self.without(first);
            proof {
                lemma_known_set_bounded(*self);
                lemma_known_set_bounded(rest);
            }
            let second = rest.first().unwrap();
            proof {
                lemma_len1(rest@, second@);
                assert(self@ =~= set![first@, second@]);
            }
            Some((first, second))
        }
    }

    /// The digits in increasing order.
    pub fn to_vec(&self) -> (r: Vec<Known>)
        ensures
            forall|i: int, j: int| 0 <= i < j < r.len() ==> r[i]@ < r[j]@,
            forall|i: int| 0 <= i < r.len() ==> self@.contains(#[trigger] r[i]@),
            forall|x: nat| self@.contains(x) ==> exists|i: int| 0 <= i < r.len() && (#[trigger] r[i])@ == x,
            r.len() == self@.len(),
    {
        let b: u16 = self.bits();
        let mut v: Vec<Known> = Vec::new();
        let mut i: u8 = 0;
        while i < 9
            invariant
                i <= 9,
                set16(b) == self@,
                forall|k: int, j: int| 0 <= k < j < v.len() ==> v[k]@ < v[j]@,
                forall|k: int| 0 <= k < v.len() ==> self@.contains(#[trigger] v[k]@) && v[k]@ < i,
                forall|x: nat| x < i && self@.contains(x) ==> exists|k: int| 0 <= k < v.len() && (#[trigger] v[k])@ == x,
                v.len() == count_below(pred16(b), i as nat),
            decreases 9 - i,
        {
            let ghost old_v = v@;
            if (b >> (i as u16)) & 1u16 == 1u16 {
                v.push(Known::from_index(i));
            }
            proof {
                assert forall|x: nat| x < i + 1 && self@.contains(x) implies exists|k: int|
                    0 <= k < v.len() && (#[trigger] v[k])@ == x by {
                    if x == i {
                        assert(v[v.len() - 1]@ == x);
                    } else {
                        let k = choose|k: int| 0 <= k < old_v.len() && (#[trigger] old_v[k])@ == x;
                        assert(v[k] == old_v[k]);
                    }
                }
            }
            i = i + 1;
        }
        proof {
            lemma_set16_finite(b);
            lemma_known_set_bounded(*self);
        }
        v
    }
}

} // verus!
