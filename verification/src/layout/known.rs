use vstd::prelude::*;

use crate::layout::bits::{lemma_set16_single, lemma_single_bound16, set16, FULL9};
use crate::layout::coord::digit_char;
use crate::layout::text::string_push;
use crate::layout::value::Value;
use crate::layout::known_set::{all_knowns, KnownSet};

verus! {

/// One of the nine digits a cell can hold, stored as its index 0..9
/// (digit 1 is index 0).
#[derive(Clone, Copy, Debug, Default, Hash, PartialEq, Eq, Structural, PartialOrd, Ord)]
pub struct Known {
    index: u8,
}

impl View for Known {
    type V = nat;

    closed spec fn view(&self) -> nat {
        self.index as nat
    }
}

/// Equal digits are exactly those with equal indices.
pub broadcast proof fn lemma_known_view_injective(a: Known, b: Known)
    ensures
        (#[trigger] a@ == #[trigger] b@) <==> a == b,
{
}

/// The message for a character or string that is not a digit 1..=9.
pub open spec fn invalid_digit_message(label: Seq<char>) -> Seq<char> {
    seq!['I', 'n', 'v', 'a', 'l', 'i', 'd', ' ', 'd', 'i', 'g', 'i', 't', ' ', '"'] + label + seq![
        '"',
    ]
}

/// The index of a digit character '1'..='9'.
pub open spec fn known_of_char(c: char) -> Option<nat> {
    if '1' <= c && c <= '9' {
        Some((c as nat - '1' as nat) as nat)
    } else {
        None
    }
}

/// Behaviour shared by digit-like values.
pub trait KnownLike: Copy {
    spec fn known_index(self) -> nat;

    /// The index 0..9 of the digit.
    fn index(self) -> (r: u8)
        ensures
            r == self.known_index(),
            r < 9,
    ;

    fn usize(self) -> (r: usize)
        ensures
            r == self.known_index(),
            r < 9,
    {
        self.index() as usize
    }

    /// The single bit standing for the digit in a nine-bit set.
    fn bit(self) -> (r: u16)
        ensures
            r <= FULL9,
            set16(r) == set![self.known_index()],
    {
        let i: u8 = self.index();
        proof {
            lemma_set16_single(i as u16);
            lemma_single_bound16(i as u16);
        }
        1u16 << (i as u16)
    }

    /// The cell value holding the digit.
    fn value(self) -> (r: Value)
        ensures
            r@ == self.known_index() + 1,
    {
        Value::new(self.index() + 1)
    }

    /// The digit character '1'..='9'.
    fn label(self) -> (r: char)
        ensures
            r == digit_char(self.known_index()),
    {
        let i: u8 = self.index();
        (49u8 + i) as char
    }

    /// The digit as it is highlighted on a console.
    fn highlight(self) -> (r: char)
        ensures
            r == digit_char(self.known_index()),
    {
        self.label()
    }
}

impl KnownLike for Known {
    closed spec fn known_index(self) -> nat {
        self.index as nat
    }

    fn index(self) -> (r: u8) {
        proof {
            use_type_invariant(&self);
        }
        self.index
    }
}

/// The digits seen through the trait are the digits themselves.
pub broadcast proof fn lemma_known_index(k: Known)
    ensures
        #[trigger] k.known_index() == k@,
{
}

impl Known {
    pub const COUNT: u8 = 9;

    #[verifier::type_invariant]
    spec fn inv(self) -> bool {
        self.index < 9
    }

    /// The digit `value` (1..=9).
    pub fn new(value: u8) -> (r: Self)
        requires
            1 <= value <= 9,
        ensures
            r@ == value - 1,
    {
        Known { index: value - 1 }
    }

    /// The digit with index `index` (0..9).
    pub fn from_index(index: u8) -> (r: Self)
        requires
            index < 9,
        ensures
            r@ == index,
    {
        Known { index }
    }

    /// An iterator over the nine digits in order.
    pub fn iter() -> (r: KnownIter)
        ensures
            r@ == 0,
    {
        KnownIter::new()
    }

    /// The nine digits in order.
    pub fn all() -> (r: Vec<Known>)
        ensures
            r.len() == 9,
            forall|i: int| 0 <= i < 9 ==> (#[trigger] r[i])@ == i,
    {
        let mut v: Vec<Known> = Vec::new();
        let mut i: u8 = 0;
        while i < 9
            invariant
                i <= 9,
                v.len() == i,
                forall|j: int| 0 <= j < i ==> (#[trigger] v[j])@ == j,
            decreases 9 - i,
        {
            v.push(Known { index: i });
            i = i + 1;
        }
        v
    }

    /// The set of this digit and `other`.
    pub fn plus(self, other: Known) -> (r: KnownSet)
        ensures
            r@ == set![self@, other@],
    {
        let s = KnownSet::empty().with(self).with(other);
        proof {
            assert(s@ =~= set![self@, other@]);
        }
        s
    }

    /// The set of every digit but this one.
    pub fn negated(self) -> (r: KnownSet)
        ensures
            r@ == all_knowns().remove(self@),
    {
        KnownSet::full().without(self)
    }

    /// The index of this digit.
    pub fn get_index(&self) -> (r: u8)
        ensures
            r == self@,
            r < 9,
    {
        proof {
            use_type_invariant(self);
        }
        self.index
    }

    /// The digit written as `label`, or the message naming it.
    pub fn try_from_char(label: char) -> (r: Result<Self, String>)
        ensures
            match r {
                Ok(k) => known_of_char(label) == Some(k@),
                Err(e) => known_of_char(label) is None && e@ == invalid_digit_message(seq![label]),
            },
    {
        if '1' <= label && label <= '9' {
            Ok(Known { index: (label as u32 - 49u32) as u8 })
        } else {
            let mut e = String::from_str("Invalid digit \"");
            string_push(&mut e, label);
            string_push(&mut e, '"');
            proof {
                reveal_strlit("Invalid digit \"");
                assert(e@ =~= invalid_digit_message(seq![label]));
            }
            Err(e)
        }
    }

    /// The digit written as the first character of `label`, or the
    /// message naming the string when it is empty or starts otherwise.
    pub fn try_from_str(label: &str) -> (r: Result<Self, String>)
        ensures
            match r {
                Ok(k) => label@.len() > 0 && known_of_char(label@[0]) == Some(k@),
                Err(e) => (label@.len() == 0 && e@ == invalid_digit_message(label@)) || (label@.len()
                    > 0 && known_of_char(label@[0]) is None && e@ == invalid_digit_message(
                    seq![label@[0]],
                )),
            },
    {
        if label.unicode_len() == 0 {
            let mut e = String::from_str("Invalid digit \"");
            e.append(label);
            string_push(&mut e, '"');
            proof {
                reveal_strlit("Invalid digit \"");
                assert(e@ =~= invalid_digit_message(label@));
            }
            Err(e)
        } else {
            Self::try_from_char(label.get_char(0))
        }
    }

    /// The digit written as `label`.
    pub fn from_char(label: char) -> (r: Self)
        requires
            known_of_char(label) is Some,
        ensures
            known_of_char(label) == Some(r@),
    {
        Known { index: (label as u32 - 49u32) as u8 }
    }

    /// The digit written as the first character of `label`.
    pub fn from_str(label: &str) -> (r: Self)
        requires
            label@.len() > 0,
            known_of_char(label@[0]) is Some,
        ensures
            known_of_char(label@[0]) == Some(r@),
    {
        Self::from_char(label.get_char(0))
    }

    /// The digit written as the first character of `label`.
    pub fn from_string(label: String) -> (r: Self)
        requires
            label@.len() > 0,
            known_of_char(label@[0]) is Some,
        ensures
            known_of_char(label@[0]) == Some(r@),
    {
        Self::from_str(label.as_str())
    }
}

/// An iterator over the digits from a given index on.
pub struct KnownIter {
    next_index: u8,
}

impl View for KnownIter {
    type V = nat;

    closed spec fn view(&self) -> nat {
        self.next_index as nat
    }
}

impl KnownIter {
    #[verifier::type_invariant]
    spec fn inv(self) -> bool {
        self.next_index <= 9
    }

    pub fn new() -> (r: Self)
        ensures
            r@ == 0,
    {
        KnownIter { next_index: 0 }
    }

    /// The next digit, if any remain.
    pub fn next(&mut self) -> (r: Option<Known>)
        ensures
            old(self)@ < 9 ==> r == Some(Known::spec_from_index(old(self)@)) && final(self)@ == old(
                self,
            )@ + 1,
            old(self)@ >= 9 ==> r is None && final(self)@ == old(self)@,
            final(self)@ <= 9,
    {
        proof {
            use_type_invariant(&*self);
        }
        if self.next_index < 9 {
            let k = Known { index: self.next_index };
            self.next_index = self.next_index + 1;
            Some(k)
        } else {
            None
        }
    }

    /// How many digits remain.
    pub fn len(&self) -> (r: usize)
        ensures
            r == 9 - self@,
    {
        proof {
            use_type_invariant(self);
        }
        9 - self.next_index as usize
    }
}

impl Known {
    /// The digit with index `i`, in specifications.
    pub closed spec fn spec_from_index(i: nat) -> Known {
        Known { index: i as u8 }
    }

    pub broadcast proof fn lemma_spec_from_index(i: nat)
        requires
            i < 9,
        ensures
            (#[trigger] Known::spec_from_index(i))@ == i,
    {
    }
}

} // verus!
