use vstd::prelude::*;

use crate::layout::known::Known;

verus! {

/// The content of a cell: 0 when unknown, else a digit 1..=9.
#[derive(Clone, Copy, Debug, Default, Hash, PartialEq, Eq, Structural, PartialOrd, Ord)]
pub struct Value {
    value: u8,
}

impl View for Value {
    type V = nat;

    closed spec fn view(&self) -> nat {
        self.value as nat
    }
}

/// Equal values are exactly those with equal numbers.
pub broadcast proof fn lemma_value_view_injective(a: Value, b: Value)
    ensures
        (#[trigger] a@ == #[trigger] b@) <==> a == b,
{
}

impl Value {
    #[verifier::type_invariant]
    spec fn inv(self) -> bool {
        self.value <= 9
    }

    /// The value `value` (0 for unknown, else 1..=9).
    pub fn new(value: u8) -> (r: Self)
        requires
            value <= 9,
        ensures
            r@ == value,
    {
        Value { value }
    }

    /// The value of an empty cell.
    pub fn unknown() -> (r: Self)
        ensures
            r@ == 0,
    {
        Value { value: 0 }
    }

    /// The value holding the digit `known`.
    pub fn from_known(known: Known) -> (r: Self)
        ensures
            r@ == known@ + 1,
    {
        Value { value: known.get_index() + 1 }
    }

    /// The number 0..=9.
    pub fn value(&self) -> (r: u8)
        ensures
            r == self@,
            r <= 9,
    {
        proof {
            use_type_invariant(self);
        }
        self.value
    }

    /// The number 0..=9.
    pub fn raw(&self) -> (r: u8)
        ensures
            r == self@,
            r <= 9,
    {
        self.value()
    }

    pub fn is_known(&self) -> (r: bool)
        ensures
            r == (self@ != 0),
    {
        self.value() != 0
    }

    pub fn is_unknown(&self) -> (r: bool)
        ensures
            r == (self@ == 0),
    {
        self.value() == 0
    }

    /// The digit, if the value is one.
    pub fn known(&self) -> (r: Option<Known>)
        ensures
            match r {
                Some(k) => self@ != 0 && k@ == self@ - 1,
                None => self@ == 0,
            },
    {
        let v: u8 = self.value();
        if v == 0 {
            None
        } else {
            Some(Known::new(v))
        }
    }
}

} // verus!
