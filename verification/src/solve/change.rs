use vstd::prelude::*;

verus! {

/// What applying something to a board did.
#[derive(Clone, Copy, Debug, PartialEq, Eq, Structural)]
pub enum Change {
    /// Nothing changed.
    Nothing,
    /// The board changed without contradiction.
    Valid,
    /// The board met a contradiction.
    Invalid,
}

/// Two changes taken together: a contradiction in either is one in both;
/// otherwise a change in either is a change.
pub open spec fn combine(a: Change, b: Change) -> Change {
    if a is Invalid || b is Invalid {
        Change::Invalid
    } else if a is Valid || b is Valid {
        Change::Valid
    } else {
        Change::Nothing
    }
}

impl Change {
    /// This change and `other` taken together.
    pub fn and(self, other: Change) -> (r: Change)
        ensures
            r == combine(self, other),
    {
        match (self, other) {
            (Change::Invalid, _) | (_, Change::Invalid) => Change::Invalid,
            (Change::Valid, _) | (_, Change::Valid) => Change::Valid,
            _ => Change::Nothing,
        }
    }

    pub fn is_nothing(self) -> (r: bool)
        ensures
            r == self is Nothing,
    {
        matches!(self, Change::Nothing)
    }

    pub fn is_valid(self) -> (r: bool)
        ensures
            r == self is Valid,
    {
        matches!(self, Change::Valid)
    }

    pub fn is_invalid(self) -> (r: bool)
        ensures
            r == self is Invalid,
    {
        matches!(self, Change::Invalid)
    }
}

/// Taking changes together is commutative and associative, and no change
/// leaves the other as it is.
pub proof fn lemma_combine_laws(a: Change, b: Change, c: Change)
    ensures
        combine(a, b) == combine(b, a),
        combine(combine(a, b), c) == combine(a, combine(b, c)),
        combine(Change::Nothing, a) == a,
{
}

} // verus!
