use vstd::prelude::*;

verus! {

/// Appends one character to a `String` (`String::push`).
///
/// Trusted: the contract claims only what the standard library documents,
/// that the character is appended at the end.
#[verifier::external_body]
pub(crate) fn string_push(s: &mut String, c: char)
    ensures
        final(s)@ == old(s)@.push(c),
{
    s.push(c);
}

/// ASCII whitespace, the separators between labels.
pub open spec fn is_space(c: char) -> bool {
    c == ' ' || c == '\t' || c == '\n' || c == '\r' || c == '\x0B' || c == '\x0C'
}

pub fn char_is_space(c: char) -> (r: bool)
    ensures
        r == is_space(c),
{
    c == ' ' || c == '\t' || c == '\n' || c == '\r' || c == '\x0B' || c == '\x0C'
}

/// The decimal digits of `n` with at least two places (`{:02}`).
pub open spec fn two_digits(n: nat) -> Seq<char>
    recommends
        n < 100,
{
    seq![(('0' as nat) + n / 10) as char, (('0' as nat) + n % 10) as char]
}

/// Appends the two-place decimal form of `n` (below 100).
pub fn push_two_digits(s: &mut String, n: u8)
    requires
        n < 100,
    ensures
        final(s)@ == old(s)@ + two_digits(n as nat),
{
    let tens: u8 = 48u8 + n / 10;
    let ones: u8 = 48u8 + n % 10;
    string_push(s, tens as char);
    string_push(s, ones as char);
    assert(s@ =~= old(s)@ + two_digits(n as nat));
}

} // verus!
