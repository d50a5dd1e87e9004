use vstd::prelude::*;

use crate::layout::text::string_push;
use crate::solve::board::{value_char, Board};

verus! {

/// Shows how far a long task has come; this build shows nothing.
pub fn show_progress(_current: usize, _total: usize) {
}

/// The board for a console: its 81 values, '.' for an unknown cell.
pub fn format_for_fancy_console(board: &Board) -> (r: String)
    ensures
        r@ == Seq::new(81, |i: int| value_char(board.values_spec()[i])),
{
    board.packed_string()
}

/// The decimal digit `d` (below 10).
pub open spec fn decimal_digit(d: nat) -> char {
    (('0' as nat) + d) as char
}

/// The decimal digits of `n`, without leading zeros.
pub open spec fn decimal(n: nat) -> Seq<char>
    decreases n,
{
    if n < 10 {
        seq![decimal_digit(n)]
    } else {
        decimal(n / 10).push(decimal_digit(n % 10))
    }
}

/// Appends the decimal digits of `n`.
fn push_decimal(s: &mut String, n: usize)
    ensures
        final(s)@ == old(s)@ + decimal(n as nat),
    decreases n,
{
    if n >= 10 {
        push_decimal(s, n / 10);
    }
    let d: u8 = (n % 10) as u8;
    let c: char = (48u8 + d) as char;
    string_push(s, c);
    proof {
        if n >= 10 {
            assert(decimal(n as nat) == decimal((n / 10) as nat).push(decimal_digit((n % 10) as nat)));
        }
        assert(s@ =~= old(s)@ + decimal(n as nat));
    }
}

/// The decimal form of a number.
pub fn format_number(n: usize) -> (r: String)
    ensures
        r@ == decimal(n as nat),
{
    let mut s = String::new();
    push_decimal(&mut s, n);
    assert(s@ =~= decimal(n as nat));
    s
}

/// Prints the candidates of a board; this build prints nothing.
pub fn print_all_and_single_candidates<T>(_t: &T) {
}

} // verus!
