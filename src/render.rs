//! The text form of cells: decimal integers right-aligned in fixed-width columns.

use vstd::prelude::*;

verus! {

/// The decimal digit `d` (`0 <= d < 10`).
pub open spec fn digit(d: int) -> char {
    seq!['0', '1', '2', '3', '4', '5', '6', '7', '8', '9'][d]
}

/// The decimal digits of `n`, most significant first, without leading zeros.
pub open spec fn digits(n: nat) -> Seq<char>
    decreases n,
{
    if n < 10 {
        seq![digit(n as int)]
    } else {
        digits(n / 10).push(digit(n as int % 10))
    }
}

/// `v` in decimal, with a leading `-` when negative.
pub open spec fn decimal(v: int) -> Seq<char> {
    if v < 0 {
        seq!['-'] + digits((-v) as nat)
    } else {
        digits(v as nat)
    }
}

/// `s` preceded by enough spaces to be at least `width` characters long.
pub open spec fn pad_left(s: Seq<char>, width: nat) -> Seq<char> {
    if s.len() >= width {
        s
    } else {
        Seq::new((width - s.len()) as nat, |_i: int| ' ') + s
    }
}

/// Width of a cell's column, not counting the separating space.
pub open spec fn cell_width() -> nat {
    6
}

/// One cell as displayed: its decimal form right-aligned in six columns,
/// followed by one space.
pub open spec fn cell_text(v: i32) -> Seq<char> {
    pad_left(decimal(v as int), cell_width()).push(' ')
}

/// Relies on std's formatting of `i32` under `{: >6}`: the `Display` form is
/// the decimal number with a leading `-` when negative, and the `>6` spec
/// right-aligns it with spaces to a width of at least six characters.
#[verifier::external_body]
pub(crate) fn format_cell(v: i32) -> (s: String)
    ensures
        s@ == cell_text(v),
{
    format!("{: >6} ", v)
}

} // verus!
