//! Building human-readable names and messages.

use vstd::prelude::*;

verus! {

/// The character of decimal digit `d` (`0 <= d < 10`).
pub open spec fn digit_char(d: nat) -> char {
    (48 + d) as char
}

/// The decimal representation of `n`, without leading zeros.
pub open spec fn decimal(n: nat) -> Seq<char>
    decreases n,
{
    if n < 10 {
        seq![digit_char(n)]
    } else {
        decimal(n / 10).push(digit_char(n % 10))
    }
}

/// `head`, `sep`, the decimal representation of `n`, and `tail`, joined.
///
/// Calls `format!` (std's `Display` for `u64` writes the decimal digits of
/// the number, without sign or leading zeros). The contract claims exactly
/// that the result is the four parts concatenated.
#[verifier::external_body]
pub(crate) fn join_number(head: &str, sep: &str, n: u64, tail: &str) -> (s: String)
    ensures
        s@ == head@ + sep@ + decimal(n as nat) + tail@,
{
    format!("{}{}{}{}", head, sep, n, tail)
}

} // verus!
