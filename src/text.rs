//! Building text: appending characters and numeric literals to a `String`.
use vstd::prelude::*;

verus! {

/// Relies on `String::push`: appends one character at the end.
#[verifier::external_body]
pub(crate) fn push_char(s: &mut String, c: char)
    ensures
        final(s)@ == old(s)@.push(c),
{
    s.push(c)
}

/// The character of a digit in base 16 or less (lower-case letters above 9).
pub open spec fn digit_char(d: nat) -> char {
    if d < 10 {
        (48 + d) as char
    } else {
        (87 + d) as char
    }
}

/// Decimal digits of `n`, without leading zeros.
pub open spec fn decimal(n: nat) -> Seq<char>
    decreases n,
{
    if n < 10 {
        seq![digit_char(n)]
    } else {
        decimal(n / 10).push(digit_char(n % 10))
    }
}

/// The lowest `k` digits of `n` in base `b`, most significant first.
pub open spec fn fixed_digits(n: nat, b: nat, k: nat) -> Seq<char>
    decreases k,
{
    if k == 0 || b == 0 {
        seq![]
    } else {
        fixed_digits(n / b, b, (k - 1) as nat).push(digit_char(n % b))
    }
}

fn digit(d: u8) -> (c: char)
    requires
        d < 16,
    ensures
        c == digit_char(d as nat),
{
    if d < 10 {
        (48 + d) as char
    } else {
        (87 + d) as char
    }
}

/// Appends the decimal digits of `n`.
pub fn push_decimal(s: &mut String, n: u64)
    ensures
        final(s)@ == old(s)@ + decimal(n as nat),
    decreases n,
{
    if n >= 10 {
        push_decimal(s, n / 10);
    }
    push_char(s, digit((n % 10) as u8));
}

/// Appends the lowest `k` digits of `n` in base `b`.
pub fn push_fixed_digits(s: &mut String, n: u8, b: u8, k: u8)
    requires
        2 <= b <= 16,
    ensures
        final(s)@ == old(s)@ + fixed_digits(n as nat, b as nat, k as nat),
    decreases k,
{
    if k > 0 {
        push_fixed_digits(s, n / b, b, k - 1);
        push_char(s, digit(n % b));
    }
}

} // verus!
