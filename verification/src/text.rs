//! Building of short texts: characters appended one by one, and numbers
//! written in decimal.

use vstd::prelude::*;

verus! {

/// Calls `String::push`.
///
/// Trusted: the text afterwards is the text before with `c` at its end.
#[verifier::external_body]
pub(crate) fn push_char(text: &mut String, c: char)
    ensures
        final(text)@ == old(text)@.push(c),
{
    text.push(c);
}

/// The character of a decimal digit.
pub open spec fn spec_digit(d: nat) -> char
    recommends
        d < 10,
{
    ('0' as u32 + d) as char
}

/// A number written in decimal, without leading zeros.
pub open spec fn spec_decimal(n: nat) -> Seq<char>
    decreases n,
{
    if n < 10 {
        seq![spec_digit(n)]
    } else {
        spec_decimal(n / 10).push(spec_digit(n % 10))
    }
}

/// The character of a decimal digit.
pub fn digit(d: u8) -> (c: char)
    requires
        d < 10,
    ensures
        c == spec_digit(d as nat),
{
    (48u8 + d) as char
}

/// Appends a number in decimal to a text.
pub fn push_decimal(text: &mut String, n: u8)
    ensures
        final(text)@ == old(text)@ + spec_decimal(n as nat),
{
    if n >= 100 {
        push_char(text, digit(n / 100));
    }
    if n >= 10 {
        push_char(text, digit((n / 10) % 10));
    }
    push_char(text, digit(n % 10));
    proof {
        let ghost start = old(text)@;
        let m = n as nat;
        if m >= 100 {
            assert(spec_decimal(m / 10) == spec_decimal(m / 100).push(spec_digit((m / 10) % 10)));
            assert(spec_decimal(m / 100) == seq![spec_digit(m / 100)]);
            assert(text@ =~= start + spec_decimal(m));
        } else if m >= 10 {
            assert(spec_decimal(m / 10) == seq![spec_digit(m / 10)]);
            assert(text@ =~= start + spec_decimal(m));
        } else {
            assert(text@ =~= start + spec_decimal(m));
        }
    }
}

} // verus!
