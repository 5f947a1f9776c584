//! Text building blocks: decimal rendering of integers and character pushes.

use vstd::prelude::*;

verus! {

/// The ASCII digit for `d` (`0 <= d < 10`).
pub open spec fn spec_digit(d: nat) -> char {
    (48 + d) as char
}

/// The decimal rendering of a natural number, most significant digit first,
/// with no leading zeros ("0" for zero).
pub open spec fn spec_decimal(n: nat) -> Seq<char>
    decreases n,
{
    if n < 10 {
        seq![spec_digit(n)]
    } else {
        spec_decimal(n / 10).push(spec_digit(n % 10))
    }
}

/// The decimal rendering of a signed integer: a leading `-` for negatives.
pub open spec fn spec_signed_decimal(n: int) -> Seq<char> {
    if n < 0 {
        seq!['-'] + spec_decimal((-n) as nat)
    } else {
        spec_decimal(n as nat)
    }
}

/// Appends `c` to `s`, calling `String::push`. The claim: the text afterwards
/// is the text before with `c` added at its end.
#[verifier::external_body]
pub(crate) fn push_char(s: &mut String, c: char)
    ensures
        final(s)@ == old(s)@.push(c),
{
    s.push(c);
}

/// The digit character for `d`.
pub fn digit_char(d: u64) -> (c: char)
    requires
        d < 10,
    ensures
        c == spec_digit(d as nat),
{
    let b: u8 = d as u8;
    (48u8 + b) as char
}

/// Appends the decimal rendering of `n` to `out`.
pub fn push_decimal(out: &mut String, n: u64)
    ensures
        final(out)@ == old(out)@ + spec_decimal(n as nat),
    decreases n,
{
    if n < 10 {
        push_char(out, digit_char(n));
        assert(spec_decimal(n as nat) == seq![spec_digit(n as nat)]);
        assert(old(out)@.push(spec_digit(n as nat)) =~= old(out)@ + spec_decimal(n as nat));
    } else {
        push_decimal(out, n / 10);
        push_char(out, digit_char(n % 10));
        assert(old(out)@ + spec_decimal(n as nat) =~= (old(out)@ + spec_decimal((n / 10) as nat)).push(
            spec_digit((n % 10) as nat),
        ));
    }
}

/// The decimal rendering of an unsigned integer.
pub fn u64_to_decimal(n: u64) -> (s: String)
    ensures
        s@ == spec_decimal(n as nat),
{
    let mut s = String::new();
    push_decimal(&mut s, n);
    assert(s@ =~= spec_decimal(n as nat));
    s
}

/// Appends the decimal rendering of a signed integer to `out`.
pub fn push_signed_decimal(out: &mut String, n: i64)
    ensures
        final(out)@ == old(out)@ + spec_signed_decimal(n as int),
{
    if n < 0 {
        push_char(out, '-');
        let magnitude: u64 = ((-(n + 1)) as u64) + 1;
        push_decimal(out, magnitude);
        assert(old(out)@ + spec_signed_decimal(n as int) =~= old(out)@.push('-') + spec_decimal(
            magnitude as nat,
        ));
    } else {
        push_decimal(out, n as u64);
    }
}

/// A fresh `String` holding the text of `s`.
pub fn string_of(s: &str) -> (r: String)
    ensures
        r@ == s@,
{
    String::from_str(s)
}

/// Appends the text of `s` to `out`.
pub fn push_str(out: &mut String, s: &str)
    ensures
        final(out)@ == old(out)@ + s@,
{
    out.append(s);
}

/// Whether two strings hold the same characters.
pub fn str_equal(a: &String, b: &String) -> (r: bool)
    ensures
        r == (a@ == b@),
{
    (*a).eq(b)
}

} // verus!
