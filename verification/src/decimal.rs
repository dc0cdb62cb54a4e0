use crate::text::push_char;
use vstd::prelude::*;

verus! {

/// The character of a decimal digit.
pub open spec fn digit(d: nat) -> char
    recommends
        d < 10,
{
    ('0' as u8 + d) as char
}

/// A natural number in decimal digits, with no leading zero.
pub open spec fn digits_of(n: nat) -> Seq<char>
    decreases n,
{
    if n < 10 {
        seq![digit(n)]
    } else {
        digits_of(n / 10).push(digit(n % 10))
    }
}

/// An integer in decimal digits, after a `-` where it is below 0.
pub open spec fn decimal(v: int) -> Seq<char> {
    if v < 0 {
        seq!['-'] + digits_of((-v) as nat)
    } else {
        digits_of(v as nat)
    }
}

/// Adds to `out` the decimal digits of `n`.
fn write_digits(n: u64, out: &mut String)
    ensures
        final(out)@ == old(out)@ + digits_of(n as nat),
    decreases n,
{
    if n >= 10 {
        write_digits(n / 10, out);
    }
    let last: u8 = (n % 10) as u8;
    push_char(out, ('0' as u8 + last) as char);
    assert(out@ =~= old(out)@ + digits_of(n as nat));
}

/// Adds to `out` the number `n` in decimal.
pub fn write_count(n: usize, out: &mut String)
    ensures
        final(out)@ == old(out)@ + digits_of(n as nat),
{
    write_digits(n as u64, out);
}

/// Adds to `out` the integer `v` in decimal.
pub fn write_decimal(v: i64, out: &mut String)
    ensures
        final(out)@ == old(out)@ + decimal(v as int),
{
    if v < 0 {
        push_char(out, '-');
        let magnitude: u64 = (-(v + 1)) as u64 + 1;
        write_digits(magnitude, out);
        assert(out@ =~= old(out)@ + decimal(v as int));
    } else {
        write_digits(v as u64, out);
    }
}

} // verus!
