//! Building text: the standard library's string appends, and decimal numerals.
use vstd::prelude::*;

verus! {

/// `String::push_str` of std: appends the characters of `s` to `dst`.
#[verifier::external_body]
pub(crate) fn push_str(dst: &mut String, s: &str)
    ensures
        final(dst)@ == old(dst)@ + s@,
{
    dst.push_str(s);
}

/// `String::push` of std: appends one character to `dst`.
#[verifier::external_body]
pub(crate) fn push_char(dst: &mut String, c: char)
    ensures
        final(dst)@ == old(dst)@.push(c),
{
    dst.push(c);
}

/// Character of a decimal digit.
pub open spec fn digit_spec(d: usize) -> char {
    if d == 0 { '0' } else if d == 1 { '1' } else if d == 2 { '2' } else if d == 3 { '3' } else if d == 4 { '4' }
    else if d == 5 { '5' } else if d == 6 { '6' } else if d == 7 { '7' } else if d == 8 { '8' } else { '9' }
}

/// Decimal representation of a number, without leading zeros.
pub open spec fn decimal_spec(n: usize) -> Seq<char>
    decreases n,
{
    if n < 10 {
        seq![digit_spec(n)]
    } else {
        decimal_spec(n / 10).push(digit_spec(n % 10))
    }
}

fn digit_char(d: usize) -> (r: char)
    requires
        d < 10,
    ensures
        r == digit_spec(d),
{
    if d == 0 { '0' } else if d == 1 { '1' } else if d == 2 { '2' } else if d == 3 { '3' } else if d == 4 { '4' }
    else if d == 5 { '5' } else if d == 6 { '6' } else if d == 7 { '7' } else if d == 8 { '8' } else { '9' }
}

/// Append the decimal representation of `n`.
pub(crate) fn push_decimal(s: &mut String, n: usize)
    ensures
        final(s)@ == old(s)@ + decimal_spec(n),
    decreases n,
{
    if n >= 10 {
        push_decimal(s, n / 10);
    }
    push_char(s, digit_char(n % 10));
    proof {
        assert(old(s)@ + decimal_spec(n) =~= if n >= 10 {
            old(s)@ + decimal_spec(n / 10) + seq![digit_spec(n % 10)]
        } else {
            old(s)@ + seq![digit_spec(n % 10)]
        });
    }
}


/// A string holding the given characters.
pub(crate) fn string_of(chars: &[char]) -> (r: String)
    ensures
        r@ == chars@,
{
    let mut s = String::new();
    let mut i: usize = 0;
    while i < chars.len()
        invariant
            i <= chars@.len(),
            s@ == chars@.take(i as int),
        decreases chars@.len() - i,
    {
        push_char(&mut s, chars[i]);
        proof { assert(chars@.take(i as int + 1) =~= chars@.take(i as int).push(chars@[i as int])); }
        i = i + 1;
    }
    assert(chars@.take(chars@.len() as int) =~= chars@);
    s
}

/// Decimal representation of a 64-bit number, without leading zeros.
pub open spec fn decimal_u64_spec(n: u64) -> Seq<char>
    decreases n,
{
    if n < 10 {
        seq![digit_spec(n as usize)]
    } else {
        decimal_u64_spec(n / 10).push(digit_spec((n % 10) as usize))
    }
}

/// Decimal representation of a signed number: a minus sign, then the magnitude.
pub open spec fn signed_decimal_spec(v: i64) -> Seq<char> {
    if v < 0 {
        seq!['-'] + decimal_u64_spec((-(v as int)) as u64)
    } else {
        decimal_u64_spec(v as u64)
    }
}

/// Append the decimal representation of a 64-bit number.
pub(crate) fn push_decimal_u64(s: &mut String, n: u64)
    ensures
        final(s)@ == old(s)@ + decimal_u64_spec(n),
    decreases n,
{
    if n >= 10 {
        push_decimal_u64(s, n / 10);
    }
    let d = (n % 10) as usize;
    push_char(s, digit_char(d));
    proof {
        assert(old(s)@ + decimal_u64_spec(n) =~= if n >= 10 {
            old(s)@ + decimal_u64_spec(n / 10) + seq![digit_spec((n % 10) as usize)]
        } else {
            old(s)@ + seq![digit_spec((n % 10) as usize)]
        });
    }
}

/// Append the decimal representation of a signed number.
pub(crate) fn push_signed_decimal(s: &mut String, v: i64)
    ensures
        final(s)@ == old(s)@ + signed_decimal_spec(v),
{
    if v < 0 {
        push_char(s, '-');
        let magnitude: u64 = if v == i64::MIN {
            9223372036854775808u64
        } else {
            (-v) as u64
        };
        push_decimal_u64(s, magnitude);
        proof {
            assert(old(s)@ + signed_decimal_spec(v) =~= old(s)@.push('-') + decimal_u64_spec(magnitude));
        }
    } else {
        push_decimal_u64(s, v as u64);
    }
}

} // verus!
