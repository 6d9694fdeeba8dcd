//! Character and string helpers: the decimal rendering of integers, with its
//! specification, and the one trusted bridge to `String::push`.

use vstd::prelude::*;

verus! {

use vstd::string::StrSliceExecFns;

/// The character of one decimal digit.
pub open spec fn dec_digit(d: int) -> char {
    if d == 0 {
        '0'
    } else if d == 1 {
        '1'
    } else if d == 2 {
        '2'
    } else if d == 3 {
        '3'
    } else if d == 4 {
        '4'
    } else if d == 5 {
        '5'
    } else if d == 6 {
        '6'
    } else if d == 7 {
        '7'
    } else if d == 8 {
        '8'
    } else {
        '9'
    }
}

/// Decimal form of a non-negative integer, most significant digit first.
pub open spec fn dec_str_nat(n: nat) -> Seq<char>
    decreases n,
{
    if n < 10 {
        seq![dec_digit(n as int)]
    } else {
        dec_str_nat(n / 10) + seq![dec_digit((n % 10) as int)]
    }
}

/// Decimal form of an integer, with a leading minus sign when negative.
pub open spec fn dec_str_int(i: int) -> Seq<char> {
    if i < 0 {
        seq!['-'] + dec_str_nat((-i) as nat)
    } else {
        dec_str_nat(i as nat)
    }
}

/// Relies on `String::push`: appends one character at the end of the string.
#[verifier::external_body]
pub fn push_char(s: &mut String, c: char)
    ensures
        final(s)@ == old(s)@.push(c),
{
    s.push(c);
}

fn dec_digit_exec(d: u64) -> (c: char)
    requires
        d < 10,
    ensures
        c == dec_digit(d as int),
{
    if d == 0 {
        '0'
    } else if d == 1 {
        '1'
    } else if d == 2 {
        '2'
    } else if d == 3 {
        '3'
    } else if d == 4 {
        '4'
    } else if d == 5 {
        '5'
    } else if d == 6 {
        '6'
    } else if d == 7 {
        '7'
    } else if d == 8 {
        '8'
    } else {
        '9'
    }
}

fn fmt_u64_rec(n: u64, out: &mut Vec<char>)
    ensures
        final(out)@ == old(out)@ + dec_str_nat(n as nat),
    decreases n,
{
    if n < 10 {
        out.push(dec_digit_exec(n));
        assert(out@ =~= old(out)@ + dec_str_nat(n as nat));
    } else {
        fmt_u64_rec(n / 10, out);
        out.push(dec_digit_exec(n % 10));
        assert(out@ =~= old(out)@ + dec_str_nat(n as nat));
    }
}

/// Append the decimal form of `n` to `s`.
pub fn push_dec_u64(n: u64, s: &mut String)
    ensures
        final(s)@ == old(s)@ + dec_str_nat(n as nat),
{
    let mut digits: Vec<char> = Vec::new();
    fmt_u64_rec(n, &mut digits);
    let ghost start = s@;
    let mut i: usize = 0;
    while i < digits.len()
        invariant
            i <= digits.len(),
            digits@ == dec_str_nat(n as nat),
            s@ == start + digits@.take(i as int),
        decreases digits.len() - i,
    {
        push_char(s, digits[i]);
        assert(s@ =~= start + digits@.take(i + 1));
        i = i + 1;
    }
    assert(digits@.take(digits@.len() as int) =~= digits@);
}

/// Append the decimal form of `i` to `s`, sign included.
pub fn push_dec_i64(i: i64, s: &mut String)
    ensures
        final(s)@ == old(s)@ + dec_str_int(i as int),
{
    if i >= 0 {
        push_dec_u64(i as u64, s);
    } else {
        let ghost start = s@;
        push_char(s, '-');
        let m: u64 = (-(i as i128)) as u64;
        assert(m as nat == (-(i as int)) as nat);
        push_dec_u64(m, s);
        assert(s@ =~= start + dec_str_int(i as int));
    }
}

/// The characters of `s`, in order.
pub fn str_to_chars(s: &str) -> (r: Vec<char>)
    ensures
        r@ == s@,
{
    let n = s.unicode_len();
    let mut r: Vec<char> = Vec::new();
    let mut i: usize = 0;
    while i < n
        invariant
            i <= n,
            n == s@.len(),
            r@ == s@.take(i as int),
        decreases n - i,
    {
        r.push(s.get_char(i));
        assert(r@ =~= s@.take(i + 1));
        i = i + 1;
    }
    assert(s@.take(n as int) =~= s@);
    r
}

} // verus!
