//! Decimal and hexadecimal text of integers.
//!
//! Number literal atoms are written in their decimal form, and the
//! `#x` format specifier writes a value as `0x` followed by its
//! hexadecimal digits, so both forms are pinned down here.

use vstd::prelude::*;

verus! {

/// The decimal digit character of `d`.
pub open spec fn s_dec_digit(d: int) -> char {
    if d == 0 {
        '0'
    } else if d == 1 {
        '1'
    } else if d == 2 {
        '2'
    } else if d == 3 {
        '3'
    } else if d == 4 {
        '4'
    } else if d == 5 {
        '5'
    } else if d == 6 {
        '6'
    } else if d == 7 {
        '7'
    } else if d == 8 {
        '8'
    } else {
        '9'
    }
}

/// The decimal text of a natural number, most significant digit first.
pub open spec fn s_dec_nat(n: nat) -> Seq<char>
    decreases n,
{
    if n < 10 {
        seq![s_dec_digit(n as int)]
    } else {
        s_dec_nat(n / 10) + seq![s_dec_digit((n % 10) as int)]
    }
}

/// The decimal text of a signed number: a minus sign, then the digits.
pub open spec fn s_dec_i64(n: i64) -> Seq<char> {
    if n < 0 {
        seq!['-'] + s_dec_nat((-(n as int)) as nat)
    } else {
        s_dec_nat(n as nat)
    }
}

/// The lower-case hexadecimal digit character of `d`.
pub open spec fn s_hex_digit(d: int) -> char {
    if d < 10 {
        s_dec_digit(d)
    } else if d == 10 {
        'a'
    } else if d == 11 {
        'b'
    } else if d == 12 {
        'c'
    } else if d == 13 {
        'd'
    } else if d == 14 {
        'e'
    } else {
        'f'
    }
}

/// The hexadecimal text of a natural number, most significant digit first.
pub open spec fn s_hex_nat(n: nat) -> Seq<char>
    decreases n,
{
    if n < 16 {
        seq![s_hex_digit(n as int)]
    } else {
        s_hex_nat(n / 16) + seq![s_hex_digit((n % 16) as int)]
    }
}

/// Relies on String::push: appends one character at the end of the string.
#[verifier::external_body]
pub fn push_char(s: &mut String, c: char)
    ensures
        final(s)@ == old(s)@.push(c),
{
    s.push(c);
}

/// The decimal digit character of `d`.
pub fn dec_digit(d: u64) -> (c: char)
    requires
        d < 10,
    ensures
        c == s_dec_digit(d as int),
{
    match d {
        0 => '0',
        1 => '1',
        2 => '2',
        3 => '3',
        4 => '4',
        5 => '5',
        6 => '6',
        7 => '7',
        8 => '8',
        _ => '9',
    }
}

/// The lower-case hexadecimal digit character of `d`.
pub fn hex_digit(d: u64) -> (c: char)
    requires
        d < 16,
    ensures
        c == s_hex_digit(d as int),
{
    if d < 10 {
        dec_digit(d)
    } else {
        match d {
            10 => 'a',
            11 => 'b',
            12 => 'c',
            13 => 'd',
            14 => 'e',
            _ => 'f',
        }
    }
}

/// Writes the decimal digits of `n` onto the end of `out`.
pub fn write_dec_u64(out: &mut String, n: u64)
    ensures
        final(out)@ == old(out)@ + s_dec_nat(n as nat),
    decreases n,
{
    if n < 10 {
        let c = dec_digit(n);
        push_char(out, c);
        proof {
            assert(old(out)@.push(c) =~= old(out)@ + s_dec_nat(n as nat));
        }
    } else {
        write_dec_u64(out, n / 10);
        let c = dec_digit(n % 10);
        push_char(out, c);
        proof {
            assert((old(out)@ + s_dec_nat((n / 10) as nat)).push(c) =~= old(out)@ + s_dec_nat(
                n as nat,
            ));
        }
    }
}

/// Writes the hexadecimal digits of `n` onto the end of `out`.
pub fn write_hex_u64(out: &mut String, n: u64)
    ensures
        final(out)@ == old(out)@ + s_hex_nat(n as nat),
    decreases n,
{
    if n < 16 {
        let c = hex_digit(n);
        push_char(out, c);
        proof {
            assert(old(out)@.push(c) =~= old(out)@ + s_hex_nat(n as nat));
        }
    } else {
        write_hex_u64(out, n / 16);
        let c = hex_digit(n % 16);
        push_char(out, c);
        proof {
            assert((old(out)@ + s_hex_nat((n / 16) as nat)).push(c) =~= old(out)@ + s_hex_nat(
                n as nat,
            ));
        }
    }
}

/// Writes the decimal text of `n` onto the end of `out`.
pub fn write_dec_i64(out: &mut String, n: i64)
    ensures
        final(out)@ == old(out)@ + s_dec_i64(n),
{
    if n < 0 {
        push_char(out, '-');
        let m = (-(n as i128)) as u64;
        write_dec_u64(out, m);
        proof {
            assert((old(out)@.push('-')) + s_dec_nat(m as nat) =~= old(out)@ + s_dec_i64(n));
        }
    } else {
        write_dec_u64(out, n as u64);
    }
}

} // verus!
