//! Human-readable byte sizes.
//!
//! A size is shown in the largest binary unit (KB = 1024 bytes, up to TB)
//! that it reaches, with one decimal, or in bytes below one KB. The size is
//! first taken as the nearest double-precision value, and the decimal is
//! rounded to nearest with ties to even, so that the text is exactly what
//! `format!("{:.1}", size as f64 / unit)` would print.

use vstd::prelude::*;
use vstd::arithmetic::div_mod::{
    lemma_div_denominator, lemma_fundamental_div_mod, lemma_div_is_ordered,
    lemma_div_is_ordered_by_denominator,
};
use crate::text::{decimal, decimal_chars, digit, digit_char, string_from_chars};

verus! {

/// 2 to the power `e`.
pub open spec fn pow2(e: nat) -> nat
    decreases e,
{
    if e == 0 {
        1
    } else {
        2 * pow2((e - 1) as nat)
    }
}

proof fn lemma_pow2_pos(e: nat)
    ensures
        pow2(e) > 0,
    decreases e,
{
    if e > 0 {
        lemma_pow2_pos((e - 1) as nat);
    }
}

/// How many times `n` must be halved before it fits in the 53 bits of a
/// double's significand.
pub open spec fn halvings_to_fit(n: nat) -> nat
    decreases n,
{
    if n < 0x20_0000_0000_0000 {
        0
    } else {
        1 + halvings_to_fit(n / 2)
    }
}

/// The exact value of `n as f64`: `n` rounded to the nearest multiple of
/// `2^halvings_to_fit(n)`, ties going to the even multiple.
pub open spec fn nearest_f64(n: nat) -> nat {
    let unit = pow2(halvings_to_fit(n));
    let q = n / unit;
    let rem = n % unit;
    if rem * 2 > unit || (rem * 2 == unit && q % 2 == 1) {
        (q + 1) * unit
    } else {
        q * unit
    }
}

/// `value / scale` in tenths, rounded to nearest with ties to even.
pub open spec fn rounded_tenths(value: nat, scale: nat) -> nat {
    let t = value * 10 / scale;
    let f = value * 10 % scale;
    if f * 2 > scale || (f * 2 == scale && t % 2 == 1) {
        t + 1
    } else {
        t
    }
}

/// `value / scale` written with exactly one decimal.
pub open spec fn one_decimal(value: nat, scale: nat) -> Seq<char> {
    let t = rounded_tenths(value, scale);
    decimal(t / 10) + seq!['.', digit_char(t % 10)]
}

pub const KB: u64 = 1024;
pub const MB: u64 = 1048576;
pub const GB: u64 = 1073741824;
pub const TB: u64 = 1099511627776;

/// The text that `format_size` gives for `size`.
pub open spec fn size_text(size: u64) -> Seq<char> {
    let v = nearest_f64(size as nat);
    if size >= TB {
        one_decimal(v, TB as nat) + seq![' ', 'T', 'B']
    } else if size >= GB {
        one_decimal(v, GB as nat) + seq![' ', 'G', 'B']
    } else if size >= MB {
        one_decimal(v, MB as nat) + seq![' ', 'M', 'B']
    } else if size >= KB {
        one_decimal(v, KB as nat) + seq![' ', 'K', 'B']
    } else {
        decimal(size as nat) + seq![' ', 'B']
    }
}

/// The exact value of `n` converted to a double.
fn nearest_f64_value(n: u64) -> (v: u128)
    ensures
        v == nearest_f64(n as nat),
        v <= 0x2_0000_0000_0000_0000,
{
    let mut m: u64 = n;
    let mut unit: u128 = 1;
    let ghost mut e: nat = 0;
    proof {
        lemma_fundamental_div_mod(n as int, 1);
    }
    while m >= 0x20_0000_0000_0000
        invariant
            unit == pow2(e),
            m == n as nat / pow2(e),
            halvings_to_fit(n as nat) == e + halvings_to_fit(m as nat),
            1 <= unit <= 0x1000,
        decreases m,
    {
        proof {
            lemma_pow2_pos(e);
            lemma_fundamental_div_mod(n as int, unit as int);
            lemma_div_denominator(n as int, unit as int, 2);
            assert(n as int >= unit * m) by (nonlinear_arith)
                requires
                    n as int == unit * (n as int / unit as int) + (n as int % unit as int),
                    m == n as int / unit as int,
                    0 <= n as int % unit as int,
            ;
            assert(unit * 2 <= 0x1000) by (nonlinear_arith)
                requires
                    n as int >= unit * m,
                    m >= 0x20_0000_0000_0000,
                    n < 0x1_0000_0000_0000_0000,
                    unit >= 1,
            ;
        }
        m = m / 2;
        unit = unit * 2;
        proof {
            e = e + 1;
        }
    }
    proof {
        lemma_pow2_pos(e);
    }
    let q: u128 = m as u128;
    let rem: u128 = (n as u128) % unit;
    assert(q * unit <= 0x20_0000_0000_0000 * 0x1000) by (nonlinear_arith)
        requires
            q < 0x20_0000_0000_0000,
            unit <= 0x1000,
    ;
    assert((q + 1) * unit <= 0x20_0000_0000_0000 * 0x1000) by (nonlinear_arith)
        requires
            q < 0x20_0000_0000_0000,
            unit <= 0x1000,
    ;
    if rem * 2 > unit || (rem * 2 == unit && q % 2 == 1) {
        (q + 1) * unit
    } else {
        q * unit
    }
}

/// The characters of `value / scale` with one decimal.
fn one_decimal_chars(value: u128, scale: u128) -> (cs: Vec<char>)
    requires
        value <= 0x2_0000_0000_0000_0000,
        1024 <= scale <= 0x100_0000_0000,
    ensures
        cs@ == one_decimal(value as nat, scale as nat),
{
    let x: u128 = value * 10;
    let t0: u128 = x / scale;
    let f: u128 = x % scale;
    proof {
        lemma_div_is_ordered_by_denominator(x as int, 1024, scale as int);
        lemma_div_is_ordered(x as int, 0x14_0000_0000_0000_0000, 1024);
    }
    let t: u128 = if f * 2 > scale || (f * 2 == scale && t0 % 2 == 1) {
        t0 + 1
    } else {
        t0
    };
    let whole: u64 = (t / 10) as u64;
    let mut cs = decimal_chars(whole);
    cs.push('.');
    cs.push(digit((t % 10) as u64));
    cs
}

/// Renders a byte count for display: `"512 B"`, `"1.0 KB"`, `"3.4 GB"`.
pub fn format_size(size: u64) -> (s: String)
    ensures
        s@ == size_text(size),
{
    let v = nearest_f64_value(size);
    let mut cs: Vec<char>;
    if size >= TB {
        cs = one_decimal_chars(v, TB as u128);
        cs.push(' ');
        cs.push('T');
        cs.push('B');
    } else if size >= GB {
        cs = one_decimal_chars(v, GB as u128);
        cs.push(' ');
        cs.push('G');
        cs.push('B');
    } else if size >= MB {
        cs = one_decimal_chars(v, MB as u128);
        cs.push(' ');
        cs.push('M');
        cs.push('B');
    } else if size >= KB {
        cs = one_decimal_chars(v, KB as u128);
        cs.push(' ');
        cs.push('K');
        cs.push('B');
    } else {
        cs = decimal_chars(size);
        cs.push(' ');
        cs.push('B');
    }
    string_from_chars(&cs)
}

} // verus!
