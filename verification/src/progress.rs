//! Byte counts for the progress line, in the unit that suits their size.
//!
//! A count below 1024 is shown as it is, with the unit `B`. A larger one is
//! shown in `KB`, `MB`, `GB` or `TB`, each 1024 times the one before, with two
//! digits behind the point. The number shown is what a double-precision
//! division prints to two places: the count is first rounded to the nearest
//! double (which changes nothing below 2^53), the quotient by the unit is
//! then exact, and it is rounded to hundredths, a tie going to the even
//! hundredth.

use vstd::prelude::*;
use vstd::string::StringExecFns;

verus! {

pub const KIB: u64 = 0x400;

pub const MIB: u64 = 0x10_0000;

pub const GIB: u64 = 0x4000_0000;

pub const TIB: u64 = 0x100_0000_0000;

/// The first count that a double cannot always hold exactly: 2^53.
pub const EXACT_LIMIT: u64 = 0x20_0000_0000_0000;

/// The quotient `a / b` rounded to the nearest integer, a tie going to the
/// even one.
pub open spec fn div_half_even(a: int, b: int) -> int {
    let q = a / b;
    let r = a % b;
    if 2 * r > b || (2 * r == b && q % 2 == 1) {
        q + 1
    } else {
        q
    }
}

/// The distance between neighbouring doubles around `n`: 1 below 2^53, and
/// twice as much each time `n` doubles from there.
pub open spec fn double_spacing(n: int) -> int
    decreases n,
{
    if n < EXACT_LIMIT {
        1
    } else {
        2 * double_spacing(n / 2)
    }
}

/// The double nearest to the count `n`, a tie going to the one whose last
/// bit is even.
pub open spec fn nearest_double(n: int) -> int {
    div_half_even(n, double_spacing(n)) * double_spacing(n)
}

/// The count `bytes` in hundredths of `unit`.
pub open spec fn hundredths(bytes: int, unit: int) -> int {
    div_half_even(nearest_double(bytes) * 100, unit)
}

/// The character of one decimal digit.
pub open spec fn digit_char(d: int) -> char {
    if d == 0 {
        '0'
    } else if d == 1 {
        '1'
    } else if d == 2 {
        '2'
    } else if d == 3 {
        '3'
    } else if d == 4 {
        '4'
    } else if d == 5 {
        '5'
    } else if d == 6 {
        '6'
    } else if d == 7 {
        '7'
    } else if d == 8 {
        '8'
    } else {
        '9'
    }
}

/// The decimal digits of `n`, without leading zeros.
pub open spec fn decimal(n: int) -> Seq<char>
    decreases n,
{
    if n < 10 {
        seq![digit_char(n)]
    } else {
        decimal(n / 10).push(digit_char(n % 10))
    }
}

/// A number of hundredths written with a point and two digits behind it.
pub open spec fn two_places(h: int) -> Seq<char> {
    decimal(h / 100) + seq!['.', digit_char(h / 10 % 10), digit_char(h % 10)]
}

/// The text that stands for a byte count.
pub open spec fn byte_count_text(bytes: u64) -> Seq<char> {
    if bytes < KIB {
        decimal(bytes as int) + " B"@
    } else if bytes < MIB {
        two_places(hundredths(bytes as int, KIB as int)) + " KB"@
    } else if bytes < GIB {
        two_places(hundredths(bytes as int, MIB as int)) + " MB"@
    } else if bytes < TIB {
        two_places(hundredths(bytes as int, GIB as int)) + " GB"@
    } else {
        two_places(hundredths(bytes as int, TIB as int)) + " TB"@
    }
}

fn digit_text(d: u8) -> (text: &'static str)
    requires
        d < 10,
    ensures
        text@ == seq![digit_char(d as int)],
{
    proof {
        reveal_strlit("0");
        reveal_strlit("1");
        reveal_strlit("2");
        reveal_strlit("3");
        reveal_strlit("4");
        reveal_strlit("5");
        reveal_strlit("6");
        reveal_strlit("7");
        reveal_strlit("8");
        reveal_strlit("9");
    }
    let text = if d == 0 {
        "0"
    } else if d == 1 {
        "1"
    } else if d == 2 {
        "2"
    } else if d == 3 {
        "3"
    } else if d == 4 {
        "4"
    } else if d == 5 {
        "5"
    } else if d == 6 {
        "6"
    } else if d == 7 {
        "7"
    } else if d == 8 {
        "8"
    } else {
        "9"
    };
    assert(text@ =~= seq![digit_char(d as int)]);
    text
}

/// Writes the decimal digits of `n` behind what `out` holds.
pub fn write_decimal(out: &mut String, n: u128)
    ensures
        final(out)@ == old(out)@ + decimal(n as int),
    decreases n,
{
    if n >= 10 {
        write_decimal(out, n / 10);
    }
    let digit: u8 = (n % 10) as u8;
    out.append(digit_text(digit));
    assert(out@ =~= old(out)@ + decimal(n as int));
}

fn rounded_quotient(a: u128, b: u128) -> (q: u128)
    requires
        0 < b <= 0x1_0000_0000_0000_0000,
        a <= 0x1_0000_0000_0000_0000_0000,
    ensures
        q == div_half_even(a as int, b as int),
{
    let q: u128 = a / b;
    let r: u128 = a % b;
    if 2 * r > b || (2 * r == b && q % 2 == 1) {
        q + 1
    } else {
        q
    }
}

fn spacing(n: u64) -> (step: u64)
    ensures
        step == double_spacing(n as int),
        1 <= step <= 0xfff,
{
    let mut m: u64 = n;
    let mut step: u64 = 1;
    while m >= EXACT_LIMIT
        invariant
            1 <= step <= 0xfff,
            m as int * step <= u64::MAX,
            double_spacing(n as int) == step * double_spacing(m as int),
        decreases m,
    {
        let ghost before = m;
        assert(step <= 0x7ff) by (nonlinear_arith)
            requires
                before as int * step <= u64::MAX,
                before >= 0x20_0000_0000_0000,
        ;
        m = m / 2;
        assert(double_spacing(n as int) == (step * 2) * double_spacing(m as int))
            by (nonlinear_arith)
            requires
                double_spacing(n as int) == step * double_spacing(before as int),
                double_spacing(before as int) == 2 * double_spacing(m as int),
        ;
        assert(m as int * (step * 2) <= u64::MAX) by (nonlinear_arith)
            requires
                before as int * step <= u64::MAX,
                m == before / 2,
                step >= 1,
        ;
        step = step * 2;
    }
    assert(step * 1 == step) by (nonlinear_arith);
    step
}

fn write_scaled(out: &mut String, bytes: u64, unit: u64)
    requires
        unit > 0,
    ensures
        final(out)@ == old(out)@ + two_places(hundredths(bytes as int, unit as int)),
{
    let step: u64 = spacing(bytes);
    let quotient: u128 = rounded_quotient(bytes as u128, step as u128);
    assert(quotient * step <= bytes + step) by (nonlinear_arith)
        requires
            quotient <= bytes as int / step as int + 1,
            step >= 1,
    ;
    let nearest: u128 = quotient * (step as u128);
    let h: u128 = rounded_quotient(nearest * 100, unit as u128);
    write_decimal(out, h / 100);
    proof {
        reveal_strlit(".");
    }
    out.append(".");
    out.append(digit_text((h / 10 % 10) as u8));
    out.append(digit_text((h % 10) as u8));
    assert(out@ =~= old(out)@ + two_places(h as int));
}

/// Writes a byte count for a person to read: as it is below 1024, and else
/// in the largest of the units KB, MB, GB and TB that it reaches, to two
/// places.
pub fn format_bytes(bytes: u64) -> (text: String)
    ensures
        text@ == byte_count_text(bytes),
{
    let mut text = String::new();
    if bytes < KIB {
        write_decimal(&mut text, bytes as u128);
        text.append(" B");
    } else if bytes < MIB {
        write_scaled(&mut text, bytes, KIB);
        text.append(" KB");
    } else if bytes < GIB {
        write_scaled(&mut text, bytes, MIB);
        text.append(" MB");
    } else if bytes < TIB {
        write_scaled(&mut text, bytes, GIB);
        text.append(" GB");
    } else {
        write_scaled(&mut text, bytes, TIB);
        text.append(" TB");
    }
    assert(text@ =~= byte_count_text(bytes));
    text
}

} // verus!
