//! Byte counts as text.
//!
//! Counts of a megabyte and more are shown with one decimal. The shown number is
//! that of double precision arithmetic: the count and the quotient are each
//! rounded to 53 significant bits, and the quotient is then rounded to tenths,
//! ties going to the even neighbour every time.
use vstd::prelude::*;
use crate::text::{decimal, decimal_text, lemma_decimal_spells_the_number, spelled};

verus! {

pub const KB: u64 = 1_000;

pub const MB: u64 = 1_000_000;

pub const GB: u64 = 1_000_000_000;

/// 2 to the 52nd and 53rd power: the least 53 bit number, and the first number
/// that is too long.
const LEAST_SIGNIFICAND: u128 = 0x10_0000_0000_0000;

const SIGNIFICAND_LIMIT: u128 = 0x20_0000_0000_0000;

/// The whole number nearest to `num / den`; of two equally near, the even one.
pub open spec fn round_half_even(num: nat, den: nat) -> nat
    recommends
        den > 0,
{
    let quotient = num / den;
    let rest = num % den;
    if 2 * rest < den || (2 * rest == den && quotient % 2 == 0) {
        quotient
    } else {
        quotient + 1
    }
}

/// The least `unit * 2^k` in whose multiples `n` is shorter than 54 bits.
pub open spec fn double_unit(n: nat, unit: nat) -> nat
    decreases n - unit,
{
    if unit == 0 || n < unit * 0x20_0000_0000_0000 {
        unit
    } else {
        double_unit(n, 2 * unit)
    }
}

/// The whole number that `n` becomes when it is kept to 53 significant bits.
pub open spec fn as_double(n: nat) -> nat {
    let unit = double_unit(n, 1);
    round_half_even(n, unit) * unit
}

/// `num` and `scale` doubled until `num / den` has 53 bits before the point.
pub open spec fn scaled_up(num: nat, den: nat, scale: nat) -> (nat, nat)
    decreases 2 * den * 0x10_0000_0000_0000 - num,
{
    if num == 0 || num >= den * 0x10_0000_0000_0000 {
        (num, scale)
    } else {
        scaled_up(2 * num, den, 2 * scale)
    }
}

/// The tenths of `n / unit` in double precision.
pub open spec fn tenths(n: nat, unit: nat) -> nat {
    let (num, scale) = scaled_up(as_double(n), unit, 1);
    round_half_even(10 * round_half_even(num, unit), scale)
}

/// A number of tenths, with its decimal point.
pub open spec fn with_point(tenths: nat) -> Seq<char> {
    decimal(tenths / 10) + "."@ + decimal(tenths % 10)
}

/// The text of a byte count.
pub open spec fn bytes_text(bytes: nat) -> Seq<char> {
    if bytes >= GB {
        with_point(tenths(bytes, GB as nat)) + " GB"@
    } else if bytes >= MB {
        with_point(tenths(bytes, MB as nat)) + " MB"@
    } else if bytes >= KB {
        decimal(bytes / KB as nat) + " KB"@
    } else {
        decimal(bytes) + " B"@
    }
}

fn rounded(num: u128, den: u128) -> (r: u128)
    requires
        0 < den,
        num < 0x1_0000_0000_0000_0000_0000_0000,
        den < 0x1_0000_0000_0000_0000_0000_0000,
    ensures
        r == round_half_even(num as nat, den as nat),
        r <= num / den + 1,
{
    let quotient: u128 = num / den;
    let rest: u128 = num % den;
    assert(quotient <= num) by (nonlinear_arith)
        requires
            quotient == num / den,
            den >= 1,
    ;
    if 2 * rest < den || (2 * rest == den && quotient % 2 == 0) {
        quotient
    } else {
        quotient + 1
    }
}

/// The tenths of `n / unit`, for the two units that are shown with a decimal.
fn count_tenths(n: u64, unit: u64) -> (r: u64)
    requires
        unit == MB || unit == GB,
        n >= unit,
    ensures
        r == tenths(n as nat, unit as nat),
{
    let count: u128 = n as u128;
    let den: u128 = unit as u128;
    let mut step: u128 = 1;
    while count >= step * SIGNIFICAND_LIMIT
        invariant
            count == n,
            1 <= step <= 4096,
            step > 1 ==> count >= step * LEAST_SIGNIFICAND,
            double_unit(n as nat, step as nat) == double_unit(n as nat, 1),
        decreases count - step,
    {
        step = 2 * step;
    }
    let in_steps: u128 = rounded(count, step);
    assert(in_steps <= SIGNIFICAND_LIMIT) by {
        assert(count / step < SIGNIFICAND_LIMIT) by (nonlinear_arith)
            requires
                count < step * SIGNIFICAND_LIMIT,
                step >= 1,
        ;
    }
    assert(in_steps * step <= 0x20_0000_0000_0000 * 4096) by (nonlinear_arith)
        requires
            in_steps <= 0x20_0000_0000_0000,
            1 <= step <= 4096,
    ;
    let kept: u128 = in_steps * step;
    assert(in_steps >= 1) by {
        assert(count / step >= 1) by (nonlinear_arith)
            requires
                count >= step,
                step >= 1,
        ;
    }
    assert(kept >= 1) by {
        assert(kept > 0) by (nonlinear_arith)
            requires
                kept == in_steps * step,
                in_steps >= 1,
                step >= 1,
        ;
    }
    let mut num: u128 = kept;
    let mut scale: u128 = 1;
    while num < den * LEAST_SIGNIFICAND
        invariant
            den == unit,
            unit == MB || unit == GB,
            1 <= num,
            1 <= scale <= num,
            num < 2 * den * LEAST_SIGNIFICAND || num == kept,
            kept <= 0x20_0000_0000_0000 * 4096,
            scaled_up(num as nat, unit as nat, scale as nat) == scaled_up(
                kept as nat,
                unit as nat,
                1,
            ),
        decreases 2 * den * LEAST_SIGNIFICAND - num,
    {
        num = 2 * num;
        scale = 2 * scale;
    }
    let quotient: u128 = rounded(num, den);
    let result: u128 = rounded(10 * quotient, scale);
    result as u64
}

pub fn format_bytes(bytes: u64) -> (r: String)
    ensures
        r@ == bytes_text(bytes as nat),
{
    if bytes >= MB {
        let unit: u64 = if bytes >= GB {
            GB
        } else {
            MB
        };
        let shown: u64 = count_tenths(bytes, unit);
        let mut out = decimal_text(shown / 10);
        out.append(".");
        out.append(decimal_text(shown % 10).as_str());
        out.append(
            if bytes >= GB {
                " GB"
            } else {
                " MB"
            },
        );
        out
    } else if bytes >= KB {
        let mut out = decimal_text(bytes / KB);
        out.append(" KB");
        out
    } else {
        let mut out = decimal_text(bytes);
        out.append(" B");
        out
    }
}

// ---------------------------------------------------------------- laws

/// Rounding goes to the nearest whole number, and of two equally near to the even one.
pub proof fn lemma_rounded_to_nearest(num: nat, den: nat)
    requires
        den > 0,
    ensures
        ({
            let shown = round_half_even(num, den) as int;
            &&& 2 * (shown * den - num) <= den
            &&& 2 * (num - shown * den) <= den
            &&& 2 * (shown * den - num) == den || 2 * (num - shown * den) == den ==> shown % 2 == 0
        }),
{
    let quotient = num / den;
    let rest = num % den;
    assert(num == quotient * den + rest && rest < den) by (nonlinear_arith)
        requires
            den > 0,
            quotient == num / den,
            rest == num % den,
    ;
    assert((quotient + 1) * den == quotient * den + den) by (nonlinear_arith);
}

/// A whole number of up to fifty-three bits is kept as it is.
pub proof fn lemma_short_numbers_are_exact(n: nat)
    requires
        n < 0x20_0000_0000_0000,
    ensures
        as_double(n) == n,
{
    assert(double_unit(n, 1) == 1);
    lemma_rounded_to_nearest(n, 1);
}

proof fn lemma_longer_numbers_are_close(n: nat)
    requires
        n <= u64::MAX,
    ensures
        as_double(n) - n <= 1024,
        n - as_double(n) <= 1024,
{
    reveal_with_fuel(double_unit, 13);
    let unit = double_unit(n, 1);
    assert(1 <= unit <= 2048);
    lemma_rounded_to_nearest(n, unit);
}

/// The factor by which both numbers are scaled up.
proof fn lemma_scaled_together(num: nat, den: nat, scale: nat) -> (factor: nat)
    requires
        num > 0,
        den > 0,
    ensures
        factor >= 1,
        scaled_up(num, den, scale) == ((num * factor) as nat, (scale * factor) as nat),
        num * factor >= den * 0x10_0000_0000_0000,
    decreases 2 * den * 0x10_0000_0000_0000 - num,
{
    if num >= den * 0x10_0000_0000_0000 {
        assert(num * 1 == num && scale * 1 == scale) by (nonlinear_arith);
        1
    } else {
        let half = lemma_scaled_together(2 * num, den, 2 * scale);
        assert((2 * num) * half == num * (2 * half) && (2 * scale) * half == scale * (2 * half))
            by (nonlinear_arith);
        2 * half
    }
}

/// What is shown of a byte count in megabytes or gigabytes is a nearest number of
/// tenths, but for the little that double precision loses: less than a twenty-fifth of
/// a tenth beyond half of one.
pub proof fn lemma_tenths_are_nearest(n: nat, unit: nat)
    requires
        unit == 1_000_000 || unit == 1_000_000_000,
        unit <= n <= u64::MAX,
    ensures
        100 * (tenths(n, unit) * unit - 10 * n) <= 54 * unit,
        100 * (10 * n - tenths(n, unit) * unit) <= 54 * unit,
{
    lemma_longer_numbers_are_close(n);
    let m = as_double(n);
    let factor = lemma_scaled_together(m, unit, 1);
    assert(1 * factor == factor);
    let num = m * factor;
    let q = round_half_even(num, unit);
    let t = round_half_even(10 * q, factor);
    assert(tenths(n, unit) == t);
    lemma_rounded_to_nearest(num, unit);
    lemma_rounded_to_nearest(10 * q, factor);
    assert(factor >= 200) by {
        if factor < 200 {
            assert(m * factor <= m * 199) by (nonlinear_arith)
                requires
                    factor <= 199,
            ;
        }
    }
    let a = t * factor - 10 * q;
    let b = q * unit - num;
    let off = t * unit - 10 * m;
    assert(off * factor == a * unit + 10 * b) by (nonlinear_arith)
        requires
            a == t * factor - 10 * q,
            b == q * unit - m * factor,
            off == t * unit - 10 * m,
    ;
    assert(2 * (a * unit) <= factor * unit && -(factor * unit) <= 2 * (a * unit)) by (nonlinear_arith)
        requires
            2 * a <= factor,
            -factor <= 2 * a,
            unit > 0,
    ;
    assert(10 * unit * 20 <= factor * unit) by (nonlinear_arith)
        requires
            factor >= 200,
            unit > 0,
    ;
    assert(40 * off <= 21 * unit && -(21 * unit) <= 40 * off) by (nonlinear_arith)
        requires
            40 * (off * factor) <= 21 * (factor * unit),
            -(21 * (factor * unit)) <= 40 * (off * factor),
            factor > 0,
    ;
}

/// A byte count that is a whole number of tenths is shown as just that number.
pub proof fn lemma_whole_tenths_are_exact(n: nat, unit: nat, count: nat)
    requires
        unit == 1_000_000 || unit == 1_000_000_000,
        unit <= n <= u64::MAX,
        10 * n == count * unit,
    ensures
        tenths(n, unit) == count,
{
    lemma_tenths_are_nearest(n, unit);
    let t = tenths(n, unit);
    assert(t == count) by (nonlinear_arith)
        requires
            100 * (t * unit - count * unit) <= 54 * unit,
            100 * (count * unit - t * unit) <= 54 * unit,
            unit > 0,
    ;
}

/// A byte count is shown in the largest unit that it reaches, by powers of a thousand:
/// bytes as they are, kilobytes rounded down, megabytes and gigabytes with one digit
/// after the point.
pub proof fn lemma_shown_in_largest_unit(bytes: nat)
    ensures
        bytes < 1_000 ==> bytes_text(bytes) == decimal(bytes) + " B"@,
        1_000 <= bytes < 1_000_000 ==> bytes_text(bytes) == decimal(bytes / 1_000) + " KB"@,
        1_000_000 <= bytes < 1_000_000_000 ==> bytes_text(bytes) == with_point(
            tenths(bytes, 1_000_000),
        ) + " MB"@,
        bytes >= 1_000_000_000 ==> bytes_text(bytes) == with_point(tenths(bytes, 1_000_000_000))
            + " GB"@,
{
}

/// A number of tenths is shown as its digits with a point before the last one.
pub proof fn lemma_point_before_last_digit(count: nat)
    ensures
        ({
            let text = with_point(count);
            let n = text.len() as int;
            &&& n >= 3
            &&& text[n - 2] == '.'
            &&& text.take(n - 2) == decimal(count / 10)
            &&& text[n - 1] as u32 == 48 + count % 10
            &&& spelled(text.take(n - 2)) * 10 + (text[n - 1] as u32 - 48) == count
        }),
{
    reveal_strlit(".");
    lemma_decimal_spells_the_number(count / 10);
    lemma_decimal_spells_the_number(count % 10);
    reveal_with_fuel(spelled, 2);
    let text = with_point(count);
    let n = text.len() as int;
    let last = decimal(count % 10);
    assert(last.drop_last() =~= Seq::<char>::empty());
    assert(text.take(n - 2) =~= decimal(count / 10));
    assert(text[n - 1] == last[0]);
}

} // verus!
