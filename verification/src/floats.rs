//! Floating-point numbers by their bits: which double-precision number is a single-precision one.

use vstd::prelude::*;

verus! {

/// The bits that stand for no number, in double and in single precision. Which of several bit
/// patterns for no number a computation gives depends on the machine, so this one takes their place.
pub const NO_NUMBER: u64 = 0x7FF8_0000_0000_0000;

pub const NO_SINGLE_NUMBER: u32 = 0x7FC0_0000;

/// Whether bits in single precision are those of no number.
pub open spec fn is_single_nan(bits: u32) -> bool {
    0x7F80_0000 < bits < 0x8000_0000 || 0xFF80_0000 < bits
}

/// A fraction doubled until it reaches the place of the leading one, and how often.
pub open spec fn raised(fraction: int, times: int) -> (int, int)
    decreases (if fraction < 0x80_0000 { 0x80_0000 - fraction } else { 0 }),
{
    if fraction >= 0x80_0000 || fraction <= 0 {
        (fraction, times)
    } else {
        raised(2 * fraction, times + 1)
    }
}

/// The bits, without the sign, of the double-precision number with the value of a single-precision
/// one, whose exponent and fraction are given.
pub open spec fn widened_magnitude(exponent: int, fraction: int) -> int {
    if exponent == 255 {
        0x7FF0_0000_0000_0000
    } else if exponent > 0 {
        (exponent + 896) * 0x10_0000_0000_0000 + fraction * 0x2000_0000
    } else if fraction == 0 {
        0
    } else {
        let (leading, times) = raised(fraction, 0);
        (897 - times) * 0x10_0000_0000_0000 + (leading - 0x80_0000) * 0x2000_0000
    }
}

/// The double-precision number with the value of a single-precision one.
pub open spec fn widened_bits(bits: u32) -> u64 {
    if is_single_nan(bits) {
        NO_NUMBER
    } else {
        let sign = bits as int / 0x8000_0000;
        let exponent = bits as int / 0x80_0000 % 256;
        let fraction = bits as int % 0x80_0000;
        (sign * 0x8000_0000_0000_0000 + widened_magnitude(exponent, fraction)) as u64
    }
}

/// The single-precision number with the value of a double-precision one, where there is one.
pub open spec fn narrowed_bits(bits: u64) -> Option<u32> {
    if exists|single: u32| !is_single_nan(single) && #[trigger] widened_bits(single) == bits {
        Some(choose|single: u32| !is_single_nan(single) && #[trigger] widened_bits(single) == bits)
    } else {
        None
    }
}

spec fn doubled(n: int, times: int) -> int
    decreases times,
{
    if times <= 0 {
        n
    } else {
        2 * doubled(n, times - 1)
    }
}

proof fn doubling_first(n: int, times: int)
    requires
        times >= 0,
    ensures
        doubled(2 * n, times) == doubled(n, times + 1),
    decreases times,
{
    reveal_with_fuel(doubled, 2);
    if times > 0 {
        doubling_first(n, times - 1);
    }
}

proof fn doubling_keeps_apart(a: int, b: int, times: int)
    requires
        doubled(a, times) == doubled(b, times),
    ensures
        a == b,
    decreases times,
{
    if times > 0 {
        doubling_keeps_apart(a, b, times - 1);
    }
}

proof fn raising_doubles(fraction: int, times: int, most: int)
    requires
        0 < fraction < 0x100_0000,
        most >= 0,
        doubled(fraction, most) >= 0x80_0000,
    ensures
        ({
            let (leading, count) = raised(fraction, times);
            &&& 0x80_0000 <= leading < 0x100_0000
            &&& times <= count <= times + most
            &&& leading == doubled(fraction, count - times)
            &&& fraction < 0x80_0000 ==> count > times
        }),
    decreases most,
{
    if fraction < 0x80_0000 {
        doubling_first(fraction, most - 1);
        raising_doubles(2 * fraction, times + 1, most - 1);
        let (leading, count) = raised(2 * fraction, times + 1);
        doubling_first(fraction, count - times - 1);
    }
}

proof fn doubling_grows(a: int, b: int, times: int)
    requires
        a <= b,
    ensures
        doubled(a, times) <= doubled(b, times),
    decreases times,
{
    if times > 0 {
        doubling_grows(a, b, times - 1);
    }
}

proof fn a_fraction_is_raised(fraction: int)
    requires
        0 < fraction < 0x80_0000,
    ensures
        ({
            let (leading, count) = raised(fraction, 0);
            &&& 0x80_0000 <= leading < 0x100_0000
            &&& 1 <= count <= 23
            &&& leading == doubled(fraction, count)
        }),
{
    reveal_with_fuel(doubled, 24);
    assert(doubled(1, 23) == 0x80_0000);
    doubling_grows(1, fraction, 23);
    raising_doubles(fraction, 0, 23);
}

proof fn magnitudes_keep_apart(e: int, f: int, g: int, h: int)
    requires
        0 <= e <= 255,
        0 <= g <= 255,
        0 <= f < 0x80_0000,
        0 <= h < 0x80_0000,
        e == 255 ==> f == 0,
        g == 255 ==> h == 0,
        widened_magnitude(e, f) == widened_magnitude(g, h),
    ensures
        e == g,
        f == h,
{
    if e == 0 && f > 0 {
        a_fraction_is_raised(f);
    }
    if g == 0 && h > 0 {
        a_fraction_is_raised(h);
    }
    if e == 0 && f > 0 && g == 0 && h > 0 {
        let (x, s) = raised(f, 0);
        let (y, t) = raised(h, 0);
        assert(s == t && x == y);
        doubling_keeps_apart(f, h, s);
    }
}

proof fn magnitudes_are_bounded(e: int, f: int)
    requires
        0 <= e <= 255,
        0 <= f < 0x80_0000,
    ensures
        0 <= widened_magnitude(e, f) <= 0x7FF0_0000_0000_0000,
{
    if e == 0 && f > 0 {
        a_fraction_is_raised(f);
    }
}

/// No two single-precision numbers have the value of one double-precision number.
pub proof fn widening_keeps_apart(a: u32, b: u32)
    requires
        !is_single_nan(a),
        !is_single_nan(b),
        widened_bits(a) == widened_bits(b),
    ensures
        a == b,
{
    let (e, f) = (a as int / 0x80_0000 % 256, a as int % 0x80_0000);
    let (g, h) = (b as int / 0x80_0000 % 256, b as int % 0x80_0000);
    magnitudes_are_bounded(e, f);
    magnitudes_are_bounded(g, h);
    assert(a as int / 0x8000_0000 == b as int / 0x8000_0000);
    magnitudes_keep_apart(e, f, g, h);
}

/// A single-precision number that is widened and narrowed again is the same.
pub proof fn narrowing_undoes_widening(bits: u32)
    requires
        !is_single_nan(bits),
    ensures
        narrowed_bits(widened_bits(bits)) == Some(bits),
{
    let single = choose|single: u32|
        !is_single_nan(single) && #[trigger] widened_bits(single) == widened_bits(bits);
    widening_keeps_apart(single, bits);
}

/// No single-precision number is widened to what is no number.
pub proof fn numbers_stay_numbers(bits: u32)
    requires
        !is_single_nan(bits),
    ensures
        !crate::scalar::is_nan(widened_bits(bits)),
{
    magnitudes_are_bounded(bits as int / 0x80_0000 % 256, bits as int % 0x80_0000);
}

} // verus!
