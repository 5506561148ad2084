//! Fixed-point arithmetic.
//!
//! Every real quantity of the simulation (weights, angles, distances,
//! energies) is an `i64` counting millionths: the number one is [`SCALE`].
//! All operations are total and saturate at the ends of the `i64` range.

use vstd::prelude::*;

verus! {

/// The fixed-point representation of the number one.
pub const SCALE: i64 = 1_000_000;

/// Half a turn, in radians.
pub const PI: i64 = 3_141_593;

/// A full turn, in radians; exactly twice [`PI`].
pub const TAU: i64 = 2 * PI;

/// A quarter turn, in radians.
pub const FRAC_PI_2: i64 = 1_570_796;

/// An eighth of a turn, in radians.
pub const FRAC_PI_4: i64 = 785_398;

/// The `i64` nearest to `value`.
pub open spec fn clamped(value: int) -> i64 {
    if value < i64::MIN {
        i64::MIN
    } else if value > i64::MAX {
        i64::MAX
    } else {
        value as i64
    }
}

/// `value` held between `low` and `high`.
pub open spec fn limited(value: int, low: int, high: int) -> int {
    if value < low {
        low
    } else if value > high {
        high
    } else {
        value
    }
}

/// The member of `[low, high)` that differs from `value` by a multiple of
/// `high - low`.
pub open spec fn wrapped_from(value: int, low: int, high: int) -> int {
    low + (value - low) % (high - low)
}

/// The member of `(low, high]` that differs from `value` by a multiple of
/// `high - low`.
pub open spec fn wrapped_upto(value: int, low: int, high: int) -> int {
    high - (high - value) % (high - low)
}

fn narrow(value: i128) -> (r: i64)
    ensures
        r == clamped(value as int),
{
    if value < i64::MIN as i128 {
        i64::MIN
    } else if value > i64::MAX as i128 {
        i64::MAX
    } else {
        value as i64
    }
}

/// The quotient of `value` by a positive `divisor`, rounded down.
fn floor_div(value: i128, divisor: i128) -> (r: i128)
    requires
        divisor > 0,
    ensures
        r == value as int / divisor as int,
{
    assert(i128::MIN <= value as int / divisor as int <= i128::MAX) by (nonlinear_arith)
        requires
            divisor > 0,
            i128::MIN <= value <= i128::MAX,
    ;
    match value.checked_div_euclid(divisor) {
        Some(q) => q,
        None => vstd::pervasive::unreached(),
    }
}

/// What `value` leaves when a positive `divisor` is taken from it as often
/// as it goes: at least zero and less than the divisor.
fn floor_rem(value: i128, divisor: i128) -> (r: i128)
    requires
        divisor > 0,
    ensures
        r == value as int % divisor as int,
        0 <= r < divisor,
{
    match value.checked_rem_euclid(divisor) {
        Some(rest) => rest,
        None => vstd::pervasive::unreached(),
    }
}

/// Saturating sum.
pub fn sum(a: i64, b: i64) -> (r: i64)
    ensures
        r == clamped(a + b),
{
    narrow(a as i128 + b as i128)
}

/// Saturating difference.
pub fn difference(a: i64, b: i64) -> (r: i64)
    ensures
        r == clamped(a - b),
{
    narrow(a as i128 - b as i128)
}

/// Saturating fixed-point product, rounded down.
pub fn product(a: i64, b: i64) -> (r: i64)
    ensures
        r == clamped(a * b / SCALE as int),
{
    assert(-0x4000_0000_0000_0000_0000_0000_0000_0000 <= a * b
        <= 0x4000_0000_0000_0000_0000_0000_0000_0000) by (nonlinear_arith)
        requires
            -0x8000_0000_0000_0000 <= a <= 0x8000_0000_0000_0000,
            -0x8000_0000_0000_0000 <= b <= 0x8000_0000_0000_0000,
    ;
    narrow(floor_div((a as i128) * (b as i128), SCALE as i128))
}

/// Saturating fixed-point quotient by a positive divisor, rounded down.
pub fn quotient(a: i64, b: i64) -> (r: i64)
    requires
        b > 0,
    ensures
        r == clamped(a * SCALE as int / b as int),
{
    assert(-0x4000_0000_0000_0000_0000_0000_0000_0000 <= a * SCALE
        <= 0x4000_0000_0000_0000_0000_0000_0000_0000) by (nonlinear_arith)
        requires
            -0x8000_0000_0000_0000 <= a <= 0x8000_0000_0000_0000,
            SCALE == 1_000_000,
    ;
    narrow(floor_div((a as i128) * (SCALE as i128), b as i128))
}

/// `value` held between `low` and `high`.
pub fn limit(value: i64, low: i64, high: i64) -> (r: i64)
    requires
        low <= high,
    ensures
        r == limited(value as int, low as int, high as int),
{
    if value < low {
        low
    } else if value > high {
        high
    } else {
        value
    }
}

/// Wraps `value` into `[low, high)`.
pub fn wrap_from(value: i64, low: i64, high: i64) -> (r: i64)
    requires
        low < high,
    ensures
        r == wrapped_from(value as int, low as int, high as int),
        low <= r < high,
{
    let width: i128 = high as i128 - low as i128;
    let offset: i128 = value as i128 - low as i128;
    (low as i128 + floor_rem(offset, width)) as i64
}

/// Wraps `value` into `(low, high]`.
pub fn wrap_upto(value: i64, low: i64, high: i64) -> (r: i64)
    requires
        low < high,
    ensures
        r == wrapped_upto(value as int, low as int, high as int),
        low < r <= high,
{
    let width: i128 = high as i128 - low as i128;
    let offset: i128 = high as i128 - value as i128;
    (high as i128 - floor_rem(offset, width)) as i64
}

} // verus!
