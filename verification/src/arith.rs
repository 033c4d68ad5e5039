//! Saturating fixed-point arithmetic for the creature's stats.
//!
//! All stats are `i64` values in centi units (hundredths). Additions and
//! subtractions saturate at the ends of the `i64` range, so the terminal
//! age sentinel `i64::MAX` absorbs further increments.

use vstd::prelude::*;

verus! {

/// Sum of `a` and `b`, clamped to the `i64` range.
pub open spec fn spec_sat_add_i64(a: int, b: int) -> int {
    if a + b > i64::MAX {
        i64::MAX as int
    } else if a + b < i64::MIN {
        i64::MIN as int
    } else {
        a + b
    }
}

/// Sum of `a` and `b`, clamped to the `u32` range.
pub open spec fn spec_sat_add_u32(a: int, b: int) -> int {
    if a + b > u32::MAX {
        u32::MAX as int
    } else {
        a + b
    }
}

/// Saturating addition on centi-unit stats.
pub fn sat_add_i64(a: i64, b: i64) -> (r: i64)
    ensures
        r as int == spec_sat_add_i64(a as int, b as int),
{
    if b >= 0 {
        if a > i64::MAX - b {
            i64::MAX
        } else {
            a + b
        }
    } else {
        if a < i64::MIN - b {
            i64::MIN
        } else {
            a + b
        }
    }
}

/// Saturating addition on resource counts.
pub fn sat_add_u32(a: u32, b: u32) -> (r: u32)
    ensures
        r as int == spec_sat_add_u32(a as int, b as int),
{
    if a > u32::MAX - b {
        u32::MAX
    } else {
        a + b
    }
}

/// Division by five rounding toward negative infinity, written without a
/// division of a negative value so that both branches divide nonnegative
/// numbers.
pub open spec fn spec_fifth(x: int) -> int {
    if x >= 0 {
        x / 5
    } else {
        -((-x + 4) / 5)
    }
}

/// Clamp an extended-range intermediate value back to the `i64` range.
pub open spec fn spec_clamp_i64(x: int) -> int {
    if x > i64::MAX {
        i64::MAX as int
    } else if x < i64::MIN {
        i64::MIN as int
    } else {
        x
    }
}

/// One fifth of `x`, rounded toward negative infinity.
pub fn fifth_i128(x: i128) -> (r: i128)
    requires
        i64::MIN as i128 * 32 <= x,
        x <= i64::MAX as i128 * 32,
    ensures
        r as int == spec_fifth(x as int),
{
    if x >= 0 {
        x / 5
    } else {
        let m: i128 = -x + 4;
        -(m / 5)
    }
}

/// Clamp an `i128` intermediate back to `i64`.
pub fn clamp_to_i64(x: i128) -> (r: i64)
    ensures
        r as int == spec_clamp_i64(x as int),
{
    if x > i64::MAX as i128 {
        i64::MAX
    } else if x < i64::MIN as i128 {
        i64::MIN
    } else {
        x as i64
    }
}

} // verus!
