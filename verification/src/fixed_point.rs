//! Fixed-point numbers: an integer `v` stands for the fraction `v / ONE`.

use vstd::prelude::*;

verus! {

/// The number of units that make up the value one.
pub const ONE: i64 = 1_000_000_000;

/// The fraction 0.1.
pub const ONE_TENTH: i64 = 100_000_000;

/// The nearest value to `x` that an `i64` can hold.
pub open spec fn saturated(x: int) -> int {
    if x < i64::MIN as int {
        i64::MIN as int
    } else if x > i64::MAX as int {
        i64::MAX as int
    } else {
        x
    }
}

/// Narrows a wide intermediate result, pinning it to the ends of the `i64` range.
pub fn saturate(x: i128) -> (r: i64)
    ensures
        r as int == saturated(x as int),
{
    if x < i64::MIN as i128 {
        i64::MIN
    } else if x > i64::MAX as i128 {
        i64::MAX
    } else {
        x as i64
    }
}

/// The blend `a * weight + b * (1 - weight)` of two fixed-point values, where
/// `weight` is a fraction of `ONE`; the quotient is rounded toward zero.
pub open spec fn blended(a: int, b: int, weight: int) -> int {
    let total = a * weight + b * (ONE as int - weight);
    let quotient = if total >= 0 {
        total / (ONE as int)
    } else {
        -((-total) / (ONE as int))
    };
    saturated(quotient)
}

/// Computes `blended(a, b, weight)`.
pub fn blend(a: i64, b: i64, weight: u64) -> (r: i64)
    requires
        weight <= ONE as u64,
    ensures
        r as int == blended(a as int, b as int, weight as int),
{
    let w: i128 = weight as i128;
    let rest: i128 = ONE as i128 - w;
    assert(-0x8000_0000_0000_0000 * 1_000_000_000 <= (a as int) * (w as int) <= 0x8000_0000_0000_0000 * 1_000_000_000)
        by (nonlinear_arith)
        requires
            -0x8000_0000_0000_0000 <= a as int <= 0x8000_0000_0000_0000,
            0 <= w as int <= 1_000_000_000,
    ;
    assert(-0x8000_0000_0000_0000 * 1_000_000_000 <= (b as int) * (rest as int) <= 0x8000_0000_0000_0000 * 1_000_000_000)
        by (nonlinear_arith)
        requires
            -0x8000_0000_0000_0000 <= b as int <= 0x8000_0000_0000_0000,
            0 <= rest as int <= 1_000_000_000,
    ;
    let total: i128 = (a as i128) * w + (b as i128) * rest;
    let quotient: i128 = if total >= 0 {
        total / (ONE as i128)
    } else {
        -((-total) / (ONE as i128))
    };
    saturate(quotient)
}

} // verus!
