//! Fixed-point quantities of the game world.
//!
//! Every real quantity of the game (time, hit points, coordinates, ratios) is an
//! `i64` counted in thousandths of its unit: `1000` is one second, one hit point,
//! one world unit or a ratio of `1.0`. Arithmetic saturates at the bounds of `i64`.

use vstd::prelude::*;

verus! {

/// Time in milliseconds.
pub type Time = i64;

/// Hit points in thousandths.
pub type Hp = i64;

/// World coordinates in thousandths of a unit.
pub type Coord = i64;

/// A dimensionless ratio in thousandths (`1000` is `1.0`).
pub type Ratio = i64;

/// The number of fixed-point steps in one unit.
pub const SCALE: i64 = 1000;

/// The value of `x` saturated into the range of `i64`.
pub open spec fn saturate_spec(x: int) -> i64 {
    if x < i64::MIN {
        i64::MIN
    } else if x > i64::MAX {
        i64::MAX
    } else {
        x as i64
    }
}

pub open spec fn max_spec(a: int, b: int) -> int {
    if a >= b { a } else { b }
}

pub open spec fn min_spec(a: int, b: int) -> int {
    if a <= b { a } else { b }
}

/// `x` limited to the closed range from `lo` to `hi` (`lo` wins if the range is empty).
pub open spec fn clamp_spec(x: int, lo: int, hi: int) -> int {
    if x > hi {
        if hi < lo { lo } else { hi }
    } else if x < lo {
        lo
    } else {
        x
    }
}

/// Integer division of `a` by a positive `d`, rounding toward zero.
pub open spec fn trunc_div(a: int, d: int) -> int {
    if a >= 0 {
        a / d
    } else {
        -((-a) / d)
    }
}

/// The fixed-point product of `a` and `b`: `a * b / SCALE`, rounded toward zero.
pub open spec fn mul_fixed_spec(a: int, b: int) -> int {
    trunc_div(a * b, SCALE as int)
}

/// The fixed-point quotient of `a` by a positive `b`: `a * SCALE / b`, rounded toward zero.
pub open spec fn div_fixed_spec(a: int, b: int) -> int {
    trunc_div(a * SCALE, b)
}

/// Saturates a wide integer into `i64`.
pub fn saturate(x: i128) -> (r: i64)
    ensures
        r == saturate_spec(x as int),
{
    if x < i64::MIN as i128 {
        i64::MIN
    } else if x > i64::MAX as i128 {
        i64::MAX
    } else {
        x as i64
    }
}

/// Saturating sum.
pub fn add_sat(a: i64, b: i64) -> (r: i64)
    ensures
        r == saturate_spec(a + b),
{
    saturate(a as i128 + b as i128)
}

/// Saturating difference.
pub fn sub_sat(a: i64, b: i64) -> (r: i64)
    ensures
        r == saturate_spec(a - b),
{
    saturate(a as i128 - b as i128)
}

pub fn max_i64(a: i64, b: i64) -> (r: i64)
    ensures
        r == max_spec(a as int, b as int),
{
    if a >= b { a } else { b }
}

pub fn min_i64(a: i64, b: i64) -> (r: i64)
    ensures
        r == min_spec(a as int, b as int),
{
    if a <= b { a } else { b }
}

/// Rounds `a / d` toward zero for a positive divisor.
pub fn div_trunc(a: i128, d: i128) -> (r: i128)
    requires
        d > 0,
        a > i128::MIN,
    ensures
        r == trunc_div(a as int, d as int),
{
    if a >= 0 {
        a / d
    } else {
        let n: i128 = -a;
        proof {
            assert(0 <= n / d <= n) by (nonlinear_arith)
                requires
                    n >= 0,
                    d > 0,
            ;
        }
        -(n / d)
    }
}

proof fn lemma_product_bounds(a: i64, b: i64)
    ensures
        -0x4000_0000_0000_0000_0000_0000_0000_0000 <= a * b <= 0x4000_0000_0000_0000_0000_0000_0000_0000,
{
    assert(-0x4000_0000_0000_0000_0000_0000_0000_0000 <= a * b <= 0x4000_0000_0000_0000_0000_0000_0000_0000)
        by (nonlinear_arith)
        requires
            -0x8000_0000_0000_0000 <= a <= 0x7fff_ffff_ffff_ffff,
            -0x8000_0000_0000_0000 <= b <= 0x7fff_ffff_ffff_ffff,
    ;
}

/// The fixed-point product of `a` and `b`, saturated into `i64`.
pub fn mul_fixed(a: i64, b: i64) -> (r: i64)
    ensures
        r == saturate_spec(mul_fixed_spec(a as int, b as int)),
{
    proof {
        lemma_product_bounds(a, b);
    }
    let p: i128 = (a as i128) * (b as i128);
    saturate(div_trunc(p, SCALE as i128))
}

} // verus!
