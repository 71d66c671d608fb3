//! Saturating fixed-point scalars.
//!
//! A scalar is an `i64` holding `value * SCALE`, so `SCALE` stands for 1.0.
//! Multiplication and division truncate toward zero and saturate at the
//! `i64` range, which makes every operation total: no input needs to be
//! excluded, and each operation is pinned down exactly by its spec function.

use vstd::prelude::*;

verus! {

/// The fixed-point unit: an `i64` scalar `s` stands for the real `s / SCALE`.
pub const SCALE: i64 = 65536;

/// The depth a cleared pixel holds; every representable finite depth wins
/// the strict depth test against it except this largest value itself.
pub const DEPTH_FAR: i64 = 0x7fff_ffff_ffff_ffff;

/// Magnitude of an integer.
pub open spec fn mag(a: int) -> int {
    if a >= 0 {
        a
    } else {
        -a
    }
}

/// Division truncating toward zero, as the hardware divides.
pub open spec fn tdiv(a: int, b: int) -> int
    recommends
        b != 0,
{
    if (a >= 0) == (b >= 0) {
        mag(a) / mag(b)
    } else {
        -(mag(a) / mag(b))
    }
}

/// Clamp an unbounded integer into the `i64` range.
pub open spec fn sat64(x: int) -> int {
    if x > i64::MAX {
        i64::MAX as int
    } else if x < i64::MIN {
        i64::MIN as int
    } else {
        x
    }
}

/// What `fadd` returns.
pub open spec fn spec_fadd(a: int, b: int) -> int {
    sat64(a + b)
}

/// What `fsub` returns.
pub open spec fn spec_fsub(a: int, b: int) -> int {
    sat64(a - b)
}

/// What `fmul` returns: the product of two scalars, rescaled.
pub open spec fn spec_fmul(a: int, b: int) -> int {
    sat64(tdiv(a * b, SCALE as int))
}

/// What `fdiv` returns: the quotient of two scalars, rescaled; a zero
/// divisor (a degenerate triangle) yields zero rather than faulting.
pub open spec fn spec_fdiv(a: int, b: int) -> int {
    if b == 0 {
        0
    } else {
        sat64(tdiv(a * (SCALE as int), b))
    }
}

/// `fadd` at the `i64` level.
pub open spec fn sadd(a: i64, b: i64) -> i64 {
    spec_fadd(a as int, b as int) as i64
}

/// `fsub` at the `i64` level.
pub open spec fn ssub(a: i64, b: i64) -> i64 {
    spec_fsub(a as int, b as int) as i64
}

/// `fmul` at the `i64` level.
pub open spec fn smul(a: i64, b: i64) -> i64 {
    spec_fmul(a as int, b as int) as i64
}

/// `fdiv` at the `i64` level.
pub open spec fn sdiv(a: i64, b: i64) -> i64 {
    spec_fdiv(a as int, b as int) as i64
}

fn clamp128(x: i128) -> (r: i64)
    ensures
        r as int == sat64(x as int),
{
    if x > i64::MAX as i128 {
        i64::MAX
    } else if x < i64::MIN as i128 {
        i64::MIN
    } else {
        x as i64
    }
}

fn tdiv128(a: i128, b: i128) -> (r: i128)
    requires
        b > 0,
        -(i128::MAX as int) <= a as int,
    ensures
        r as int == tdiv(a as int, b as int),
{
    if a >= 0 {
        let q: u128 = (a as u128) / (b as u128);
        q as i128
    } else {
        let m: u128 = (-a) as u128;
        let q: u128 = m / (b as u128);
        assert(q as int == mag(a as int) / mag(b as int));
        -(q as i128)
    }
}

/// Saturating fixed-point addition.
pub fn fadd(a: i64, b: i64) -> (r: i64)
    ensures
        r as int == spec_fadd(a as int, b as int),
        r == sadd(a, b),
{
    clamp128(a as i128 + b as i128)
}

/// Saturating fixed-point subtraction.
pub fn fsub(a: i64, b: i64) -> (r: i64)
    ensures
        r as int == spec_fsub(a as int, b as int),
        r == ssub(a, b),
{
    clamp128(a as i128 - b as i128)
}

/// Saturating fixed-point multiplication, truncating toward zero.
pub fn fmul(a: i64, b: i64) -> (r: i64)
    ensures
        r as int == spec_fmul(a as int, b as int),
        r == smul(a, b),
{
    proof {
        assert(-(0x40000000000000000000000000000000int) <= (a as int) * (b as int)
            <= 0x40000000000000000000000000000000int) by (nonlinear_arith)
            requires
                -(0x8000000000000000int) <= a as int <= 0x7fffffffffffffffint,
                -(0x8000000000000000int) <= b as int <= 0x7fffffffffffffffint,
        ;
    }
    let p: i128 = (a as i128) * (b as i128);
    clamp128(tdiv128(p, SCALE as i128))
}

/// Saturating fixed-point division, truncating toward zero; division by
/// zero yields zero.
pub fn fdiv(a: i64, b: i64) -> (r: i64)
    ensures
        r as int == spec_fdiv(a as int, b as int),
        r == sdiv(a, b),
{
    if b == 0 {
        0
    } else {
        proof {
            assert(-(0x40000000000000000000000000000000int) < (a as int) * (SCALE as int)
                < 0x40000000000000000000000000000000int) by (nonlinear_arith)
                requires
                    -(0x8000000000000000int) <= a as int <= 0x7fffffffffffffffint,
            ;
        }
        let n: i128 = (a as i128) * (SCALE as i128);
        if b > 0 {
            clamp128(tdiv128(n, b as i128))
        } else {
            let q = tdiv128(n, -(b as i128));
            assert(tdiv(n as int, -(b as int)) == -tdiv(n as int, b as int));
            clamp128(-q)
        }
    }
}

} // verus!
