//! Fixed-point arithmetic helpers shared by the whole pipeline.
//!
//! A coordinate is an `i64` carrying 16 fractional bits: the real value `v`
//! is represented as `v * FP_ONE`, and every division in the pipeline floors
//! (divisors are always positive, so Euclidean division in specifications
//! and `checked_div_euclid` in executable code agree on the floor).

use vstd::prelude::*;
use vstd::arithmetic::div_mod::{lemma_div_pos_is_pos, lemma_div_nonincreasing, lemma_div_is_ordered, lemma_div_by_multiple, lemma_div_multiples_vanish};

verus! {

/// One whole unit in the fixed-point representation (16 fractional bits).
pub const FP_ONE: i64 = 65536;

/// For a positive divisor the Euclidean quotient lies between the dividend
/// and zero.
pub proof fn lemma_div_floor_range(a: int, b: int)
    requires
        b > 0,
    ensures
        a >= 0 ==> 0 <= a / b <= a,
        a < 0 ==> a <= a / b <= 0,
{
    if a >= 0 {
        lemma_div_pos_is_pos(a, b);
        lemma_div_nonincreasing(a, b);
    } else {
        assert(a <= a / b <= 0) by (nonlinear_arith)
            requires
                b > 0,
                a < 0,
        ;
    }
}

/// Flooring division by a positive divisor. In specifications `/` on `int`
/// is Euclidean division, which for a positive divisor is exactly the floor
/// of the quotient.
pub fn div_floor(a: i64, b: i64) -> (q: i64)
    requires
        b > 0,
    ensures
        q == a as int / b as int,
{
    proof {
        lemma_div_floor_range(a as int, b as int);
    }
    match a.checked_div_euclid(b) {
        Some(q) => q,
        None => {
            proof {
                assert(false);
            }
            0
        },
    }
}

/// Linear interpolation `d * t / h` stays between `0` and `d` while the
/// fraction `t / h` stays between zero and one.
pub proof fn lemma_lerp_bounds(d: int, t: int, h: int)
    requires
        h > 0,
        0 <= t <= h,
    ensures
        d >= 0 ==> 0 <= d * t / h <= d,
        d < 0 ==> d <= d * t / h <= 0,
{
    if d >= 0 {
        assert(0 <= d * t <= d * h) by (nonlinear_arith)
            requires
                0 <= t <= h,
                d >= 0,
        ;
        lemma_div_pos_is_pos(d * t, h);
        lemma_div_is_ordered(d * t, d * h, h);
        lemma_div_by_multiple(d, h);
    } else {
        assert(d * h <= d * t <= 0) by (nonlinear_arith)
            requires
                0 <= t <= h,
                d < 0,
        ;
        lemma_div_is_ordered(d * h, d * t, h);
        assert(d * h == h * d) by (nonlinear_arith);
        lemma_div_multiples_vanish(d, h);
        lemma_div_floor_range(d * t, h);
    }
}

/// The smaller of two machine integers.
pub fn min_i64(a: i64, b: i64) -> (r: i64)
    ensures
        r == if a <= b { a as int } else { b as int },
{
    if a <= b {
        a
    } else {
        b
    }
}

/// The larger of two machine integers.
pub fn max_i64(a: i64, b: i64) -> (r: i64)
    ensures
        r == if a >= b { a as int } else { b as int },
{
    if a >= b {
        a
    } else {
        b
    }
}

/// Absolute value of a fixed-point quantity.
pub fn abs_i64(a: i64) -> (r: i64)
    requires
        a != i64::MIN,
    ensures
        r == if a >= 0 { a as int } else { -a as int },
{
    if a < 0 {
        -a
    } else {
        a
    }
}

} // verus!
