//! Fixed-point arithmetic on `i128`.
//!
//! A value `v: i128` stands for the real number `v / SCALE`. Products are
//! computed exactly in `i128` and rescaled with a quotient that rounds
//! toward zero, which is exactly what Rust's `/` does; the spec function
//! [`quot`] gives that rounding a name that contracts can use.

use vstd::arithmetic::div_mod::{
    lemma_div_by_multiple, lemma_div_is_ordered, lemma_div_is_ordered_by_denominator,
    lemma_div_pos_is_pos,
};
use vstd::arithmetic::mul::lemma_mul_nonnegative;
use vstd::prelude::*;

verus! {

/// Number of fixed-point units per one: a value `v` stands for `v / SCALE`.
pub const SCALE: i128 = 10_000_000_000_000;

/// The quotient of `p` by `d`, rounded toward zero: the value Rust's `/`
/// computes on signed integers for a positive divisor.
pub open spec fn quot(p: int, d: int) -> int {
    if p >= 0 {
        p / d
    } else {
        -((-p) / d)
    }
}

/// The fixed-point product of `a` and `b`: their exact product, scaled back
/// down with rounding toward zero.
pub open spec fn fmul(a: int, b: int) -> int {
    quot(a * b, SCALE as int)
}

/// Truncating division by a positive divisor.
pub fn tdiv(a: i128, d: i128) -> (r: i128)
    requires
        d > 0,
    ensures
        r == quot(a as int, d as int),
{
    a / d
}

/// Fixed-point multiplication; the exact product must fit in `i128`.
pub fn fp_mul(a: i128, b: i128) -> (r: i128)
    requires
        i128::MIN <= a * b <= i128::MAX,
    ensures
        r == fmul(a as int, b as int),
{
    let p: i128 = a * b;
    tdiv(p, SCALE)
}

/// A truncating quotient of a value in `[-m, m]` by `d >= 1` lies in
/// `[-(m / d), m / d]`, and so also in `[-m, m]`.
pub proof fn lemma_quot_bound(p: int, d: int, m: int)
    requires
        d >= 1,
        0 <= m,
        -m <= p <= m,
    ensures
        -(m / d) <= quot(p, d) <= m / d,
        -m <= quot(p, d) <= m,
{
    lemma_div_is_ordered_by_denominator(m, 1, d);
    if p >= 0 {
        lemma_div_pos_is_pos(p, d);
        lemma_div_is_ordered(p, m, d);
    } else {
        lemma_div_pos_is_pos(-p, d);
        lemma_div_is_ordered(-p, m, d);
    }
}

/// A truncating quotient of a non-negative value by a positive divisor
/// stays between zero and the dividend.
pub proof fn lemma_quot_nonneg(p: int, d: int)
    requires
        0 <= p,
        1 <= d,
    ensures
        0 <= quot(p, d) <= p,
{
    lemma_div_pos_is_pos(p, d);
    lemma_div_is_ordered_by_denominator(p, 1, d);
}

/// A square is never negative.
pub proof fn lemma_square_nonneg(x: int)
    by (nonlinear_arith)
    ensures
        x * x >= 0,
{
}

/// Bounds on the factors give a bound on the product.
pub proof fn lemma_abs_mul_bound(a: int, b: int, x: int, y: int)
    by (nonlinear_arith)
    requires
        -x <= a <= x,
        -y <= b <= y,
        0 <= x,
        0 <= y,
    ensures
        -(x * y) <= a * b <= x * y,
{
}

/// Bounds on the factors give a bound on the fixed-point product.
pub proof fn lemma_fmul_bound(a: int, b: int, x: int, y: int)
    requires
        -x <= a <= x,
        -y <= b <= y,
        0 <= x,
        0 <= y,
    ensures
        -((x * y) / (SCALE as int)) <= fmul(a, b) <= (x * y) / (SCALE as int),
        -(x * y) <= fmul(a, b) <= x * y,
{
    lemma_abs_mul_bound(a, b, x, y);
    lemma_quot_bound(a * b, SCALE as int, x * y);
}

/// Scaling a value up by `SCALE` and back down returns it unchanged.
pub proof fn lemma_fmul_scale_exact(v: int)
    requires
        v >= 0,
    ensures
        quot(v * (SCALE as int), SCALE as int) == v,
{
    lemma_abs_mul_bound(v, SCALE as int, v, SCALE as int);
    lemma_div_by_multiple(v, SCALE as int);
}

/// Multiplying a non-negative value by a fixed-point factor of at most one
/// does not increase it.
pub proof fn lemma_fmul_shrinks(v: int, f: int)
    requires
        0 <= v,
        0 <= f <= SCALE as int,
    ensures
        0 <= fmul(v, f) <= v,
{
    lemma_mul_nonnegative(v, f);
    lemma_abs_mul_bound(v, f, v, SCALE as int);
    lemma_quot_bound(v * f, SCALE as int, v * (SCALE as int));
    lemma_div_by_multiple(v, SCALE as int);
    lemma_div_pos_is_pos(v * f, SCALE as int);
}

} // verus!
