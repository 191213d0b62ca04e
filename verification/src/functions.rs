//! The fixed library of integrand functions and the integration weights.
//!
//! Every executable function mirrors a spec function over mathematical
//! integers exactly, so callers know the result to the unit in the last
//! place of the fixed-point representation.

use crate::fixed::{fmul, fp_mul, quot, tdiv, SCALE};
use crate::fixed::{
    lemma_abs_mul_bound, lemma_fmul_bound, lemma_fmul_shrinks, lemma_quot_bound,
    lemma_quot_nonneg, lemma_square_nonneg,
};
use crate::Function;
use vstd::prelude::*;

verus! {

/// Largest argument magnitude the function library accepts: ten in real
/// terms, so that every intermediate product fits comfortably in `i128`.
pub const X_LIM: i128 = 10 * SCALE;

/// A bound on the magnitude of every function value on `[-X_LIM, X_LIM]`.
pub const F_LIM: i128 = 1_200 * SCALE;

/// 0.15 in fixed point.
pub const C0_15: i128 = 1_500_000_000_000;

/// 0.07 in fixed point.
pub const C0_07: i128 = 700_000_000_000;

/// 0.3 in fixed point.
pub const C0_3: i128 = 3_000_000_000_000;

/// 0.2 in fixed point.
pub const C0_2: i128 = 2_000_000_000_000;

/// The quadratic -1 + x(-1 + 0.15x) in fixed point.
pub open spec fn spec_polynomial1(x: int) -> int {
    -SCALE + fmul(x, -SCALE + fmul(x, C0_15 as int))
}

/// The quartic -1 + x(-1 + x(-0.2 + x(-0.3 + 0.07x))) in fixed point.
pub open spec fn spec_polynomial2(x: int) -> int {
    -SCALE + fmul(x, -SCALE + fmul(x, -C0_2 + fmul(x, -C0_3 + fmul(x, C0_07 as int))))
}

/// 0.5x + 2 in fixed point.
pub open spec fn spec_linear(x: int) -> int {
    quot(x, 2) + 2 * SCALE
}

/// |x|.
pub open spec fn spec_absolute(x: int) -> int {
    if x < 0 {
        -x
    } else {
        x
    }
}

/// Evaluates -1 + x(-1 + 0.15x).
pub fn polynomial1(x: i128) -> (r: i128)
    requires
        -X_LIM <= x <= X_LIM,
    ensures
        r == spec_polynomial1(x as int),
        -F_LIM <= r <= F_LIM,
{
    proof {
        lemma_abs_mul_bound(x as int, C0_15 as int, X_LIM as int, C0_15 as int);
        lemma_fmul_bound(x as int, C0_15 as int, X_LIM as int, C0_15 as int);
    }
    let inner: i128 = -SCALE + fp_mul(x, C0_15);
    proof {
        lemma_abs_mul_bound(x as int, inner as int, X_LIM as int, 3 * SCALE as int);
        lemma_fmul_bound(x as int, inner as int, X_LIM as int, 3 * SCALE as int);
    }
    -SCALE + fp_mul(x, inner)
}

/// Evaluates -1 + x(-1 + x(-0.2 + x(-0.3 + 0.07x))).
pub fn polynomial2(x: i128) -> (r: i128)
    requires
        -X_LIM <= x <= X_LIM,
    ensures
        r == spec_polynomial2(x as int),
        -F_LIM <= r <= F_LIM,
{
    proof {
        lemma_abs_mul_bound(x as int, C0_07 as int, X_LIM as int, C0_07 as int);
        lemma_fmul_bound(x as int, C0_07 as int, X_LIM as int, C0_07 as int);
    }
    let t1: i128 = -C0_3 + fp_mul(x, C0_07);
    proof {
        lemma_abs_mul_bound(x as int, t1 as int, X_LIM as int, SCALE as int);
        lemma_fmul_bound(x as int, t1 as int, X_LIM as int, SCALE as int);
    }
    let t2: i128 = -C0_2 + fp_mul(x, t1);
    proof {
        lemma_abs_mul_bound(x as int, t2 as int, X_LIM as int, 11 * SCALE as int);
        lemma_fmul_bound(x as int, t2 as int, X_LIM as int, 11 * SCALE as int);
    }
    let t3: i128 = -SCALE + fp_mul(x, t2);
    proof {
        lemma_abs_mul_bound(x as int, t3 as int, X_LIM as int, 112 * SCALE as int);
        lemma_fmul_bound(x as int, t3 as int, X_LIM as int, 112 * SCALE as int);
    }
    -SCALE + fp_mul(x, t3)
}

/// Evaluates 0.5x + 2.
pub fn linear(x: i128) -> (r: i128)
    requires
        -X_LIM <= x <= X_LIM,
    ensures
        r == spec_linear(x as int),
        -F_LIM <= r <= F_LIM,
{
    proof {
        lemma_quot_bound(x as int, 2, X_LIM as int);
    }
    tdiv(x, 2) + 2 * SCALE
}

/// Evaluates |x|.
pub fn absolute(x: i128) -> (r: i128)
    requires
        -X_LIM <= x <= X_LIM,
    ensures
        r == spec_absolute(x as int),
        -F_LIM <= r <= F_LIM,
{
    if x < 0 {
        -x
    } else {
        x
    }
}

/// e^(-1) in fixed point.
pub const E_NEG1: i128 = 3_678_794_411_714;

/// Number of Taylor terms used for e^(-r) on [0, 1); the first dropped term
/// is below the fixed-point resolution.
pub const EXP_TERMS: usize = 19;

/// Arguments of 40 or more in real terms make e^(-t) indistinguishable from
/// zero at this resolution.
pub const EXP_CUTOFF: i128 = 40 * SCALE;

/// The j-th Taylor term of e^(-r) in fixed point: term 0 is one, and each
/// following term is the previous one times r/j.
pub open spec fn spec_exp_term(r: int, j: nat) -> int
    decreases j,
{
    if j == 0 {
        SCALE as int
    } else {
        quot(fmul(spec_exp_term(r, (j - 1) as nat), r), j as int)
    }
}

/// The alternating sum of the first j Taylor terms of e^(-r).
pub open spec fn spec_exp_taylor(r: int, j: nat) -> int
    decreases j,
{
    if j == 0 {
        0
    } else {
        let prev = spec_exp_taylor(r, (j - 1) as nat);
        if (j - 1) % 2 == 0 {
            prev + spec_exp_term(r, (j - 1) as nat)
        } else {
            prev - spec_exp_term(r, (j - 1) as nat)
        }
    }
}

/// Clamps a value into [0, 1] in fixed point.
pub open spec fn spec_clamp_unit(v: int) -> int {
    if v < 0 {
        0
    } else if v > SCALE {
        SCALE as int
    } else {
        v
    }
}

/// v multiplied k times by e^(-1) in fixed point.
pub open spec fn spec_exp_shift(v: int, k: nat) -> int
    decreases k,
{
    if k == 0 {
        v
    } else {
        fmul(spec_exp_shift(v, (k - 1) as nat), E_NEG1 as int)
    }
}

/// e^(-t) in fixed point, for t >= 0: zero beyond the cutoff, otherwise the
/// Taylor sum on the fractional part shifted down by e^(-1) once for each
/// whole unit of t.
pub open spec fn spec_exp_neg(t: int) -> int {
    if t >= EXP_CUTOFF {
        0
    } else {
        spec_exp_shift(
            spec_clamp_unit(spec_exp_taylor(t % (SCALE as int), EXP_TERMS as nat)),
            (t / (SCALE as int)) as nat,
        )
    }
}

/// Evaluates e^(-t) for a non-negative fixed-point argument.
pub fn exp_neg(t: i128) -> (r: i128)
    requires
        0 <= t,
    ensures
        r == spec_exp_neg(t as int),
        0 <= r <= SCALE,
{
    if t >= EXP_CUTOFF {
        return 0;
    }
    let k: i128 = tdiv(t, SCALE);
    let rem: i128 = t % SCALE;
    let mut sum: i128 = 0;
    let mut term: i128 = SCALE;
    let mut j: usize = 0;
    while j < EXP_TERMS
        invariant
            0 <= j <= EXP_TERMS,
            0 <= rem < SCALE,
            term == spec_exp_term(rem as int, j as nat),
            sum == spec_exp_taylor(rem as int, j as nat),
            0 <= term <= SCALE,
            -(j as int) * SCALE <= sum <= (j as int) * SCALE,
        decreases EXP_TERMS - j,
    {
        if j % 2 == 0 {
            sum = sum + term;
        } else {
            sum = sum - term;
        }
        proof {
            lemma_abs_mul_bound(term as int, rem as int, SCALE as int, SCALE as int);
            lemma_fmul_shrinks(term as int, rem as int);
            lemma_quot_nonneg(fmul(term as int, rem as int), j + 1);
        }
        term = tdiv(fp_mul(term, rem), (j as i128) + 1);
        j = j + 1;
    }
    let base: i128 = if sum < 0 {
        0
    } else if sum > SCALE {
        SCALE
    } else {
        sum
    };
    let mut v: i128 = base;
    let mut i: i128 = 0;
    while i < k
        invariant
            0 <= i <= k,
            0 <= k < 40,
            v == spec_exp_shift(base as int, i as nat),
            0 <= v <= SCALE,
        decreases k - i,
    {
        proof {
            lemma_abs_mul_bound(v as int, E_NEG1 as int, SCALE as int, SCALE as int);
            lemma_fmul_shrinks(v as int, E_NEG1 as int);
        }
        v = fp_mul(v, E_NEG1);
        i = i + 1;
    }
    v
}

/// Pi in fixed point.
pub const PI_FP: i128 = 31_415_926_535_898;

/// Two pi in fixed point.
pub const TWO_PI_FP: i128 = 2 * PI_FP;

/// An upper bound on the fixed-point square of an angle already folded into
/// [-pi, pi].
pub const M2_LIM: i128 = 98_696_044_010_894;

/// Number of Taylor terms used for cosine on [-pi, pi].
pub const COS_TERMS: usize = 14;

/// Number of Taylor terms used for sine on [-pi, pi].
pub const SIN_TERMS: usize = 13;

/// Folds a non-negative angle into [-pi, pi] by reducing modulo two pi.
pub open spec fn spec_angle_fold(ax: int) -> int {
    let m = ax % (TWO_PI_FP as int);
    if m > PI_FP {
        m - TWO_PI_FP
    } else {
        m
    }
}

/// Clamps a value into [-1, 1] in fixed point.
pub open spec fn spec_clamp_sym(v: int) -> int {
    if v < -SCALE {
        -(SCALE as int)
    } else if v > SCALE {
        SCALE as int
    } else {
        v
    }
}

/// The j-th Taylor term of cos on a folded angle with square m2: term 0 is
/// one, and term j is the previous one times m2 / ((2j-1) * 2j).
pub open spec fn spec_cos_term(m2: int, j: nat) -> int
    decreases j,
{
    if j == 0 {
        SCALE as int
    } else {
        quot(fmul(spec_cos_term(m2, (j - 1) as nat), m2), (2 * j - 1) * (2 * j))
    }
}

/// The alternating sum of the first j Taylor terms of cos.
pub open spec fn spec_cos_taylor(m2: int, j: nat) -> int
    decreases j,
{
    if j == 0 {
        0
    } else {
        let prev = spec_cos_taylor(m2, (j - 1) as nat);
        if (j - 1) % 2 == 0 {
            prev + spec_cos_term(m2, (j - 1) as nat)
        } else {
            prev - spec_cos_term(m2, (j - 1) as nat)
        }
    }
}

/// cos(x) in fixed point: the angle is folded into [-pi, pi] and the Taylor
/// sum is clamped into [-1, 1].
pub open spec fn spec_cos(x: int) -> int {
    let m = spec_angle_fold(spec_absolute(x));
    spec_clamp_sym(spec_cos_taylor(fmul(m, m), COS_TERMS as nat))
}

/// The j-th Taylor term of sin on a folded angle m with square m2: term 0 is
/// m, and term j is the previous one times m2 / (2j * (2j+1)).
pub open spec fn spec_sin_term(m: int, m2: int, j: nat) -> int
    decreases j,
{
    if j == 0 {
        m
    } else {
        quot(fmul(spec_sin_term(m, m2, (j - 1) as nat), m2), (2 * j) * (2 * j + 1) as int)
    }
}

/// The alternating sum of the first j Taylor terms of sin.
pub open spec fn spec_sin_taylor(m: int, m2: int, j: nat) -> int
    decreases j,
{
    if j == 0 {
        0
    } else {
        let prev = spec_sin_taylor(m, m2, (j - 1) as nat);
        if (j - 1) % 2 == 0 {
            prev + spec_sin_term(m, m2, (j - 1) as nat)
        } else {
            prev - spec_sin_term(m, m2, (j - 1) as nat)
        }
    }
}

/// sin(x) in fixed point: computed on |x| folded into [-pi, pi], with the
/// sign of x restored afterwards.
pub open spec fn spec_sin(x: int) -> int {
    let m = spec_angle_fold(spec_absolute(x));
    let s = spec_clamp_sym(spec_sin_taylor(m, fmul(m, m), SIN_TERMS as nat));
    if x < 0 {
        -s
    } else {
        s
    }
}

/// Folds |x| into [-pi, pi].
fn angle_fold(x: i128) -> (m: i128)
    requires
        -X_LIM <= x <= X_LIM,
    ensures
        m == spec_angle_fold(spec_absolute(x as int)),
        -PI_FP <= m <= PI_FP,
{
    let ax: i128 = if x < 0 {
        -x
    } else {
        x
    };
    let m0: i128 = ax % TWO_PI_FP;
    if m0 > PI_FP {
        m0 - TWO_PI_FP
    } else {
        m0
    }
}

/// Evaluates cos(x).
pub fn cos_fp(x: i128) -> (r: i128)
    requires
        -X_LIM <= x <= X_LIM,
    ensures
        r == spec_cos(x as int),
        -SCALE <= r <= SCALE,
{
    let m: i128 = angle_fold(x);
    proof {
        lemma_abs_mul_bound(m as int, m as int, PI_FP as int, PI_FP as int);
        lemma_square_nonneg(m as int);
        lemma_quot_bound((m * m) as int, SCALE as int, (PI_FP * PI_FP) as int);
        lemma_quot_nonneg((m * m) as int, SCALE as int);
    }
    let m2: i128 = fp_mul(m, m);
    let mut sum: i128 = 0;
    let mut term: i128 = SCALE;
    let mut j: usize = 0;
    while j < COS_TERMS
        invariant
            0 <= j <= COS_TERMS,
            0 <= m2 <= M2_LIM,
            term == spec_cos_term(m2 as int, j as nat),
            sum == spec_cos_taylor(m2 as int, j as nat),
            0 <= term <= 5 * SCALE,
            j == 0 ==> term == SCALE,
            -5 * (j as int) * SCALE <= sum <= 5 * (j as int) * SCALE,
        decreases COS_TERMS - j,
    {
        if j % 2 == 0 {
            sum = sum + term;
        } else {
            sum = sum - term;
        }
        let jw: i128 = j as i128;
        proof {
            lemma_abs_mul_bound(2 * jw + 1, 2 * jw + 2, 29, 30);
            vstd::arithmetic::mul::lemma_mul_strictly_positive(2 * jw + 1, 2 * jw + 2);
            vstd::arithmetic::mul::lemma_mul_nonnegative(term as int, m2 as int);
            lemma_abs_mul_bound(term as int, m2 as int, 5 * SCALE as int, M2_LIM as int);
            lemma_fmul_bound(term as int, m2 as int, 5 * SCALE as int, M2_LIM as int);
            lemma_quot_nonneg((term * m2) as int, SCALE as int);
            lemma_quot_nonneg(fmul(term as int, m2 as int), ((2 * jw + 1) * (2 * jw + 2)) as int);
            if j == 0 {
                assert((term as int) * (m2 as int) == (m2 as int) * (SCALE as int))
                    by (nonlinear_arith)
                    requires
                        term as int == SCALE as int,
                ;
                crate::fixed::lemma_fmul_scale_exact(m2 as int);
                lemma_quot_bound(fmul(term as int, m2 as int), 2, M2_LIM as int);
            } else {
                vstd::arithmetic::mul::lemma_mul_inequality(3, 2 * jw + 1, 2 * jw + 2);
                vstd::arithmetic::div_mod::lemma_div_is_ordered_by_denominator(
                    5 * (M2_LIM as int),
                    12,
                    ((2 * jw + 1) * (2 * jw + 2)) as int,
                );
                lemma_quot_bound(
                    fmul(term as int, m2 as int),
                    ((2 * jw + 1) * (2 * jw + 2)) as int,
                    5 * (M2_LIM as int),
                );
            }
        }
        term = tdiv(fp_mul(term, m2), (2 * jw + 1) * (2 * jw + 2));
        j = j + 1;
    }
    if sum < -SCALE {
        -SCALE
    } else if sum > SCALE {
        SCALE
    } else {
        sum
    }
}

/// Evaluates sin(x).
pub fn sin_fp(x: i128) -> (r: i128)
    requires
        -X_LIM <= x <= X_LIM,
    ensures
        r == spec_sin(x as int),
        -SCALE <= r <= SCALE,
{
    let m: i128 = angle_fold(x);
    proof {
        lemma_abs_mul_bound(m as int, m as int, PI_FP as int, PI_FP as int);
        lemma_square_nonneg(m as int);
        lemma_quot_bound((m * m) as int, SCALE as int, (PI_FP * PI_FP) as int);
        lemma_quot_nonneg((m * m) as int, SCALE as int);
    }
    let m2: i128 = fp_mul(m, m);
    let mut sum: i128 = 0;
    let mut term: i128 = m;
    let mut j: usize = 0;
    while j < SIN_TERMS
        invariant
            0 <= j <= SIN_TERMS,
            0 <= m2 <= M2_LIM,
            -PI_FP <= m <= PI_FP,
            term == spec_sin_term(m as int, m2 as int, j as nat),
            sum == spec_sin_taylor(m as int, m2 as int, j as nat),
            -6 * SCALE <= term <= 6 * SCALE,
            j == 0 ==> term == m,
            -6 * (j as int) * SCALE <= sum <= 6 * (j as int) * SCALE,
        decreases SIN_TERMS - j,
    {
        if j % 2 == 0 {
            sum = sum + term;
        } else {
            sum = sum - term;
        }
        let jw: i128 = j as i128;
        proof {
            lemma_abs_mul_bound(2 * jw + 2, 2 * jw + 3, 28, 29);
            vstd::arithmetic::mul::lemma_mul_strictly_positive(2 * jw + 2, 2 * jw + 3);
            lemma_abs_mul_bound(term as int, m2 as int, 6 * SCALE as int, M2_LIM as int);
            lemma_fmul_bound(term as int, m2 as int, 6 * SCALE as int, M2_LIM as int);
            if j == 0 {
                lemma_abs_mul_bound(term as int, m2 as int, PI_FP as int, M2_LIM as int);
                lemma_fmul_bound(term as int, m2 as int, PI_FP as int, M2_LIM as int);
                lemma_quot_bound(
                    fmul(term as int, m2 as int),
                    6,
                    (PI_FP as int) * (M2_LIM as int) / (SCALE as int),
                );
            } else {
                vstd::arithmetic::mul::lemma_mul_inequality(4, 2 * jw + 2, 2 * jw + 3);
                vstd::arithmetic::div_mod::lemma_div_is_ordered_by_denominator(
                    6 * (M2_LIM as int),
                    20,
                    ((2 * jw + 2) * (2 * jw + 3)) as int,
                );
                lemma_quot_bound(
                    fmul(term as int, m2 as int),
                    ((2 * jw + 2) * (2 * jw + 3)) as int,
                    6 * (M2_LIM as int),
                );
            }
        }
        term = tdiv(fp_mul(term, m2), (2 * jw + 2) * (2 * jw + 3));
        j = j + 1;
    }
    let s: i128 = if sum < -SCALE {
        -SCALE
    } else if sum > SCALE {
        SCALE
    } else {
        sum
    };
    if x < 0 {
        -s
    } else {
        s
    }
}

/// The integration weight e^(-x^2) in fixed point.
pub open spec fn spec_weight(x: int) -> int {
    spec_exp_neg(fmul(x, x))
}

/// Evaluates the weight e^(-x^2).
pub fn weight(x: i128) -> (r: i128)
    requires
        -X_LIM <= x <= X_LIM,
    ensures
        r == spec_weight(x as int),
        0 <= r <= SCALE,
{
    proof {
        lemma_abs_mul_bound(x as int, x as int, X_LIM as int, X_LIM as int);
        lemma_square_nonneg(x as int);
        lemma_quot_nonneg((x * x) as int, SCALE as int);
    }
    let t: i128 = fp_mul(x, x);
    exp_neg(t)
}

/// 0.05 in fixed point.
pub const C0_05: i128 = 500_000_000_000;

/// Evaluates cos(x), the sinusoidal entry of the function library.
pub fn sinusoidal(x: i128) -> (r: i128)
    requires
        -X_LIM <= x <= X_LIM,
    ensures
        r == spec_cos(x as int),
        -F_LIM <= r <= F_LIM,
{
    cos_fp(x)
}

/// ||x - 2| - 2| + sin(x) + 0.05x^3 in fixed point.
pub open spec fn spec_mixed(x: int) -> int {
    spec_absolute(spec_absolute(x - 2 * SCALE) - 2 * SCALE) + spec_sin(x) + fmul(
        C0_05 as int,
        fmul(fmul(x, x), x),
    )
}

/// Evaluates ||x - 2| - 2| + sin(x) + 0.05x^3.
pub fn mixed(x: i128) -> (r: i128)
    requires
        -X_LIM <= x <= X_LIM,
    ensures
        r == spec_mixed(x as int),
        -F_LIM <= r <= F_LIM,
{
    let d1: i128 = x - 2 * SCALE;
    let a1: i128 = if d1 < 0 {
        -d1
    } else {
        d1
    };
    let d2: i128 = a1 - 2 * SCALE;
    let a2: i128 = if d2 < 0 {
        -d2
    } else {
        d2
    };
    let s: i128 = sin_fp(x);
    proof {
        lemma_abs_mul_bound(x as int, x as int, X_LIM as int, X_LIM as int);
        lemma_fmul_bound(x as int, x as int, X_LIM as int, X_LIM as int);
    }
    let x2: i128 = fp_mul(x, x);
    proof {
        lemma_abs_mul_bound(x2 as int, x as int, 100 * SCALE as int, X_LIM as int);
        lemma_fmul_bound(x2 as int, x as int, 100 * SCALE as int, X_LIM as int);
    }
    let x3: i128 = fp_mul(x2, x);
    proof {
        lemma_abs_mul_bound(C0_05 as int, x3 as int, C0_05 as int, 1_000 * SCALE as int);
        lemma_fmul_bound(C0_05 as int, x3 as int, C0_05 as int, 1_000 * SCALE as int);
    }
    let c: i128 = fp_mul(C0_05, x3);
    a2 + s + c
}

/// The value of the selected function at x, with the weight e^(-x^2)
/// multiplied in exactly once when `with_weight` is set.
#[verifier::opaque]
pub open spec fn spec_function_value(x: int, func: Function, with_weight: bool) -> int {
    let f = match func {
        Function::Poly1 => spec_polynomial1(x),
        Function::Poly2 => spec_polynomial2(x),
        Function::Linear => spec_linear(x),
        Function::Sinusoidal => spec_cos(x),
        Function::Absolute => spec_absolute(x),
        Function::Mixed => spec_mixed(x),
    };
    if with_weight {
        fmul(f, spec_weight(x))
    } else {
        f
    }
}

/// Evaluates the selected function at x; `with_weight` multiplies the
/// weight e^(-x^2) in, exactly once.
pub fn function_value(x: i128, func: Function, with_weight: bool) -> (r: i128)
    requires
        -X_LIM <= x <= X_LIM,
    ensures
        r == spec_function_value(x as int, func, with_weight),
        -F_LIM <= r <= F_LIM,
{
    proof {
        reveal(spec_function_value);
    }
    let f: i128 = match func {
        Function::Poly1 => polynomial1(x),
        Function::Poly2 => polynomial2(x),
        Function::Linear => linear(x),
        Function::Sinusoidal => sinusoidal(x),
        Function::Absolute => absolute(x),
        Function::Mixed => mixed(x),
    };
    if with_weight {
        let w: i128 = weight(x);
        proof {
            lemma_abs_mul_bound(f as int, w as int, F_LIM as int, SCALE as int);
            lemma_fmul_bound(f as int, w as int, F_LIM as int, SCALE as int);
        }
        fp_mul(f, w)
    } else {
        f
    }
}

} // verus!
