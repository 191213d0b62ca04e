//! Gauss-Hermite quadrature: the fixed table of roots and weights for one
//! to six nodes, the analytic weight derived from Hermite polynomials, and
//! the weighted summation itself.

use crate::fixed::{fmul, fp_mul, quot, tdiv, SCALE};
use crate::fixed::{
    lemma_abs_mul_bound, lemma_fmul_bound, lemma_quot_bound, lemma_quot_nonneg,
    lemma_square_nonneg,
};
use crate::functions::{function_value, spec_function_value, F_LIM};
use crate::Function;
use crate::IntegrationError;
use vstd::prelude::*;

verus! {

/// The square root of pi in fixed point.
pub const SQRT_PI: i128 = 17_724_538_509_055;

/// Largest analytic weight value returned before the denominator is deemed
/// near zero.
pub const W_LIM: i128 = 1_000 * SCALE;

/// A bound on |H_k(x)| in fixed point for k <= 5 and |x| <= 3.
pub const H_LIM: i128 = 32_768 * SCALE;

/// The tolerance within which each weight row sums to the square root of
/// pi: one millionth in fixed point.
pub const SQRT_PI_TOL: i128 = 10_000_000;

/// n factorial.
pub open spec fn spec_factorial(n: nat) -> nat
    decreases n,
{
    if n == 0 {
        1
    } else {
        n * spec_factorial((n - 1) as nat)
    }
}

/// A factorial is at least one.
pub proof fn lemma_factorial_pos(n: nat)
    ensures
        spec_factorial(n) >= 1,
    decreases n,
{
    if n > 0 {
        lemma_factorial_pos((n - 1) as nat);
        vstd::arithmetic::mul::lemma_mul_inequality(1, n as int, spec_factorial((n - 1) as nat) as int);
    }
}

/// The factorial never shrinks as its argument grows.
pub proof fn lemma_factorial_mono(n: nat, m: nat)
    requires
        n <= m,
    ensures
        spec_factorial(n) <= spec_factorial(m),
    decreases m,
{
    if n < m {
        lemma_factorial_mono(n, (m - 1) as nat);
        lemma_factorial_pos((m - 1) as nat);
        vstd::arithmetic::mul::lemma_mul_inequality(1, m as int, spec_factorial((m - 1) as nat) as int);
    }
}

/// Computes n factorial; arguments up to 20 keep the result inside `u64`.
pub fn factorial(n: u64) -> (r: u64)
    requires
        n <= 20,
    ensures
        r == spec_factorial(n as nat),
    decreases n,
{
    if n == 0 {
        1
    } else {
        let rest: u64 = factorial(n - 1);
        proof {
            lemma_factorial_mono(n as nat, 20);
            assert(spec_factorial(0) == 1);
            assert(spec_factorial(1) == 1);
            assert(spec_factorial(2) == 2);
            assert(spec_factorial(3) == 6);
            assert(spec_factorial(4) == 24);
            assert(spec_factorial(5) == 120);
            assert(spec_factorial(6) == 720);
            assert(spec_factorial(7) == 5040);
            assert(spec_factorial(8) == 40320);
            assert(spec_factorial(9) == 362880);
            assert(spec_factorial(10) == 3628800);
            assert(spec_factorial(11) == 39916800);
            assert(spec_factorial(12) == 479001600);
            assert(spec_factorial(13) == 6227020800);
            assert(spec_factorial(14) == 87178291200);
            assert(spec_factorial(15) == 1307674368000);
            assert(spec_factorial(16) == 20922789888000);
            assert(spec_factorial(17) == 355687428096000);
            assert(spec_factorial(18) == 6402373705728000);
            assert(spec_factorial(19) == 121645100408832000);
            assert(spec_factorial(20) == 2432902008176640000);
            vstd::arithmetic::mul::lemma_mul_inequality(
                1,
                n as int,
                spec_factorial((n - 1) as nat) as int,
            );
            lemma_factorial_pos((n - 1) as nat);
        }
        n * rest
    }
}

/// The a-th root of the degree-n Hermite polynomial, in fixed point,
/// as tabulated; zero outside the table.
pub open spec fn spec_hermite_root(n: int, a: int) -> int {
    if n == 1 {
        0
    } else if n == 2 {
        if a == 0 {
            -7_071_067_811_870
        } else {
            7_071_067_811_870
        }
    } else if n == 3 {
        if a == 0 {
            -12_247_448_713_920
        } else if a == 1 {
            0
        } else {
            12_247_448_713_920
        }
    } else if n == 4 {
        if a == 0 {
            -16_506_801_238_860
        } else if a == 1 {
            -5_246_476_232_750
        } else if a == 2 {
            5_246_476_232_750
        } else {
            16_506_801_238_860
        }
    } else if n == 5 {
        if a == 0 {
            -20_201_828_704_560
        } else if a == 1 {
            -9_585_724_646_140
        } else if a == 2 {
            0
        } else if a == 3 {
            9_585_724_646_140
        } else {
            20_201_828_704_560
        }
    } else if n == 6 {
        if a == 0 {
            -23_506_049_740_000
        } else if a == 1 {
            -13_358_490_740_000
        } else if a == 2 {
            -4_360_774_120_000
        } else if a == 3 {
            4_360_774_120_000
        } else if a == 4 {
            13_358_490_740_000
        } else {
            23_506_049_740_000
        }
    } else {
        0
    }
}

/// The a-th quadrature weight for n nodes, in fixed point, as tabulated;
/// zero outside the table.
pub open spec fn spec_hermite_weight(n: int, a: int) -> int {
    if n == 1 {
        17_724_538_509_000
    } else if n == 2 {
        8_862_269_254_530
    } else if n == 3 {
        if a == 1 {
            11_816_359_006_040
        } else {
            2_954_089_751_510
        }
    } else if n == 4 {
        if a == 1 || a == 2 {
            8_049_140_900_060
        } else {
            813_128_354_473
        }
    } else if n == 5 {
        if a == 2 {
            9_453_087_204_830
        } else if a == 1 || a == 3 {
            3_936_193_231_520
        } else {
            199_532_420_590
        }
    } else if n == 6 {
        if a == 2 || a == 3 {
            7_246_295_950_000
        } else if a == 1 || a == 4 {
            1_570_673_200_000
        } else {
            45_300_099_000
        }
    } else {
        0
    }
}

/// Looks the a-th root of the degree-n Hermite polynomial up.
pub fn hermite_root(n: usize, a: usize) -> (r: i128)
    requires
        1 <= n <= 6,
        a < n,
    ensures
        r == spec_hermite_root(n as int, a as int),
        -3 * SCALE <= r <= 3 * SCALE,
{
    if n == 1 {
        0
    } else if n == 2 {
        if a == 0 {
            -7_071_067_811_870
        } else {
            7_071_067_811_870
        }
    } else if n == 3 {
        if a == 0 {
            -12_247_448_713_920
        } else if a == 1 {
            0
        } else {
            12_247_448_713_920
        }
    } else if n == 4 {
        if a == 0 {
            -16_506_801_238_860
        } else if a == 1 {
            -5_246_476_232_750
        } else if a == 2 {
            5_246_476_232_750
        } else {
            16_506_801_238_860
        }
    } else if n == 5 {
        if a == 0 {
            -20_201_828_704_560
        } else if a == 1 {
            -9_585_724_646_140
        } else if a == 2 {
            0
        } else if a == 3 {
            9_585_724_646_140
        } else {
            20_201_828_704_560
        }
    } else {
        if a == 0 {
            -23_506_049_740_000
        } else if a == 1 {
            -13_358_490_740_000
        } else if a == 2 {
            -4_360_774_120_000
        } else if a == 3 {
            4_360_774_120_000
        } else if a == 4 {
            13_358_490_740_000
        } else {
            23_506_049_740_000
        }
    }
}

/// Looks the a-th quadrature weight for n nodes up.
pub fn hermite_weights(n: usize, a: usize) -> (r: i128)
    requires
        1 <= n <= 6,
        a < n,
    ensures
        r == spec_hermite_weight(n as int, a as int),
        0 < r <= 2 * SCALE,
{
    if n == 1 {
        17_724_538_509_000
    } else if n == 2 {
        8_862_269_254_530
    } else if n == 3 {
        if a == 1 {
            11_816_359_006_040
        } else {
            2_954_089_751_510
        }
    } else if n == 4 {
        if a == 1 || a == 2 {
            8_049_140_900_060
        } else {
            813_128_354_473
        }
    } else if n == 5 {
        if a == 2 {
            9_453_087_204_830
        } else if a == 1 || a == 3 {
            3_936_193_231_520
        } else {
            199_532_420_590
        }
    } else {
        if a == 2 || a == 3 {
            7_246_295_950_000
        } else if a == 1 || a == 4 {
            1_570_673_200_000
        } else {
            45_300_099_000
        }
    }
}

/// The tabulated roots are symmetric about zero: position a mirrors
/// position n-1-a with the opposite sign, and an odd node count places its
/// middle root exactly at zero.
pub proof fn lemma_roots_symmetric(n: int, a: int)
    requires
        1 <= n <= 6,
        0 <= a < n,
    ensures
        spec_hermite_root(n, a) == -spec_hermite_root(n, n - 1 - a),
        n % 2 == 1 ==> spec_hermite_root(n, (n - 1) / 2) == 0,
{
}

/// The tabulated weights are symmetric: position a carries the same weight
/// as position n-1-a.
pub proof fn lemma_weights_symmetric(n: int, a: int)
    requires
        1 <= n <= 6,
        0 <= a < n,
    ensures
        spec_hermite_weight(n, a) == spec_hermite_weight(n, n - 1 - a),
{
}

/// The sum of the tabulated weights for n nodes from position a on.
pub open spec fn spec_weights_sum_from(n: int, a: int) -> int
    decreases n - a,
{
    if a < 0 || a >= n {
        0
    } else {
        spec_hermite_weight(n, a) + spec_weights_sum_from(n, a + 1)
    }
}

/// The sum of all tabulated weights for n nodes.
pub open spec fn spec_weights_sum(n: int) -> int {
    spec_weights_sum_from(n, 0)
}

/// Each weight row sums to the square root of pi, to within one millionth:
/// the integral of the Hermite weight over the whole line.
pub proof fn lemma_weights_sum_near_sqrt_pi(n: int)
    requires
        1 <= n <= 6,
    ensures
        SQRT_PI - SQRT_PI_TOL < spec_weights_sum(n) < SQRT_PI + SQRT_PI_TOL,
{
    reveal_with_fuel(spec_weights_sum_from, 8);
}

/// The Hermite polynomial H_k(x) in fixed point, by the recurrence
/// H_0 = 1, H_1 = 2x, H_k = 2x * H_(k-1) - 2(k-1) * H_(k-2).
pub open spec fn spec_hermite_poly(x: int, k: nat) -> int
    decreases k,
{
    if k == 0 {
        SCALE as int
    } else if k == 1 {
        2 * x
    } else {
        fmul(2 * x, spec_hermite_poly(x, (k - 1) as nat)) - 2 * (k - 1) * spec_hermite_poly(
            x,
            (k - 2) as nat,
        )
    }
}

/// Evaluates the Hermite polynomial H_k(x) by its recurrence.
pub fn hermite_poly(x: i128, k: usize) -> (r: i128)
    requires
        k <= 5,
        -3 * SCALE <= x <= 3 * SCALE,
    ensures
        r == spec_hermite_poly(x as int, k as nat),
        -H_LIM <= r <= H_LIM,
{
    if k == 0 {
        return SCALE;
    }
    let mut prev: i128 = SCALE;
    let mut cur: i128 = 2 * x;
    let mut j: usize = 1;
    while j < k
        invariant
            1 <= j <= k <= 5,
            -3 * SCALE <= x <= 3 * SCALE,
            prev == spec_hermite_poly(x as int, (j - 1) as nat),
            cur == spec_hermite_poly(x as int, j as nat),
            j == 1 ==> -SCALE <= prev <= SCALE && -8 * SCALE <= cur <= 8 * SCALE,
            j == 2 ==> -8 * SCALE <= prev <= 8 * SCALE && -64 * SCALE <= cur <= 64 * SCALE,
            j == 3 ==> -64 * SCALE <= prev <= 64 * SCALE && -512 * SCALE <= cur <= 512 * SCALE,
            j == 4 ==> -512 * SCALE <= prev <= 512 * SCALE && -4_096 * SCALE <= cur <= 4_096
                * SCALE,
            j == 5 ==> -4_096 * SCALE <= prev <= 4_096 * SCALE && -32_768 * SCALE <= cur <= 32_768
                * SCALE,
            -4_096 * SCALE <= prev <= 4_096 * SCALE,
            -32_768 * SCALE <= cur <= 32_768 * SCALE,
        decreases k - j,
    {
        let jw: i128 = j as i128;
        proof {
            if j == 1 {
                lemma_abs_mul_bound(2 * x as int, cur as int, 6 * SCALE as int, 8 * SCALE as int);
                lemma_fmul_bound(2 * x as int, cur as int, 6 * SCALE as int, 8 * SCALE as int);
                lemma_abs_mul_bound(2 * jw as int, prev as int, 2, SCALE as int);
            } else if j == 2 {
                lemma_abs_mul_bound(2 * x as int, cur as int, 6 * SCALE as int, 64 * SCALE as int);
                lemma_fmul_bound(2 * x as int, cur as int, 6 * SCALE as int, 64 * SCALE as int);
                lemma_abs_mul_bound(2 * jw as int, prev as int, 4, 8 * SCALE as int);
            } else if j == 3 {
                lemma_abs_mul_bound(2 * x as int, cur as int, 6 * SCALE as int, 512 * SCALE as int);
                lemma_fmul_bound(2 * x as int, cur as int, 6 * SCALE as int, 512 * SCALE as int);
                lemma_abs_mul_bound(2 * jw as int, prev as int, 6, 64 * SCALE as int);
            } else {
                lemma_abs_mul_bound(
                    2 * x as int,
                    cur as int,
                    6 * SCALE as int,
                    4_096 * SCALE as int,
                );
                lemma_fmul_bound(2 * x as int, cur as int, 6 * SCALE as int, 4_096 * SCALE as int);
                lemma_abs_mul_bound(2 * jw as int, prev as int, 8, 512 * SCALE as int);
            }
            lemma_abs_mul_bound(2 * jw as int, prev as int, 10, 4_096 * SCALE as int);
            assert(-(40_960 * SCALE) <= 2 * (jw as int) * (prev as int) <= 40_960 * SCALE);
        }
        let next: i128 = fp_mul(2 * x, cur) - 2 * jw * prev;
        prev = cur;
        cur = next;
        j = j + 1;
    }
    cur
}

/// Two to the k-th power.
pub open spec fn spec_pow2k(k: nat) -> int
    decreases k,
{
    if k == 0 {
        1
    } else {
        2 * spec_pow2k((k - 1) as nat)
    }
}

/// Looks up two to the k-th power for the supported node counts.
fn pow2k(k: usize) -> (r: i128)
    requires
        k <= 5,
    ensures
        r == spec_pow2k(k as nat),
        1 <= r <= 32,
{
    proof {
        reveal_with_fuel(spec_pow2k, 7);
    }
    if k == 0 {
        1
    } else if k == 1 {
        2
    } else if k == 2 {
        4
    } else if k == 3 {
        8
    } else if k == 4 {
        16
    } else {
        32
    }
}

/// The analytic Gauss-Hermite weight 2^(n-1) n! sqrt(pi) / (n^2 H_(n-1)(x)^2)
/// in fixed point. A zero or near-zero denominator, or a quotient beyond
/// `W_LIM`, is numeric instability.
#[verifier::opaque]
pub open spec fn spec_proper_weight(x: int, n: int) -> Result<int, IntegrationError> {
    let h = spec_hermite_poly(x, (n - 1) as nat);
    let den = n * n * fmul(h, h);
    if den <= 0 {
        Err(IntegrationError::NumericInstability)
    } else {
        let num = spec_pow2k((n - 1) as nat) * spec_factorial(n as nat) * SQRT_PI;
        let v = quot(num * SCALE, den);
        if v > W_LIM {
            Err(IntegrationError::NumericInstability)
        } else {
            Ok(v)
        }
    }
}

/// Evaluates the analytic Gauss-Hermite weight at x for n nodes.
///
/// For an even node count the weight divides by an odd-degree Hermite
/// polynomial, which vanishes at x = 0; such arguments are reported as
/// `NumericInstability` rather than returned as a meaningless quotient.
pub fn proper_weight(x: i128, n: usize) -> (r: Result<i128, IntegrationError>)
    requires
        1 <= n <= 6,
        -3 * SCALE <= x <= 3 * SCALE,
    ensures
        match r {
            Ok(v) => spec_proper_weight(x as int, n as int) == Ok::<int, IntegrationError>(
                v as int,
            ) && 0 <= v <= W_LIM,
            Err(e) => spec_proper_weight(x as int, n as int) == Err::<int, IntegrationError>(e),
        },
{
    proof {
        reveal(spec_proper_weight);
    }
    let h: i128 = hermite_poly(x, n - 1);
    proof {
        lemma_abs_mul_bound(h as int, h as int, H_LIM as int, H_LIM as int);
        lemma_square_nonneg(h as int);
        lemma_quot_nonneg((h * h) as int, SCALE as int);
        lemma_quot_bound((h * h) as int, SCALE as int, (H_LIM * H_LIM) as int);
    }
    let h2: i128 = fp_mul(h, h);
    let nw: i128 = n as i128;
    proof {
        lemma_abs_mul_bound(nw as int, nw as int, 6, 6);
        lemma_abs_mul_bound(
            (nw * nw) as int,
            h2 as int,
            36,
            ((H_LIM * H_LIM) as int) / (SCALE as int),
        );
    }
    let den: i128 = nw * nw * h2;
    if den <= 0 {
        return Err(IntegrationError::NumericInstability);
    }
    let p2: i128 = pow2k(n - 1);
    let f: u64 = factorial(n as u64);
    proof {
        assert(spec_factorial(0) == 1);
        assert(spec_factorial(1) == 1);
        assert(spec_factorial(2) == 2);
        assert(spec_factorial(3) == 6);
        assert(spec_factorial(4) == 24);
        assert(spec_factorial(5) == 120);
        assert(spec_factorial(6) == 720);
        lemma_abs_mul_bound(p2 as int, f as int, 32, 720);
        lemma_abs_mul_bound((p2 * f) as int, SQRT_PI as int, 23_040, SQRT_PI as int);
        lemma_abs_mul_bound(
            (p2 * f * SQRT_PI) as int,
            SCALE as int,
            23_040 * SQRT_PI as int,
            SCALE as int,
        );
        vstd::arithmetic::mul::lemma_mul_nonnegative(p2 as int, f as int);
        vstd::arithmetic::mul::lemma_mul_nonnegative((p2 * f) as int, SQRT_PI as int);
        vstd::arithmetic::mul::lemma_mul_nonnegative((p2 * f * SQRT_PI) as int, SCALE as int);
    }
    let num: i128 = p2 * (f as i128) * SQRT_PI;
    let v: i128 = tdiv(num * SCALE, den);
    proof {
        lemma_quot_nonneg((num * SCALE) as int, den as int);
    }
    if v > W_LIM {
        Err(IntegrationError::NumericInstability)
    } else {
        Ok(v)
    }
}

/// A bound on one summand of the quadrature sum.
const TERM_LIM: i128 = 1_200_000 * SCALE;

/// The Gauss-Hermite sum over nodes i, i+1, ..., n-1: each summand is the
/// unweighted function value at a tabulated root times either the tabulated
/// weight or the analytic weight; an unstable analytic weight fails the
/// whole sum.
pub open spec fn spec_gh_from(f: Function, n: int, proper: bool, i: int) -> Result<
    int,
    IntegrationError,
>
    decreases n - i,
{
    if i < 0 || i >= n {
        Ok(0)
    } else {
        let x = spec_hermite_root(n, i);
        let w = if proper {
            spec_proper_weight(x, n)
        } else {
            Ok(spec_hermite_weight(n, i))
        };
        match w {
            Result::Err(e) => Err(e),
            Result::Ok(wv) => match spec_gh_from(f, n, proper, i + 1) {
                Result::Err(e) => Err(e),
                Result::Ok(rest) => Ok(fmul(spec_function_value(x, f, false), wv) + rest),
            },
        }
    }
}

/// The Gauss-Hermite quadrature result for n nodes: the full sum for n in
/// [1, 6], and `InvalidArgument` outside that range.
pub open spec fn spec_hermite_gauss(f: Function, n: int, proper: bool) -> Result<
    int,
    IntegrationError,
> {
    if n < 1 || n > 6 {
        Err(IntegrationError::InvalidArgument)
    } else {
        spec_gh_from(f, n, proper, 0)
    }
}

/// An unstable weight at any node fails the sum started at any earlier
/// node too.
proof fn lemma_gh_err(f: Function, n: int, proper: bool, j: int, i: int)
    requires
        0 <= j <= i,
        i < n,
        spec_gh_from(f, n, proper, i) == Err::<int, IntegrationError>(
            IntegrationError::NumericInstability,
        ),
    ensures
        spec_gh_from(f, n, proper, j) == Err::<int, IntegrationError>(
            IntegrationError::NumericInstability,
        ),
    decreases i - j,
{
    reveal(spec_proper_weight);
    if j < i {
        lemma_gh_err(f, n, proper, j + 1, i);
    }
}

/// Gauss-Hermite integration of the selected function with n nodes.
///
/// The function value at each tabulated root is taken unweighted; the
/// quadrature weight — tabulated, or analytic when `proper_weight` is set —
/// is multiplied in exactly once, here.
#[verifier::rlimit(100)]
pub fn hermite_gauss(f: Function, n: usize, proper_weight: bool) -> (r: Result<
    i128,
    IntegrationError,
>)
    ensures
        ({
            let s = spec_hermite_gauss(f, n as int, proper_weight);
            match r {
                Result::Ok(v) => s == Ok::<int, IntegrationError>(v as int),
                Result::Err(e) => s == Err::<int, IntegrationError>(e),
            }
        }),
{
    if n < 1 || n > 6 {
        return Err(IntegrationError::InvalidArgument);
    }
    let mut acc: i128 = 0;
    let mut i: usize = n;
    while i > 0
        invariant
            1 <= n <= 6,
            0 <= i <= n,
            spec_gh_from(f, n as int, proper_weight, i as int) == Ok::<int, IntegrationError>(
                acc as int,
            ),
            i >= 5 ==> -TERM_LIM <= acc <= TERM_LIM,
            i == 4 ==> -2 * TERM_LIM <= acc <= 2 * TERM_LIM,
            i == 3 ==> -3 * TERM_LIM <= acc <= 3 * TERM_LIM,
            i == 2 ==> -4 * TERM_LIM <= acc <= 4 * TERM_LIM,
            i == 1 ==> -5 * TERM_LIM <= acc <= 5 * TERM_LIM,
            i == 0 ==> -6 * TERM_LIM <= acc <= 6 * TERM_LIM,
        decreases i,
    {
        let idx: usize = i - 1;
        let x: i128 = hermite_root(n, idx);
        let fv: i128 = function_value(x, f, false);
        let wv: i128;
        if proper_weight {
            match self::proper_weight(x, n) {
                Result::Ok(w) => {
                    wv = w;
                },
                Result::Err(e) => {
                    proof {
                        reveal(spec_proper_weight);
                        lemma_gh_err(f, n as int, proper_weight, 0, idx as int);
                    }
                    return Err(e);
                },
            }
        } else {
            wv = hermite_weights(n, idx);
        }
        proof {
            lemma_abs_mul_bound(fv as int, wv as int, F_LIM as int, W_LIM as int);
            lemma_fmul_bound(fv as int, wv as int, F_LIM as int, W_LIM as int);
            assert((F_LIM as int) * (W_LIM as int) / (SCALE as int) == TERM_LIM);
            assert(-TERM_LIM <= fmul(fv as int, wv as int) <= TERM_LIM);
        }
        acc = fp_mul(fv, wv) + acc;
        i = idx;
    }
    Ok(acc)
}

} // verus!
