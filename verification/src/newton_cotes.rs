//! The adaptive composite Simpson rule.
//!
//! The estimate with k panels splits [lo, hi] into k equal parts and sums
//! Simpson's rule over each; the panel count grows until two successive
//! estimates agree within the tolerance. The integrand is always the
//! selected function times the weight e^(-x^2).

use crate::fixed::{fmul, fp_mul, quot, tdiv, SCALE};
use crate::fixed::{lemma_abs_mul_bound, lemma_fmul_bound, lemma_quot_bound, lemma_quot_nonneg};
use crate::functions::{function_value, spec_function_value, F_LIM, X_LIM};
use crate::Function;
use crate::IntegrationError;
use vstd::arithmetic::div_mod::{lemma_fundamental_div_mod, lemma_mod_bound};
use vstd::arithmetic::mul::{
    lemma_mul_inequality, lemma_mul_is_distributive_add_other_way, lemma_mul_nonnegative,
};
use vstd::math::{max, min};
use vstd::prelude::*;

verus! {

/// Largest number of panels tried before the composite rule reports
/// non-convergence.
pub const MAX_PANELS: u32 = 2_000;

/// A bound on the magnitude of one Simpson panel estimate.
pub const PANEL_LIM: i128 = 24_000 * SCALE;

/// A bound on the magnitude of a whole composite estimate.
pub const EST_LIM: i128 = 48_000_000 * SCALE;

/// Simpson's rule on the single panel [p, q] of the weighted integrand:
/// (q - p)/6 times (fw(p) + 4 fw(mid) + fw(q)), where mid is the midpoint
/// and fw the function value with the weight multiplied in.
pub open spec fn spec_simpson(f: Function, p: int, q: int) -> int {
    let d = q - p;
    let mid = p + quot(d, 2);
    let s = spec_function_value(p, f, true) + 4 * spec_function_value(mid, f, true)
        + spec_function_value(q, f, true);
    quot(fmul(d, s), 6)
}

/// The sum of the first j Simpson panels of width h starting at lo.
pub open spec fn spec_panels(f: Function, lo: int, h: int, j: nat) -> int
    decreases j,
{
    if j == 0 {
        0
    } else {
        spec_panels(f, lo, h, (j - 1) as nat) + spec_simpson(
            f,
            lo + ((j - 1) as int) * h,
            lo + (j as int) * h,
        )
    }
}

/// The composite Simpson estimate over [lo, hi] with k equal panels.
pub open spec fn spec_estimate(f: Function, lo: int, hi: int, k: nat) -> int {
    spec_panels(f, lo, quot(hi - lo, k as int), k)
}

/// Whether the k-panel estimate agrees with the (k-1)-panel one within eps.
pub open spec fn spec_converged(f: Function, lo: int, hi: int, eps: int, k: nat) -> bool
    recommends
        k >= 1,
{
    let d = spec_estimate(f, lo, hi, k) - spec_estimate(f, lo, hi, (k - 1) as nat);
    -eps < d && d < eps
}

/// The result of trying panel counts k, k+1, ... up to the cap: the first
/// converged estimate with its panel count, or non-convergence.
pub open spec fn spec_search(f: Function, lo: int, hi: int, eps: int, k: nat) -> Result<
    (int, int),
    IntegrationError,
>
    decreases MAX_PANELS + 1 - k,
{
    if k > MAX_PANELS {
        Err(IntegrationError::NonConvergence)
    } else if spec_converged(f, lo, hi, eps, k) {
        Ok((spec_estimate(f, lo, hi, k), k as int))
    } else {
        spec_search(f, lo, hi, eps, k + 1)
    }
}

/// The composite Simpson result: the bounds are sorted, a non-positive
/// tolerance is an invalid argument, and the search starts at two panels.
pub open spec fn spec_newton_cotes(f: Function, a: int, b: int, eps: int) -> Result<
    (int, int),
    IntegrationError,
> {
    if eps <= 0 {
        Err(IntegrationError::InvalidArgument)
    } else {
        spec_search(f, min(a, b), max(a, b), eps, 2)
    }
}

/// Swapping the bounds changes nothing: the integrator sorts them first,
/// so the result over (a, b) equals the result over (b, a).
pub proof fn lemma_swapped_bounds(f: Function, a: int, b: int, eps: int)
    ensures
        spec_newton_cotes(f, a, b, eps) == spec_newton_cotes(f, b, a, eps),
{
}

/// On a zero-width interval every estimate is zero: the panel width is
/// zero, so every Simpson panel evaluates to zero.
proof fn lemma_degenerate_estimate(f: Function, c: int, k: nat)
    requires
        1 <= k <= 2,
    ensures
        spec_estimate(f, c, c, k) == 0,
{
    reveal_with_fuel(spec_panels, 4);
    assert(quot(0, k as int) == 0) by {
        vstd::arithmetic::div_mod::lemma_div_of0(k as int);
    };
}

/// A zero-width interval converges immediately: the first comparison, at
/// two panels, finds two zero estimates, so the result is zero after two
/// iterations whatever the function and the (positive) tolerance.
pub proof fn lemma_degenerate_interval(f: Function, c: int, eps: int)
    requires
        eps > 0,
    ensures
        spec_newton_cotes(f, c, c, eps) == Ok::<(int, int), IntegrationError>((0, 2)),
{
    lemma_degenerate_estimate(f, c, 1);
    lemma_degenerate_estimate(f, c, 2);
    assert(spec_converged(f, c, c, eps, 2));
}

/// What a successful search result means: the estimate is the one computed
/// with the returned panel count, that count is the first from the starting
/// point at which two successive estimates agree within eps, and it does
/// not exceed the cap.
proof fn lemma_search_ok(f: Function, lo: int, hi: int, eps: int, j: nat, v: int, k: int)
    requires
        spec_search(f, lo, hi, eps, j) == Ok::<(int, int), IntegrationError>((v, k)),
    ensures
        j <= k <= MAX_PANELS,
        v == spec_estimate(f, lo, hi, k as nat),
        spec_converged(f, lo, hi, eps, k as nat),
        forall|m: nat| j <= m < k ==> !spec_converged(f, lo, hi, eps, m),
    decreases MAX_PANELS + 1 - j,
{
    if j <= MAX_PANELS && !spec_converged(f, lo, hi, eps, j) {
        lemma_search_ok(f, lo, hi, eps, j + 1, v, k);
    }
}

/// The iteration protocol behind a successful composite result: with a
/// positive tolerance and sorted bounds lo and hi, the returned value is
/// the k-panel estimate, k is at least two and within the cap, estimates
/// k-1 and k agree within eps, and no earlier panel count from two on
/// converged.
pub proof fn lemma_newton_cotes_protocol(f: Function, a: int, b: int, eps: int, v: int, k: int)
    requires
        spec_newton_cotes(f, a, b, eps) == Ok::<(int, int), IntegrationError>((v, k)),
    ensures
        eps > 0,
        2 <= k <= MAX_PANELS,
        v == spec_estimate(f, min(a, b), max(a, b), k as nat),
        spec_converged(f, min(a, b), max(a, b), eps, k as nat),
        forall|m: nat| 2 <= m < k ==> !spec_converged(f, min(a, b), max(a, b), eps, m),
{
    lemma_search_ok(f, min(a, b), max(a, b), eps, 2, v, k);
}

/// Evaluates Simpson's rule on the single panel [p, q].
fn simpson(f: Function, p: i128, q: i128) -> (r: i128)
    requires
        -X_LIM <= p <= q <= X_LIM,
    ensures
        r == spec_simpson(f, p as int, q as int),
        -PANEL_LIM <= r <= PANEL_LIM,
{
    let d: i128 = q - p;
    proof {
        lemma_quot_nonneg(d as int, 2);
    }
    let mid: i128 = p + tdiv(d, 2);
    let s1: i128 = function_value(p, f, true);
    let s2: i128 = function_value(mid, f, true);
    let s3: i128 = function_value(q, f, true);
    let s: i128 = s1 + 4 * s2 + s3;
    proof {
        lemma_abs_mul_bound(d as int, s as int, 2 * X_LIM as int, 6 * F_LIM as int);
        lemma_fmul_bound(d as int, s as int, 2 * X_LIM as int, 6 * F_LIM as int);
        lemma_quot_bound(
            fmul(d as int, s as int),
            6,
            (2 * X_LIM as int) * (6 * F_LIM as int) / (SCALE as int),
        );
    }
    tdiv(fp_mul(d, s), 6)
}

/// Computes the composite Simpson estimate over [lo, hi] with k panels.
fn composite_estimate(f: Function, lo: i128, hi: i128, k: u32) -> (r: i128)
    requires
        -X_LIM <= lo <= hi <= X_LIM,
        1 <= k <= MAX_PANELS,
    ensures
        r == spec_estimate(f, lo as int, hi as int, k as nat),
        -EST_LIM <= r <= EST_LIM,
{
    let h: i128 = tdiv(hi - lo, k as i128);
    proof {
        lemma_quot_nonneg((hi - lo) as int, k as int);
        lemma_fundamental_div_mod((hi - lo) as int, k as int);
        lemma_mod_bound((hi - lo) as int, k as int);
    }
    let mut sum: i128 = 0;
    let mut p: i128 = lo;
    let mut j: u32 = 0;
    while j < k
        invariant
            -X_LIM <= lo <= hi <= X_LIM,
            1 <= k <= MAX_PANELS,
            0 <= j <= k,
            h == quot((hi - lo) as int, k as int),
            0 <= h,
            (k as int) * h <= hi - lo,
            p == lo + (j as int) * h,
            lo <= p <= hi,
            sum == spec_panels(f, lo as int, h as int, j as nat),
            -(j as int) * PANEL_LIM <= sum <= (j as int) * PANEL_LIM,
        decreases k - j,
    {
        proof {
            vstd::arithmetic::mul::lemma_mul_basics(h as int);
            vstd::arithmetic::mul::lemma_mul_basics(PANEL_LIM as int);
            lemma_mul_is_distributive_add_other_way(h as int, j as int, 1);
            lemma_mul_inequality(j as int + 1, k as int, h as int);
            lemma_mul_nonnegative(j as int, h as int);
            lemma_mul_is_distributive_add_other_way(PANEL_LIM as int, j as int, 1);
            lemma_mul_inequality(j as int, 2_000, PANEL_LIM as int);
            lemma_mul_inequality(j as int + 1, 2_000, PANEL_LIM as int);
            vstd::arithmetic::mul::lemma_mul_unary_negation(j as int, PANEL_LIM as int);
            assert(-(2_000 * PANEL_LIM) <= sum <= 2_000 * PANEL_LIM);
        }
        let ghost jold: int = j as int;
        let q: i128 = p + h;
        let piece: i128 = simpson(f, p, q);
        sum = sum + piece;
        p = q;
        j = j + 1;
        proof {
            vstd::arithmetic::mul::lemma_mul_unary_negation(jold, PANEL_LIM as int);
            vstd::arithmetic::mul::lemma_mul_unary_negation(jold + 1, PANEL_LIM as int);
            assert((jold + 1) * PANEL_LIM == jold * PANEL_LIM + 1 * PANEL_LIM);
            assert((j as int) * PANEL_LIM == jold * PANEL_LIM + PANEL_LIM);
            assert(-(j as int) * PANEL_LIM <= sum <= (j as int) * PANEL_LIM);
        }
    }
    sum
}

/// The adaptive composite Simpson rule on the selected function over
/// [a, b], weighted by e^(-x^2), iterating the panel count from two until
/// two successive composite estimates differ by less than eps.
///
/// Returns the converged estimate with the panel count that reached it;
/// swapped bounds are sorted first, a non-positive tolerance is rejected,
/// and exceeding the panel cap reports `NonConvergence`.
pub fn newton_cotes(f: Function, a: i128, b: i128, eps: i128) -> (r: Result<
    (i128, u32),
    IntegrationError,
>)
    requires
        -X_LIM <= a <= X_LIM,
        -X_LIM <= b <= X_LIM,
    ensures
        ({
            let s = spec_newton_cotes(f, a as int, b as int, eps as int);
            match r {
                Result::Ok(p) => s == Ok::<(int, int), IntegrationError>((p.0 as int, p.1 as int)),
                Result::Err(e) => s == Err::<(int, int), IntegrationError>(e),
            }
        }),
{
    if eps <= 0 {
        return Err(IntegrationError::InvalidArgument);
    }
    let lo: i128 = if a > b {
        b
    } else {
        a
    };
    let hi: i128 = if a > b {
        a
    } else {
        b
    };
    let mut prev: i128 = composite_estimate(f, lo, hi, 1);
    let mut k: u32 = 2;
    while k <= MAX_PANELS
        invariant
            -X_LIM <= lo <= hi <= X_LIM,
            lo == min(a as int, b as int),
            hi == max(a as int, b as int),
            eps > 0,
            2 <= k <= MAX_PANELS + 1,
            prev == spec_estimate(f, lo as int, hi as int, (k - 1) as nat),
            -EST_LIM <= prev <= EST_LIM,
            spec_search(f, lo as int, hi as int, eps as int, 2) == spec_search(
                f,
                lo as int,
                hi as int,
                eps as int,
                k as nat,
            ),
        decreases MAX_PANELS + 1 - k,
    {
        let cur: i128 = composite_estimate(f, lo, hi, k);
        let d: i128 = cur - prev;
        if -eps < d && d < eps {
            return Ok((cur, k));
        }
        prev = cur;
        k = k + 1;
    }
    Err(IntegrationError::NonConvergence)
}

} // verus!
