use quadrature::fixed::SCALE;
use quadrature::newton_cotes::newton_cotes;
use quadrature::Function;
use quadrature::IntegrationError;

const ALL: [Function; 6] = [
    Function::Poly1,
    Function::Poly2,
    Function::Linear,
    Function::Sinusoidal,
    Function::Absolute,
    Function::Mixed,
];

fn real_of(v: i128) -> f64 {
    v as f64 / SCALE as f64
}

// integral of (0.5 x + 2) e^(-x^2) over [-2, 2]: 2 sqrt(pi) erf(2)
const LINEAR_REF: f64 = 3.528325563049686;

// integral of the quartic times e^(-x^2) over [-2, 2]
const POLY2_REF: f64 = -1.8547373000360527;

#[test]
fn adaptive_linear_near_reference() {
    // the stopping rule compares successive estimates, so the distance to
    // the true integral can slightly exceed the requested tolerance
    let (v, k) = newton_cotes(Function::Linear, -2 * SCALE, 2 * SCALE, 10_000_000).unwrap();
    assert!(k >= 2);
    assert!((real_of(v) - LINEAR_REF).abs() < 1e-5, "{}", real_of(v));
}

#[test]
fn adaptive_is_deterministic() {
    let first = newton_cotes(Function::Linear, -2 * SCALE, 2 * SCALE, 10_000_000);
    let second = newton_cotes(Function::Linear, -2 * SCALE, 2 * SCALE, 10_000_000);
    assert_eq!(first, second);
    assert_eq!(first, Ok((35_283_224_427_390, 17)));
}

#[test]
fn adaptive_linear_tight_tolerance() {
    let (v, _) = newton_cotes(Function::Linear, -2 * SCALE, 2 * SCALE, 10_000).unwrap();
    assert!((real_of(v) - LINEAR_REF).abs() < 1e-6, "{}", real_of(v));
}

#[test]
fn adaptive_poly2_near_reference() {
    let (v, _) = newton_cotes(Function::Poly2, -2 * SCALE, 2 * SCALE, 10_000_000).unwrap();
    assert!((real_of(v) - POLY2_REF).abs() < 1e-5, "{}", real_of(v));
}

#[test]
fn degenerate_interval_is_zero_after_two_iterations() {
    for f in ALL {
        assert_eq!(newton_cotes(f, SCALE, SCALE, 10_000_000), Ok((0, 2)));
        assert_eq!(newton_cotes(f, -3 * SCALE, -3 * SCALE, 1), Ok((0, 2)));
    }
}

#[test]
fn swapped_bounds_give_the_same_result() {
    // 1e-4 for the kinked integrands, which converge slowly
    for f in ALL {
        assert_eq!(
            newton_cotes(f, 2 * SCALE, -2 * SCALE, 1_000_000_000),
            newton_cotes(f, -2 * SCALE, 2 * SCALE, 1_000_000_000)
        );
    }
    assert_eq!(
        newton_cotes(Function::Linear, 2 * SCALE, -2 * SCALE, 10_000_000),
        newton_cotes(Function::Linear, -2 * SCALE, 2 * SCALE, 10_000_000)
    );
}

#[test]
fn non_positive_tolerance_is_invalid() {
    assert_eq!(
        newton_cotes(Function::Linear, -SCALE, SCALE, 0),
        Err(IntegrationError::InvalidArgument)
    );
    assert_eq!(
        newton_cotes(Function::Linear, -SCALE, SCALE, -10_000_000),
        Err(IntegrationError::InvalidArgument)
    );
}

#[test]
fn kinked_integrand_below_resolution_does_not_converge() {
    // one fixed-point unit of tolerance is below the rounding noise of the
    // kinked integrand, so the panel cap is reached
    assert_eq!(
        newton_cotes(Function::Mixed, -2 * SCALE, 2 * SCALE, 1),
        Err(IntegrationError::NonConvergence)
    );
}
