use quadrature::fixed::SCALE;
use quadrature::hermite_gauss::{
    factorial, hermite_gauss, hermite_poly, hermite_root, hermite_weights, proper_weight, SQRT_PI,
};
use quadrature::Function;
use quadrature::IntegrationError;

fn as_real(v: i128) -> f64 {
    v as f64 / SCALE as f64
}

#[test]
fn factorial_values() {
    assert_eq!(factorial(0), 1);
    assert_eq!(factorial(1), 1);
    assert_eq!(factorial(6), 720);
    assert_eq!(factorial(20), 2_432_902_008_176_640_000);
}

#[test]
fn weights_sum_to_sqrt_pi() {
    for n in 1..=6usize {
        let mut sum: i128 = 0;
        for a in 0..n {
            sum += hermite_weights(n, a);
        }
        let err = (sum - SQRT_PI).abs();
        // one millionth in fixed point
        assert!(err < 10_000_000, "n={n}: sum={sum}");
    }
}

#[test]
fn roots_are_symmetric() {
    for n in 1..=6usize {
        for a in 0..n {
            assert_eq!(hermite_root(n, a), -hermite_root(n, n - 1 - a));
        }
        if n % 2 == 1 {
            assert_eq!(hermite_root(n, (n - 1) / 2), 0);
        }
    }
}

#[test]
fn weights_are_symmetric() {
    for n in 1..=6usize {
        for a in 0..n {
            assert_eq!(hermite_weights(n, a), hermite_weights(n, n - 1 - a));
        }
    }
}

#[test]
fn hermite_poly_recurrence_values() {
    // H_1(1) = 2, H_2(1) = 4 - 2 = 2, H_2(0) = -2, H_3(0) = 0
    assert_eq!(hermite_poly(SCALE, 1), 2 * SCALE);
    assert_eq!(hermite_poly(SCALE, 2), 2 * SCALE);
    assert_eq!(hermite_poly(0, 2), -2 * SCALE);
    assert_eq!(hermite_poly(0, 3), 0);
}

#[test]
fn proper_weight_divides_by_zero_at_origin() {
    // H_1(0) = 0, so the two-node analytic weight has a zero denominator
    assert_eq!(proper_weight(0, 2), Err(IntegrationError::NumericInstability));
}

#[test]
fn proper_weight_matches_table_at_roots() {
    let root = hermite_root(2, 1);
    let analytic = as_real(proper_weight(root, 2).unwrap());
    let tabulated = as_real(hermite_weights(2, 1));
    assert!((analytic - tabulated).abs() < 1e-9, "{analytic} vs {tabulated}");
}

#[test]
fn gauss_hermite_exact_for_quadratic() {
    // two nodes integrate the quadratic exactly:
    // integral of (-1 - x + 0.15 x^2) e^(-x^2) = -0.925 sqrt(pi)
    let v = as_real(hermite_gauss(Function::Poly1, 2, false).unwrap());
    let want = -0.925 * std::f64::consts::PI.sqrt();
    assert!((v - want).abs() < 1e-9, "{v} vs {want}");
}

#[test]
fn gauss_hermite_proper_weight_agrees_with_table() {
    let simple = as_real(hermite_gauss(Function::Poly1, 5, false).unwrap());
    let analytic = as_real(hermite_gauss(Function::Poly1, 5, true).unwrap());
    assert!((simple - analytic).abs() < 1e-9, "{simple} vs {analytic}");
}

#[test]
fn gauss_hermite_single_node() {
    // one node: f(0) times sqrt(pi)
    let v = as_real(hermite_gauss(Function::Poly1, 1, true).unwrap());
    let want = -std::f64::consts::PI.sqrt();
    assert!((v - want).abs() < 1e-9, "{v} vs {want}");
}

#[test]
fn gauss_hermite_exact_for_quartic_from_three_nodes() {
    // integral of the quartic against e^(-x^2) over the whole line:
    // sqrt(pi) * (-1 - 0.2/2 + 0.07 * 3/4); three nodes are already exact
    // for a degree-four polynomial, more nodes only change table rounding
    let want = std::f64::consts::PI.sqrt() * (-1.0 - 0.1 + 0.0525);
    for n in [3usize, 4, 5] {
        let v = as_real(hermite_gauss(Function::Poly2, n, false).unwrap());
        assert!((v - want).abs() < 1e-9, "n={n}: {v} vs {want}");
    }
    // the six-node table is given to fewer digits
    let v6 = as_real(hermite_gauss(Function::Poly2, 6, false).unwrap());
    assert!((v6 - want).abs() < 1e-7, "{v6} vs {want}");
}

#[test]
fn gauss_hermite_rejects_bad_node_counts() {
    assert_eq!(
        hermite_gauss(Function::Linear, 0, false),
        Err(IntegrationError::InvalidArgument)
    );
    assert_eq!(
        hermite_gauss(Function::Linear, 7, true),
        Err(IntegrationError::InvalidArgument)
    );
}
