use quadrature::fixed::{fp_mul, SCALE};
use quadrature::functions::{
    absolute, cos_fp, function_value, linear, mixed, polynomial1, polynomial2, sin_fp, sinusoidal,
    weight,
};
use quadrature::Function;

fn to_real(v: i128) -> f64 {
    v as f64 / SCALE as f64
}

#[test]
fn poly1_at_zero_is_minus_one() {
    assert_eq!(polynomial1(0), -SCALE);
    assert_eq!(function_value(0, Function::Poly1, false), -SCALE);
}

#[test]
fn poly1_at_one_matches_formula() {
    // -1 + 1*(-1 + 0.15) = -1.85
    assert_eq!(polynomial1(SCALE), -18_500_000_000_000);
}

#[test]
fn poly2_at_one_matches_formula() {
    // -1 - 1 - 0.2 - 0.3 + 0.07 = -2.43
    assert_eq!(polynomial2(SCALE), -24_300_000_000_000);
}

#[test]
fn poly2_at_ten_matches_formula() {
    // -1 - 10 - 20 - 300 + 700 = 369
    let v = to_real(polynomial2(10 * SCALE));
    assert!((v - 369.0).abs() < 1e-8, "{v}");
}

#[test]
fn linear_values() {
    assert_eq!(linear(2 * SCALE), 3 * SCALE);
    assert_eq!(linear(-3 * SCALE), 5_000_000_000_000);
    assert_eq!(function_value(0, Function::Linear, false), 2 * SCALE);
}

#[test]
fn sinusoidal_is_cosine() {
    assert_eq!(sinusoidal(0), SCALE);
    for x in [1.0f64, -2.5, 3.0, 7.0] {
        let fx = (x * SCALE as f64) as i128;
        let v = to_real(sinusoidal(fx));
        assert!((v - x.cos()).abs() < 1e-9, "cos({x}): {v}");
        assert_eq!(sinusoidal(fx), cos_fp(fx));
    }
}

#[test]
fn sine_matches_reference() {
    for x in [0.0f64, 1.0, -1.0, 1.5, 3.0, -7.0] {
        let fx = (x * SCALE as f64) as i128;
        let v = to_real(sin_fp(fx));
        assert!((v - x.sin()).abs() < 1e-9, "sin({x}): {v}");
    }
}

#[test]
fn absolute_values() {
    assert_eq!(absolute(-2 * SCALE), 2 * SCALE);
    assert_eq!(absolute(2 * SCALE), 2 * SCALE);
    assert_eq!(function_value(2 * SCALE, Function::Absolute, false), 2 * SCALE);
}

#[test]
fn mixed_at_zero_is_zero() {
    // ||0-2|-2| = 0, sin(0) = 0, 0.05*0 = 0
    assert_eq!(mixed(0), 0);
    assert_eq!(function_value(0, Function::Mixed, false), 0);
}

#[test]
fn mixed_matches_formula() {
    let x = 1.5f64;
    let fx = (x * SCALE as f64) as i128;
    let want = ((x - 2.0).abs() - 2.0).abs() + x.sin() + 0.05 * x * x * x;
    let v = to_real(mixed(fx));
    assert!((v - want).abs() < 1e-9, "{v} vs {want}");
}

#[test]
fn weight_is_gaussian() {
    assert_eq!(weight(0), SCALE);
    let w1 = to_real(weight(SCALE));
    assert!((w1 - (-1.0f64).exp()).abs() < 1e-9, "{w1}");
    let w2 = to_real(weight(2 * SCALE));
    assert!((w2 - (-4.0f64).exp()).abs() < 1e-9, "{w2}");
    // far out the weight underflows the representation and is exactly zero
    assert_eq!(weight(10 * SCALE), 0);
}

#[test]
fn weight_applied_exactly_once() {
    for f in [
        Function::Poly1,
        Function::Poly2,
        Function::Linear,
        Function::Sinusoidal,
        Function::Absolute,
        Function::Mixed,
    ] {
        for x in [-2 * SCALE, 0, SCALE, 3 * SCALE] {
            let bare = function_value(x, f, false);
            let weighted = function_value(x, f, true);
            assert_eq!(weighted, fp_mul(bare, weight(x)));
        }
    }
}
