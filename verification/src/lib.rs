//! Numerical quadrature over a fixed-point number representation.
//!
//! The library computes definite integrals of a fixed set of one-dimensional
//! test functions with two classical methods: an adaptive composite Simpson
//! rule (`newton_cotes`) and fixed-order Gauss-Hermite quadrature
//! (`hermite_gauss`). All arithmetic is exact fixed-point arithmetic on
//! `i128` values scaled by [`fixed::SCALE`], so every function carries a
//! contract that pins its result down to the unit in the last place.

use vstd::prelude::*;

pub mod fixed;
pub mod functions;
pub mod hermite_gauss;
pub mod newton_cotes;

verus! {

/// The closed set of integrand functions the library knows how to integrate.
#[derive(Clone, Copy, Debug, PartialEq, Eq, Structural)]
pub enum Function {
    Poly1,
    Poly2,
    Linear,
    Sinusoidal,
    Absolute,
    Mixed,
}

/// How an integration request can fail.
#[derive(Clone, Copy, Debug, PartialEq, Eq, Structural)]
pub enum IntegrationError {
    /// A parameter was outside the supported range: a node count outside
    /// [1, 6] for Gauss-Hermite, or a non-positive tolerance for the
    /// composite rule.
    InvalidArgument,
    /// The analytic Gauss-Hermite weight divided by a zero or near-zero
    /// Hermite polynomial value.
    NumericInstability,
    /// The composite rule did not meet the tolerance within the panel cap.
    NonConvergence,
}

} // verus!
