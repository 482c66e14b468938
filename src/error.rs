//! The failures that operations report.

use vstd::prelude::*;

verus! {

/// The ways in which an operation can refuse its inputs.
#[derive(Clone, Copy, Debug, PartialEq, Eq, Structural)]
pub enum LinalgError {
    /// The shapes or lengths of the operands do not fit together.
    DimensionMismatch,
    /// A square matrix was required.
    NotSquare,
    /// The determinant is exactly zero.
    Singular,
    /// Power iteration used up its iterations without settling.
    NonConvergence,
    /// The Rayleigh quotient's denominator is exactly zero.
    DegenerateQuotient,
}

} // verus!
