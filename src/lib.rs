//! Dense matrices and vectors over a caller-supplied scalar arithmetic.
//!
//! Every operation here is generic over the scalar type `T`: the caller hands
//! in the arithmetic (`+`, `*`, ...) as closures, and each contract states the
//! result in terms of those closures. Shapes, index layouts, the order in which
//! terms are combined, and every failure condition are proved.

pub mod arith;
pub mod determinant;
pub mod eigen;
pub mod error;
pub mod lu;
pub mod matrix;
pub mod norms;
pub mod vector;

pub use error::LinalgError;
pub use matrix::Matrix;
pub use vector::Vector;
