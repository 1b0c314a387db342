//! The matrix/vector kernel and the transform builders.

pub mod matrices;
pub mod transformable_matrices;
pub mod trig;
pub mod vectors;
