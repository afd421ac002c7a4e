//! The logic of a ray tracer that can be stated without floating point: the
//! ordered record of a ray's intersections and its nearest-hit rule, the
//! depth-bounded recursion of mirror reflections, the storage and index
//! arithmetic of matrices and pixel canvases, the cell choices of procedural
//! patterns, and the PPM text format. Ray parameters are carried as the bit
//! patterns of their single-precision values, ordered by `intersection::rank`.
use vstd::prelude::*;

pub mod approx;
pub mod canvas;
pub mod intersection;
pub mod matrix;
pub mod pattern;
pub mod tracing;

verus! {

/// Points and vectors are distinct types: a point plus a point has no meaning
/// and is not defined. This item marks that rule; it does nothing.
pub fn add_points_compile_fail() {
}

/// A vector minus a point has no meaning and is not defined. This item marks
/// that rule; it does nothing.
pub fn subtract_point_from_vector_compile_fail() {
}

/// A scalar divided by a vector has no meaning and is not defined. This item
/// marks that rule; it does nothing.
pub fn divide_scalar_by_vector_compile_fail() {
}

} // verus!
