use vstd::prelude::*;

verus! {

/// Equality up to a small fixed tolerance, for values built from rounded
/// arithmetic: componentwise for composite values.
pub trait ApproxEq: Sized {
    fn approx_eq(&self, rhs: Self) -> bool;
}

} // verus!
