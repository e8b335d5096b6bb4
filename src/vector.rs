//! Two-dimensional integer vectors.
use vstd::prelude::*;
use crate::arith::fits_i32;

verus! {

/// A position (in length units) or a velocity (in length units per time unit).
#[derive(Clone, Copy, Debug, PartialEq, Eq)]
pub struct Vector {
    pub x: i32,
    pub y: i32,
}

/// Whether `v` holds exactly the pair `p`.
pub open spec fn holds(v: Vector, p: (int, int)) -> bool {
    v.x == p.0 && v.y == p.1
}

impl Vector {
    pub fn new(x: i32, y: i32) -> (r: Vector)
        ensures
            r.x == x,
            r.y == y,
    {
        Vector { x, y }
    }

    pub fn zero() -> (r: Vector)
        ensures
            r.x == 0,
            r.y == 0,
    {
        Vector { x: 0, y: 0 }
    }

    /// The component-wise sum, or `None` where a component leaves the `i32` range.
    pub fn add(&self, other: &Vector) -> (r: Option<Vector>)
        ensures
            r is Some <==> fits_i32(self.x + other.x) && fits_i32(self.y + other.y),
            r matches Some(v) ==> holds(v, (self.x + other.x, self.y + other.y)),
    {
        match (self.x.checked_add(other.x), self.y.checked_add(other.y)) {
            (Some(x), Some(y)) => Some(Vector { x, y }),
            _ => None,
        }
    }

    /// The vector scaled by `f`, or `None` where a component leaves the `i32` range.
    pub fn mul(&self, f: i32) -> (r: Option<Vector>)
        ensures
            r is Some <==> fits_i32(self.x * f) && fits_i32(self.y * f),
            r matches Some(v) ==> holds(v, (self.x * f, self.y * f)),
    {
        match (self.x.checked_mul(f), self.y.checked_mul(f)) {
            (Some(x), Some(y)) => Some(Vector { x, y }),
            _ => None,
        }
    }
}

} // verus!
