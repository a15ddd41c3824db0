//! The fixed-point 3-vector the pipeline carries vertices in.

use vstd::prelude::*;

verus! {

/// A 3D point or vector whose components are fixed-point values
/// (see [`crate::fixed::FP_ONE`]).
#[derive(Clone, Copy, PartialEq, Eq, Structural, Debug)]
pub struct Vec3 {
    pub x: i64,
    pub y: i64,
    pub z: i64,
}

impl Vec3 {
    /// Builds a vector from its three fixed-point components.
    pub fn new(x: i64, y: i64, z: i64) -> (v: Vec3)
        ensures
            v == (Vec3 { x, y, z }),
    {
        Vec3 { x, y, z }
    }
}

} // verus!
