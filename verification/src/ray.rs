//! Rays: half-lines with a time stamp.
use vstd::prelude::*;
use crate::fixed::Fixed;
use crate::vec3::{Point3, Vec3};

verus! {

/// A ray `orig + t * dir`, cast at time `tm`. The direction need not have
/// unit length.
#[derive(Clone, Copy, Debug, PartialEq, Eq, Structural)]
pub struct Ray {
    pub orig: Point3,
    pub dir: Vec3,
    pub tm: Fixed,
}

impl Ray {
    /// The point of the ray at parameter `t`.
    pub open spec fn at_spec(self, t: Fixed) -> Point3 {
        self.orig.add_spec(self.dir.scale_spec(t))
    }

    /// The ray from `orig` along `dir` at time `tm`.
    pub fn new(orig: Point3, dir: Vec3, tm: Fixed) -> (r: Ray)
        ensures
            r == (Ray { orig, dir, tm }),
    {
        Ray { orig, dir, tm }
    }

    /// The point of the ray at parameter `t`.
    pub fn at(self, t: Fixed) -> (p: Point3)
        ensures
            p == self.at_spec(t),
    {
        self.orig.add(self.dir.scale(t))
    }
}

} // verus!
