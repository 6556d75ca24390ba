//! Orthonormal bases.
use vstd::prelude::*;
use crate::fixed::Fixed;
use crate::vec3::Vec3;

verus! {

/// A frame of three axes, used to carry a direction sampled about the `z`
/// axis over to a direction about a surface normal.
#[derive(Clone, Copy, Debug, PartialEq, Eq, Structural)]
pub struct Onb {
    pub axis_u: Vec3,
    pub axis_v: Vec3,
    pub axis_w: Vec3,
}

/// Raw value of nine tenths: a vector whose first component exceeds it in
/// magnitude is too close to the `x` axis to be crossed with it.
pub const NEAR_X_RAW: i64 = 900_000;

impl Onb {
    /// The frame whose third axis is `n` scaled to unit length. The second
    /// axis is the unit vector normal to the third and to a helper axis
    /// (`y` where `n` leans to `x`, else `x`); the first is normal to both.
    pub open spec fn build_from_w_spec(n: Vec3) -> Onb {
        let w = n.to_unit_spec();
        let helper = if w.x.raw > NEAR_X_RAW || w.x.raw < -NEAR_X_RAW {
            Vec3::from_ints_spec(0, 1, 0)
        } else {
            Vec3::from_ints_spec(1, 0, 0)
        };
        let v = w.cross_spec(helper).to_unit_spec();
        let u = w.cross_spec(v);
        Onb { axis_u: u, axis_v: v, axis_w: w }
    }

    /// The vector with the coordinates of `a`, read in this frame:
    /// `a.x u + a.y v + a.z w`.
    pub open spec fn local_vec_spec(self, a: Vec3) -> Vec3 {
        self.axis_u.scale_spec(a.x).add_spec(self.axis_v.scale_spec(a.y)).add_spec(
            self.axis_w.scale_spec(a.z),
        )
    }

    /// The frame whose third axis points along `n`.
    pub fn build_from_w(n: Vec3) -> (r: Onb)
        ensures
            r == Onb::build_from_w_spec(n),
    {
        let w = n.to_unit();
        let helper = if w.x.raw > NEAR_X_RAW || w.x.raw < -NEAR_X_RAW {
            Vec3::from_ints(0, 1, 0)
        } else {
            Vec3::from_ints(1, 0, 0)
        };
        let v = w.cross(helper).to_unit();
        let u = w.cross(v);
        Onb { axis_u: u, axis_v: v, axis_w: w }
    }

    /// The first axis.
    pub fn u(&self) -> (r: Vec3)
        ensures
            r == self.axis_u,
    {
        self.axis_u
    }

    /// The second axis.
    pub fn v(&self) -> (r: Vec3)
        ensures
            r == self.axis_v,
    {
        self.axis_v
    }

    /// The third axis.
    pub fn w(&self) -> (r: Vec3)
        ensures
            r == self.axis_w,
    {
        self.axis_w
    }

    /// The vector with coordinates `(a, b, c)` in this frame.
    pub fn local(&self, a: Fixed, b: Fixed, c: Fixed) -> (r: Vec3)
        ensures
            r == self.local_vec_spec(Vec3 { x: a, y: b, z: c }),
    {
        self.axis_u.scale(a).add(self.axis_v.scale(b)).add(self.axis_w.scale(c))
    }

    /// The vector with the coordinates of `a` in this frame.
    pub fn local_vec(&self, a: Vec3) -> (r: Vec3)
        ensures
            r == self.local_vec_spec(a),
    {
        self.local(a.x, a.y, a.z)
    }
}

} // verus!
