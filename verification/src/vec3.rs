//! Three-component vectors of fixed-point numbers: points, directions and
//! colours.
use vstd::prelude::*;
use crate::fixed::Fixed;

verus! {

/// A vector of three fixed-point components.
#[derive(Clone, Copy, Debug, PartialEq, Eq, Structural)]
pub struct Vec3 {
    pub x: Fixed,
    pub y: Fixed,
    pub z: Fixed,
}

/// A position in space.
pub type Point3 = Vec3;

/// Linear-light radiance per channel: red in `x`, green in `y`, blue in `z`.
pub type Color = Vec3;

impl Vec3 {
    /// The vector with all components zero.
    pub open spec fn zero_spec() -> Vec3 {
        Vec3 { x: Fixed::zero_spec(), y: Fixed::zero_spec(), z: Fixed::zero_spec() }
    }

    /// The vector of three whole numbers.
    pub open spec fn from_ints_spec(x: i64, y: i64, z: i64) -> Vec3 {
        Vec3 { x: Fixed::from_int_spec(x), y: Fixed::from_int_spec(y), z: Fixed::from_int_spec(z) }
    }

    /// Component-wise sum.
    pub open spec fn add_spec(self, o: Vec3) -> Vec3 {
        Vec3 { x: self.x.add_spec(o.x), y: self.y.add_spec(o.y), z: self.z.add_spec(o.z) }
    }

    /// Component-wise difference.
    pub open spec fn sub_spec(self, o: Vec3) -> Vec3 {
        Vec3 { x: self.x.sub_spec(o.x), y: self.y.sub_spec(o.y), z: self.z.sub_spec(o.z) }
    }

    /// Component-wise negation.
    pub open spec fn neg_spec(self) -> Vec3 {
        Vec3 { x: self.x.neg_spec(), y: self.y.neg_spec(), z: self.z.neg_spec() }
    }

    /// Every component multiplied by `k`.
    pub open spec fn scale_spec(self, k: Fixed) -> Vec3 {
        Vec3 { x: self.x.mul_spec(k), y: self.y.mul_spec(k), z: self.z.mul_spec(k) }
    }

    /// Every component divided by `k`.
    pub open spec fn shrink_spec(self, k: Fixed) -> Vec3 {
        Vec3 { x: self.x.div_spec(k), y: self.y.div_spec(k), z: self.z.div_spec(k) }
    }

    /// Component-wise product, as used to attenuate one colour by another.
    pub open spec fn hadamard_spec(self, o: Vec3) -> Vec3 {
        Vec3 { x: self.x.mul_spec(o.x), y: self.y.mul_spec(o.y), z: self.z.mul_spec(o.z) }
    }

    /// Inner product.
    pub open spec fn dot_spec(self, o: Vec3) -> Fixed {
        self.x.mul_spec(o.x).add_spec(self.y.mul_spec(o.y)).add_spec(self.z.mul_spec(o.z))
    }

    /// Cross product.
    pub open spec fn cross_spec(self, o: Vec3) -> Vec3 {
        Vec3 {
            x: self.y.mul_spec(o.z).sub_spec(self.z.mul_spec(o.y)),
            y: self.z.mul_spec(o.x).sub_spec(self.x.mul_spec(o.z)),
            z: self.x.mul_spec(o.y).sub_spec(self.y.mul_spec(o.x)),
        }
    }

    /// Squared length.
    pub open spec fn length_sqr_spec(self) -> Fixed {
        self.dot_spec(self)
    }

    /// Length.
    pub open spec fn length_spec(self) -> Fixed {
        self.length_sqr_spec().sqrt_spec()
    }

    /// The vector divided by its length; the zero vector where the length
    /// rounds to zero.
    pub open spec fn to_unit_spec(self) -> Vec3 {
        let len = self.length_spec();
        if len.raw == 0 {
            Vec3::zero_spec()
        } else {
            self.shrink_spec(len)
        }
    }

    /// Every component is within a hundred-thousandth of zero.
    pub open spec fn near_zero_spec(self) -> bool {
        &&& -10 < self.x.raw < 10
        &&& -10 < self.y.raw < 10
        &&& -10 < self.z.raw < 10
    }

    /// Mirror image of `self` about the plane with normal `n`:
    /// `self - 2 (self . n) n`.
    pub open spec fn reflect_spec(self, n: Vec3) -> Vec3 {
        let d = self.dot_spec(n);
        self.sub_spec(n.scale_spec(d.add_spec(d)))
    }

    /// Direction of `self` (a unit vector) after crossing a surface with unit
    /// normal `n`, by Snell's law with the given ratio of refractive indices.
    pub open spec fn refract_spec(self, n: Vec3, ratio: Fixed) -> Vec3 {
        let cos_theta = self.neg_spec().dot_spec(n).min_spec(Fixed::one_spec());
        let perp = self.add_spec(n.scale_spec(cos_theta)).scale_spec(ratio);
        let rest = Fixed::one_spec().sub_spec(perp.length_sqr_spec());
        let along = if rest.raw < 0 {
            rest.neg_spec()
        } else {
            rest
        }.sqrt_spec().neg_spec();
        perp.add_spec(n.scale_spec(along))
    }

    /// The vector of the given components.
    pub fn new(x: Fixed, y: Fixed, z: Fixed) -> (r: Vec3)
        ensures
            r == (Vec3 { x, y, z }),
    {
        Vec3 { x, y, z }
    }

    /// The vector with all components zero.
    pub fn zero() -> (r: Vec3)
        ensures
            r == Vec3::zero_spec(),
    {
        Vec3 { x: Fixed::zero(), y: Fixed::zero(), z: Fixed::zero() }
    }

    /// The vector of three whole numbers.
    pub fn from_ints(x: i64, y: i64, z: i64) -> (r: Vec3)
        ensures
            r == Vec3::from_ints_spec(x, y, z),
    {
        Vec3 { x: Fixed::from_int(x), y: Fixed::from_int(y), z: Fixed::from_int(z) }
    }

    /// Component-wise sum.
    pub fn add(self, o: Vec3) -> (r: Vec3)
        ensures
            r == self.add_spec(o),
    {
        Vec3 { x: self.x.add(o.x), y: self.y.add(o.y), z: self.z.add(o.z) }
    }

    /// Component-wise difference.
    pub fn sub(self, o: Vec3) -> (r: Vec3)
        ensures
            r == self.sub_spec(o),
    {
        Vec3 { x: self.x.sub(o.x), y: self.y.sub(o.y), z: self.z.sub(o.z) }
    }

    /// Component-wise negation.
    pub fn neg(self) -> (r: Vec3)
        ensures
            r == self.neg_spec(),
    {
        Vec3 { x: self.x.neg(), y: self.y.neg(), z: self.z.neg() }
    }

    /// Every component multiplied by `k`.
    pub fn scale(self, k: Fixed) -> (r: Vec3)
        ensures
            r == self.scale_spec(k),
    {
        Vec3 { x: self.x.mul(k), y: self.y.mul(k), z: self.z.mul(k) }
    }

    /// Every component divided by `k`.
    pub fn shrink(self, k: Fixed) -> (r: Vec3)
        ensures
            r == self.shrink_spec(k),
    {
        Vec3 { x: self.x.div(k), y: self.y.div(k), z: self.z.div(k) }
    }

    /// Component-wise product.
    pub fn hadamard(self, o: Vec3) -> (r: Vec3)
        ensures
            r == self.hadamard_spec(o),
    {
        Vec3 { x: self.x.mul(o.x), y: self.y.mul(o.y), z: self.z.mul(o.z) }
    }

    /// Inner product.
    pub fn dot(self, o: Vec3) -> (r: Fixed)
        ensures
            r == self.dot_spec(o),
    {
        self.x.mul(o.x).add(self.y.mul(o.y)).add(self.z.mul(o.z))
    }

    /// Cross product.
    pub fn cross(self, o: Vec3) -> (r: Vec3)
        ensures
            r == self.cross_spec(o),
    {
        Vec3 {
            x: self.y.mul(o.z).sub(self.z.mul(o.y)),
            y: self.z.mul(o.x).sub(self.x.mul(o.z)),
            z: self.x.mul(o.y).sub(self.y.mul(o.x)),
        }
    }

    /// Squared length.
    pub fn length_sqr(self) -> (r: Fixed)
        ensures
            r == self.length_sqr_spec(),
    {
        self.dot(self)
    }

    /// Length.
    pub fn length(self) -> (r: Fixed)
        ensures
            r == self.length_spec(),
    {
        self.length_sqr().sqrt()
    }

    /// The vector divided by its length; the zero vector where the length
    /// rounds to zero.
    pub fn to_unit(self) -> (r: Vec3)
        ensures
            r == self.to_unit_spec(),
    {
        let len = self.length();
        if len.raw == 0 {
            Vec3::zero()
        } else {
            self.shrink(len)
        }
    }

    /// Whether every component is within a hundred-thousandth of zero.
    pub fn near_zero(self) -> (r: bool)
        ensures
            r == self.near_zero_spec(),
    {
        -10 < self.x.raw && self.x.raw < 10 && -10 < self.y.raw && self.y.raw < 10 && -10
            < self.z.raw && self.z.raw < 10
    }

    /// Mirror image about the plane with normal `n`.
    pub fn reflect(self, n: Vec3) -> (r: Vec3)
        ensures
            r == self.reflect_spec(n),
    {
        let d = self.dot(n);
        self.sub(n.scale(d.add(d)))
    }

    /// Direction after crossing a surface with unit normal `n`, by Snell's
    /// law.
    pub fn refract(self, n: Vec3, ratio: Fixed) -> (r: Vec3)
        ensures
            r == self.refract_spec(n, ratio),
    {
        let cos_theta = self.neg().dot(n).min(Fixed::one());
        let perp = self.add(n.scale(cos_theta)).scale(ratio);
        let rest = Fixed::one().sub(perp.length_sqr());
        let positive = if rest.raw < 0 {
            rest.neg()
        } else {
            rest
        };
        let along = positive.sqrt().neg();
        perp.add(n.scale(along))
    }
}

} // verus!
