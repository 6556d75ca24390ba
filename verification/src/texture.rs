//! Textures: colours as functions of a surface point.
use vstd::prelude::*;
use crate::fixed::Fixed;
use crate::vec3::{Color, Point3};

verus! {

/// The texture that has one colour everywhere.
#[derive(Clone, Copy, Debug, PartialEq, Eq, Structural)]
pub struct SolidColor {
    pub color_value: Color,
}

/// A texture. Further kinds get a variant and an arm in [`Texture::value`].
#[non_exhaustive]
#[derive(Clone, Copy, Debug, PartialEq, Eq, Structural)]
pub enum Texture {
    Solid(SolidColor),
}

impl SolidColor {
    /// The texture of the colour `c`.
    pub fn new(c: Color) -> (r: SolidColor)
        ensures
            r.color_value == c,
    {
        SolidColor { color_value: c }
    }

    /// The colour, whatever the point.
    pub fn value(&self, u: Fixed, v: Fixed, p: Point3) -> (c: Color)
        ensures
            c == self.color_value,
    {
        self.color_value
    }
}

impl Texture {
    /// The colour at surface coordinates `(u, v)` and point `p`.
    pub open spec fn value_spec(self, u: Fixed, v: Fixed, p: Point3) -> Color {
        match self {
            Texture::Solid(s) => s.color_value,
        }
    }

    /// The texture of one colour.
    pub open spec fn solid_spec(c: Color) -> Texture {
        Texture::Solid(SolidColor { color_value: c })
    }

    /// The texture of one colour.
    pub fn solid(c: Color) -> (r: Texture)
        ensures
            r == Texture::solid_spec(c),
    {
        Texture::Solid(SolidColor::new(c))
    }

    /// The colour at surface coordinates `(u, v)` and point `p`.
    pub fn value(&self, u: Fixed, v: Fixed, p: Point3) -> (c: Color)
        ensures
            c == self.value_spec(u, v, p),
    {
        match self {
            Texture::Solid(s) => s.value(u, v, p),
        }
    }
}

} // verus!
