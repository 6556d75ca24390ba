//! Axis-aligned bounding boxes and the slab test.
use vstd::prelude::*;
use crate::fixed::{lemma_div_ordered, Fixed};
use crate::ray::Ray;
use crate::vec3::Point3;

verus! {

/// An axis-aligned box, given by its corners of least and greatest
/// coordinates.
#[derive(Clone, Copy, Debug, PartialEq, Eq, Structural)]
pub struct AABB {
    pub min: Point3,
    pub max: Point3,
}

/// The part of the parameter range `[t_min, t_max]` in which a ray with
/// origin coordinate `orig` and direction coordinate `dir` lies between the
/// planes at `lo` and `hi`. A direction coordinate of zero divides to the end
/// of the range on the side of the dividend, so a ray parallel to the planes
/// keeps its range when it runs between them and loses it when it does not.
pub open spec fn slab_spec(
    lo: Fixed,
    hi: Fixed,
    orig: Fixed,
    dir: Fixed,
    t_min: Fixed,
    t_max: Fixed,
) -> (Fixed, Fixed) {
    let a = lo.sub_spec(orig).div_spec(dir);
    let b = hi.sub_spec(orig).div_spec(dir);
    if dir.raw < 0 {
        (b.max_spec(t_min), a.min_spec(t_max))
    } else {
        (a.max_spec(t_min), b.min_spec(t_max))
    }
}

fn slab(lo: Fixed, hi: Fixed, orig: Fixed, dir: Fixed, t_min: Fixed, t_max: Fixed) -> (r: (
    Fixed,
    Fixed,
))
    ensures
        r == slab_spec(lo, hi, orig, dir, t_min, t_max),
{
    let a = lo.sub(orig).div(dir);
    let b = hi.sub(orig).div(dir);
    if dir.raw < 0 {
        (b.max(t_min), a.min(t_max))
    } else {
        (a.max(t_min), b.min(t_max))
    }
}

impl AABB {
    /// The least corner is nowhere beyond the greatest.
    pub open spec fn well_formed(self) -> bool {
        &&& self.min.x.raw <= self.max.x.raw
        &&& self.min.y.raw <= self.max.y.raw
        &&& self.min.z.raw <= self.max.z.raw
    }

    /// Every point of `inner` lies in `self`.
    pub open spec fn encloses(self, inner: AABB) -> bool {
        &&& self.min.x.raw <= inner.min.x.raw
        &&& self.min.y.raw <= inner.min.y.raw
        &&& self.min.z.raw <= inner.min.z.raw
        &&& inner.max.x.raw <= self.max.x.raw
        &&& inner.max.y.raw <= self.max.y.raw
        &&& inner.max.z.raw <= self.max.z.raw
    }

    /// The ray runs inside the box somewhere in the parameter range: the
    /// range, narrowed axis by axis, stays non-empty.
    pub open spec fn hit_spec(self, r: Ray, t_min: Fixed, t_max: Fixed) -> bool {
        let (a0, b0) = slab_spec(self.min.x, self.max.x, r.orig.x, r.dir.x, t_min, t_max);
        let (a1, b1) = slab_spec(self.min.y, self.max.y, r.orig.y, r.dir.y, a0, b0);
        let (a2, b2) = slab_spec(self.min.z, self.max.z, r.orig.z, r.dir.z, a1, b1);
        a0.raw < b0.raw && a1.raw < b1.raw && a2.raw < b2.raw
    }

    /// The box with the component-wise least of the least corners and
    /// greatest of the greatest corners.
    pub open spec fn surrounding_box_spec(a: AABB, b: AABB) -> AABB {
        AABB {
            min: Point3 {
                x: a.min.x.min_spec(b.min.x),
                y: a.min.y.min_spec(b.min.y),
                z: a.min.z.min_spec(b.min.z),
            },
            max: Point3 {
                x: a.max.x.max_spec(b.max.x),
                y: a.max.y.max_spec(b.max.y),
                z: a.max.z.max_spec(b.max.z),
            },
        }
    }

    /// The box between two corners, as given.
    pub fn new(min: Point3, max: Point3) -> (r: AABB)
        ensures
            r == (AABB { min, max }),
    {
        AABB { min, max }
    }

    /// Slab test.
    pub fn hit(&self, r: Ray, t_min: Fixed, t_max: Fixed) -> (h: bool)
        ensures
            h == self.hit_spec(r, t_min, t_max),
    {
        let (a0, b0) = slab(self.min.x, self.max.x, r.orig.x, r.dir.x, t_min, t_max);
        if b0.raw <= a0.raw {
            return false;
        }
        let (a1, b1) = slab(self.min.y, self.max.y, r.orig.y, r.dir.y, a0, b0);
        if b1.raw <= a1.raw {
            return false;
        }
        let (a2, b2) = slab(self.min.z, self.max.z, r.orig.z, r.dir.z, a1, b1);
        a2.raw < b2.raw
    }

    /// The smallest box that encloses both `a` and `b`.
    pub fn surrounding_box(a: AABB, b: AABB) -> (r: AABB)
        ensures
            r == AABB::surrounding_box_spec(a, b),
            r.encloses(a),
            r.encloses(b),
            forall|c: AABB| c.encloses(a) && c.encloses(b) ==> c.encloses(r),
            a.well_formed() || b.well_formed() ==> r.well_formed(),
    {
        AABB {
            min: Point3 {
                x: a.min.x.min(b.min.x),
                y: a.min.y.min(b.min.y),
                z: a.min.z.min(b.min.z),
            },
            max: Point3 {
                x: a.max.x.max(b.max.x),
                y: a.max.y.max(b.max.y),
                z: a.max.z.max(b.max.z),
            },
        }
    }
}

/// Merging boxes is the least upper bound of enclosure: the merged box
/// encloses both, and every box that encloses both encloses the merged box.
pub proof fn lemma_surrounding_box_is_least(a: AABB, b: AABB, c: AABB)
    ensures
        AABB::surrounding_box_spec(a, b).encloses(a),
        AABB::surrounding_box_spec(a, b).encloses(b),
        c.encloses(a) && c.encloses(b) ==> c.encloses(AABB::surrounding_box_spec(a, b)),
        AABB::surrounding_box_spec(a, b) == AABB::surrounding_box_spec(b, a),
        AABB::surrounding_box_spec(a, a) == a,
{
}

/// Wider planes and a wider range leave a wider part of the range.
pub proof fn lemma_slab_widens(
    lo: Fixed,
    hi: Fixed,
    wide_lo: Fixed,
    wide_hi: Fixed,
    orig: Fixed,
    dir: Fixed,
    t_min: Fixed,
    t_max: Fixed,
    wide_min: Fixed,
    wide_max: Fixed,
)
    requires
        wide_lo.raw <= lo.raw,
        hi.raw <= wide_hi.raw,
        wide_min.raw <= t_min.raw,
        t_max.raw <= wide_max.raw,
    ensures
        slab_spec(wide_lo, wide_hi, orig, dir, wide_min, wide_max).0.raw <= slab_spec(
            lo,
            hi,
            orig,
            dir,
            t_min,
            t_max,
        ).0.raw,
        slab_spec(lo, hi, orig, dir, t_min, t_max).1.raw <= slab_spec(
            wide_lo,
            wide_hi,
            orig,
            dir,
            wide_min,
            wide_max,
        ).1.raw,
{
    lemma_div_ordered(wide_lo.sub_spec(orig), lo.sub_spec(orig), dir);
    lemma_div_ordered(hi.sub_spec(orig), wide_hi.sub_spec(orig), dir);
}

/// A ray that runs inside a box runs inside every box that encloses it:
/// culling by an enclosing box loses no box.
pub proof fn lemma_enclosing_box_is_hit(outer: AABB, inner: AABB, r: Ray, t_min: Fixed, t_max: Fixed)
    requires
        outer.encloses(inner),
        inner.hit_spec(r, t_min, t_max),
    ensures
        outer.hit_spec(r, t_min, t_max),
{
    let i0 = slab_spec(inner.min.x, inner.max.x, r.orig.x, r.dir.x, t_min, t_max);
    let o0 = slab_spec(outer.min.x, outer.max.x, r.orig.x, r.dir.x, t_min, t_max);
    lemma_slab_widens(
        inner.min.x,
        inner.max.x,
        outer.min.x,
        outer.max.x,
        r.orig.x,
        r.dir.x,
        t_min,
        t_max,
        t_min,
        t_max,
    );
    let i1 = slab_spec(inner.min.y, inner.max.y, r.orig.y, r.dir.y, i0.0, i0.1);
    let o1 = slab_spec(outer.min.y, outer.max.y, r.orig.y, r.dir.y, o0.0, o0.1);
    lemma_slab_widens(
        inner.min.y,
        inner.max.y,
        outer.min.y,
        outer.max.y,
        r.orig.y,
        r.dir.y,
        i0.0,
        i0.1,
        o0.0,
        o0.1,
    );
    lemma_slab_widens(
        inner.min.z,
        inner.max.z,
        outer.min.z,
        outer.max.z,
        r.orig.z,
        r.dir.z,
        i1.0,
        i1.1,
        o1.0,
        o1.1,
    );
}

} // verus!
