//! The camera: a thin lens with a shutter.
use vstd::prelude::*;
use crate::fixed::Fixed;
use crate::random::{
    continues, in_unit_disk_spec, lemma_continues_trans, random_in_unit_disk, unit_of, word_at,
    RandomSource, SAMPLE_TRIES,
};
use crate::ray::Ray;
use crate::vec3::{Point3, Vec3};

verus! {

/// A camera. Rays leave from a lens of radius `lens_radius` around
/// `origin`, toward the plane of focus spanned by `horizontal` and
/// `vertical` from `lower_left_corner`, at a time between `time0` and
/// `time1`.
#[derive(Clone, Copy, Debug, PartialEq, Eq, Structural)]
pub struct Camera {
    pub origin: Point3,
    pub lower_left_corner: Point3,
    pub horizontal: Vec3,
    pub vertical: Vec3,
    pub u: Vec3,
    pub v: Vec3,
    pub w: Vec3,
    pub lens_radius: Fixed,
    pub time0: Fixed,
    pub time1: Fixed,
}

/// Raw value of two.
pub const TWO_RAW: i64 = 2_000_000;

impl Camera {
    /// The camera at `lookfrom` that looks at `lookat` with `vup` upward,
    /// whose view is `viewport_height` high at unit distance (twice the
    /// tangent of half the vertical field of view) and `aspect_ratio`
    /// times as wide, with a lens of diameter `aperture` focused at
    /// distance `focus_dist`, and a shutter open from `time0` to `time1`.
    pub open spec fn new_spec(
        lookfrom: Point3,
        lookat: Point3,
        vup: Vec3,
        viewport_height: Fixed,
        aspect_ratio: Fixed,
        aperture: Fixed,
        focus_dist: Fixed,
        time0: Fixed,
        time1: Fixed,
    ) -> Camera {
        let two = Fixed { raw: TWO_RAW };
        let viewport_width = aspect_ratio.mul_spec(viewport_height);
        let w = lookfrom.sub_spec(lookat).to_unit_spec();
        let u = vup.cross_spec(w).to_unit_spec();
        let v = w.cross_spec(u);
        let horizontal = u.scale_spec(focus_dist.mul_spec(viewport_width));
        let vertical = v.scale_spec(focus_dist.mul_spec(viewport_height));
        Camera {
            origin: lookfrom,
            lower_left_corner: lookfrom.sub_spec(horizontal.shrink_spec(two)).sub_spec(
                vertical.shrink_spec(two),
            ).sub_spec(w.scale_spec(focus_dist)),
            horizontal,
            vertical,
            u,
            v,
            w,
            lens_radius: aperture.div_spec(two),
            time0,
            time1,
        }
    }

    /// The ray through the point `(s, t)` of the view, `(0, 0)` being its
    /// lower left corner and `(1, 1)` its upper right, that leaves the
    /// lens at the point `lens` of the unit disk when the fraction
    /// `shutter` of the exposure has passed.
    pub open spec fn ray_through_spec(self, s: Fixed, t: Fixed, lens: Vec3, shutter: Fixed) -> Ray {
        let rd = lens.scale_spec(self.lens_radius);
        let offset = self.u.scale_spec(rd.x).add_spec(self.v.scale_spec(rd.y));
        Ray {
            orig: self.origin.add_spec(offset),
            dir: self.lower_left_corner.add_spec(self.horizontal.scale_spec(s)).add_spec(
                self.vertical.scale_spec(t),
            ).sub_spec(self.origin).sub_spec(offset),
            tm: self.time0.add_spec(shutter.mul_spec(self.time1.sub_spec(self.time0))),
        }
    }

    /// The ray through `(s, t)` with the lens point and the shutter
    /// fraction read from the stream.
    pub open spec fn get_ray_spec(self, s: Fixed, t: Fixed, stream: Seq<u32>, pos: nat) -> (Ray, nat) {
        let lens = in_unit_disk_spec(stream, pos, SAMPLE_TRIES as nat);
        (self.ray_through_spec(s, t, lens.0, unit_of(word_at(stream, lens.1))), lens.1 + 1)
    }

    /// Sets up the camera frame.
    pub fn new(
        lookfrom: Point3,
        lookat: Point3,
        vup: Vec3,
        viewport_height: Fixed,
        aspect_ratio: Fixed,
        aperture: Fixed,
        focus_dist: Fixed,
        time0: Fixed,
        time1: Fixed,
    ) -> (cam: Camera)
        ensures
            cam == Camera::new_spec(
                lookfrom,
                lookat,
                vup,
                viewport_height,
                aspect_ratio,
                aperture,
                focus_dist,
                time0,
                time1,
            ),
    {
        let two = Fixed { raw: TWO_RAW };
        let viewport_width = aspect_ratio.mul(viewport_height);
        let w = lookfrom.sub(lookat).to_unit();
        let u = vup.cross(w).to_unit();
        let v = w.cross(u);
        let horizontal = u.scale(focus_dist.mul(viewport_width));
        let vertical = v.scale(focus_dist.mul(viewport_height));
        Camera {
            origin: lookfrom,
            lower_left_corner: lookfrom.sub(horizontal.shrink(two)).sub(vertical.shrink(two)).sub(
                w.scale(focus_dist),
            ),
            horizontal,
            vertical,
            u,
            v,
            w,
            lens_radius: aperture.div(two),
            time0,
            time1,
        }
    }

    /// The ray through `(s, t)` for a given lens point and shutter fraction.
    pub fn ray_through(&self, s: Fixed, t: Fixed, lens: Vec3, shutter: Fixed) -> (r: Ray)
        ensures
            r == self.ray_through_spec(s, t, lens, shutter),
    {
        let rd = lens.scale(self.lens_radius);
        let offset = self.u.scale(rd.x).add(self.v.scale(rd.y));
        Ray::new(
            self.origin.add(offset),
            self.lower_left_corner.add(self.horizontal.scale(s)).add(self.vertical.scale(t)).sub(
                self.origin,
            ).sub(offset),
            self.time0.add(shutter.mul(self.time1.sub(self.time0))),
        )
    }

    /// The ray through the point `(s, t)` of the view, from a random point
    /// of the lens at a random time of the exposure.
    pub fn get_ray(&self, s: Fixed, t: Fixed, rng: &mut RandomSource) -> (r: Ray)
        ensures
            continues(final(rng).history(), old(rng).history()),
            forall|stream: Seq<u32>| #[trigger]
                continues(stream, final(rng).history()) ==> self.get_ray_spec(
                    s,
                    t,
                    stream,
                    old(rng).history().len(),
                ) == (r, final(rng).history().len()),
    {
        let ghost h0 = rng.history();
        let lens = random_in_unit_disk(rng);
        let ghost h1 = rng.history();
        let shutter = rng.next_unit();
        let r = self.ray_through(s, t, lens, shutter);
        proof {
            let h2 = rng.history();
            lemma_continues_trans(h2, h1, h0);
            assert forall|stream: Seq<u32>| #[trigger]
                continues(stream, h2) implies self.get_ray_spec(s, t, stream, h0.len()) == (
                r,
                h2.len(),
            ) by {
                lemma_continues_trans(stream, h2, h1);
            }
        }
        r
    }
}

} // verus!
