//! Spheres, at rest and in motion.
use vstd::prelude::*;
use std::sync::Arc;
use crate::aabb::AABB;
use crate::angle::{
    acos, acos_spec, lemma_acos_range, lemma_turn_range, turn, turn_spec, FULL_TURN_RAW,
};
use crate::fixed::{
    lemma_div_monotone, lemma_div_ordered, lemma_mul_ordered, lemma_sqrt_nonneg, Fixed, PI_RAW,
    RAW_MAX, SCALE, TWO_PI_RAW,
};
use crate::hittable::{faces_front, facing_normal, HitRecord};
use crate::material::Material;
use crate::onb::Onb;
use crate::random::{continues, random_to_sphere, to_sphere_spec, RandomSource};
use crate::ray::Ray;
use crate::vec3::{Point3, Vec3};

verus! {

/// Raw value of the least ray parameter at which a ray cast from a surface
/// may hit again: a thousandth.
pub const SHADOW_BIAS_RAW: i64 = 1_000;

/// A sphere at rest.
pub struct Sphere {
    pub center: Point3,
    pub radius: Fixed,
    pub mat_ptr: Arc<Material>,
}

/// A sphere whose centre moves in a straight line, from `center0` at
/// `time0` to `center1` at `time1`.
pub struct MovingSphere {
    pub center0: Point3,
    pub center1: Point3,
    pub time0: Fixed,
    pub time1: Fixed,
    pub radius: Fixed,
    pub mat_ptr: Arc<Material>,
}

/// `t` lies strictly between `t_min` and `t_max`.
pub open spec fn in_range(t: Fixed, t_min: Fixed, t_max: Fixed) -> bool {
    t_min.raw < t.raw < t_max.raw
}

/// The surface coordinates of the point `p` of the unit sphere:
/// `u = (atan2(-p.z, p.x) + pi) / 2 pi` runs around the `y` axis from the
/// seam at `-x`, where it is zero, and `v = acos(-p.y) / pi` from the
/// bottom pole to the top.
pub open spec fn sphere_uv_spec(p: Point3) -> (Fixed, Fixed) {
    let theta = acos_spec(p.y.neg_spec());
    let phi = turn_spec(p.z.neg_spec(), p.x);
    (phi.div_spec(Fixed { raw: FULL_TURN_RAW }), theta.div_spec(Fixed { raw: PI_RAW }))
}

/// Surface coordinates lie in the unit square, the first of them short of
/// its end: `u` in `[0, 1)` and `v` in `[0, 1]`, whatever the point. On the
/// seam, where `z` is zero and `x` is negative, `u` is zero.
pub proof fn lemma_sphere_uv_range(p: Point3)
    ensures
        0 <= sphere_uv_spec(p).0.raw < SCALE,
        0 <= sphere_uv_spec(p).1.raw <= SCALE,
        p.z.raw == 0 && p.x.raw < 0 ==> sphere_uv_spec(p).0 == Fixed::zero_spec(),
{
    lemma_acos_range(p.y.neg_spec());
    lemma_turn_range(p.z.neg_spec(), p.x);
    let theta = acos_spec(p.y.neg_spec());
    let phi = turn_spec(p.z.neg_spec(), p.x);
    assert(0 <= (phi.raw * 1_000_000) / 6_283_184 < 1_000_000);
    assert(0 <= (theta.raw * 1_000_000) / 3_141_592 <= 1_000_000);
}

/// Raw value of the factor by which a short direction is stretched: a
/// million.
pub const STRETCH_RAW: i64 = 1_000_000_000_000;

/// The two solutions `t` of `|orig + t dir - center|^2 = radius^2`, the
/// smaller first, computed from the direction as it stands; nothing where
/// there is none, where the radius is not positive, or where the squared
/// length of the direction rounds to zero.
pub open spec fn plain_roots_spec(center: Point3, radius: Fixed, orig: Point3, dir: Vec3) -> Option<
    (Fixed, Fixed),
> {
    let oc = orig.sub_spec(center);
    let a = dir.length_sqr_spec();
    let half_b = oc.dot_spec(dir);
    let c = oc.length_sqr_spec().sub_spec(radius.mul_spec(radius));
    let discriminant = half_b.mul_spec(half_b).sub_spec(a.mul_spec(c));
    if a.raw <= 0 || radius.raw <= 0 || discriminant.raw < 0 {
        None
    } else {
        let sqrtd = discriminant.sqrt_spec();
        Some(
            (
                half_b.neg_spec().sub_spec(sqrtd).div_spec(a),
                half_b.neg_spec().add_spec(sqrtd).div_spec(a),
            ),
        )
    }
}

/// The two solutions `t` of `|orig + t dir - center|^2 = radius^2`, the
/// smaller first; nothing where there is none, where the radius is not
/// positive, or where the ray has no direction. A direction so short that
/// its squared length rounds to zero is stretched a million times first,
/// and the solutions for the stretched direction are stretched in turn.
pub open spec fn ball_roots_spec(center: Point3, radius: Fixed, r: Ray) -> Option<(Fixed, Fixed)> {
    if r.dir.length_sqr_spec().raw > 0 {
        plain_roots_spec(center, radius, r.orig, r.dir)
    } else {
        let stretch = Fixed { raw: STRETCH_RAW };
        match plain_roots_spec(center, radius, r.orig, r.dir.scale_spec(stretch)) {
            Some(roots) => Some((roots.0.mul_spec(stretch), roots.1.mul_spec(stretch))),
            None => None,
        }
    }
}

/// The ray parameter at which the ray meets the sphere within the range:
/// the smaller solution where it is in range, else the larger where that
/// is.
pub open spec fn ball_root_spec(
    center: Point3,
    radius: Fixed,
    r: Ray,
    t_min: Fixed,
    t_max: Fixed,
) -> Option<Fixed> {
    match ball_roots_spec(center, radius, r) {
        None => None,
        Some((near, far)) => if in_range(near, t_min, t_max) {
            Some(near)
        } else if in_range(far, t_min, t_max) {
            Some(far)
        } else {
            None
        },
    }
}

/// The record of the ray meeting the sphere at parameter `root`.
pub open spec fn ball_record_spec<'a>(
    center: Point3,
    radius: Fixed,
    mat: &'a Material,
    r: Ray,
    root: Fixed,
) -> HitRecord<'a> {
    let p = r.at_spec(root);
    let outward = p.sub_spec(center).shrink_spec(radius);
    let (u, v) = sphere_uv_spec(outward);
    HitRecord {
        p,
        normal: facing_normal(r.dir, outward),
        t: root,
        u,
        v,
        front_face: faces_front(r.dir, outward),
        mat_ptr: mat,
    }
}

/// The nearest intersection of the ray with the sphere within the range:
/// the record of [`ball_record_spec`] at the parameter of
/// [`ball_root_spec`]. The definition is hidden from proofs that do not
/// reveal it; [`lemma_ball_hit_record`] and [`lemma_ball_narrows`] say what
/// follows from it.
#[verifier::opaque]
pub open spec fn ball_hit_spec<'a>(
    center: Point3,
    radius: Fixed,
    mat: &'a Material,
    r: Ray,
    t_min: Fixed,
    t_max: Fixed,
) -> Option<HitRecord<'a>> {
    match ball_root_spec(center, radius, r, t_min, t_max) {
        None => None,
        Some(root) => Some(ball_record_spec(center, radius, mat, r, root)),
    }
}

/// The box around a sphere.
pub open spec fn ball_box_spec(center: Point3, radius: Fixed) -> AABB {
    let corner = Vec3 { x: radius, y: radius, z: radius };
    AABB { min: center.sub_spec(corner), max: center.add_spec(corner) }
}

/// The density, per solid angle, of a direction drawn uniformly from the
/// cone under which a sphere of the given radius is seen from a point at
/// squared distance `distance_sqr` from its centre:
/// `1 / (2 pi (1 - cos_max))` with
/// `cos_max = sqrt(1 - radius^2 / distance_sqr)`.
pub open spec fn cone_density_spec(radius: Fixed, distance_sqr: Fixed) -> Fixed {
    let one = Fixed::one_spec();
    let cos_max = one.sub_spec(radius.mul_spec(radius).div_spec(distance_sqr)).sqrt_spec();
    let solid_angle = Fixed { raw: TWO_PI_RAW }.mul_spec(one.sub_spec(cos_max));
    one.div_spec(solid_angle)
}

/// The first solution is not beyond the second.
pub proof fn lemma_roots_ordered(center: Point3, radius: Fixed, r: Ray)
    ensures
        ball_roots_spec(center, radius, r) matches Some(roots) ==> roots.0.raw <= roots.1.raw,
{
    let stretch = Fixed { raw: STRETCH_RAW };
    if r.dir.length_sqr_spec().raw > 0 {
        lemma_plain_roots_ordered(center, radius, r.orig, r.dir);
    } else {
        lemma_plain_roots_ordered(center, radius, r.orig, r.dir.scale_spec(stretch));
        match plain_roots_spec(center, radius, r.orig, r.dir.scale_spec(stretch)) {
            Some(roots) => {
                lemma_mul_ordered(roots.0, roots.1, stretch);
            },
            None => {},
        }
    }
}

/// A square is not negative, and the square of a number that is not zero
/// is positive once the number is stretched, where it rounded to zero
/// before.
pub proof fn lemma_stretched_square(c: Fixed)
    ensures
        c.mul_spec(c).raw >= 0,
        c.mul_spec(Fixed { raw: STRETCH_RAW }).mul_spec(c.mul_spec(Fixed { raw: STRETCH_RAW })).raw
            >= 0,
        c.raw != 0 && c.mul_spec(c).raw == 0 ==> c.mul_spec(Fixed { raw: STRETCH_RAW }).mul_spec(
            c.mul_spec(Fixed { raw: STRETCH_RAW }),
        ).raw > 0,
{
    let x = c.raw as int;
    let stretched = c.mul_spec(Fixed { raw: STRETCH_RAW });
    let y = stretched.raw as int;
    assert(x * x >= 0 && y * y >= 0) by (nonlinear_arith);
    if x != 0 && c.mul_spec(c).raw == 0 {
        assert(-1000 < x < 1000) by (nonlinear_arith)
            requires
                x * x < 1_000_000,
        ;
        if x >= 0 {
            assert((x * 1_000_000_000_000) / 1_000_000 == x * 1_000_000);
        } else {
            assert(((-x) * 1_000_000_000_000) / 1_000_000 == (-x) * 1_000_000);
            assert(-(x * 1_000_000_000_000) == (-x) * 1_000_000_000_000);
        }
        assert(y == x * 1_000_000);
        assert(y * y >= 1_000_000_000_000) by (nonlinear_arith)
            requires
                y == x * 1_000_000,
                x != 0,
        ;
    }
}

/// Only a ray without direction has no length left after stretching.
pub proof fn lemma_direction_has_length(dir: Vec3)
    requires
        dir != Vec3::zero_spec(),
    ensures
        dir.length_sqr_spec().raw > 0 || dir.scale_spec(
            Fixed { raw: STRETCH_RAW },
        ).length_sqr_spec().raw > 0,
{
    lemma_stretched_square(dir.x);
    lemma_stretched_square(dir.y);
    lemma_stretched_square(dir.z);
}

/// The first solution for a direction as it stands is not beyond the
/// second.
pub proof fn lemma_plain_roots_ordered(center: Point3, radius: Fixed, orig: Point3, dir: Vec3)
    ensures
        plain_roots_spec(center, radius, orig, dir) matches Some(roots) ==> roots.0.raw
            <= roots.1.raw,
{
    let oc = orig.sub_spec(center);
    let a = dir.length_sqr_spec();
    let half_b = oc.dot_spec(dir);
    let c = oc.length_sqr_spec().sub_spec(radius.mul_spec(radius));
    let discriminant = half_b.mul_spec(half_b).sub_spec(a.mul_spec(c));
    if plain_roots_spec(center, radius, orig, dir) is Some {
        let sqrtd = discriminant.sqrt_spec();
        lemma_sqrt_nonneg(discriminant);
        lemma_div_monotone(
            half_b.neg_spec().sub_spec(sqrtd),
            half_b.neg_spec().add_spec(sqrtd),
            a,
        );
    }
}

/// A range with a nearer end finds the same intersection where that lies
/// within it, and nothing else.
pub proof fn lemma_ball_narrows(
    center: Point3,
    radius: Fixed,
    mat: &Material,
    r: Ray,
    t_min: Fixed,
    t_max: Fixed,
    nearer_end: Fixed,
)
    requires
        nearer_end.raw <= t_max.raw,
    ensures
        ball_hit_spec(center, radius, mat, r, t_min, nearer_end) == (match ball_hit_spec(
            center,
            radius,
            mat,
            r,
            t_min,
            t_max,
        ) {
            Some(rec) => if rec.t.raw < nearer_end.raw {
                Some(rec)
            } else {
                None
            },
            None => None,
        }),
        ball_hit_spec(center, radius, mat, r, t_min, t_max) matches Some(rec) ==> in_range(
            rec.t,
            t_min,
            t_max,
        ),
{
    reveal(ball_hit_spec);
    lemma_roots_ordered(center, radius, r);
}

/// A sphere is hit at the nearest of its intersections within the range:
/// the parameter found is one of the two solutions, and the other one, where
/// it lies within the range too, is not nearer.
pub proof fn lemma_ball_hit_is_nearest(
    center: Point3,
    radius: Fixed,
    mat: &Material,
    r: Ray,
    t_min: Fixed,
    t_max: Fixed,
)
    ensures
        match ball_hit_spec(center, radius, mat, r, t_min, t_max) {
            Some(rec) => ball_roots_spec(center, radius, r) matches Some(roots) && {
                &&& rec.t == roots.0 || rec.t == roots.1
                &&& in_range(roots.0, t_min, t_max) ==> rec.t.raw <= roots.0.raw
                &&& in_range(roots.1, t_min, t_max) ==> rec.t.raw <= roots.1.raw
            },
            None => ball_roots_spec(center, radius, r) matches Some(roots) ==> !in_range(
                roots.0,
                t_min,
                t_max,
            ) && !in_range(roots.1, t_min, t_max),
        },
{
    reveal(ball_hit_spec);
    lemma_roots_ordered(center, radius, r);
}

/// What is hit carries the sphere's material and lies on the ray.
pub proof fn lemma_ball_hit_record(
    center: Point3,
    radius: Fixed,
    mat: &Material,
    r: Ray,
    t_min: Fixed,
    t_max: Fixed,
)
    ensures
        ball_hit_spec(center, radius, mat, r, t_min, t_max) matches Some(rec) ==> {
            &&& rec.mat_ptr == mat
            &&& in_range(rec.t, t_min, t_max)
            &&& rec.p == r.at_spec(rec.t)
            &&& ball_root_spec(center, radius, r, t_min, t_max) == Some(rec.t)
            &&& rec == ball_record_spec(center, radius, mat, r, rec.t)
        },
        ball_hit_spec(center, radius, mat, r, t_min, t_max) is None <==> ball_root_spec(
            center,
            radius,
            r,
            t_min,
            t_max,
        ) is None,
{
    reveal(ball_hit_spec);
}

/// The surface coordinates of a point of the unit sphere: `u` in `[0, 1)`
/// and `v` in `[0, 1]`.
pub fn sphere_uv(p: Point3) -> (uv: (Fixed, Fixed))
    ensures
        uv == sphere_uv_spec(p),
        0 <= uv.0.raw < SCALE,
        0 <= uv.1.raw <= SCALE,
        p.z.raw == 0 && p.x.raw < 0 ==> uv.0.raw == 0,
{
    proof {
        lemma_sphere_uv_range(p);
    }
    let theta = acos(p.y.neg());
    let phi = turn(p.z.neg(), p.x);
    (phi.div(Fixed { raw: FULL_TURN_RAW }), theta.div(Fixed { raw: PI_RAW }))
}

/// The two parameters at which a ray with the direction as it stands meets
/// the sphere, the smaller first.
pub fn plain_roots(center: Point3, radius: Fixed, orig: Point3, dir: Vec3) -> (out: Option<
    (Fixed, Fixed),
>)
    ensures
        out == plain_roots_spec(center, radius, orig, dir),
{
    let oc = orig.sub(center);
    let a = dir.length_sqr();
    let half_b = oc.dot(dir);
    let c = oc.length_sqr().sub(radius.mul(radius));
    let discriminant = half_b.mul(half_b).sub(a.mul(c));
    if a.raw <= 0 || radius.raw <= 0 || discriminant.raw < 0 {
        return None;
    }
    let sqrtd = discriminant.sqrt();
    Some((half_b.neg().sub(sqrtd).div(a), half_b.neg().add(sqrtd).div(a)))
}

/// The two parameters at which the ray meets the sphere, the smaller
/// first.
pub fn ball_roots(center: Point3, radius: Fixed, r: Ray) -> (out: Option<(Fixed, Fixed)>)
    ensures
        out == ball_roots_spec(center, radius, r),
{
    if r.dir.length_sqr().raw > 0 {
        return plain_roots(center, radius, r.orig, r.dir);
    }
    let stretch = Fixed { raw: STRETCH_RAW };
    match plain_roots(center, radius, r.orig, r.dir.scale(stretch)) {
        Some(roots) => Some((roots.0.mul(stretch), roots.1.mul(stretch))),
        None => None,
    }
}

/// Intersects a ray with the sphere of the given centre, radius and
/// material.
pub fn ball_hit<'a>(
    center: Point3,
    radius: Fixed,
    mat: &'a Material,
    r: Ray,
    t_min: Fixed,
    t_max: Fixed,
) -> (out: Option<HitRecord<'a>>)
    ensures
        out == ball_hit_spec(center, radius, mat, r, t_min, t_max),
        out matches Some(rec) ==> in_range(rec.t, t_min, t_max) && rec.p == r.at_spec(rec.t),
{
    proof {
        reveal(ball_hit_spec);
    }
    let (near, far) = match ball_roots(center, radius, r) {
        None => {
            return None;
        },
        Some(roots) => roots,
    };
    let mut root = near;
    if !(t_min.raw < root.raw && root.raw < t_max.raw) {
        root = far;
        if !(t_min.raw < root.raw && root.raw < t_max.raw) {
            return None;
        }
    }
    let p = r.at(root);
    let outward_normal = p.sub(center).shrink(radius);
    let (u, v) = sphere_uv(outward_normal);
    let mut rec = HitRecord::new(p, outward_normal, root, u, v, false, mat);
    rec.set_face_normal(r, outward_normal);
    Some(rec)
}

/// The box around a sphere.
pub fn ball_box(center: Point3, radius: Fixed) -> (b: AABB)
    ensures
        b == ball_box_spec(center, radius),
        radius.raw >= 0 ==> b.well_formed(),
{
    let corner = Vec3::new(radius, radius, radius);
    AABB::new(center.sub(corner), center.add(corner))
}

/// The density of a direction drawn uniformly from the cone toward a
/// sphere.
pub fn cone_density(radius: Fixed, distance_sqr: Fixed) -> (d: Fixed)
    ensures
        d == cone_density_spec(radius, distance_sqr),
{
    let one = Fixed::one();
    let cos_max = one.sub(radius.mul(radius).div(distance_sqr)).sqrt();
    let solid_angle = Fixed { raw: TWO_PI_RAW }.mul(one.sub(cos_max));
    one.div(solid_angle)
}

impl Sphere {
    /// The nearest intersection of the ray with the sphere within the
    /// range.
    pub open spec fn hit_spec(&self, r: Ray, t_min: Fixed, t_max: Fixed) -> Option<HitRecord> {
        ball_hit_spec(self.center, self.radius, &*self.mat_ptr, r, t_min, t_max)
    }

    /// The box around the sphere.
    pub open spec fn bounding_box_spec(&self) -> AABB {
        ball_box_spec(self.center, self.radius)
    }

    /// The density with which [`Sphere::random`] draws the direction `v`
    /// from the point `o`: that of the cone under which the sphere is
    /// seen where a ray from `o` along `v` hits the sphere, else zero.
    pub open spec fn pdf_value_spec(&self, o: Point3, v: Vec3) -> Fixed {
        let r = Ray { orig: o, dir: v, tm: Fixed::zero_spec() };
        if self.hit_spec(r, Fixed { raw: SHADOW_BIAS_RAW }, Fixed { raw: RAW_MAX }) is Some {
            cone_density_spec(self.radius, self.center.sub_spec(o).length_sqr_spec())
        } else {
            Fixed::zero_spec()
        }
    }

    /// A direction from `o` toward the sphere, read from the stream.
    pub open spec fn random_spec(&self, o: Point3, s: Seq<u32>, pos: nat) -> (Vec3, nat) {
        let direction = self.center.sub_spec(o);
        let (d, next) = to_sphere_spec(self.radius, direction.length_sqr_spec(), s, pos);
        (Onb::build_from_w_spec(direction).local_vec_spec(d), next)
    }

    /// A sphere of the given centre, radius and material.
    pub fn new(center: Point3, radius: Fixed, mat_ptr: Arc<Material>) -> (s: Sphere)
        ensures
            s.center == center,
            s.radius == radius,
            s.mat_ptr == mat_ptr,
    {
        Sphere { center, radius, mat_ptr }
    }

    /// The surface coordinates of the point `p` of the unit sphere.
    pub fn get_sphere_uv(&self, p: Point3) -> (uv: (Fixed, Fixed))
        ensures
            uv == sphere_uv_spec(p),
            0 <= uv.0.raw < SCALE,
            0 <= uv.1.raw <= SCALE,
            p.z.raw == 0 && p.x.raw < 0 ==> uv.0.raw == 0,
    {
        sphere_uv(p)
    }

    /// The nearest intersection of the ray with the sphere, at a parameter
    /// strictly between `t_min` and `t_max`.
    pub fn hit(&self, r: Ray, t_min: Fixed, t_max: Fixed) -> (out: Option<HitRecord<'_>>)
        ensures
            out == self.hit_spec(r, t_min, t_max),
            out matches Some(rec) ==> in_range(rec.t, t_min, t_max) && rec.p == r.at_spec(rec.t),
    {
        ball_hit(self.center, self.radius, &*self.mat_ptr, r, t_min, t_max)
    }

    /// The box around the sphere, at any time.
    pub fn bounding_box(&self, time0: Fixed, time1: Fixed) -> (out: Option<AABB>)
        ensures
            out == Some(self.bounding_box_spec()),
            self.radius.raw >= 0 ==> self.bounding_box_spec().well_formed(),
    {
        Some(ball_box(self.center, self.radius))
    }

    /// The density with which [`Sphere::random`] draws the direction `v`
    /// from the point `o`.
    pub fn pdf_value(&self, o: Point3, v: Vec3) -> (pdf: Fixed)
        ensures
            pdf == self.pdf_value_spec(o, v),
    {
        let r = Ray::new(o, v, Fixed::zero());
        match self.hit(r, Fixed { raw: SHADOW_BIAS_RAW }, Fixed { raw: RAW_MAX }) {
            Some(_) => cone_density(self.radius, self.center.sub(o).length_sqr()),
            None => Fixed::zero(),
        }
    }

    /// A random direction from `o`, uniform over the cone under which the
    /// sphere is seen.
    pub fn random(&self, o: Point3, rng: &mut RandomSource) -> (d: Vec3)
        ensures
            continues(final(rng).history(), old(rng).history()),
            forall|s: Seq<u32>| #[trigger]
                continues(s, final(rng).history()) ==> self.random_spec(
                    o,
                    s,
                    old(rng).history().len(),
                ) == (d, final(rng).history().len()),
    {
        let direction = self.center.sub(o);
        let dis_sqr = direction.length_sqr();
        let uvw = Onb::build_from_w(direction);
        let local = random_to_sphere(self.radius, dis_sqr, rng);
        uvw.local_vec(local)
    }
}

/// One coordinate of a point that glides in a straight line: `from` plus
/// `way` times the fraction `(time - start) / span`. The definition is
/// hidden from proofs that do not reveal it.
#[verifier::opaque]
pub open spec fn glide_spec(from: Fixed, way: Fixed, start: Fixed, span: Fixed, time: Fixed) -> Fixed {
    from.add_spec(way.mul_spec(time.sub_spec(start).div_spec(span)))
}

/// A gliding point moves in one direction only: between two times its
/// coordinate lies between its coordinates at those times.
pub proof fn lemma_glide_between(
    from: Fixed,
    way: Fixed,
    start: Fixed,
    span: Fixed,
    earlier: Fixed,
    time: Fixed,
    later: Fixed,
)
    requires
        earlier.raw <= time.raw <= later.raw,
    ensures
        glide_spec(from, way, start, span, earlier).min_spec(
            glide_spec(from, way, start, span, later),
        ).raw <= glide_spec(from, way, start, span, time).raw,
        glide_spec(from, way, start, span, time).raw <= glide_spec(
            from,
            way,
            start,
            span,
            earlier,
        ).max_spec(glide_spec(from, way, start, span, later)).raw,
{
    reveal(glide_spec);
    let fa = earlier.sub_spec(start).div_spec(span);
    let ft = time.sub_spec(start).div_spec(span);
    let fb = later.sub_spec(start).div_spec(span);
    lemma_div_ordered(earlier.sub_spec(start), time.sub_spec(start), span);
    lemma_div_ordered(time.sub_spec(start), later.sub_spec(start), span);
    if span.raw >= 0 {
        lemma_mul_ordered(fa, ft, way);
        lemma_mul_ordered(ft, fb, way);
    } else {
        lemma_mul_ordered(ft, fa, way);
        lemma_mul_ordered(fb, ft, way);
    }
}

/// The box around a sphere whose centre lies, on every axis, between two
/// other centres lies within the box around the spheres at those centres.
pub proof fn lemma_ball_box_between(first: Point3, middle: Point3, last: Point3, radius: Fixed)
    requires
        first.x.min_spec(last.x).raw <= middle.x.raw <= first.x.max_spec(last.x).raw,
        first.y.min_spec(last.y).raw <= middle.y.raw <= first.y.max_spec(last.y).raw,
        first.z.min_spec(last.z).raw <= middle.z.raw <= first.z.max_spec(last.z).raw,
    ensures
        AABB::surrounding_box_spec(
            ball_box_spec(first, radius),
            ball_box_spec(last, radius),
        ).encloses(ball_box_spec(middle, radius)),
{
}

impl MovingSphere {
    /// The centre glides along each axis.
    pub proof fn lemma_center_glides(&self, time: Fixed)
        ensures
            self.center_spec(time) == (Vec3 {
                x: glide_spec(
                    self.center0.x,
                    self.center1.sub_spec(self.center0).x,
                    self.time0,
                    self.time1.sub_spec(self.time0),
                    time,
                ),
                y: glide_spec(
                    self.center0.y,
                    self.center1.sub_spec(self.center0).y,
                    self.time0,
                    self.time1.sub_spec(self.time0),
                    time,
                ),
                z: glide_spec(
                    self.center0.z,
                    self.center1.sub_spec(self.center0).z,
                    self.time0,
                    self.time1.sub_spec(self.time0),
                    time,
                ),
            }),
    {
        reveal(glide_spec);
    }

    /// The box around the sphere over a time interval holds the sphere at
    /// every time of the interval.
    pub proof fn lemma_box_holds_between(&self, time0: Fixed, time1: Fixed, time: Fixed)
        requires
            time0.raw <= time.raw <= time1.raw,
        ensures
            self.bounding_box_spec(time0, time1).encloses(
                ball_box_spec(self.center_spec(time), self.radius),
            ),
    {
        let way = self.center1.sub_spec(self.center0);
        let span = self.time1.sub_spec(self.time0);
        lemma_glide_between(self.center0.x, way.x, self.time0, span, time0, time, time1);
        lemma_glide_between(self.center0.y, way.y, self.time0, span, time0, time, time1);
        lemma_glide_between(self.center0.z, way.z, self.time0, span, time0, time, time1);
        self.lemma_center_glides(time0);
        self.lemma_center_glides(time);
        self.lemma_center_glides(time1);
        lemma_ball_box_between(
            self.center_spec(time0),
            self.center_spec(time),
            self.center_spec(time1),
            self.radius,
        );
    }

    /// Where the centre is at `time`:
    /// `center0 + (center1 - center0) (time - time0) / (time1 - time0)`.
    pub open spec fn center_spec(&self, time: Fixed) -> Point3 {
        self.center0.add_spec(
            self.center1.sub_spec(self.center0).scale_spec(
                time.sub_spec(self.time0).div_spec(self.time1.sub_spec(self.time0)),
            ),
        )
    }

    /// The nearest intersection of the ray with the sphere, where the
    /// sphere is at the ray's time, within the range.
    pub open spec fn hit_spec(&self, r: Ray, t_min: Fixed, t_max: Fixed) -> Option<HitRecord> {
        ball_hit_spec(self.center_spec(r.tm), self.radius, &*self.mat_ptr, r, t_min, t_max)
    }

    /// The box around the sphere at `time0` and at `time1`.
    pub open spec fn bounding_box_spec(&self, time0: Fixed, time1: Fixed) -> AABB {
        AABB::surrounding_box_spec(
            ball_box_spec(self.center_spec(time0), self.radius),
            ball_box_spec(self.center_spec(time1), self.radius),
        )
    }

    /// A sphere that moves from `center0` at `time0` to `center1` at
    /// `time1`.
    pub fn new(
        center0: Point3,
        center1: Point3,
        time0: Fixed,
        time1: Fixed,
        radius: Fixed,
        mat_ptr: Arc<Material>,
    ) -> (s: MovingSphere)
        ensures
            s.center0 == center0,
            s.center1 == center1,
            s.time0 == time0,
            s.time1 == time1,
            s.radius == radius,
            s.mat_ptr == mat_ptr,
    {
        MovingSphere { center0, center1, time0, time1, radius, mat_ptr }
    }

    /// Where the centre is at `time`.
    pub fn center(&self, time: Fixed) -> (c: Point3)
        ensures
            c == self.center_spec(time),
    {
        self.center0.add(
            self.center1.sub(self.center0).scale(
                time.sub(self.time0).div(self.time1.sub(self.time0)),
            ),
        )
    }

    /// The surface coordinates of the point `p` of the unit sphere.
    pub fn get_sphere_uv(&self, p: Point3) -> (uv: (Fixed, Fixed))
        ensures
            uv == sphere_uv_spec(p),
            0 <= uv.0.raw < SCALE,
            0 <= uv.1.raw <= SCALE,
            p.z.raw == 0 && p.x.raw < 0 ==> uv.0.raw == 0,
    {
        sphere_uv(p)
    }

    /// The nearest intersection of the ray with the sphere where it is at the
    /// ray's time, at a parameter strictly between `t_min` and `t_max`.
    pub fn hit(&self, r: Ray, t_min: Fixed, t_max: Fixed) -> (out: Option<HitRecord<'_>>)
        ensures
            out == self.hit_spec(r, t_min, t_max),
            out matches Some(rec) ==> in_range(rec.t, t_min, t_max) && rec.p == r.at_spec(rec.t),
    {
        ball_hit(self.center(r.tm), self.radius, &*self.mat_ptr, r, t_min, t_max)
    }

    /// The box around the sphere at `time0` and at `time1`.
    pub fn bounding_box(&self, time0: Fixed, time1: Fixed) -> (out: Option<AABB>)
        ensures
            out == Some(self.bounding_box_spec(time0, time1)),
            self.radius.raw >= 0 ==> self.bounding_box_spec(time0, time1).well_formed(),
    {
        let box0 = ball_box(self.center(time0), self.radius);
        let box1 = ball_box(self.center(time1), self.radius);
        Some(AABB::surrounding_box(box0, box1))
    }
}

} // verus!
