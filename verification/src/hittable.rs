//! Things a ray can hit, and what an intersection test reports.
use vstd::prelude::*;
use crate::aabb::AABB;
use crate::bvh::BVHNode;
use crate::fixed::{sat, Fixed, SCALE};
use crate::material::Material;
use crate::random::{continues, lemma_continues_trans, unit_of, word_at, RandomSource};
use crate::ray::Ray;
use crate::sphere::{
    in_range, lemma_ball_hit_record, lemma_ball_narrows, MovingSphere, Sphere,
};
use crate::vec3::{Point3, Vec3};

verus! {

/// One intersection of a ray with a surface.
pub struct HitRecord<'a> {
    /// Where the ray meets the surface.
    pub p: Point3,
    /// The surface normal at `p`, turned against the ray.
    pub normal: Vec3,
    /// The ray parameter of `p`.
    pub t: Fixed,
    /// First surface coordinate of `p`.
    pub u: Fixed,
    /// Second surface coordinate of `p`.
    pub v: Fixed,
    /// Whether the ray arrives from outside the surface.
    pub front_face: bool,
    /// The material of the surface that was hit.
    pub mat_ptr: &'a Material,
}

/// Whether a ray with direction `dir` meets a surface with outward normal
/// `outward` from outside.
pub open spec fn faces_front(dir: Vec3, outward: Vec3) -> bool {
    dir.dot_spec(outward).raw < 0
}

/// The outward normal, turned against a ray with direction `dir`.
pub open spec fn facing_normal(dir: Vec3, outward: Vec3) -> Vec3 {
    if faces_front(dir, outward) {
        outward
    } else {
        outward.neg_spec()
    }
}

impl<'a> HitRecord<'a> {
    /// A record of the given parts.
    pub fn new(
        p: Point3,
        normal: Vec3,
        t: Fixed,
        u: Fixed,
        v: Fixed,
        front_face: bool,
        mat_ptr: &'a Material,
    ) -> (rec: HitRecord<'a>)
        ensures
            rec == (HitRecord { p, normal, t, u, v, front_face, mat_ptr }),
    {
        HitRecord { p, normal, t, u, v, front_face, mat_ptr }
    }

    /// Records on which side the ray `r` arrives and turns the normal
    /// against it.
    pub fn set_face_normal(&mut self, r: Ray, outward_normal: Vec3)
        ensures
            final(self).front_face == faces_front(r.dir, outward_normal),
            final(self).normal == facing_normal(r.dir, outward_normal),
            final(self).p == old(self).p,
            final(self).t == old(self).t,
            final(self).u == old(self).u,
            final(self).v == old(self).v,
            final(self).mat_ptr == old(self).mat_ptr,
    {
        self.front_face = r.dir.dot(outward_normal).raw < 0;
        self.normal = if self.front_face {
            outward_normal
        } else {
            outward_normal.neg()
        };
    }
}

/// A thing a ray can hit: a primitive, or a container of such things.
pub enum Hittable {
    Sphere(Sphere),
    MovingSphere(MovingSphere),
    List(HittableList),
    Node(BVHNode),
}

/// A collection of things, tested one after the other.
pub struct HittableList {
    pub objects: Vec<Hittable>,
}

/// The upper end of the range that is left to search once `found` is known:
/// the parameter of the hit found, or `t_max` where nothing was found.
pub open spec fn closest_so_far(found: Option<HitRecord>, t_max: Fixed) -> Fixed {
    match found {
        Some(rec) => rec.t,
        None => t_max,
    }
}

/// The later of two findings where it found something, else the earlier.
pub open spec fn nearer<'a>(earlier: Option<HitRecord<'a>>, later: Option<HitRecord<'a>>) -> Option<
    HitRecord<'a>,
> {
    match later {
        Some(rec) => Some(rec),
        None => earlier,
    }
}

/// A count of tests, held at the largest value the counter can take.
pub open spec fn capped(n: int) -> u64 {
    if n > u64::MAX {
        u64::MAX
    } else {
        n as u64
    }
}

/// Counts one more test.
pub fn count_test(tests: &mut u64)
    ensures
        *final(tests) == capped(*old(tests) + 1),
{
    if *tests < u64::MAX {
        *tests = *tests + 1;
    }
}

/// The number of things in a collection, as a fixed-point number.
pub open spec fn count_spec(n: nat) -> Fixed {
    Fixed { raw: sat(n * SCALE) as i64 }
}

/// The index that a number `u` of `[0, 1)` picks among `n` things:
/// `u n`, rounded down.
pub open spec fn pick_spec(u: Fixed, n: nat) -> int {
    (u.raw * n) / (SCALE as int)
}

/// The number of things in a collection, as a fixed-point number.
pub fn count(n: usize) -> (c: Fixed)
    ensures
        c == count_spec(n as nat),
{
    let wide: u128 = (n as u128) * 1_000_000;
    if wide > 0x7fff_ffff_ffff_ffff {
        Fixed { raw: 0x7fff_ffff_ffff_ffff }
    } else {
        Fixed { raw: wide as i64 }
    }
}

/// The index that a number of `[0, 1)` picks among `n` things.
pub fn pick(u: Fixed, n: usize) -> (i: usize)
    requires
        0 <= u.raw < SCALE,
        n > 0,
    ensures
        i == pick_spec(u, n as nat),
        i < n,
{
    let a: u128 = u.raw as u128;
    let b: u128 = n as u128;
    assert(a * b <= 999_999 * b && (a * b) / 1_000_000 < b) by (nonlinear_arith)
        requires
            0 <= a <= 999_999,
            0 < b,
    ;
    ((a * b) / 1_000_000) as usize
}

impl Hittable {
    /// The nearest intersection of the ray with this thing at a parameter
    /// strictly between `t_min` and `t_max`.
    pub open spec fn hit_spec(&self, r: Ray, t_min: Fixed, t_max: Fixed) -> Option<HitRecord>
        decreases self,
    {
        match self {
            Hittable::Sphere(s) => s.hit_spec(r, t_min, t_max),
            Hittable::MovingSphere(m) => m.hit_spec(r, t_min, t_max),
            Hittable::List(l) => HittableList::hit_first_spec(
                l.objects@,
                l.objects@.len() as int,
                r,
                t_min,
                t_max,
            ),
            Hittable::Node(n) => if n.bbox.hit_spec(r, t_min, t_max) {
                let in_left = n.left.hit_spec(r, t_min, t_max);
                nearer(in_left, n.right.hit_spec(r, t_min, closest_so_far(in_left, t_max)))
            } else {
                None
            },
        }
    }

    /// How many primitives the search for the nearest intersection tests.
    pub open spec fn tests_spec(&self, r: Ray, t_min: Fixed, t_max: Fixed) -> nat
        decreases self,
    {
        match self {
            Hittable::Sphere(s) => 1,
            Hittable::MovingSphere(m) => 1,
            Hittable::List(l) => HittableList::tests_first_spec(
                l.objects@,
                l.objects@.len() as int,
                r,
                t_min,
                t_max,
            ),
            Hittable::Node(n) => if n.bbox.hit_spec(r, t_min, t_max) {
                let in_left = n.left.hit_spec(r, t_min, t_max);
                n.left.tests_spec(r, t_min, t_max) + n.right.tests_spec(
                    r,
                    t_min,
                    closest_so_far(in_left, t_max),
                )
            } else {
                0
            },
        }
    }

    /// A box around this thing over the time interval; nothing for an
    /// empty list.
    pub open spec fn bounding_box_spec(&self, time0: Fixed, time1: Fixed) -> Option<AABB>
        decreases self,
    {
        match self {
            Hittable::Sphere(s) => Some(s.bounding_box_spec()),
            Hittable::MovingSphere(m) => Some(m.bounding_box_spec(time0, time1)),
            Hittable::List(l) => HittableList::box_first_spec(
                l.objects@,
                l.objects@.len() as int,
                time0,
                time1,
            ),
            Hittable::Node(n) => Some(n.bbox),
        }
    }

    /// This thing is a sphere, at rest or in motion.
    pub open spec fn is_ball(&self) -> bool {
        self is Sphere || self is MovingSphere
    }

    /// A sphere searched in a range with a nearer end gives the same
    /// intersection where that lies within the range, and nothing else.
    pub proof fn lemma_ball_hit_narrows(&self, r: Ray, t_min: Fixed, t_max: Fixed, nearer_end: Fixed)
        requires
            self.is_ball(),
            nearer_end.raw <= t_max.raw,
        ensures
            self.hit_spec(r, t_min, nearer_end) == (match self.hit_spec(r, t_min, t_max) {
                Some(rec) => if rec.t.raw < nearer_end.raw {
                    Some(rec)
                } else {
                    None
                },
                None => None,
            }),
            self.hit_spec(r, t_min, t_max) matches Some(rec) ==> in_range(rec.t, t_min, t_max),
    {
        match self {
            Hittable::Sphere(s) => {
                lemma_ball_narrows(s.center, s.radius, &*s.mat_ptr, r, t_min, t_max, nearer_end);
            },
            Hittable::MovingSphere(m) => {
                lemma_ball_narrows(
                    m.center_spec(r.tm),
                    m.radius,
                    &*m.mat_ptr,
                    r,
                    t_min,
                    t_max,
                    nearer_end,
                );
            },
            _ => {},
        }
    }

    /// What is hit lies on the ray, at a parameter strictly within the
    /// range.
    pub proof fn lemma_hit_on_ray(&self, r: Ray, t_min: Fixed, t_max: Fixed)
        ensures
            self.hit_spec(r, t_min, t_max) matches Some(rec) ==> in_range(rec.t, t_min, t_max)
                && rec.p == r.at_spec(rec.t),
        decreases self, 0int,
    {
        match self {
            Hittable::Sphere(s) => {
                lemma_ball_hit_record(s.center, s.radius, &*s.mat_ptr, r, t_min, t_max);
            },
            Hittable::MovingSphere(m) => {
                lemma_ball_hit_record(m.center_spec(r.tm), m.radius, &*m.mat_ptr, r, t_min, t_max);
            },
            Hittable::List(l) => {
                Self::lemma_hit_first_on_ray(l.objects@, l.objects@.len() as int, r, t_min, t_max);
            },
            Hittable::Node(n) => {
                let in_left = n.left.hit_spec(r, t_min, t_max);
                n.left.lemma_hit_on_ray(r, t_min, t_max);
                n.right.lemma_hit_on_ray(r, t_min, closest_so_far(in_left, t_max));
            },
        }
    }

    /// What is hit among the first `n` things lies on the ray, at a
    /// parameter strictly within the range.
    pub proof fn lemma_hit_first_on_ray(
        objects: Seq<Hittable>,
        n: int,
        r: Ray,
        t_min: Fixed,
        t_max: Fixed,
    )
        ensures
            HittableList::hit_first_spec(objects, n, r, t_min, t_max) matches Some(rec)
                ==> in_range(rec.t, t_min, t_max) && rec.p == r.at_spec(rec.t),
        decreases objects, n,
    {
        if 0 < n <= objects.len() {
            let before = HittableList::hit_first_spec(objects, n - 1, r, t_min, t_max);
            Self::lemma_hit_first_on_ray(objects, n - 1, r, t_min, t_max);
            objects[n - 1].lemma_hit_on_ray(r, t_min, closest_so_far(before, t_max));
        }
    }

    /// Every material in this thing passes the test `good`.
    pub open spec fn every_material(&self, good: spec_fn(Material) -> bool) -> bool
        decreases self,
    {
        match self {
            Hittable::Sphere(s) => good(*s.mat_ptr),
            Hittable::MovingSphere(m) => good(*m.mat_ptr),
            Hittable::List(l) => forall|i: int|
                0 <= i < l.objects@.len() ==> (#[trigger] l.objects@[i]).every_material(good),
            Hittable::Node(n) => n.left.every_material(good) && n.right.every_material(good),
        }
    }

    /// What a ray hits carries a material of the thing: where every
    /// material of the thing passes a test, so does the material of what
    /// is hit.
    pub proof fn lemma_hit_material(
        &self,
        good: spec_fn(Material) -> bool,
        r: Ray,
        t_min: Fixed,
        t_max: Fixed,
    )
        requires
            self.every_material(good),
        ensures
            self.hit_spec(r, t_min, t_max) matches Some(rec) ==> good(*rec.mat_ptr),
        decreases self, 0int,
    {
        match self {
            Hittable::Sphere(s) => {
                lemma_ball_hit_record(s.center, s.radius, &*s.mat_ptr, r, t_min, t_max);
            },
            Hittable::MovingSphere(m) => {
                lemma_ball_hit_record(m.center_spec(r.tm), m.radius, &*m.mat_ptr, r, t_min, t_max);
            },
            Hittable::List(l) => {
                Self::lemma_hit_first_material(
                    l.objects@,
                    l.objects@.len() as int,
                    good,
                    r,
                    t_min,
                    t_max,
                );
            },
            Hittable::Node(n) => {
                n.left.lemma_hit_material(good, r, t_min, t_max);
                n.right.lemma_hit_material(
                    good,
                    r,
                    t_min,
                    closest_so_far(n.left.hit_spec(r, t_min, t_max), t_max),
                );
            },
        }
    }

    /// What a ray hits among the first `n` things carries a material of one
    /// of them.
    pub proof fn lemma_hit_first_material(
        objects: Seq<Hittable>,
        n: int,
        good: spec_fn(Material) -> bool,
        r: Ray,
        t_min: Fixed,
        t_max: Fixed,
    )
        requires
            forall|i: int|
                0 <= i < objects.len() ==> (#[trigger] objects[i]).every_material(good),
        ensures
            HittableList::hit_first_spec(objects, n, r, t_min, t_max) matches Some(rec) ==> good(
                *rec.mat_ptr,
            ),
        decreases objects, n,
    {
        if 0 < n <= objects.len() {
            Self::lemma_hit_first_material(objects, n - 1, good, r, t_min, t_max);
            objects[n - 1].lemma_hit_material(
                good,
                r,
                t_min,
                closest_so_far(HittableList::hit_first_spec(objects, n - 1, r, t_min, t_max), t_max),
            );
        }
    }

    /// The density with which [`Hittable::random`] draws the direction
    /// `v` from the point `o`: that of the sphere for a sphere at rest,
    /// the mean over the members for a list, and zero for the things
    /// that are never sampled as lights.
    pub open spec fn pdf_value_spec(&self, o: Point3, v: Vec3) -> Fixed
        decreases self,
    {
        match self {
            Hittable::Sphere(s) => s.pdf_value_spec(o, v),
            Hittable::List(l) => HittableList::pdf_sum_spec(
                l.objects@,
                l.objects@.len() as int,
                o,
                v,
            ).div_spec(count_spec(l.objects@.len())),
            _ => Fixed::zero_spec(),
        }
    }

    /// A direction from `o` toward this thing, read from the stream: toward
    /// the sphere for a sphere at rest, toward a member picked by one
    /// number of `[0, 1)` for a list, and the `x` axis for an empty list
    /// and for the things that are never sampled as lights.
    pub open spec fn random_spec(&self, o: Point3, s: Seq<u32>, pos: nat) -> (Vec3, nat)
        decreases self,
    {
        match self {
            Hittable::Sphere(sp) => sp.random_spec(o, s, pos),
            Hittable::List(l) => if l.objects@.len() == 0 {
                (Vec3::from_ints_spec(1, 0, 0), pos)
            } else {
                let i = pick_spec(unit_of(word_at(s, pos)), l.objects@.len());
                if 0 <= i < l.objects@.len() {
                    l.objects@[i].random_spec(o, s, pos + 1)
                } else {
                    (Vec3::from_ints_spec(1, 0, 0), pos + 1)
                }
            },
            _ => (Vec3::from_ints_spec(1, 0, 0), pos),
        }
    }

    /// The density with which [`Hittable::random`] draws the direction `v`
    /// from the point `o`.
    pub fn pdf_value(&self, o: Point3, v: Vec3) -> (pdf: Fixed)
        ensures
            pdf == self.pdf_value_spec(o, v),
        decreases self,
    {
        match self {
            Hittable::Sphere(s) => s.pdf_value(o, v),
            Hittable::List(l) => l.pdf_value(o, v),
            _ => Fixed::zero(),
        }
    }

    /// A random direction from `o` toward this thing.
    pub fn random(&self, o: Point3, rng: &mut RandomSource) -> (d: Vec3)
        ensures
            continues(final(rng).history(), old(rng).history()),
            forall|s: Seq<u32>| #[trigger]
                continues(s, final(rng).history()) ==> self.random_spec(
                    o,
                    s,
                    old(rng).history().len(),
                ) == (d, final(rng).history().len()),
        decreases self,
    {
        match self {
            Hittable::Sphere(sp) => sp.random(o, rng),
            Hittable::List(l) => {
                if l.objects.len() == 0 {
                    return Vec3::from_ints(1, 0, 0);
                }
                let ghost h0 = rng.history();
                let u = rng.next_unit();
                let ghost h1 = rng.history();
                let i = pick(u, l.objects.len());
                let d = l.objects[i].random(o, rng);
                proof {
                    let h2 = rng.history();
                    lemma_continues_trans(h2, h1, h0);
                    assert forall|s: Seq<u32>| #[trigger] continues(s, h2) implies self.random_spec(
                        o,
                        s,
                        h0.len(),
                    ) == (d, h2.len()) by {
                        lemma_continues_trans(s, h2, h1);
                    }
                }
                d
            },
            _ => Vec3::from_ints(1, 0, 0),
        }
    }

    /// The nearest intersection, counting in `tests` every primitive that
    /// is tested on the way.
    pub fn hit_counting<'a>(&'a self, r: Ray, t_min: Fixed, t_max: Fixed, tests: &mut u64) -> (out:
        Option<HitRecord<'a>>)
        ensures
            out == self.hit_spec(r, t_min, t_max),
            out matches Some(rec) ==> in_range(rec.t, t_min, t_max) && rec.p == r.at_spec(rec.t),
            *final(tests) == capped(*old(tests) + self.tests_spec(r, t_min, t_max)),
        decreases self,
    {
        match self {
            Hittable::Sphere(s) => {
                count_test(tests);
                s.hit(r, t_min, t_max)
            },
            Hittable::MovingSphere(m) => {
                count_test(tests);
                m.hit(r, t_min, t_max)
            },
            Hittable::List(l) => l.hit_counting(r, t_min, t_max, tests),
            Hittable::Node(n) => n.hit_counting(r, t_min, t_max, tests),
        }
    }

    /// The nearest intersection of the ray with this thing at a parameter
    /// strictly between `t_min` and `t_max`.
    pub fn hit<'a>(&'a self, r: Ray, t_min: Fixed, t_max: Fixed) -> (out: Option<HitRecord<'a>>)
        ensures
            out == self.hit_spec(r, t_min, t_max),
            out matches Some(rec) ==> in_range(rec.t, t_min, t_max) && rec.p == r.at_spec(rec.t),
    {
        let mut tests: u64 = 0;
        self.hit_counting(r, t_min, t_max, &mut tests)
    }

    /// A box around this thing over the time interval.
    pub fn bounding_box(&self, time0: Fixed, time1: Fixed) -> (out: Option<AABB>)
        ensures
            out == self.bounding_box_spec(time0, time1),
        decreases self,
    {
        match self {
            Hittable::Sphere(s) => s.bounding_box(time0, time1),
            Hittable::MovingSphere(m) => m.bounding_box(time0, time1),
            Hittable::List(l) => l.bounding_box(time0, time1),
            Hittable::Node(n) => n.bounding_box(time0, time1),
        }
    }
}

impl HittableList {
    /// The nearest intersection among the first `n` of the things: each is
    /// searched only up to the nearest intersection found before it.
    pub open spec fn hit_first_spec<'a>(
        objects: Seq<Hittable>,
        n: int,
        r: Ray,
        t_min: Fixed,
        t_max: Fixed,
    ) -> Option<HitRecord<'a>>
        decreases objects, n,
    {
        if n <= 0 || n > objects.len() {
            None
        } else {
            let before = Self::hit_first_spec(objects, n - 1, r, t_min, t_max);
            nearer(before, objects[n - 1].hit_spec(r, t_min, closest_so_far(before, t_max)))
        }
    }

    /// How many primitives the search among the first `n` things tests.
    pub open spec fn tests_first_spec(
        objects: Seq<Hittable>,
        n: int,
        r: Ray,
        t_min: Fixed,
        t_max: Fixed,
    ) -> nat
        decreases objects, n,
    {
        if n <= 0 || n > objects.len() {
            0
        } else {
            let before = Self::hit_first_spec(objects, n - 1, r, t_min, t_max);
            Self::tests_first_spec(objects, n - 1, r, t_min, t_max) + objects[n - 1].tests_spec(
                r,
                t_min,
                closest_so_far(before, t_max),
            )
        }
    }

    /// The box around the first `n` of the things; nothing where `n` is
    /// zero or one of them has no box.
    pub open spec fn box_first_spec(objects: Seq<Hittable>, n: int, time0: Fixed, time1: Fixed) -> Option<
        AABB,
    >
        decreases objects, n,
    {
        if n <= 0 || n > objects.len() {
            None
        } else {
            match objects[n - 1].bounding_box_spec(time0, time1) {
                None => None,
                Some(last) => if n == 1 {
                    Some(last)
                } else {
                    match Self::box_first_spec(objects, n - 1, time0, time1) {
                        None => None,
                        Some(before) => Some(AABB::surrounding_box_spec(before, last)),
                    }
                },
            }
        }
    }

    /// The sum of the densities of the first `n` things.
    pub open spec fn pdf_sum_spec(objects: Seq<Hittable>, n: int, o: Point3, v: Vec3) -> Fixed
        decreases objects, n,
    {
        if n <= 0 || n > objects.len() {
            Fixed::zero_spec()
        } else {
            Self::pdf_sum_spec(objects, n - 1, o, v).add_spec(objects[n - 1].pdf_value_spec(o, v))
        }
    }

    /// The nearest intersection of the ray with any of the things.
    pub open spec fn hit_spec(&self, r: Ray, t_min: Fixed, t_max: Fixed) -> Option<HitRecord> {
        Self::hit_first_spec(self.objects@, self.objects@.len() as int, r, t_min, t_max)
    }

    /// The mean of the members' densities.
    pub fn pdf_value(&self, o: Point3, v: Vec3) -> (pdf: Fixed)
        ensures
            pdf == Self::pdf_sum_spec(self.objects@, self.objects@.len() as int, o, v).div_spec(
                count_spec(self.objects@.len()),
            ),
        decreases self.objects@,
    {
        let mut sum = Fixed::zero();
        let mut i: usize = 0;
        while i < self.objects.len()
            invariant
                i <= self.objects@.len(),
                sum == Self::pdf_sum_spec(self.objects@, i as int, o, v),
            decreases self.objects@.len() - i,
        {
            sum = sum.add(self.objects[i].pdf_value(o, v));
            i = i + 1;
        }
        sum.div(count(self.objects.len()))
    }

    /// An empty list.
    pub fn new() -> (l: HittableList)
        ensures
            l.objects@ == Seq::<Hittable>::empty(),
    {
        HittableList { objects: Vec::new() }
    }

    /// Appends a thing.
    pub fn add(&mut self, object: Hittable)
        ensures
            final(self).objects@ == old(self).objects@.push(object),
    {
        self.objects.push(object);
    }

    /// Removes every thing.
    pub fn clear(&mut self)
        ensures
            final(self).objects@ == Seq::<Hittable>::empty(),
    {
        self.objects = Vec::new();
    }

    /// The nearest intersection with any of the things, counting in `tests`
    /// every primitive that is tested on the way.
    pub fn hit_counting<'a>(&'a self, r: Ray, t_min: Fixed, t_max: Fixed, tests: &mut u64) -> (out:
        Option<HitRecord<'a>>)
        ensures
            out == self.hit_spec(r, t_min, t_max),
            out matches Some(rec) ==> in_range(rec.t, t_min, t_max) && rec.p == r.at_spec(rec.t),
            *final(tests) == capped(
                *old(tests) + Self::tests_first_spec(
                    self.objects@,
                    self.objects@.len() as int,
                    r,
                    t_min,
                    t_max,
                ),
            ),
        decreases self.objects@,
    {
        let mut found: Option<HitRecord<'a>> = None;
        let mut closest = t_max;
        let mut i: usize = 0;
        while i < self.objects.len()
            invariant
                i <= self.objects@.len(),
                found == Self::hit_first_spec(self.objects@, i as int, r, t_min, t_max),
                closest == closest_so_far(found, t_max),
                found matches Some(rec) ==> in_range(rec.t, t_min, t_max) && rec.p == r.at_spec(
                    rec.t,
                ),
                *tests == capped(
                    *old(tests) + Self::tests_first_spec(self.objects@, i as int, r, t_min, t_max),
                ),
            decreases self.objects@.len() - i,
        {
            match self.objects[i].hit_counting(r, t_min, closest, tests) {
                Some(rec) => {
                    closest = rec.t;
                    found = Some(rec);
                },
                None => {},
            }
            i = i + 1;
        }
        found
    }

    /// The nearest intersection of the ray with any of the things, at a
    /// parameter strictly between `t_min` and `t_max`.
    pub fn hit<'a>(&'a self, r: Ray, t_min: Fixed, t_max: Fixed) -> (out: Option<HitRecord<'a>>)
        ensures
            out == self.hit_spec(r, t_min, t_max),
            out matches Some(rec) ==> in_range(rec.t, t_min, t_max) && rec.p == r.at_spec(rec.t),
            Self::all_balls(self.objects@) ==> Self::nearest_among(
                out,
                self.objects@,
                self.objects@.len() as int,
                r,
                t_min,
                t_max,
            ),
    {
        proof {
            if Self::all_balls(self.objects@) {
                Self::lemma_hit_is_nearest(
                    self.objects@,
                    self.objects@.len() as int,
                    r,
                    t_min,
                    t_max,
                );
            }
        }
        let mut tests: u64 = 0;
        self.hit_counting(r, t_min, t_max, &mut tests)
    }

    /// The box around all the things; nothing for an empty list or where one
    /// of the things has no box.
    pub fn bounding_box(&self, time0: Fixed, time1: Fixed) -> (out: Option<AABB>)
        ensures
            out == Self::box_first_spec(self.objects@, self.objects@.len() as int, time0, time1),
        decreases self.objects@,
    {
        if self.objects.len() == 0 {
            return None;
        }
        let mut around: AABB = match self.objects[0].bounding_box(time0, time1) {
            None => {
                proof {
                    Self::lemma_box_first_none(self.objects@, 1, self.objects@.len() as int, time0, time1);
                }
                return None;
            },
            Some(b) => b,
        };
        let mut i: usize = 1;
        while i < self.objects.len()
            invariant
                1 <= i <= self.objects@.len(),
                Some(around) == Self::box_first_spec(self.objects@, i as int, time0, time1),
            decreases self.objects@.len() - i,
        {
            match self.objects[i].bounding_box(time0, time1) {
                None => {
                    proof {
                        Self::lemma_box_first_none(
                            self.objects@,
                            i as int + 1,
                            self.objects@.len() as int,
                            time0,
                            time1,
                        );
                    }
                    return None;
                },
                Some(b) => {
                    around = AABB::surrounding_box(around, b);
                },
            }
            i = i + 1;
        }
        Some(around)
    }

    /// `found` is the nearest intersection of the ray with the first `n`
    /// things: nothing only where the ray hits none of them within the
    /// range, and else the intersection with one of them, at a parameter
    /// that no intersection with another one undercuts.
    pub open spec fn nearest_among(
        found: Option<HitRecord>,
        objects: Seq<Hittable>,
        n: int,
        r: Ray,
        t_min: Fixed,
        t_max: Fixed,
    ) -> bool {
        match found {
            None => forall|i: int|
                0 <= i < n ==> (#[trigger] objects[i]).hit_spec(r, t_min, t_max) is None,
            Some(rec) => {
                &&& in_range(rec.t, t_min, t_max)
                &&& exists|i: int|
                    0 <= i < n && (#[trigger] objects[i]).hit_spec(r, t_min, t_max) == Some(rec)
                &&& forall|j: int|
                    0 <= j < n ==> ((#[trigger] objects[j]).hit_spec(
                        r,
                        t_min,
                        t_max,
                    ) matches Some(other) ==> rec.t.raw <= other.t.raw)
            },
        }
    }

    /// Every one of the things is a sphere.
    pub open spec fn all_balls(objects: Seq<Hittable>) -> bool {
        forall|i: int| 0 <= i < objects.len() ==> (#[trigger] objects[i]).is_ball()
    }

    /// A list of spheres finds the nearest intersection: it finds nothing
    /// only where the ray hits none of the spheres within the range, and
    /// what it finds is the intersection with one of them, at a parameter
    /// that no intersection with another one undercuts.
    pub proof fn lemma_hit_is_nearest(
        objects: Seq<Hittable>,
        n: int,
        r: Ray,
        t_min: Fixed,
        t_max: Fixed,
    )
        requires
            0 <= n <= objects.len(),
            forall|i: int| 0 <= i < n ==> (#[trigger] objects[i]).is_ball(),
        ensures
            Self::nearest_among(
                Self::hit_first_spec(objects, n, r, t_min, t_max),
                objects,
                n,
                r,
                t_min,
                t_max,
            ),
        decreases n,
    {
        if n > 0 {
            Self::lemma_hit_is_nearest(objects, n - 1, r, t_min, t_max);
            let before = Self::hit_first_spec(objects, n - 1, r, t_min, t_max);
            let last = objects[n - 1];
            assert(last.is_ball());
            last.lemma_ball_hit_narrows(r, t_min, t_max, closest_so_far(before, t_max));
            match Self::hit_first_spec(objects, n, r, t_min, t_max) {
                None => {},
                Some(rec) => {
                    if last.hit_spec(r, t_min, closest_so_far(before, t_max)) is Some {
                        assert(objects[n - 1].hit_spec(r, t_min, t_max) == Some(rec));
                    } else {
                        let i = choose|i: int|
                            0 <= i < n - 1 && (#[trigger] objects[i]).hit_spec(r, t_min, t_max)
                                == Some(rec);
                        assert(0 <= i < n && objects[i].hit_spec(r, t_min, t_max) == Some(rec));
                    }
                },
            }
        }
    }

    /// The nearest intersections with two groups of spheres give the
    /// nearest intersection with all of them, where the second group was
    /// searched only up to what was found in the first.
    pub proof fn lemma_nearest_merge(
        objects: Seq<Hittable>,
        left: Seq<Hittable>,
        right: Seq<Hittable>,
        r: Ray,
        t_min: Fixed,
        t_max: Fixed,
        in_left: Option<HitRecord>,
        in_right: Option<HitRecord>,
    )
        requires
            Self::all_balls(right),
            forall|i: int| 0 <= i < left.len() ==> objects.contains(#[trigger] left[i]),
            forall|i: int| 0 <= i < right.len() ==> objects.contains(#[trigger] right[i]),
            forall|i: int|
                0 <= i < objects.len() ==> left.contains(#[trigger] objects[i]) || right.contains(
                    objects[i],
                ),
            Self::nearest_among(in_left, left, left.len() as int, r, t_min, t_max),
            Self::nearest_among(
                in_right,
                right,
                right.len() as int,
                r,
                t_min,
                closest_so_far(in_left, t_max),
            ),
        ensures
            Self::nearest_among(
                nearer(in_left, in_right),
                objects,
                objects.len() as int,
                r,
                t_min,
                t_max,
            ),
    {
        let end = closest_so_far(in_left, t_max);
        let found = nearer(in_left, in_right);
        assert(end.raw <= t_max.raw);
        assert forall|j: int| 0 <= j < right.len() implies (#[trigger] right[j]).hit_spec(
            r,
            t_min,
            end,
        ) == (match right[j].hit_spec(r, t_min, t_max) {
            Some(o) => if o.t.raw < end.raw {
                Some(o)
            } else {
                None
            },
            None => None,
        }) by {
            right[j].lemma_ball_hit_narrows(r, t_min, t_max, end);
        }
        match found {
            None => {
                assert forall|i: int| 0 <= i < objects.len() implies (#[trigger] objects[i]).hit_spec(
                    r,
                    t_min,
                    t_max,
                ) is None by {
                    let x = objects[i];
                    if left.contains(x) {
                        let k = choose|k: int| 0 <= k < left.len() && left[k] == x;
                        assert(left[k].hit_spec(r, t_min, t_max) is None);
                    } else {
                        let k = choose|k: int| 0 <= k < right.len() && right[k] == x;
                        assert(right[k].hit_spec(r, t_min, end) is None);
                    }
                }
            },
            Some(rec) => {
                if in_right is Some {
                    let j = choose|j: int|
                        0 <= j < right.len() && (#[trigger] right[j]).hit_spec(r, t_min, end)
                            == Some(rec);
                    let k = choose|k: int| 0 <= k < objects.len() && objects[k] == right[j];
                    assert(objects[k].hit_spec(r, t_min, t_max) == Some(rec));
                } else {
                    let j = choose|j: int|
                        0 <= j < left.len() && (#[trigger] left[j]).hit_spec(r, t_min, t_max)
                            == Some(rec);
                    let k = choose|k: int| 0 <= k < objects.len() && objects[k] == left[j];
                    assert(objects[k].hit_spec(r, t_min, t_max) == Some(rec));
                }
                assert forall|i: int| 0 <= i < objects.len() implies ((
                #[trigger] objects[i]).hit_spec(r, t_min, t_max) matches Some(other) ==> rec.t.raw
                    <= other.t.raw) by {
                    let x = objects[i];
                    if left.contains(x) {
                        let k = choose|k: int| 0 <= k < left.len() && left[k] == x;
                        assert(left[k].hit_spec(r, t_min, t_max) == x.hit_spec(r, t_min, t_max));
                    } else {
                        let k = choose|k: int| 0 <= k < right.len() && right[k] == x;
                        assert(right[k].hit_spec(r, t_min, t_max) == x.hit_spec(r, t_min, t_max));
                        assert(right[k].hit_spec(r, t_min, end) is Some ==> in_right is Some);
                    }
                }
            },
        }
    }

    /// Once the first `n` things have no box, no longer run of them has.
    pub proof fn lemma_box_first_none(objects: Seq<Hittable>, n: int, m: int, time0: Fixed, time1: Fixed)
        requires
            1 <= n <= m <= objects.len(),
            Self::box_first_spec(objects, n, time0, time1) is None,
        ensures
            Self::box_first_spec(objects, m, time0, time1) is None,
        decreases m - n,
    {
        if n < m {
            Self::lemma_box_first_none(objects, n, m - 1, time0, time1);
        }
    }
}

} // verus!
