//! The random source and the samplers built on it.
//!
//! A [`RandomSource`] hands out 32-bit words and remembers, as ghost state,
//! every word it has handed out. What a sampler returns is stated as a
//! function of those words: for every stream `s` that begins with the words
//! drawn so far, the sampler's result and the number of words drawn equal
//! the sampler's specification applied to `s` at the position where the call
//! began. The same words therefore always give the same sample.
use vstd::prelude::*;
use rand::rngs::StdRng;
use rand::RngCore;
use rand::SeedableRng;
use crate::fixed::{
    lemma_mul_fraction_signed, lemma_not_negative, lemma_sqrt_fraction, Fixed, SCALE,
};
use crate::vec3::Vec3;

verus! {

/// The generator of the `rand` crate that stands behind a [`RandomSource`].
#[verifier::external_type_specification]
#[verifier::external_body]
pub struct ExStdRng(StdRng);

/// Calls `StdRng::seed_from_u64`, which builds a generator from a 64-bit
/// seed. Nothing is claimed of the generator.
#[verifier::external_body]
fn seeded_generator(seed: u64) -> (g: StdRng) {
    StdRng::seed_from_u64(seed)
}

/// Calls `RngCore::next_u32` on the generator, which advances it and returns
/// the next 32-bit word. Nothing is claimed of the word.
#[verifier::external_body]
fn next_word(g: &mut StdRng) -> (w: u32) {
    g.next_u32()
}

/// How often a rejection sampler draws a candidate before it gives up and
/// returns the zero vector.
pub const SAMPLE_TRIES: u32 = 64;

/// The stream `s` begins with the words `h`.
pub open spec fn continues(s: Seq<u32>, h: Seq<u32>) -> bool {
    &&& h.len() <= s.len()
    &&& forall|i: int| 0 <= i < h.len() ==> s[i] == h[i]
}

/// A stream that continues a history continues every earlier history.
pub proof fn lemma_continues_trans(s: Seq<u32>, later: Seq<u32>, earlier: Seq<u32>)
    requires
        continues(s, later),
        continues(later, earlier),
    ensures
        continues(s, earlier),
{
}

/// The word of `s` at `pos`; zero beyond its end.
pub open spec fn word_at(s: Seq<u32>, pos: nat) -> u32 {
    if pos < s.len() {
        s[pos as int]
    } else {
        0
    }
}

/// The number in `[0, 1)` that a word stands for: `w / 2^32`, rounded down
/// to a millionth.
pub open spec fn unit_of(w: u32) -> Fixed {
    Fixed { raw: ((w as int * SCALE) / 0x1_0000_0000) as i64 }
}

/// The number in `[-1, 1)` that a word stands for: `2 * unit_of(w) - 1`.
pub open spec fn signed_unit_of(w: u32) -> Fixed {
    Fixed { raw: (2 * unit_of(w).raw - SCALE) as i64 }
}

/// The point of the cube `[-1, 1)^3` given by three consecutive words.
pub open spec fn cube_point_at(s: Seq<u32>, pos: nat) -> Vec3 {
    Vec3 {
        x: signed_unit_of(word_at(s, pos)),
        y: signed_unit_of(word_at(s, pos + 1)),
        z: signed_unit_of(word_at(s, pos + 2)),
    }
}

/// The point of the square `[-1, 1)^2` in the plane `z = 0` given by two
/// consecutive words.
pub open spec fn square_point_at(s: Seq<u32>, pos: nat) -> Vec3 {
    Vec3 {
        x: signed_unit_of(word_at(s, pos)),
        y: signed_unit_of(word_at(s, pos + 1)),
        z: Fixed::zero_spec(),
    }
}

/// The point lies strictly inside the unit sphere.
pub open spec fn inside_unit(p: Vec3) -> bool {
    p.length_sqr_spec().raw < SCALE
}

/// Rejection sampling in the unit ball: the first of up to `tries` cube
/// points from position `pos` on that lies inside the unit sphere, and the
/// position after it; the zero vector where none does.
pub open spec fn in_unit_sphere_spec(s: Seq<u32>, pos: nat, tries: nat) -> (Vec3, nat)
    decreases tries,
{
    if tries == 0 {
        (Vec3::zero_spec(), pos)
    } else if inside_unit(cube_point_at(s, pos)) {
        (cube_point_at(s, pos), pos + 3)
    } else {
        in_unit_sphere_spec(s, pos + 3, (tries - 1) as nat)
    }
}

/// Rejection sampling in the unit disk of the plane `z = 0`, as
/// [`in_unit_sphere_spec`] with square points.
pub open spec fn in_unit_disk_spec(s: Seq<u32>, pos: nat, tries: nat) -> (Vec3, nat)
    decreases tries,
{
    if tries == 0 {
        (Vec3::zero_spec(), pos)
    } else if inside_unit(square_point_at(s, pos)) {
        (square_point_at(s, pos), pos + 2)
    } else {
        in_unit_disk_spec(s, pos + 2, (tries - 1) as nat)
    }
}

/// The point of the upper unit hemisphere above a point of the unit disk.
/// Points uniform in the disk give directions whose density is
/// proportional to the cosine of the angle to the `z` axis.
pub open spec fn lift_to_hemisphere_spec(d: Vec3) -> Vec3 {
    Vec3 { x: d.x, y: d.y, z: Fixed::one_spec().sub_spec(d.length_sqr_spec()).sqrt_spec() }
}

/// A cosine-weighted direction of the upper hemisphere.
pub open spec fn cosine_direction_spec(s: Seq<u32>, pos: nat) -> (Vec3, nat) {
    let (d, next) = in_unit_disk_spec(s, pos, SAMPLE_TRIES as nat);
    (lift_to_hemisphere_spec(d), next)
}

/// The cosine of the half-angle under which a sphere of radius `radius` is
/// seen from a point whose squared distance to its centre is
/// `distance_sqr`: `sqrt(1 - radius^2 / distance_sqr)`.
pub open spec fn cos_max_spec(radius: Fixed, distance_sqr: Fixed) -> Fixed {
    Fixed::one_spec().sub_spec(radius.mul_spec(radius).div_spec(distance_sqr)).sqrt_spec()
}

/// The direction at cosine `1 + r (cos_max - 1)` to the `z` axis whose
/// projection on the plane `z = 0` points along `d`; along the `x` axis
/// where `d` has no length, with `cos_max` as [`cos_max_spec`] gives it.
pub open spec fn cone_direction_spec(radius: Fixed, distance_sqr: Fixed, r: Fixed, d: Vec3) -> Vec3 {
    let one = Fixed::one_spec();
    let cos_max = cos_max_spec(radius, distance_sqr);
    let z = one.add_spec(r.mul_spec(cos_max.sub_spec(one)));
    let ring = one.sub_spec(z.mul_spec(z)).sqrt_spec();
    let len = d.length_spec();
    if len.raw == 0 {
        Vec3 { x: ring, y: Fixed::zero_spec(), z }
    } else {
        Vec3 { x: d.x.div_spec(len).mul_spec(ring), y: d.y.div_spec(len).mul_spec(ring), z }
    }
}

/// The direction stays in the cone: for a number `r` of `[0, 1]` and a
/// squared distance that is not negative, its cosine to the `z` axis is at
/// least `cos_max` and at most one.
pub proof fn lemma_cone_direction_in_cone(radius: Fixed, distance_sqr: Fixed, r: Fixed, d: Vec3)
    requires
        0 <= r.raw <= SCALE,
        distance_sqr.raw >= 0,
    ensures
        cos_max_spec(radius, distance_sqr).raw <= cone_direction_spec(
            radius,
            distance_sqr,
            r,
            d,
        ).z.raw <= SCALE,
        0 <= cos_max_spec(radius, distance_sqr).raw,
{
    let one = Fixed::one_spec();
    let square = radius.mul_spec(radius);
    let x = radius.raw as int;
    assert(x * x >= 0) by (nonlinear_arith);
    lemma_not_negative(square, distance_sqr);
    lemma_sqrt_fraction(one.sub_spec(square.div_spec(distance_sqr)));
    let cos_max = cos_max_spec(radius, distance_sqr);
    lemma_mul_fraction_signed(r, cos_max.sub_spec(one));
}

/// A direction uniform over the cone under which a sphere is seen, in the
/// frame whose `z` axis points at the sphere's centre.
pub open spec fn to_sphere_spec(radius: Fixed, distance_sqr: Fixed, s: Seq<u32>, pos: nat) -> (
    Vec3,
    nat,
) {
    let r = unit_of(word_at(s, pos));
    let (d, next) = in_unit_disk_spec(s, pos + 1, SAMPLE_TRIES as nat);
    (cone_direction_spec(radius, distance_sqr, r, d), next)
}

/// Converts a word to a number in `[0, 1)`.
pub fn unit_from_word(w: u32) -> (u: Fixed)
    ensures
        u == unit_of(w),
        0 <= u.raw < SCALE,
{
    let wide: u64 = (w as u64) * 1_000_000;
    Fixed { raw: (wide / 0x1_0000_0000) as i64 }
}

/// Converts a word to a number in `[-1, 1)`.
pub fn signed_unit_from_word(w: u32) -> (u: Fixed)
    ensures
        u == signed_unit_of(w),
        -SCALE <= u.raw < SCALE,
{
    let u = unit_from_word(w);
    Fixed { raw: 2 * u.raw - SCALE }
}

/// The point of the upper unit hemisphere above a point of the unit disk.
pub fn lift_to_hemisphere(d: Vec3) -> (r: Vec3)
    ensures
        r == lift_to_hemisphere_spec(d),
        r.z.raw >= 0,
{
    Vec3 { x: d.x, y: d.y, z: Fixed::one().sub(d.length_sqr()).sqrt() }
}

/// The direction of the cone toward a sphere that the number `r` and the
/// disk point `d` select.
pub fn cone_direction(radius: Fixed, distance_sqr: Fixed, r: Fixed, d: Vec3) -> (v: Vec3)
    ensures
        v == cone_direction_spec(radius, distance_sqr, r, d),
        0 <= r.raw <= SCALE && distance_sqr.raw >= 0 ==> cos_max_spec(radius, distance_sqr).raw
            <= v.z.raw <= SCALE,
{
    proof {
        if 0 <= r.raw <= SCALE && distance_sqr.raw >= 0 {
            lemma_cone_direction_in_cone(radius, distance_sqr, r, d);
        }
    }
    let one = Fixed::one();
    let cos_max = one.sub(radius.mul(radius).div(distance_sqr)).sqrt();
    let z = one.add(r.mul(cos_max.sub(one)));
    let ring = one.sub(z.mul(z)).sqrt();
    let len = d.length();
    if len.raw == 0 {
        Vec3 { x: ring, y: Fixed::zero(), z }
    } else {
        Vec3 { x: d.x.div(len).mul(ring), y: d.y.div(len).mul(ring), z }
    }
}

/// A source of random words that records what it has handed out.
pub struct RandomSource {
    generator: StdRng,
    drawn: Ghost<Seq<u32>>,
}

impl RandomSource {
    /// The words handed out so far, oldest first.
    pub closed spec fn history(&self) -> Seq<u32> {
        self.drawn@
    }

    /// A source that has handed out nothing yet, over a generator that is
    /// started from `seed`.
    pub fn from_seed(seed: u64) -> (src: RandomSource)
        ensures
            src.history() == Seq::<u32>::empty(),
    {
        RandomSource { generator: seeded_generator(seed), drawn: Ghost(Seq::empty()) }
    }

    /// Hands out the next word.
    pub fn next_u32(&mut self) -> (w: u32)
        ensures
            final(self).history() == old(self).history().push(w),
            continues(final(self).history(), old(self).history()),
            forall|s: Seq<u32>| #[trigger]
                continues(s, final(self).history()) ==> word_at(s, old(self).history().len()) == w,
    {
        let w = next_word(&mut self.generator);
        proof {
            self.drawn@ = self.drawn@.push(w);
        }
        w
    }

    /// A number uniform in `[0, 1)`.
    pub fn next_unit(&mut self) -> (u: Fixed)
        ensures
            final(self).history().len() == old(self).history().len() + 1,
            continues(final(self).history(), old(self).history()),
            forall|s: Seq<u32>| #[trigger]
                continues(s, final(self).history()) ==> unit_of(
                    word_at(s, old(self).history().len()),
                ) == u,
            0 <= u.raw < SCALE,
    {
        let w = self.next_u32();
        unit_from_word(w)
    }

    /// A number uniform in `[-1, 1)`.
    pub fn next_signed_unit(&mut self) -> (u: Fixed)
        ensures
            final(self).history().len() == old(self).history().len() + 1,
            continues(final(self).history(), old(self).history()),
            forall|s: Seq<u32>| #[trigger]
                continues(s, final(self).history()) ==> signed_unit_of(
                    word_at(s, old(self).history().len()),
                ) == u,
            -SCALE <= u.raw < SCALE,
    {
        let w = self.next_u32();
        signed_unit_from_word(w)
    }

    /// A point uniform in the cube `[-1, 1)^3`.
    pub fn next_cube_point(&mut self) -> (p: Vec3)
        ensures
            final(self).history().len() == old(self).history().len() + 3,
            continues(final(self).history(), old(self).history()),
            forall|s: Seq<u32>| #[trigger]
                continues(s, final(self).history()) ==> cube_point_at(
                    s,
                    old(self).history().len(),
                ) == p,
    {
        let ghost h0 = self.history();
        let x = self.next_signed_unit();
        let ghost h1 = self.history();
        let y = self.next_signed_unit();
        let ghost h2 = self.history();
        let z = self.next_signed_unit();
        proof {
            let h3 = self.history();
            assert forall|s: Seq<u32>| #[trigger] continues(s, h3) implies cube_point_at(
                s,
                h0.len(),
            ) == (Vec3 { x, y, z }) by {
                lemma_continues_trans(s, h3, h2);
                lemma_continues_trans(s, h2, h1);
            }
        }
        Vec3 { x, y, z }
    }

    /// A point uniform in the square `[-1, 1)^2` of the plane `z = 0`.
    pub fn next_square_point(&mut self) -> (p: Vec3)
        ensures
            final(self).history().len() == old(self).history().len() + 2,
            continues(final(self).history(), old(self).history()),
            forall|s: Seq<u32>| #[trigger]
                continues(s, final(self).history()) ==> square_point_at(
                    s,
                    old(self).history().len(),
                ) == p,
            p.z.raw == 0,
    {
        let ghost h0 = self.history();
        let x = self.next_signed_unit();
        let ghost h1 = self.history();
        let y = self.next_signed_unit();
        proof {
            let h2 = self.history();
            assert forall|s: Seq<u32>| #[trigger] continues(s, h2) implies square_point_at(
                s,
                h0.len(),
            ) == (Vec3 { x, y, z: Fixed::zero_spec() }) by {
                lemma_continues_trans(s, h2, h1);
            }
        }
        Vec3 { x, y, z: Fixed::zero() }
    }
}

/// A point of the unit ball, by rejection: up to [`SAMPLE_TRIES`] points of
/// the cube are drawn, and the first inside the unit sphere is returned.
pub fn random_in_unit_sphere(rng: &mut RandomSource) -> (p: Vec3)
    ensures
        continues(final(rng).history(), old(rng).history()),
        forall|s: Seq<u32>| #[trigger]
            continues(s, final(rng).history()) ==> in_unit_sphere_spec(
                s,
                old(rng).history().len(),
                SAMPLE_TRIES as nat,
            ) == (p, final(rng).history().len()),
        p == Vec3::zero_spec() || inside_unit(p),
{
    let ghost h0 = rng.history();
    let mut left: u32 = SAMPLE_TRIES;
    while left > 0
        invariant
            h0 == old(rng).history(),
            continues(rng.history(), h0),
            forall|s: Seq<u32>| #[trigger]
                continues(s, rng.history()) ==> in_unit_sphere_spec(
                    s,
                    h0.len(),
                    SAMPLE_TRIES as nat,
                ) == in_unit_sphere_spec(s, rng.history().len(), left as nat),
        decreases left,
    {
        let ghost h1 = rng.history();
        let c = rng.next_cube_point();
        let inside = c.length_sqr().raw < SCALE;
        proof {
            let h2 = rng.history();
            lemma_continues_trans(h2, h1, h0);
            assert forall|s: Seq<u32>| #[trigger] continues(s, h2) implies in_unit_sphere_spec(
                s,
                h0.len(),
                SAMPLE_TRIES as nat,
            ) == (if inside {
                (c, h2.len())
            } else {
                in_unit_sphere_spec(s, h2.len(), (left - 1) as nat)
            }) by {
                lemma_continues_trans(s, h2, h1);
            }
        }
        if inside {
            return c;
        }
        left = left - 1;
    }
    Vec3::zero()
}

/// A point of the unit disk of the plane `z = 0`, by rejection.
pub fn random_in_unit_disk(rng: &mut RandomSource) -> (p: Vec3)
    ensures
        continues(final(rng).history(), old(rng).history()),
        forall|s: Seq<u32>| #[trigger]
            continues(s, final(rng).history()) ==> in_unit_disk_spec(
                s,
                old(rng).history().len(),
                SAMPLE_TRIES as nat,
            ) == (p, final(rng).history().len()),
        p == Vec3::zero_spec() || inside_unit(p),
        p.z.raw == 0,
{
    let ghost h0 = rng.history();
    let mut left: u32 = SAMPLE_TRIES;
    while left > 0
        invariant
            h0 == old(rng).history(),
            continues(rng.history(), h0),
            forall|s: Seq<u32>| #[trigger]
                continues(s, rng.history()) ==> in_unit_disk_spec(
                    s,
                    h0.len(),
                    SAMPLE_TRIES as nat,
                ) == in_unit_disk_spec(s, rng.history().len(), left as nat),
        decreases left,
    {
        let ghost h1 = rng.history();
        let c = rng.next_square_point();
        let inside = c.length_sqr().raw < SCALE;
        proof {
            let h2 = rng.history();
            lemma_continues_trans(h2, h1, h0);
            assert forall|s: Seq<u32>| #[trigger] continues(s, h2) implies in_unit_disk_spec(
                s,
                h0.len(),
                SAMPLE_TRIES as nat,
            ) == (if inside {
                (c, h2.len())
            } else {
                in_unit_disk_spec(s, h2.len(), (left - 1) as nat)
            }) by {
                lemma_continues_trans(s, h2, h1);
            }
        }
        if inside {
            return c;
        }
        left = left - 1;
    }
    Vec3::zero()
}

/// A direction of the upper hemisphere with density proportional to the
/// cosine of its angle to the `z` axis.
pub fn random_cosine_direction(rng: &mut RandomSource) -> (d: Vec3)
    ensures
        continues(final(rng).history(), old(rng).history()),
        forall|s: Seq<u32>| #[trigger]
            continues(s, final(rng).history()) ==> cosine_direction_spec(
                s,
                old(rng).history().len(),
            ) == (d, final(rng).history().len()),
        d.z.raw >= 0,
{
    let p = random_in_unit_disk(rng);
    lift_to_hemisphere(p)
}

/// A direction uniform over the cone under which a sphere of the given
/// radius is seen from a point at the given squared distance from its
/// centre, in the frame whose `z` axis points at the centre.
pub fn random_to_sphere(radius: Fixed, distance_sqr: Fixed, rng: &mut RandomSource) -> (d: Vec3)
    ensures
        continues(final(rng).history(), old(rng).history()),
        forall|s: Seq<u32>| #[trigger]
            continues(s, final(rng).history()) ==> to_sphere_spec(
                radius,
                distance_sqr,
                s,
                old(rng).history().len(),
            ) == (d, final(rng).history().len()),
        distance_sqr.raw >= 0 ==> cos_max_spec(radius, distance_sqr).raw <= d.z.raw <= SCALE,
{
    let ghost h0 = rng.history();
    let r = rng.next_unit();
    let ghost h1 = rng.history();
    let p = random_in_unit_disk(rng);
    proof {
        let h2 = rng.history();
        assert forall|s: Seq<u32>| #[trigger] continues(s, h2) implies to_sphere_spec(
            radius,
            distance_sqr,
            s,
            h0.len(),
        ) == (cone_direction_spec(radius, distance_sqr, r, p), h2.len()) by {
            lemma_continues_trans(s, h2, h1);
        }
    }
    cone_direction(radius, distance_sqr, r, p)
}

} // verus!
