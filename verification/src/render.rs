//! The light-transport estimator and the conversion of radiance to pixels.
use vstd::prelude::*;
use crate::camera::Camera;
use crate::fixed::{lemma_mul_fraction, lemma_mul_one, Fixed, RAW_MAX};
use crate::hittable::{HitRecord, Hittable};
use crate::fixed::{lemma_div_self, lemma_not_negative};
use crate::material::{dim, is_lossy, is_passive, is_physical, not_negative};
use crate::random::{continues, lemma_continues_trans, unit_of, word_at, RandomSource};
use crate::ray::Ray;
use crate::sphere::SHADOW_BIAS_RAW;
use crate::vec3::{Color, Vec3};

verus! {

/// Raw value of one half.
pub const HALF_RAW: i64 = 500_000;

/// Raw value of the sky's red channel.
pub const SKY_RED_RAW: i64 = 500_000;

/// Raw value of the sky's green channel.
pub const SKY_GREEN_RAW: i64 = 700_000;

/// Raw value of the sky's blue channel.
pub const SKY_BLUE_RAW: i64 = 1_000_000;

/// Raw value of the brightest channel that is written: 0.999.
pub const BRIGHTEST_RAW: i64 = 999_000;

/// Raw value of the factor from `[0, 1)` to the 8-bit range: 255.999.
pub const LEVELS_RAW: i64 = 255_999_000;

/// The colour of the sky.
pub open spec fn sky_spec() -> Color {
    Vec3 {
        x: Fixed { raw: SKY_RED_RAW },
        y: Fixed { raw: SKY_GREEN_RAW },
        z: Fixed { raw: SKY_BLUE_RAW },
    }
}

/// What a ray sees that hits nothing: white blended into the colour of
/// the sky, `(1 - t) white + t sky`, with `t = (y + 1) / 2` for the `y`
/// component of the ray's direction at unit length. Rounding can leave
/// that component a hair outside `[-1, 1]`, so `t` is brought into
/// `[0, 1]`.
pub open spec fn background_spec(r: Ray) -> Color {
    let one = Fixed::one_spec();
    let unit_direction = r.dir.to_unit_spec();
    let t = Fixed { raw: HALF_RAW }.mul_spec(unit_direction.y.add_spec(one)).clamp_spec(
        Fixed::zero_spec(),
        one,
    );
    Vec3::from_ints_spec(1, 1, 1).scale_spec(one.sub_spec(t)).add_spec(sky_spec().scale_spec(t))
}

/// The ray to follow from a surface that reports a density, and the
/// density with which that ray is chosen. Without lights it is the ray
/// that the material scattered, with the density that the material
/// reported. With lights, a number of `[0, 1)` below one half sends the
/// ray toward the lights; the density is then the mean of the density
/// with which the lights are sampled and the material's own.
pub open spec fn steer_spec(
    lights: Option<&Hittable>,
    r_in: Ray,
    rec: HitRecord,
    scattered: Ray,
    pdf: Fixed,
    s: Seq<u32>,
    pos: nat,
) -> (Ray, Fixed, nat) {
    match lights {
        None => (scattered, pdf, pos),
        Some(l) => {
            let half = Fixed { raw: HALF_RAW };
            let to_light = l.random_spec(rec.p, s, pos + 1);
            let out = if unit_of(word_at(s, pos)).raw < HALF_RAW {
                Ray { orig: rec.p, dir: to_light.0, tm: r_in.tm }
            } else {
                scattered
            };
            let next = if unit_of(word_at(s, pos)).raw < HALF_RAW {
                to_light.1
            } else {
                pos + 1
            };
            (
                out,
                half.mul_spec(l.pdf_value_spec(rec.p, out.dir)).add_spec(
                    half.mul_spec(rec.mat_ptr.scattering_pdf_spec(r_in, rec, out)),
                ),
                next,
            )
        },
    }
}

/// The radiance that arrives along `incoming`, as it leaves a surface that
/// emits `emitted` and attenuates by `attenuation`, weighted by `weight`.
pub open spec fn shade_spec(emitted: Color, attenuation: Color, incoming: Color, weight: Fixed) -> Color {
    emitted.add_spec(attenuation.hadamard_spec(incoming).scale_spec(weight))
}

/// The radiance that arrives at the origin of `r` against its direction,
/// estimated along one path of at most `depth` segments whose random
/// numbers are read from the stream `s` at `pos`; and the position in the
/// stream afterwards.
///
/// A path of no segments carries nothing. A ray that hits nothing beyond
/// the shadow bias sees the background. A hit adds what the surface emits;
/// where the surface absorbs the ray, that is all. Otherwise the path goes
/// on: along the scattered ray, unweighted, where the material reports no
/// density, and else along the ray of [`steer_spec`], weighted by the
/// material's own density for that ray over the density with which it was
/// chosen. A choice of density zero or less carries nothing.
pub open spec fn radiance_spec(
    r: Ray,
    world: &Hittable,
    lights: Option<&Hittable>,
    depth: int,
    s: Seq<u32>,
    pos: nat,
) -> (Color, nat)
    decreases depth,
{
    if depth <= 0 {
        (Vec3::zero_spec(), pos)
    } else {
        match world.hit_spec(r, Fixed { raw: SHADOW_BIAS_RAW }, Fixed { raw: RAW_MAX }) {
            None => (background_spec(r), pos),
            Some(rec) => {
                let emitted = rec.mat_ptr.emitted_spec(r, rec, rec.u, rec.v, rec.p);
                let scattering = rec.mat_ptr.scatter_spec(r, rec, s, pos);
                match scattering.0 {
                    None => (emitted, scattering.1),
                    Some((attenuation, scattered, pdf)) => if pdf.raw == 0 {
                        let rest = radiance_spec(
                            scattered,
                            world,
                            lights,
                            depth - 1,
                            s,
                            scattering.1,
                        );
                        (shade_spec(emitted, attenuation, rest.0, Fixed::one_spec()), rest.1)
                    } else {
                        let steering = steer_spec(
                            lights,
                            r,
                            rec,
                            scattered,
                            pdf,
                            s,
                            scattering.1,
                        );
                        if steering.1.raw <= 0 {
                            (emitted, steering.2)
                        } else {
                            let weight = rec.mat_ptr.scattering_pdf_spec(
                                r,
                                rec,
                                steering.0,
                            ).div_spec(steering.1);
                            let rest = radiance_spec(
                                steering.0,
                                world,
                                lights,
                                depth - 1,
                                s,
                                steering.2,
                            );
                            (shade_spec(emitted, attenuation, rest.0, weight), rest.1)
                        }
                    },
                }
            },
        }
    }
}

/// What a ray sees that hits nothing has channels in `[0, 1]`.
pub proof fn lemma_background_dim(r: Ray)
    ensures
        dim(background_spec(r)),
{
    let one = Fixed::one_spec();
    let t = Fixed { raw: HALF_RAW }.mul_spec(r.dir.to_unit_spec().y.add_spec(one)).clamp_spec(
        Fixed::zero_spec(),
        one,
    );
    let rest = one.sub_spec(t);
    lemma_mul_one(rest);
    lemma_mul_fraction(Fixed { raw: SKY_RED_RAW }, t);
    lemma_mul_fraction(Fixed { raw: SKY_GREEN_RAW }, t);
    lemma_mul_fraction(Fixed { raw: SKY_BLUE_RAW }, t);
}

/// Light with channels in `[0, 1]` that leaves a surface which emits
/// nothing and attenuates by a colour with channels in `[0, 1]` has
/// channels in `[0, 1]`.
pub proof fn lemma_shade_dim(attenuation: Color, incoming: Color)
    requires
        dim(attenuation),
        dim(incoming),
    ensures
        dim(shade_spec(Vec3::zero_spec(), attenuation, incoming, Fixed::one_spec())),
{
    lemma_mul_fraction(attenuation.x, incoming.x);
    lemma_mul_fraction(attenuation.y, incoming.y);
    lemma_mul_fraction(attenuation.z, incoming.z);
    let through = attenuation.hadamard_spec(incoming);
    lemma_mul_one(through.x);
    lemma_mul_one(through.y);
    lemma_mul_one(through.z);
}

/// No energy is created, with or without lights to sample: in a scene
/// whose materials are all passive, the radiance estimated along any path,
/// of any depth and with any random numbers, has channels in `[0, 1]`, the
/// range of the background.
pub proof fn lemma_radiance_dim(
    r: Ray,
    world: &Hittable,
    lights: Option<&Hittable>,
    depth: int,
    s: Seq<u32>,
    pos: nat,
)
    requires
        world.every_material(is_passive()),
    ensures
        dim(radiance_spec(r, world, lights, depth, s, pos).0),
    decreases depth,
{
    if depth > 0 {
        let found = world.hit_spec(r, Fixed { raw: SHADOW_BIAS_RAW }, Fixed { raw: RAW_MAX });
        match found {
            None => {
                lemma_background_dim(r);
            },
            Some(rec) => {
                world.lemma_hit_material(
                    is_passive(),
                    r,
                    Fixed { raw: SHADOW_BIAS_RAW },
                    Fixed { raw: RAW_MAX },
                );
                rec.mat_ptr.lemma_passive_scatter(r, rec, s, pos);
                let scattering = rec.mat_ptr.scatter_spec(r, rec, s, pos);
                match scattering.0 {
                    None => {},
                    Some(parts) => {
                        lemma_radiance_dim(parts.1, world, lights, depth - 1, s, scattering.1);
                        lemma_shade_dim(
                            parts.0,
                            radiance_spec(parts.1, world, lights, depth - 1, s, scattering.1).0,
                        );
                    },
                }
            },
        }
    }
}

/// No energy is created: in a scene without lights, where every material
/// emits nothing and attenuates by a colour with channels in `[0, 1]`, the
/// radiance estimated along any path, of any depth and with any random
/// numbers, has channels in `[0, 1]`, the range of the background.
pub proof fn lemma_radiance_dim_unlit(r: Ray, world: &Hittable, depth: int, s: Seq<u32>, pos: nat)
    requires
        world.every_material(is_lossy()),
    ensures
        dim(radiance_spec(r, world, None, depth, s, pos).0),
    decreases depth,
{
    if depth > 0 {
        let found = world.hit_spec(r, Fixed { raw: SHADOW_BIAS_RAW }, Fixed { raw: RAW_MAX });
        match found {
            None => {
                lemma_background_dim(r);
            },
            Some(rec) => {
                world.lemma_hit_material(
                    is_lossy(),
                    r,
                    Fixed { raw: SHADOW_BIAS_RAW },
                    Fixed { raw: RAW_MAX },
                );
                rec.mat_ptr.lemma_lossy_scatter(r, rec, s, pos);
                let scattering = rec.mat_ptr.scatter_spec(r, rec, s, pos);
                match scattering.0 {
                    None => {},
                    Some(parts) => {
                        lemma_radiance_dim_unlit(parts.1, world, depth - 1, s, scattering.1);
                        lemma_shade_dim(
                            parts.0,
                            radiance_spec(parts.1, world, None, depth - 1, s, scattering.1).0,
                        );
                        if parts.2.raw > 0 {
                            lemma_div_self(parts.2);
                        }
                    },
                }
            },
        }
    }
}

/// Light without negative channels that leaves a surface without
/// negative colours, with a weight that is not negative, has no negative
/// channel.
pub proof fn lemma_shade_not_negative(
    emitted: Color,
    attenuation: Color,
    incoming: Color,
    weight: Fixed,
)
    requires
        not_negative(emitted),
        not_negative(attenuation),
        not_negative(incoming),
        weight.raw >= 0,
    ensures
        not_negative(shade_spec(emitted, attenuation, incoming, weight)),
{
    let through = attenuation.hadamard_spec(incoming);
    lemma_not_negative(attenuation.x, incoming.x);
    lemma_not_negative(attenuation.y, incoming.y);
    lemma_not_negative(attenuation.z, incoming.z);
    lemma_not_negative(through.x, weight);
    lemma_not_negative(through.y, weight);
    lemma_not_negative(through.z, weight);
    let weighted = through.scale_spec(weight);
    lemma_not_negative(emitted.x, weighted.x);
    lemma_not_negative(emitted.y, weighted.y);
    lemma_not_negative(emitted.z, weighted.z);
}

/// Radiance is never negative: in a scene whose materials have no
/// negative colours, with or without lights to sample, the radiance
/// estimated along any path has no negative channel.
pub proof fn lemma_radiance_not_negative(
    r: Ray,
    world: &Hittable,
    lights: Option<&Hittable>,
    depth: int,
    s: Seq<u32>,
    pos: nat,
)
    requires
        world.every_material(is_physical()),
    ensures
        not_negative(radiance_spec(r, world, lights, depth, s, pos).0),
    decreases depth,
{
    if depth > 0 {
        let found = world.hit_spec(r, Fixed { raw: SHADOW_BIAS_RAW }, Fixed { raw: RAW_MAX });
        match found {
            None => {
                lemma_background_dim(r);
            },
            Some(rec) => {
                world.lemma_hit_material(
                    is_physical(),
                    r,
                    Fixed { raw: SHADOW_BIAS_RAW },
                    Fixed { raw: RAW_MAX },
                );
                let emitted = rec.mat_ptr.emitted_spec(r, rec, rec.u, rec.v, rec.p);
                let scattering = rec.mat_ptr.scatter_spec(r, rec, s, pos);
                match scattering.0 {
                    None => {
                        rec.mat_ptr.lemma_physical_parts(r, rec, s, pos, r);
                    },
                    Some(parts) => {
                        if parts.2.raw == 0 {
                            rec.mat_ptr.lemma_physical_parts(r, rec, s, pos, parts.1);
                            lemma_radiance_not_negative(
                                parts.1,
                                world,
                                lights,
                                depth - 1,
                                s,
                                scattering.1,
                            );
                            lemma_shade_not_negative(
                                emitted,
                                parts.0,
                                radiance_spec(parts.1, world, lights, depth - 1, s, scattering.1).0,
                                Fixed::one_spec(),
                            );
                        } else {
                            let steering = steer_spec(
                                lights,
                                r,
                                rec,
                                parts.1,
                                parts.2,
                                s,
                                scattering.1,
                            );
                            rec.mat_ptr.lemma_physical_parts(r, rec, s, pos, steering.0);
                            if steering.1.raw > 0 {
                                let own = rec.mat_ptr.scattering_pdf_spec(r, rec, steering.0);
                                lemma_not_negative(own, steering.1);
                                lemma_radiance_not_negative(
                                    steering.0,
                                    world,
                                    lights,
                                    depth - 1,
                                    s,
                                    steering.2,
                                );
                                lemma_shade_not_negative(
                                    emitted,
                                    parts.0,
                                    radiance_spec(
                                        steering.0,
                                        world,
                                        lights,
                                        depth - 1,
                                        s,
                                        steering.2,
                                    ).0,
                                    own.div_spec(steering.1),
                                );
                            }
                        }
                    },
                }
            },
        }
    }
}

/// The 8-bit level of one channel of a pixel that sums `samples` samples:
/// the mean, gamma-corrected by a square root, brought into `[0, 0.999]`
/// and scaled by 255.999, rounded down.
pub open spec fn level_spec(sum: Fixed, samples: i32) -> int {
    sum.div_spec(Fixed::from_int_spec(samples as i64)).sqrt_spec().clamp_spec(
        Fixed::zero_spec(),
        Fixed { raw: BRIGHTEST_RAW },
    ).mul_spec(Fixed { raw: LEVELS_RAW }).trunc_spec()
}

/// What a ray sees that hits nothing.
pub fn background(r: Ray) -> (c: Color)
    ensures
        c == background_spec(r),
{
    let one = Fixed::one();
    let unit_direction = r.dir.to_unit();
    let t = Fixed { raw: HALF_RAW }.mul(unit_direction.y.add(one)).clamp(Fixed::zero(), one);
    let sky = Vec3 {
        x: Fixed { raw: SKY_RED_RAW },
        y: Fixed { raw: SKY_GREEN_RAW },
        z: Fixed { raw: SKY_BLUE_RAW },
    };
    Vec3::from_ints(1, 1, 1).scale(one.sub(t)).add(sky.scale(t))
}

/// The radiance that leaves a surface.
pub fn shade(emitted: Color, attenuation: Color, incoming: Color, weight: Fixed) -> (c: Color)
    ensures
        c == shade_spec(emitted, attenuation, incoming, weight),
{
    emitted.add(attenuation.hadamard(incoming).scale(weight))
}

/// Chooses the ray to follow from a surface that reports a density.
pub fn steer(
    lights: Option<&Hittable>,
    r_in: Ray,
    rec: &HitRecord,
    scattered: Ray,
    pdf: Fixed,
    rng: &mut RandomSource,
) -> (out: (Ray, Fixed))
    ensures
        continues(final(rng).history(), old(rng).history()),
        forall|s: Seq<u32>| #[trigger]
            continues(s, final(rng).history()) ==> steer_spec(
                lights,
                r_in,
                *rec,
                scattered,
                pdf,
                s,
                old(rng).history().len(),
            ) == (out.0, out.1, final(rng).history().len()),
{
    match lights {
        None => (scattered, pdf),
        Some(l) => {
            let half = Fixed { raw: HALF_RAW };
            let ghost h0 = rng.history();
            let coin = rng.next_unit();
            let ghost h1 = rng.history();
            let out = if coin.raw < HALF_RAW {
                Ray::new(rec.p, l.random(rec.p, rng), r_in.tm)
            } else {
                scattered
            };
            let density = half.mul(l.pdf_value(rec.p, out.dir)).add(
                half.mul(rec.mat_ptr.scattering_pdf(r_in, rec, out)),
            );
            proof {
                let h2 = rng.history();
                lemma_continues_trans(h2, h1, h0);
                assert forall|s: Seq<u32>| #[trigger] continues(s, h2) implies steer_spec(
                    lights,
                    r_in,
                    *rec,
                    scattered,
                    pdf,
                    s,
                    h0.len(),
                ) == (out, density, h2.len()) by {
                    lemma_continues_trans(s, h2, h1);
                }
            }
            (out, density)
        },
    }
}

/// Estimates the radiance that arrives along a ray.
pub fn ray_color(
    r: Ray,
    world: &Hittable,
    lights: Option<&Hittable>,
    depth: i32,
    rng: &mut RandomSource,
) -> (c: Color)
    ensures
        continues(final(rng).history(), old(rng).history()),
        forall|s: Seq<u32>| #[trigger]
            continues(s, final(rng).history()) ==> radiance_spec(
                r,
                world,
                lights,
                depth as int,
                s,
                old(rng).history().len(),
            ) == (c, final(rng).history().len()),
    decreases depth,
{
    if depth <= 0 {
        return Vec3::zero();
    }
    let rec = match world.hit(r, Fixed { raw: SHADOW_BIAS_RAW }, Fixed { raw: RAW_MAX }) {
        None => {
            return background(r);
        },
        Some(rec) => rec,
    };
    let ghost h0 = rng.history();
    let emitted = rec.mat_ptr.emitted(r, &rec, rec.u, rec.v, rec.p);
    let (attenuation, scattered, pdf) = match rec.mat_ptr.scatter(r, &rec, rng) {
        None => {
            return emitted;
        },
        Some(parts) => parts,
    };
    let ghost h1 = rng.history();
    if pdf.raw == 0 {
        let rest = ray_color(scattered, world, lights, depth - 1, rng);
        let c = shade(emitted, attenuation, rest, Fixed::one());
        proof {
            let h2 = rng.history();
            lemma_continues_trans(h2, h1, h0);
            assert forall|s: Seq<u32>| #[trigger] continues(s, h2) implies radiance_spec(
                r,
                world,
                lights,
                depth as int,
                s,
                h0.len(),
            ) == (c, h2.len()) by {
                lemma_continues_trans(s, h2, h1);
            }
        }
        return c;
    }
    let (out, density) = steer(lights, r, &rec, scattered, pdf, rng);
    let ghost h2 = rng.history();
    proof {
        lemma_continues_trans(h2, h1, h0);
    }
    if density.raw <= 0 {
        proof {
            assert forall|s: Seq<u32>| #[trigger] continues(s, h2) implies radiance_spec(
                r,
                world,
                lights,
                depth as int,
                s,
                h0.len(),
            ) == (emitted, h2.len()) by {
                lemma_continues_trans(s, h2, h1);
            }
        }
        return emitted;
    }
    let weight = rec.mat_ptr.scattering_pdf(r, &rec, out).div(density);
    let rest = ray_color(out, world, lights, depth - 1, rng);
    let c = shade(emitted, attenuation, rest, weight);
    proof {
        let h3 = rng.history();
        lemma_continues_trans(h3, h2, h0);
        assert forall|s: Seq<u32>| #[trigger] continues(s, h3) implies radiance_spec(
            r,
            world,
            lights,
            depth as int,
            s,
            h0.len(),
        ) == (c, h3.len()) by {
            lemma_continues_trans(s, h3, h2);
            lemma_continues_trans(s, h2, h1);
        }
    }
    c
}

/// The 8-bit level of one channel.
pub fn level(sum: Fixed, samples: i32) -> (l: u8)
    ensures
        l == level_spec(sum, samples),
{
    let bright = sum.div(Fixed::from_int(samples as i64)).sqrt().clamp(
        Fixed::zero(),
        Fixed { raw: BRIGHTEST_RAW },
    );
    let scaled = bright.mul(Fixed { raw: LEVELS_RAW });
    let whole: i64 = scaled.trunc();
    proof {
        let product = bright.raw * 255_999_000;
        assert(0 <= bright.raw <= 999_000);
        assert(0 <= product <= 255_743_001_000_000);
        assert(0 <= product / 1_000_000 <= 255_743_001);
        assert(scaled.raw == product / 1_000_000);
        assert(whole == scaled.raw / 1_000_000);
    }
    whole as u8
}

/// The pixel, in red, green and blue, of the sum of `samples_per_pixel`
/// samples.
pub fn write_color(pixel_color: Color, samples_per_pixel: i32) -> (rgb: [u8; 3])
    ensures
        rgb[0] == level_spec(pixel_color.x, samples_per_pixel),
        rgb[1] == level_spec(pixel_color.y, samples_per_pixel),
        rgb[2] == level_spec(pixel_color.z, samples_per_pixel),
{
    [
        level(pixel_color.x, samples_per_pixel),
        level(pixel_color.y, samples_per_pixel),
        level(pixel_color.z, samples_per_pixel),
    ]
}

/// What is rendered and how finely.
#[derive(Clone, Copy, Debug, PartialEq, Eq, Structural)]
pub struct Frame {
    /// Pixels per row.
    pub width: u32,
    /// Rows.
    pub height: u32,
    /// Paths traced per pixel.
    pub samples_per_pixel: i32,
    /// Segments per path, at most.
    pub max_depth: i32,
}

/// The coordinate in `[0, 1]` of a point `jitter` of the way from pixel
/// `index` to the next, along an axis of `extent` pixels:
/// `(index + jitter) / (extent - 1)`.
pub open spec fn view_coordinate_spec(index: u32, jitter: Fixed, extent: u32) -> Fixed {
    Fixed::from_int_spec(index as i64).add_spec(jitter).div_spec(
        Fixed::from_int_spec((extent as i64 - 1) as i64),
    )
}

/// The levels of each pixel of an image.
pub open spec fn levels_of(img: Seq<[u8; 3]>) -> Seq<Seq<int>> {
    Seq::new(img.len(), |k: int| seq![img[k][0] as int, img[k][1] as int, img[k][2] as int])
}

impl Frame {
    /// One sample of the pixel in column `x` of row `y`, rows counted
    /// from the bottom: two numbers of `[0, 1)` place the sample within
    /// the pixel, the camera casts a ray through it, and the estimator
    /// follows the ray.
    pub open spec fn sample_spec(
        self,
        cam: Camera,
        world: &Hittable,
        lights: Option<&Hittable>,
        x: u32,
        y: u32,
        s: Seq<u32>,
        pos: nat,
    ) -> (Color, nat) {
        let u = view_coordinate_spec(x, unit_of(word_at(s, pos)), self.width);
        let v = view_coordinate_spec(y, unit_of(word_at(s, pos + 1)), self.height);
        let cast = cam.get_ray_spec(u, v, s, pos + 2);
        radiance_spec(cast.0, world, lights, self.max_depth as int, s, cast.1)
    }

    /// The sum of the first `n` samples of a pixel.
    pub open spec fn sum_spec(
        self,
        cam: Camera,
        world: &Hittable,
        lights: Option<&Hittable>,
        x: u32,
        y: u32,
        n: int,
        s: Seq<u32>,
        pos: nat,
    ) -> (Color, nat)
        decreases n,
    {
        if n <= 0 {
            (Vec3::zero_spec(), pos)
        } else {
            let before = self.sum_spec(cam, world, lights, x, y, n - 1, s, pos);
            let last = self.sample_spec(cam, world, lights, x, y, s, before.1);
            (before.0.add_spec(last.0), last.1)
        }
    }

    /// The three levels of the pixel in column `x` of row `y`, rows
    /// counted from the bottom: the levels of the sum of
    /// `samples_per_pixel` samples. The definition is hidden from proofs
    /// that do not reveal it.
    #[verifier::opaque]
    pub open spec fn pixel_spec(
        self,
        cam: Camera,
        world: &Hittable,
        lights: Option<&Hittable>,
        x: u32,
        y: u32,
        s: Seq<u32>,
        pos: nat,
    ) -> (Seq<int>, nat) {
        let sum = self.sum_spec(cam, world, lights, x, y, self.samples_per_pixel as int, s, pos);
        (
            seq![
                level_spec(sum.0.x, self.samples_per_pixel),
                level_spec(sum.0.y, self.samples_per_pixel),
                level_spec(sum.0.z, self.samples_per_pixel),
            ],
            sum.1,
        )
    }

    /// The column of the pixel that is written as number `k`, counted
    /// from zero.
    pub open spec fn column_spec(self, k: int) -> u32 {
        (k % (self.width as int)) as u32
    }

    /// The row, counted from the bottom, of the pixel that is written as
    /// number `k`: the image is written from the top row down.
    pub open spec fn row_spec(self, k: int) -> u32 {
        (self.height - 1 - k / (self.width as int)) as u32
    }

    /// The first `n` pixels of the image, row by row from the top row,
    /// each row from left to right.
    pub open spec fn image_spec(
        self,
        cam: Camera,
        world: &Hittable,
        lights: Option<&Hittable>,
        n: int,
        s: Seq<u32>,
        pos: nat,
    ) -> (Seq<Seq<int>>, nat)
        decreases n,
    {
        if n <= 0 || self.width == 0 {
            (Seq::empty(), pos)
        } else {
            let before = self.image_spec(cam, world, lights, n - 1, s, pos);
            let last = self.pixel_spec(
                cam,
                world,
                lights,
                self.column_spec(n - 1),
                self.row_spec(n - 1),
                s,
                before.1,
            );
            (before.0.push(last.0), last.1)
        }
    }

    /// A frame of the given size and fineness.
    pub fn new(width: u32, height: u32, samples_per_pixel: i32, max_depth: i32) -> (f: Frame)
        ensures
            f == (Frame { width, height, samples_per_pixel, max_depth }),
    {
        Frame { width, height, samples_per_pixel, max_depth }
    }

    /// Traces one path through the pixel in column `x` of row `y`, rows
    /// counted from the bottom.
    pub fn sample(
        &self,
        cam: &Camera,
        world: &Hittable,
        lights: Option<&Hittable>,
        x: u32,
        y: u32,
        rng: &mut RandomSource,
    ) -> (c: Color)
        ensures
            continues(final(rng).history(), old(rng).history()),
            forall|s: Seq<u32>| #[trigger]
                continues(s, final(rng).history()) ==> self.sample_spec(
                    *cam,
                    world,
                    lights,
                    x,
                    y,
                    s,
                    old(rng).history().len(),
                ) == (c, final(rng).history().len()),
    {
        let ghost h0 = rng.history();
        let rand_u = rng.next_unit();
        let ghost h1 = rng.history();
        let rand_v = rng.next_unit();
        let ghost h2 = rng.history();
        let u = Fixed::from_int(x as i64).add(rand_u).div(Fixed::from_int(self.width as i64 - 1));
        let v = Fixed::from_int(y as i64).add(rand_v).div(Fixed::from_int(self.height as i64 - 1));
        let r = cam.get_ray(u, v, rng);
        let ghost h3 = rng.history();
        let c = ray_color(r, world, lights, self.max_depth, rng);
        proof {
            let h4 = rng.history();
            lemma_continues_trans(h2, h1, h0);
            lemma_continues_trans(h3, h2, h0);
            lemma_continues_trans(h4, h3, h0);
            assert forall|s: Seq<u32>| #[trigger] continues(s, h4) implies self.sample_spec(
                *cam,
                world,
                lights,
                x,
                y,
                s,
                h0.len(),
            ) == (c, h4.len()) by {
                lemma_continues_trans(s, h4, h3);
                lemma_continues_trans(s, h3, h2);
                lemma_continues_trans(s, h2, h1);
            }
        }
        c
    }

    /// Renders the pixel in column `x` of row `y`, rows counted from the
    /// bottom: the levels of the sum of `samples_per_pixel` samples.
    pub fn render_pixel(
        &self,
        cam: &Camera,
        world: &Hittable,
        lights: Option<&Hittable>,
        x: u32,
        y: u32,
        rng: &mut RandomSource,
    ) -> (rgb: [u8; 3])
        ensures
            continues(final(rng).history(), old(rng).history()),
            forall|s: Seq<u32>| #[trigger]
                continues(s, final(rng).history()) ==> self.pixel_spec(
                    *cam,
                    world,
                    lights,
                    x,
                    y,
                    s,
                    old(rng).history().len(),
                ) == (
                    seq![rgb[0] as int, rgb[1] as int, rgb[2] as int],
                    final(rng).history().len(),
                ),
    {
        let ghost h0 = rng.history();
        let mut pixel_color = Vec3::zero();
        let mut i: i32 = 0;
        while i < self.samples_per_pixel
            invariant
                h0 == old(rng).history(),
                0 <= i,
                i <= self.samples_per_pixel || i == 0,
                continues(rng.history(), h0),
                forall|s: Seq<u32>| #[trigger]
                    continues(s, rng.history()) ==> self.sum_spec(
                        *cam,
                        world,
                        lights,
                        x,
                        y,
                        i as int,
                        s,
                        h0.len(),
                    ) == (pixel_color, rng.history().len()),
            decreases self.samples_per_pixel - i,
        {
            let ghost h1 = rng.history();
            let ghost before = pixel_color;
            let c = self.sample(cam, world, lights, x, y, rng);
            pixel_color = pixel_color.add(c);
            i = i + 1;
            proof {
                let h2 = rng.history();
                lemma_continues_trans(h2, h1, h0);
                assert forall|s: Seq<u32>| #[trigger] continues(s, h2) implies self.sum_spec(
                    *cam,
                    world,
                    lights,
                    x,
                    y,
                    i as int,
                    s,
                    h0.len(),
                ) == (pixel_color, h2.len()) by {
                    lemma_continues_trans(s, h2, h1);
                }
            }
        }
        proof {
            reveal(Frame::pixel_spec);
            assert forall|s: Seq<u32>| #[trigger] continues(s, rng.history()) implies self.sum_spec(
                *cam,
                world,
                lights,
                x,
                y,
                self.samples_per_pixel as int,
                s,
                h0.len(),
            ) == (pixel_color, rng.history().len()) by {
                assert(self.sum_spec(*cam, world, lights, x, y, i as int, s, h0.len()) == (
                    pixel_color,
                    rng.history().len(),
                ));
            }
        }
        write_color(pixel_color, self.samples_per_pixel)
    }

    /// The column and the row, counted from the bottom, of the pixel that
    /// is written as number `k`.
    pub fn place(&self, k: u64) -> (at: (u32, u32))
        requires
            self.width > 0,
            k < self.width * self.height,
        ensures
            at.0 == self.column_spec(k as int),
            at.1 == self.row_spec(k as int),
            at.0 < self.width,
            at.1 < self.height,
    {
        let row: u64 = k / (self.width as u64);
        let x: u32 = (k % (self.width as u64)) as u32;
        assert(row < self.height) by (nonlinear_arith)
            requires
                row == k / (self.width as u64),
                k < self.width * self.height,
                self.width > 0,
        ;
        (x, self.height - 1 - (row as u32))
    }

    /// Renders the image: `width * height` pixels, row by row from the
    /// top row, each row from left to right.
    pub fn render(
        &self,
        cam: &Camera,
        world: &Hittable,
        lights: Option<&Hittable>,
        rng: &mut RandomSource,
    ) -> (img: Vec<[u8; 3]>)
        requires
            self.width * self.height <= usize::MAX,
        ensures
            img@.len() == self.width * self.height,
            continues(final(rng).history(), old(rng).history()),
            forall|s: Seq<u32>| #[trigger]
                continues(s, final(rng).history()) ==> self.image_spec(
                    *cam,
                    world,
                    lights,
                    self.width * self.height,
                    s,
                    old(rng).history().len(),
                ) == (levels_of(img@), final(rng).history().len()),
    {
        let ghost h0 = rng.history();
        let mut img: Vec<[u8; 3]> = Vec::new();
        if self.width == 0 {
            assert(levels_of(img@) =~= Seq::<Seq<int>>::empty());
            return img;
        }
        let total: u64 = (self.width as u64) * (self.height as u64);
        let mut k: u64 = 0;
        assert(levels_of(img@) =~= Seq::<Seq<int>>::empty());
        while k < total
            invariant
                h0 == old(rng).history(),
                self.width > 0,
                total == self.width * self.height,
                total <= usize::MAX,
                k <= total,
                img@.len() == k,
                continues(rng.history(), h0),
                forall|s: Seq<u32>| #[trigger]
                    continues(s, rng.history()) ==> self.image_spec(
                        *cam,
                        world,
                        lights,
                        k as int,
                        s,
                        h0.len(),
                    ) == (levels_of(img@), rng.history().len()),
            decreases total - k,
        {
            let ghost h1 = rng.history();
            let ghost before = img@;
            let (x, y) = self.place(k);
            let rgb = self.render_pixel(cam, world, lights, x, y, rng);
            img.push(rgb);
            k = k + 1;
            proof {
                let h2 = rng.history();
                lemma_continues_trans(h2, h1, h0);
                assert(levels_of(img@) =~= levels_of(before).push(
                    seq![rgb[0] as int, rgb[1] as int, rgb[2] as int],
                ));
                assert forall|s: Seq<u32>| #[trigger] continues(s, h2) implies self.image_spec(
                    *cam,
                    world,
                    lights,
                    k as int,
                    s,
                    h0.len(),
                ) == (levels_of(img@), h2.len()) by {
                    lemma_continues_trans(s, h2, h1);
                }
            }
        }
        img
    }
}

/// Rendering repeats: two renderings of one frame of one scene, each from
/// a source that had handed out nothing, whose words come from one stream
/// (so that the words of one rendering continue the words of the other)
/// draw the same words and give the same image.
pub proof fn lemma_render_repeats(
    frame: Frame,
    cam: Camera,
    world: &Hittable,
    lights: Option<&Hittable>,
    first_words: Seq<u32>,
    first_image: Seq<Seq<int>>,
    second_words: Seq<u32>,
    second_image: Seq<Seq<int>>,
)
    requires
        continues(first_words, second_words) || continues(second_words, first_words),
        forall|s: Seq<u32>| #[trigger]
            continues(s, first_words) ==> frame.image_spec(
                cam,
                world,
                lights,
                frame.width * frame.height,
                s,
                0,
            ) == (first_image, first_words.len()),
        forall|s: Seq<u32>| #[trigger]
            continues(s, second_words) ==> frame.image_spec(
                cam,
                world,
                lights,
                frame.width * frame.height,
                s,
                0,
            ) == (second_image, second_words.len()),
    ensures
        first_image == second_image,
        first_words == second_words,
{
    let longer = if continues(first_words, second_words) {
        first_words
    } else {
        second_words
    };
    assert(continues(longer, first_words));
    assert(continues(longer, second_words));
    assert(first_words.len() == second_words.len());
    assert(first_words =~= second_words);
}

} // verus!
