//! Materials: how a surface scatters, absorbs and emits light.
use vstd::prelude::*;
use std::sync::Arc;
use crate::fixed::{Fixed, PI_RAW, SCALE};
use crate::hittable::HitRecord;
use crate::onb::Onb;
use crate::random::{
    continues, cosine_direction_spec, in_unit_sphere_spec, random_cosine_direction,
    random_in_unit_sphere, unit_of, word_at, RandomSource, SAMPLE_TRIES,
};
use crate::ray::Ray;
use crate::texture::Texture;
use crate::vec3::{Color, Point3, Vec3};

verus! {

/// A diffuse surface.
pub struct Lambertian {
    pub albedo: Arc<Texture>,
}

/// A mirror, blurred by `fuzz` in `[0, 1]`.
pub struct Metal {
    pub albedo: Color,
    pub fuzz: Fixed,
}

/// A clear refracting medium with refractive index `ir`.
pub struct Dielectric {
    pub ir: Fixed,
}

/// A surface that emits light from its front side and scatters none.
pub struct DiffuseLight {
    pub emit: Arc<Texture>,
}

/// A medium that scatters evenly in all directions.
pub struct Isotropic {
    pub albedo: Arc<Texture>,
}

/// A material of one of the five kinds.
pub enum Material {
    Lambertian(Lambertian),
    Metal(Metal),
    Dielectric(Dielectric),
    DiffuseLight(DiffuseLight),
    Isotropic(Isotropic),
}

/// Every channel of the colour lies in `[0, 1]`.
pub open spec fn dim(c: Color) -> bool {
    &&& 0 <= c.x.raw <= SCALE
    &&& 0 <= c.y.raw <= SCALE
    &&& 0 <= c.z.raw <= SCALE
}

/// No channel of the colour is negative.
pub open spec fn not_negative(c: Color) -> bool {
    &&& 0 <= c.x.raw
    &&& 0 <= c.y.raw
    &&& 0 <= c.z.raw
}

/// The test for [`Material::passive`].
pub open spec fn is_passive() -> spec_fn(Material) -> bool {
    |m: Material| m.passive()
}

/// The test for [`Material::lossy`].
pub open spec fn is_lossy() -> spec_fn(Material) -> bool {
    |m: Material| m.lossy()
}

/// The test for [`Material::physical`].
pub open spec fn is_physical() -> spec_fn(Material) -> bool {
    |m: Material| m.physical()
}

/// White: the attenuation of a medium that absorbs nothing.
pub open spec fn white_spec() -> Color {
    Vec3::from_ints_spec(1, 1, 1)
}

/// Schlick's approximation of the reflectance of a surface between media
/// with refractive index ratio `ref_idx`, at cosine `cos` of the angle of
/// incidence: `r0 + (1 - r0) (1 - cos)^5` with
/// `r0 = ((1 - ref_idx) / (1 + ref_idx))^2`.
pub open spec fn reflectance_spec(cos: Fixed, ref_idx: Fixed) -> Fixed {
    let one = Fixed::one_spec();
    let q = one.sub_spec(ref_idx).div_spec(one.add_spec(ref_idx));
    let r0 = q.mul_spec(q);
    let c = one.sub_spec(cos);
    let c5 = c.mul_spec(c).mul_spec(c).mul_spec(c).mul_spec(c);
    r0.add_spec(one.sub_spec(r0).mul_spec(c5))
}

impl Lambertian {
    /// What a diffuse surface does with a ray, given the direction `d`
    /// sampled about the `z` axis: the albedo at the hit point, the ray
    /// from the hit point along `d` carried into the normal's frame and
    /// scaled to unit length, and the density of that direction, its
    /// cosine to the normal over pi. The density is the one that
    /// [`Lambertian::scattering_pdf_spec`] gives for the scattered ray, so
    /// that a ray weighted by one over the other is weighted by one.
    pub open spec fn scatter_toward_spec(&self, r_in: Ray, rec: HitRecord, d: Vec3) -> (
        Color,
        Ray,
        Fixed,
    ) {
        let uvw = Onb::build_from_w_spec(rec.normal);
        let scattered = Ray {
            orig: rec.p,
            dir: uvw.local_vec_spec(d).to_unit_spec(),
            tm: r_in.tm,
        };
        (
            self.albedo.value_spec(rec.u, rec.v, rec.p),
            scattered,
            self.scattering_pdf_spec(r_in, rec, scattered),
        )
    }

    /// Scattering with a cosine-weighted direction read from the stream.
    pub open spec fn scatter_spec(&self, r_in: Ray, rec: HitRecord, s: Seq<u32>, pos: nat) -> (
        Option<(Color, Ray, Fixed)>,
        nat,
    ) {
        let (d, next) = cosine_direction_spec(s, pos);
        (Some(self.scatter_toward_spec(r_in, rec, d)), next)
    }

    /// The density with which a diffuse surface scatters into the direction
    /// of `scattered`: the cosine to the normal over pi, and zero below the
    /// surface.
    pub open spec fn scattering_pdf_spec(&self, r_in: Ray, rec: HitRecord, scattered: Ray) -> Fixed {
        let cosine = rec.normal.dot_spec(scattered.dir.to_unit_spec());
        if cosine.raw < 0 {
            Fixed::zero_spec()
        } else {
            cosine.div_spec(Fixed { raw: PI_RAW })
        }
    }

    /// A diffuse surface of one colour.
    pub fn new(a: Color) -> (m: Lambertian)
        ensures
            *m.albedo == Texture::solid_spec(a),
    {
        Lambertian { albedo: Arc::new(Texture::solid(a)) }
    }

    /// A diffuse surface with a shared texture.
    pub fn new_arc(albedo: Arc<Texture>) -> (m: Lambertian)
        ensures
            m.albedo == albedo,
    {
        Lambertian { albedo }
    }

    /// Scatters along the direction `d`, sampled about the `z` axis.
    pub fn scatter_toward(&self, r_in: Ray, rec: &HitRecord, d: Vec3) -> (out: (Color, Ray, Fixed))
        ensures
            out == self.scatter_toward_spec(r_in, *rec, d),
    {
        let uvw = Onb::build_from_w(rec.normal);
        let direction = uvw.local_vec(d);
        let scattered = Ray::new(rec.p, direction.to_unit(), r_in.tm);
        let alb = self.albedo.value(rec.u, rec.v, rec.p);
        let pdf = self.scattering_pdf(r_in, rec, scattered);
        (alb, scattered, pdf)
    }

    /// Scatters along a cosine-weighted random direction about the normal.
    pub fn scatter(&self, r_in: Ray, rec: &HitRecord, rng: &mut RandomSource) -> (out: Option<
        (Color, Ray, Fixed),
    >)
        ensures
            continues(final(rng).history(), old(rng).history()),
            forall|s: Seq<u32>| #[trigger]
                continues(s, final(rng).history()) ==> self.scatter_spec(
                    r_in,
                    *rec,
                    s,
                    old(rng).history().len(),
                ) == (out, final(rng).history().len()),
    {
        let d = random_cosine_direction(rng);
        Some(self.scatter_toward(r_in, rec, d))
    }

    /// The density with which the surface scatters into the direction of
    /// `scattered`.
    pub fn scattering_pdf(&self, r_in: Ray, rec: &HitRecord, scattered: Ray) -> (pdf: Fixed)
        ensures
            pdf == self.scattering_pdf_spec(r_in, *rec, scattered),
    {
        let cosine = rec.normal.dot(scattered.dir.to_unit());
        if cosine.raw < 0 {
            Fixed::zero()
        } else {
            cosine.div(Fixed { raw: PI_RAW })
        }
    }
}

impl Metal {
    /// What a mirror does with a ray, given the perturbation `blur` from
    /// the unit ball: the incoming direction, scaled to unit length and
    /// mirrored about the normal, plus `fuzz` times `blur`. A ray that
    /// would leave below the surface is absorbed. The density is reported
    /// as zero: the direction is not sampled against lights.
    pub open spec fn scatter_with_spec(&self, r_in: Ray, rec: HitRecord, blur: Vec3) -> Option<
        (Color, Ray, Fixed),
    > {
        let reflected = r_in.dir.to_unit_spec().reflect_spec(rec.normal);
        let scattered = Ray {
            orig: rec.p,
            dir: reflected.add_spec(blur.scale_spec(self.fuzz)),
            tm: r_in.tm,
        };
        if scattered.dir.dot_spec(rec.normal).raw > 0 {
            Some((self.albedo, scattered, Fixed::zero_spec()))
        } else {
            None
        }
    }

    /// Scattering with a perturbation read from the stream.
    pub open spec fn scatter_spec(&self, r_in: Ray, rec: HitRecord, s: Seq<u32>, pos: nat) -> (
        Option<(Color, Ray, Fixed)>,
        nat,
    ) {
        let (blur, next) = in_unit_sphere_spec(s, pos, SAMPLE_TRIES as nat);
        (self.scatter_with_spec(r_in, rec, blur), next)
    }

    /// A mirror of colour `a`; a fuzz of one or more counts as one.
    pub fn new(a: Color, f: Fixed) -> (m: Metal)
        ensures
            m.albedo == a,
            m.fuzz == (if f.raw < SCALE {
                f
            } else {
                Fixed::one_spec()
            }),
    {
        Metal {
            albedo: a,
            fuzz: if f.raw < SCALE {
                f
            } else {
                Fixed::one()
            },
        }
    }

    /// Mirrors the ray, perturbed by `fuzz` times `blur`.
    pub fn scatter_with(&self, r_in: Ray, rec: &HitRecord, blur: Vec3) -> (out: Option<
        (Color, Ray, Fixed),
    >)
        ensures
            out == self.scatter_with_spec(r_in, *rec, blur),
    {
        let reflected = r_in.dir.to_unit().reflect(rec.normal);
        let scattered = Ray::new(rec.p, reflected.add(blur.scale(self.fuzz)), r_in.tm);
        if scattered.dir.dot(rec.normal).raw > 0 {
            Some((self.albedo, scattered, Fixed::zero()))
        } else {
            None
        }
    }

    /// Mirrors the ray, perturbed by `fuzz` times a random point of the
    /// unit ball.
    pub fn scatter(&self, r_in: Ray, rec: &HitRecord, rng: &mut RandomSource) -> (out: Option<
        (Color, Ray, Fixed),
    >)
        ensures
            continues(final(rng).history(), old(rng).history()),
            forall|s: Seq<u32>| #[trigger]
                continues(s, final(rng).history()) ==> self.scatter_spec(
                    r_in,
                    *rec,
                    s,
                    old(rng).history().len(),
                ) == (out, final(rng).history().len()),
    {
        let blur = random_in_unit_sphere(rng);
        self.scatter_with(r_in, rec, blur)
    }
}

impl Dielectric {
    /// What a refracting medium does with a ray, given the number `chance`
    /// from `[0, 1)`. The ratio of refractive indices is `1 / ir` on the
    /// way in and `ir` on the way out. The ray is mirrored where Snell's
    /// law has no solution (`ratio * sin > 1`) or where the reflectance
    /// exceeds `chance`, and refracted otherwise. Nothing is absorbed.
    pub open spec fn scatter_with_spec(&self, r_in: Ray, rec: HitRecord, chance: Fixed) -> (
        Color,
        Ray,
        Fixed,
    ) {
        let one = Fixed::one_spec();
        let ratio = if rec.front_face {
            one.div_spec(self.ir)
        } else {
            self.ir
        };
        let unit_direction = r_in.dir.to_unit_spec();
        let cos_theta = unit_direction.neg_spec().dot_spec(rec.normal).min_spec(one);
        let sin_theta = one.sub_spec(cos_theta.mul_spec(cos_theta)).sqrt_spec();
        let cannot_refract = ratio.mul_spec(sin_theta).raw > SCALE;
        let direction = if cannot_refract || reflectance_spec(cos_theta, ratio).raw > chance.raw {
            unit_direction.reflect_spec(rec.normal)
        } else {
            unit_direction.refract_spec(rec.normal, ratio)
        };
        (white_spec(), Ray { orig: rec.p, dir: direction, tm: r_in.tm }, Fixed::zero_spec())
    }

    /// Scattering with the chance read from the stream.
    pub open spec fn scatter_spec(&self, r_in: Ray, rec: HitRecord, s: Seq<u32>, pos: nat) -> (
        Option<(Color, Ray, Fixed)>,
        nat,
    ) {
        (Some(self.scatter_with_spec(r_in, rec, unit_of(word_at(s, pos)))), pos + 1)
    }

    /// A medium of the given refractive index.
    pub fn new(index_of_refraction: Fixed) -> (m: Dielectric)
        ensures
            m.ir == index_of_refraction,
    {
        Dielectric { ir: index_of_refraction }
    }

    /// Schlick's approximation of the reflectance.
    pub fn reflectance(cos: Fixed, ref_idx: Fixed) -> (r: Fixed)
        ensures
            r == reflectance_spec(cos, ref_idx),
    {
        let one = Fixed::one();
        let q = one.sub(ref_idx).div(one.add(ref_idx));
        let r0 = q.mul(q);
        let c = one.sub(cos);
        let c5 = c.mul(c).mul(c).mul(c).mul(c);
        r0.add(one.sub(r0).mul(c5))
    }

    /// Mirrors or refracts the ray, as `chance` decides.
    pub fn scatter_with(&self, r_in: Ray, rec: &HitRecord, chance: Fixed) -> (out: (
        Color,
        Ray,
        Fixed,
    ))
        ensures
            out == self.scatter_with_spec(r_in, *rec, chance),
    {
        let one = Fixed::one();
        let ratio = if rec.front_face {
            one.div(self.ir)
        } else {
            self.ir
        };
        let unit_direction = r_in.dir.to_unit();
        let cos_theta = unit_direction.neg().dot(rec.normal).min(one);
        let sin_theta = one.sub(cos_theta.mul(cos_theta)).sqrt();
        let cannot_refract = ratio.mul(sin_theta).raw > SCALE;
        let direction = if cannot_refract || Dielectric::reflectance(cos_theta, ratio).raw
            > chance.raw {
            unit_direction.reflect(rec.normal)
        } else {
            unit_direction.refract(rec.normal, ratio)
        };
        (Vec3::from_ints(1, 1, 1), Ray::new(rec.p, direction, r_in.tm), Fixed::zero())
    }

    /// Mirrors or refracts the ray, as a random number decides.
    pub fn scatter(&self, r_in: Ray, rec: &HitRecord, rng: &mut RandomSource) -> (out: Option<
        (Color, Ray, Fixed),
    >)
        ensures
            continues(final(rng).history(), old(rng).history()),
            forall|s: Seq<u32>| #[trigger]
                continues(s, final(rng).history()) ==> self.scatter_spec(
                    r_in,
                    *rec,
                    s,
                    old(rng).history().len(),
                ) == (out, final(rng).history().len()),
    {
        let chance = rng.next_unit();
        Some(self.scatter_with(r_in, rec, chance))
    }
}

impl DiffuseLight {
    /// The light's colour at `(u, v, p)` on its front side, black on its
    /// back side.
    pub open spec fn emitted_spec(&self, rec: HitRecord, u: Fixed, v: Fixed, p: Point3) -> Color {
        if rec.front_face {
            self.emit.value_spec(u, v, p)
        } else {
            Vec3::zero_spec()
        }
    }

    /// A light of one colour.
    pub fn new(c: Color) -> (m: DiffuseLight)
        ensures
            *m.emit == Texture::solid_spec(c),
    {
        DiffuseLight { emit: Arc::new(Texture::solid(c)) }
    }

    /// A light with a shared texture.
    pub fn new_arc(emit: Arc<Texture>) -> (m: DiffuseLight)
        ensures
            m.emit == emit,
    {
        DiffuseLight { emit }
    }

    /// A light scatters nothing.
    pub fn scatter(&self, r_in: Ray, rec: &HitRecord) -> (out: Option<(Color, Ray, Fixed)>)
        ensures
            out is None,
    {
        None
    }

    /// What the light emits toward a ray that hit it.
    pub fn emitted(&self, r_in: Ray, rec: &HitRecord, u: Fixed, v: Fixed, p: Point3) -> (c: Color)
        ensures
            c == self.emitted_spec(*rec, u, v, p),
    {
        if rec.front_face {
            self.emit.value(u, v, p)
        } else {
            Vec3::zero()
        }
    }
}

impl Isotropic {
    /// What the medium does with a ray, given the point `d` of the unit
    /// ball: the albedo at the hit point and a ray along `d`. The density
    /// is reported as zero.
    pub open spec fn scatter_with_spec(&self, r_in: Ray, rec: HitRecord, d: Vec3) -> (
        Color,
        Ray,
        Fixed,
    ) {
        (
            self.albedo.value_spec(rec.u, rec.v, rec.p),
            Ray { orig: rec.p, dir: d, tm: r_in.tm },
            Fixed::zero_spec(),
        )
    }

    /// Scattering with a direction read from the stream.
    pub open spec fn scatter_spec(&self, r_in: Ray, rec: HitRecord, s: Seq<u32>, pos: nat) -> (
        Option<(Color, Ray, Fixed)>,
        nat,
    ) {
        let (d, next) = in_unit_sphere_spec(s, pos, SAMPLE_TRIES as nat);
        (Some(self.scatter_with_spec(r_in, rec, d)), next)
    }

    /// A medium of one colour.
    pub fn new(c: Color) -> (m: Isotropic)
        ensures
            *m.albedo == Texture::solid_spec(c),
    {
        Isotropic { albedo: Arc::new(Texture::solid(c)) }
    }

    /// A medium with a shared texture.
    pub fn new_arc(a: Arc<Texture>) -> (m: Isotropic)
        ensures
            m.albedo == a,
    {
        Isotropic { albedo: a }
    }

    /// Scatters along `d`.
    pub fn scatter_with(&self, r_in: Ray, rec: &HitRecord, d: Vec3) -> (out: (Color, Ray, Fixed))
        ensures
            out == self.scatter_with_spec(r_in, *rec, d),
    {
        (self.albedo.value(rec.u, rec.v, rec.p), Ray::new(rec.p, d, r_in.tm), Fixed::zero())
    }

    /// Scatters along a random point of the unit ball.
    pub fn scatter(&self, r_in: Ray, rec: &HitRecord, rng: &mut RandomSource) -> (out: Option<
        (Color, Ray, Fixed),
    >)
        ensures
            continues(final(rng).history(), old(rng).history()),
            forall|s: Seq<u32>| #[trigger]
                continues(s, final(rng).history()) ==> self.scatter_spec(
                    r_in,
                    *rec,
                    s,
                    old(rng).history().len(),
                ) == (out, final(rng).history().len()),
    {
        let d = random_in_unit_sphere(rng);
        Some(self.scatter_with(r_in, rec, d))
    }
}

impl Material {
    /// What the material does with a ray that hit it, reading its random
    /// numbers from the stream `s` at `pos`: the attenuation, the
    /// scattered ray and the density of its direction, or nothing where
    /// the ray is absorbed; and the position in the stream afterwards.
    pub open spec fn scatter_spec(&self, r_in: Ray, rec: HitRecord, s: Seq<u32>, pos: nat) -> (
        Option<(Color, Ray, Fixed)>,
        nat,
    ) {
        match self {
            Material::Lambertian(m) => m.scatter_spec(r_in, rec, s, pos),
            Material::Metal(m) => m.scatter_spec(r_in, rec, s, pos),
            Material::Dielectric(m) => m.scatter_spec(r_in, rec, s, pos),
            Material::DiffuseLight(_) => (None, pos),
            Material::Isotropic(m) => m.scatter_spec(r_in, rec, s, pos),
        }
    }

    /// The density with which the material itself scatters into the
    /// direction of `scattered`; zero for every kind but the diffuse one.
    pub open spec fn scattering_pdf_spec(&self, r_in: Ray, rec: HitRecord, scattered: Ray) -> Fixed {
        match self {
            Material::Lambertian(m) => m.scattering_pdf_spec(r_in, rec, scattered),
            _ => Fixed::zero_spec(),
        }
    }

    /// The light that the material emits; black for every kind but the
    /// light.
    pub open spec fn emitted_spec(&self, r_in: Ray, rec: HitRecord, u: Fixed, v: Fixed, p: Point3) -> Color {
        match self {
            Material::DiffuseLight(m) => m.emitted_spec(rec, u, v, p),
            _ => Vec3::zero_spec(),
        }
    }

    /// The material emits nothing, reports no density for the rays it
    /// scatters, and attenuates by a colour with channels in `[0, 1]`: a
    /// mirror or an even scatterer of such a colour, or a refracting
    /// medium.
    pub open spec fn passive(&self) -> bool {
        match self {
            Material::Metal(m) => dim(m.albedo),
            Material::Dielectric(_) => true,
            Material::Isotropic(m) => match *m.albedo {
                Texture::Solid(c) => dim(c.color_value),
            },
            _ => false,
        }
    }

    /// The material emits nothing and attenuates by a colour with channels
    /// in `[0, 1]`: any material but a light, of such a colour.
    pub open spec fn lossy(&self) -> bool {
        match self {
            Material::Lambertian(m) => match *m.albedo {
                Texture::Solid(c) => dim(c.color_value),
            },
            Material::Metal(m) => dim(m.albedo),
            Material::Dielectric(_) => true,
            Material::DiffuseLight(_) => false,
            Material::Isotropic(m) => match *m.albedo {
                Texture::Solid(c) => dim(c.color_value),
            },
        }
    }

    /// A lossy material emits nothing, and what it scatters it attenuates
    /// by a colour with channels in `[0, 1]`, with no density reported or
    /// with its own density for the scattered ray.
    pub proof fn lemma_lossy_scatter(&self, r_in: Ray, rec: HitRecord, s: Seq<u32>, pos: nat)
        requires
            self.lossy(),
        ensures
            self.emitted_spec(r_in, rec, rec.u, rec.v, rec.p) == Vec3::zero_spec(),
            self.scatter_spec(r_in, rec, s, pos).0 matches Some(parts) ==> dim(parts.0) && (
            parts.2.raw == 0 || parts.2 == self.scattering_pdf_spec(r_in, rec, parts.1)),
    {
    }

    /// No colour of the material has a negative channel.
    pub open spec fn physical(&self) -> bool {
        match self {
            Material::Lambertian(m) => match *m.albedo {
                Texture::Solid(c) => not_negative(c.color_value),
            },
            Material::Metal(m) => not_negative(m.albedo),
            Material::Dielectric(_) => true,
            Material::DiffuseLight(m) => match *m.emit {
                Texture::Solid(c) => not_negative(c.color_value),
            },
            Material::Isotropic(m) => match *m.albedo {
                Texture::Solid(c) => not_negative(c.color_value),
            },
        }
    }

    /// What a material without negative colours emits and what it
    /// attenuates by has no negative channel, and no density of any material
    /// is negative.
    pub proof fn lemma_physical_parts(
        &self,
        r_in: Ray,
        rec: HitRecord,
        s: Seq<u32>,
        pos: nat,
        scattered: Ray,
    )
        requires
            self.physical(),
        ensures
            not_negative(self.emitted_spec(r_in, rec, rec.u, rec.v, rec.p)),
            self.scatter_spec(r_in, rec, s, pos).0 matches Some(parts) ==> not_negative(parts.0),
            self.scattering_pdf_spec(r_in, rec, scattered).raw >= 0,
    {
        let cosine = rec.normal.dot_spec(scattered.dir.to_unit_spec());
        if cosine.raw >= 0 {
            crate::fixed::lemma_not_negative(cosine, Fixed { raw: PI_RAW });
        }
    }

    /// A passive material emits nothing, and what it scatters it
    /// attenuates by a colour with channels in `[0, 1]`, with no density
    /// reported.
    pub proof fn lemma_passive_scatter(&self, r_in: Ray, rec: HitRecord, s: Seq<u32>, pos: nat)
        requires
            self.passive(),
        ensures
            self.emitted_spec(r_in, rec, rec.u, rec.v, rec.p) == Vec3::zero_spec(),
            self.scatter_spec(r_in, rec, s, pos).0 matches Some(parts) ==> dim(parts.0)
                && parts.2.raw == 0,
    {
    }

    /// What the material does with a ray that hit it: the attenuation, the
    /// scattered ray and the density of its direction, or nothing where the
    /// ray is absorbed.
    pub fn scatter(&self, r_in: Ray, rec: &HitRecord, rng: &mut RandomSource) -> (out: Option<
        (Color, Ray, Fixed),
    >)
        ensures
            continues(final(rng).history(), old(rng).history()),
            forall|s: Seq<u32>| #[trigger]
                continues(s, final(rng).history()) ==> self.scatter_spec(
                    r_in,
                    *rec,
                    s,
                    old(rng).history().len(),
                ) == (out, final(rng).history().len()),
    {
        match self {
            Material::Lambertian(m) => m.scatter(r_in, rec, rng),
            Material::Metal(m) => m.scatter(r_in, rec, rng),
            Material::Dielectric(m) => m.scatter(r_in, rec, rng),
            Material::DiffuseLight(m) => m.scatter(r_in, rec),
            Material::Isotropic(m) => m.scatter(r_in, rec, rng),
        }
    }

    /// The density with which the material itself scatters into the
    /// direction of `scattered`.
    pub fn scattering_pdf(&self, r_in: Ray, rec: &HitRecord, scattered: Ray) -> (pdf: Fixed)
        ensures
            pdf == self.scattering_pdf_spec(r_in, *rec, scattered),
    {
        match self {
            Material::Lambertian(m) => m.scattering_pdf(r_in, rec, scattered),
            _ => Fixed::zero(),
        }
    }

    /// The light that the material emits toward a ray that hit it.
    pub fn emitted(&self, r_in: Ray, rec: &HitRecord, u: Fixed, v: Fixed, p: Point3) -> (c: Color)
        ensures
            c == self.emitted_spec(r_in, *rec, u, v, p),
    {
        match self {
            Material::DiffuseLight(m) => m.emitted(r_in, rec, u, v, p),
            _ => Vec3::zero(),
        }
    }
}

} // verus!
