use raytracer::fixed::{Fixed, RAW_MAX};
use raytracer::hittable::HitRecord;
use raytracer::material::{Dielectric, DiffuseLight, Isotropic, Lambertian, Material, Metal};
use raytracer::random::{
    cone_direction, lift_to_hemisphere, random_cosine_direction, random_in_unit_disk,
    random_in_unit_sphere, random_to_sphere, signed_unit_from_word, unit_from_word, RandomSource,
};
use raytracer::ray::Ray;
use raytracer::sphere::Sphere;
use raytracer::texture::{SolidColor, Texture};
use raytracer::vec3::Vec3;
use std::sync::Arc;

fn fx(raw: i64) -> Fixed {
    Fixed::from_raw(raw)
}

fn v3(x: i64, y: i64, z: i64) -> Vec3 {
    Vec3::new(fx(x), fx(y), fx(z))
}

fn record<'a>(normal: Vec3, front_face: bool, mat: &'a Material) -> HitRecord<'a> {
    HitRecord::new(
        Vec3::from_ints(1, 2, 3),
        normal,
        Fixed::from_int(4),
        fx(250_000),
        fx(750_000),
        front_face,
        mat,
    )
}

fn placeholder() -> Material {
    Material::Dielectric(Dielectric::new(fx(1_500_000)))
}

#[test]
fn words_become_numbers_of_the_unit_interval() {
    assert_eq!(unit_from_word(0).raw, 0);
    assert_eq!(unit_from_word(u32::MAX).raw, 999_999);
    assert_eq!(unit_from_word(1 << 31).raw, 500_000);
    assert_eq!(unit_from_word(1 << 30).raw, 250_000);
    assert_eq!(signed_unit_from_word(0).raw, -1_000_000);
    assert_eq!(signed_unit_from_word(u32::MAX).raw, 999_998);
    assert_eq!(signed_unit_from_word(1 << 31).raw, 0);
}

#[test]
fn sources_of_one_seed_hand_out_the_same_words() {
    let mut a = RandomSource::from_seed(7);
    let mut b = RandomSource::from_seed(7);
    let mut differ = false;
    let first = a.next_u32();
    assert_eq!(first, b.next_u32());
    for _ in 0..64 {
        let w = a.next_u32();
        assert_eq!(w, b.next_u32());
        differ = differ || w != first;
    }
    assert!(differ);
}

#[test]
fn sources_of_other_seeds_hand_out_other_words() {
    let mut a = RandomSource::from_seed(1);
    let mut b = RandomSource::from_seed(2);
    let same = (0..16).all(|_| a.next_u32() == b.next_u32());
    assert!(!same);
}

#[test]
fn drawn_numbers_lie_in_their_intervals() {
    let mut rng = RandomSource::from_seed(11);
    for _ in 0..200 {
        let u = rng.next_unit();
        assert!(0 <= u.raw && u.raw < 1_000_000);
        let s = rng.next_signed_unit();
        assert!(-1_000_000 <= s.raw && s.raw < 1_000_000);
        let c = rng.next_cube_point();
        assert!(-1_000_000 <= c.z.raw && c.z.raw < 1_000_000);
        let q = rng.next_square_point();
        assert_eq!(q.z.raw, 0);
    }
}

#[test]
fn rejection_samples_lie_inside_the_unit_sphere() {
    let mut rng = RandomSource::from_seed(3);
    for _ in 0..200 {
        let p = random_in_unit_sphere(&mut rng);
        assert!(p.length_sqr().raw < 1_000_000);
        let d = random_in_unit_disk(&mut rng);
        assert!(d.length_sqr().raw < 1_000_000);
        assert_eq!(d.z.raw, 0);
        let c = random_cosine_direction(&mut rng);
        assert!(c.z.raw >= 0);
    }
}

#[test]
fn disk_points_are_lifted_to_the_hemisphere() {
    assert_eq!(lift_to_hemisphere(v3(600_000, 0, 0)), v3(600_000, 0, 800_000));
    assert_eq!(lift_to_hemisphere(v3(300_000, 400_000, 0)), v3(300_000, 400_000, 866_025));
    assert_eq!(lift_to_hemisphere(Vec3::zero()), Vec3::from_ints(0, 0, 1));
}

#[test]
fn cone_directions() {
    let one = Fixed::one();
    let far = Fixed::from_int(25);
    assert_eq!(
        cone_direction(one, far, fx(500_000), v3(600_000, 800_000, 0)),
        v3(85_068, 113_424, 989_898)
    );
    assert_eq!(cone_direction(one, far, fx(500_000), Vec3::zero()), v3(141_781, 0, 989_898));
    assert_eq!(cone_direction(one, far, fx(0), Vec3::from_ints(1, 0, 0)), Vec3::from_ints(0, 0, 1));
}

#[test]
fn directions_toward_a_sphere_stay_in_its_cone() {
    let mut rng = RandomSource::from_seed(5);
    for _ in 0..100 {
        let d = random_to_sphere(Fixed::one(), Fixed::from_int(25), &mut rng);
        assert!(d.z.raw >= 979_795 && d.z.raw <= 1_000_000);
    }
    let s = Sphere::new(
        Vec3::from_ints(0, 0, -5),
        Fixed::one(),
        Arc::new(Material::DiffuseLight(DiffuseLight::new(Vec3::from_ints(4, 4, 4)))),
    );
    for _ in 0..100 {
        let d = s.random(Vec3::zero(), &mut rng);
        assert!(d.z.raw <= -979_000);
    }
}

#[test]
fn solid_texture_has_one_colour_everywhere() {
    let c = v3(100_000, 200_000, 300_000);
    let s = SolidColor::new(c);
    assert_eq!(s.value(fx(0), fx(0), Vec3::zero()), c);
    let t = Texture::solid(c);
    assert_eq!(t.value(fx(900_000), fx(100_000), Vec3::from_ints(5, 6, 7)), c);
    assert_eq!(t, Texture::Solid(s));
}

#[test]
fn metal_fuzz_is_capped_at_one() {
    let a = Vec3::from_ints(1, 1, 1);
    assert_eq!(Metal::new(a, fx(300_000)).fuzz.raw, 300_000);
    assert_eq!(Metal::new(a, fx(1_000_000)).fuzz.raw, 1_000_000);
    assert_eq!(Metal::new(a, fx(7_000_000)).fuzz.raw, 1_000_000);
    assert_eq!(Metal::new(a, fx(0)).albedo, a);
}

#[test]
fn metal_mirrors_the_ray() {
    let own = placeholder();
    let rec = record(Vec3::from_ints(0, 1, 0), true, &own);
    let r_in = Ray::new(Vec3::zero(), Vec3::from_ints(1, -1, 0), fx(125_000));
    let albedo = v3(800_000, 600_000, 200_000);
    let m = Metal::new(albedo, fx(0));
    let (attenuation, scattered, pdf) = m.scatter_with(r_in, &rec, v3(0, 500_000, 0)).unwrap();
    assert_eq!(attenuation, albedo);
    assert_eq!(scattered.orig, rec.p);
    assert_eq!(scattered.dir, v3(707_107, 707_107, 0));
    assert_eq!(scattered.tm.raw, 125_000);
    assert_eq!(pdf.raw, 0);
}

#[test]
fn metal_fuzz_perturbs_the_mirrored_ray() {
    let own = placeholder();
    let rec = record(Vec3::from_ints(0, 1, 0), true, &own);
    let r_in = Ray::new(Vec3::zero(), Vec3::from_ints(1, -1, 0), Fixed::zero());
    let m = Metal::new(Vec3::from_ints(1, 1, 1), fx(500_000));
    let (_, scattered, _) = m.scatter_with(r_in, &rec, v3(0, 500_000, 0)).unwrap();
    assert_eq!(scattered.dir, v3(707_107, 957_107, 0));
}

#[test]
fn metal_absorbs_what_would_leave_below_the_surface() {
    let own = placeholder();
    let rec = record(Vec3::from_ints(0, 1, 0), true, &own);
    let r_in = Ray::new(Vec3::zero(), Vec3::from_ints(0, 1, 0), Fixed::zero());
    let m = Metal::new(Vec3::from_ints(1, 1, 1), fx(0));
    assert!(m.scatter_with(r_in, &rec, Vec3::zero()).is_none());
    let grazing = Ray::new(Vec3::zero(), Vec3::from_ints(1, 0, 0), Fixed::zero());
    assert!(m.scatter_with(grazing, &rec, Vec3::zero()).is_none());
    let mut rng = RandomSource::from_seed(1);
    assert!(Material::Metal(m).scatter(r_in, &rec, &mut rng).is_none());
}

#[test]
fn schlick_reflectance() {
    assert_eq!(Dielectric::reflectance(fx(1_000_000), fx(1_500_000)).raw, 40_000);
    assert_eq!(Dielectric::reflectance(fx(0), fx(1_500_000)).raw, 1_000_000);
    assert_eq!(Dielectric::reflectance(fx(500_000), fx(666_666)).raw, 70_000);
}

#[test]
fn glass_refracts_a_ray_that_arrives_head_on() {
    let own = placeholder();
    let rec = record(Vec3::from_ints(0, 0, 1), true, &own);
    let r_in = Ray::new(Vec3::from_ints(0, 0, 5), Vec3::from_ints(0, 0, -3), fx(500_000));
    let glass = Dielectric::new(fx(1_500_000));
    let (attenuation, scattered, pdf) = glass.scatter_with(r_in, &rec, fx(500_000));
    assert_eq!(attenuation, Vec3::from_ints(1, 1, 1));
    assert_eq!(scattered.dir, Vec3::from_ints(0, 0, -1));
    assert_eq!(scattered.orig, rec.p);
    assert_eq!(scattered.tm.raw, 500_000);
    assert_eq!(pdf.raw, 0);
}

#[test]
fn glass_reflects_where_the_chance_is_below_the_reflectance() {
    let own = placeholder();
    let rec = record(Vec3::from_ints(0, 0, 1), true, &own);
    let r_in = Ray::new(Vec3::from_ints(0, 0, 5), Vec3::from_ints(0, 0, -3), Fixed::zero());
    let glass = Dielectric::new(fx(1_500_000));
    let (_, mirrored, _) = glass.scatter_with(r_in, &rec, fx(39_999));
    assert_eq!(mirrored.dir, Vec3::from_ints(0, 0, 1));
    let (_, through, _) = glass.scatter_with(r_in, &rec, fx(40_000));
    assert_eq!(through.dir, Vec3::from_ints(0, 0, -1));
}

#[test]
fn glass_reflects_all_light_beyond_the_critical_angle() {
    let own = placeholder();
    let rec = record(Vec3::from_ints(0, 0, 1), false, &own);
    let r_in = Ray::new(Vec3::zero(), v3(1_000_000, 0, -200_000), Fixed::zero());
    let glass = Dielectric::new(fx(1_500_000));
    let (_, scattered, _) = glass.scatter_with(r_in, &rec, fx(999_999));
    assert_eq!(scattered.dir, v3(980_581, 0, 196_116));
}

#[test]
fn diffuse_surface_scatters_about_the_normal() {
    let own = placeholder();
    let rec = record(Vec3::from_ints(0, 0, 1), true, &own);
    let r_in = Ray::new(Vec3::zero(), Vec3::from_ints(0, 0, -1), fx(333_000));
    let albedo = v3(700_000, 300_000, 300_000);
    let m = Lambertian::new(albedo);
    let (attenuation, scattered, pdf) = m.scatter_toward(r_in, &rec, Vec3::from_ints(0, 0, 1));
    assert_eq!(attenuation, albedo);
    assert_eq!(scattered.orig, rec.p);
    assert_eq!(scattered.dir, Vec3::from_ints(0, 0, 1));
    assert_eq!(scattered.tm.raw, 333_000);
    assert_eq!(pdf.raw, 318_309);
    let (_, slanted, pdf) = m.scatter_toward(r_in, &rec, v3(600_000, 0, 800_000));
    assert_eq!(slanted.dir, v3(-600_000, 0, 800_000));
    assert_eq!(pdf.raw, 254_647);
}

#[test]
fn diffuse_density_is_the_cosine_over_pi() {
    let own = placeholder();
    let rec = record(Vec3::from_ints(0, 0, 1), true, &own);
    let r_in = Ray::new(Vec3::zero(), Vec3::from_ints(0, 0, -1), Fixed::zero());
    let m = Lambertian::new(Vec3::from_ints(1, 1, 1));
    let up = Ray::new(rec.p, Vec3::from_ints(0, 0, 2), Fixed::zero());
    assert_eq!(m.scattering_pdf(r_in, &rec, up).raw, 318_309);
    let down = Ray::new(rec.p, Vec3::from_ints(0, 1, -1), Fixed::zero());
    assert_eq!(m.scattering_pdf(r_in, &rec, down).raw, 0);
    let slanted = Ray::new(rec.p, Vec3::from_ints(3, 0, 4), Fixed::zero());
    assert_eq!(m.scattering_pdf(r_in, &rec, slanted).raw, 254_647);
    assert_eq!(Material::Lambertian(m).scattering_pdf(r_in, &rec, up).raw, 318_309);
}

#[test]
fn only_the_diffuse_material_reports_a_density() {
    let own = placeholder();
    let rec = record(Vec3::from_ints(0, 0, 1), true, &own);
    let r_in = Ray::new(Vec3::zero(), Vec3::from_ints(0, 0, -1), Fixed::zero());
    let up = Ray::new(rec.p, Vec3::from_ints(0, 0, 1), Fixed::zero());
    let others = [
        Material::Metal(Metal::new(Vec3::from_ints(1, 1, 1), fx(0))),
        Material::Dielectric(Dielectric::new(fx(1_500_000))),
        Material::DiffuseLight(DiffuseLight::new(Vec3::from_ints(1, 1, 1))),
        Material::Isotropic(Isotropic::new(Vec3::from_ints(1, 1, 1))),
    ];
    for m in others.iter() {
        assert_eq!(m.scattering_pdf(r_in, &rec, up).raw, 0);
    }
}

#[test]
fn light_emits_from_its_front_only() {
    let own = placeholder();
    let front = record(Vec3::from_ints(0, 0, 1), true, &own);
    let back = record(Vec3::from_ints(0, 0, 1), false, &own);
    let r_in = Ray::new(Vec3::zero(), Vec3::from_ints(0, 0, -1), Fixed::zero());
    let colour = Vec3::from_ints(4, 3, 2);
    let light = DiffuseLight::new(colour);
    assert_eq!(light.emitted(r_in, &front, fx(0), fx(0), front.p), colour);
    assert_eq!(light.emitted(r_in, &back, fx(0), fx(0), back.p), Vec3::zero());
    assert!(light.scatter(r_in, &front).is_none());
    let m = Material::DiffuseLight(light);
    assert_eq!(m.emitted(r_in, &front, front.u, front.v, front.p), colour);
    let mut rng = RandomSource::from_seed(1);
    assert!(m.scatter(r_in, &front, &mut rng).is_none());
}

#[test]
fn other_materials_emit_nothing() {
    let own = placeholder();
    let rec = record(Vec3::from_ints(0, 0, 1), true, &own);
    let r_in = Ray::new(Vec3::zero(), Vec3::from_ints(0, 0, -1), Fixed::zero());
    let others = [
        Material::Lambertian(Lambertian::new(Vec3::from_ints(1, 1, 1))),
        Material::Metal(Metal::new(Vec3::from_ints(1, 1, 1), fx(0))),
        Material::Dielectric(Dielectric::new(fx(1_500_000))),
        Material::Isotropic(Isotropic::new(Vec3::from_ints(1, 1, 1))),
    ];
    for m in others.iter() {
        assert_eq!(m.emitted(r_in, &rec, rec.u, rec.v, rec.p), Vec3::zero());
    }
}

#[test]
fn even_scatterer_sends_the_ray_anywhere() {
    let own = placeholder();
    let rec = record(Vec3::from_ints(0, 0, 1), true, &own);
    let r_in = Ray::new(Vec3::zero(), Vec3::from_ints(0, 0, -1), fx(10));
    let albedo = v3(200_000, 400_000, 600_000);
    let fog = Isotropic::new(albedo);
    let d = v3(100_000, -200_000, -300_000);
    let (attenuation, scattered, pdf) = fog.scatter_with(r_in, &rec, d);
    assert_eq!(attenuation, albedo);
    assert_eq!(scattered.dir, d);
    assert_eq!(scattered.orig, rec.p);
    assert_eq!(scattered.tm.raw, 10);
    assert_eq!(pdf.raw, 0);
    let mut rng = RandomSource::from_seed(9);
    let (_, any, _) = fog.scatter(r_in, &rec, &mut rng).unwrap();
    assert!(any.dir.length_sqr().raw < 1_000_000);
}

#[test]
fn shared_textures_are_kept() {
    let t = Arc::new(Texture::solid(v3(1, 2, 3)));
    let a = Lambertian::new_arc(t.clone());
    let b = DiffuseLight::new_arc(t.clone());
    let c = Isotropic::new_arc(t.clone());
    assert!(Arc::ptr_eq(&a.albedo, &t));
    assert!(Arc::ptr_eq(&b.emit, &t));
    assert!(Arc::ptr_eq(&c.albedo, &t));
    assert_eq!(*Lambertian::new(v3(1, 2, 3)).albedo, *t);
    assert_eq!(*DiffuseLight::new(v3(1, 2, 3)).emit, *t);
    assert_eq!(*Isotropic::new(v3(1, 2, 3)).albedo, *t);
}

#[test]
fn scatter_draws_the_same_from_the_same_seed() {
    let own = placeholder();
    let rec = record(Vec3::from_ints(0, 0, 1), true, &own);
    let r_in = Ray::new(Vec3::zero(), Vec3::from_ints(1, 0, -1), Fixed::zero());
    let materials = [
        Material::Lambertian(Lambertian::new(v3(700_000, 300_000, 300_000))),
        Material::Metal(Metal::new(v3(800_000, 800_000, 800_000), fx(300_000))),
        Material::Dielectric(Dielectric::new(fx(1_500_000))),
        Material::Isotropic(Isotropic::new(v3(500_000, 500_000, 500_000))),
    ];
    for m in materials.iter() {
        let mut a = RandomSource::from_seed(21);
        let mut b = RandomSource::from_seed(21);
        for _ in 0..20 {
            assert_eq!(m.scatter(r_in, &rec, &mut a), m.scatter(r_in, &rec, &mut b));
        }
    }
}

#[test]
fn face_normal_is_turned_against_the_ray() {
    let own = placeholder();
    let mut rec = record(Vec3::zero(), false, &own);
    let r = Ray::new(Vec3::zero(), Vec3::from_ints(0, 0, -1), Fixed::zero());
    rec.set_face_normal(r, Vec3::from_ints(0, 0, 1));
    assert!(rec.front_face);
    assert_eq!(rec.normal, Vec3::from_ints(0, 0, 1));
    rec.set_face_normal(r, Vec3::from_ints(0, 0, -1));
    assert!(!rec.front_face);
    assert_eq!(rec.normal, Vec3::from_ints(0, 0, 1));
    assert_eq!(rec.t.raw, 4_000_000);
    assert_eq!(rec.p, Vec3::from_ints(1, 2, 3));
    assert!(rec.t.raw < RAW_MAX);
}
