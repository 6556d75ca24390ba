use raytracer::bvh::BVHNode;
use raytracer::camera::Camera;
use raytracer::fixed::Fixed;
use raytracer::hittable::{HitRecord, Hittable, HittableList};
use raytracer::material::{Dielectric, DiffuseLight, Lambertian, Material, Metal};
use raytracer::random::RandomSource;
use raytracer::ray::Ray;
use raytracer::render::{background, level, ray_color, shade, steer, write_color, Frame};
use raytracer::sphere::Sphere;
use raytracer::vec3::Vec3;
use std::sync::Arc;

fn fx(raw: i64) -> Fixed {
    Fixed::from_raw(raw)
}

fn v3(x: i64, y: i64, z: i64) -> Vec3 {
    Vec3::new(fx(x), fx(y), fx(z))
}

fn ball(center: Vec3, radius: i64, mat: Material) -> Hittable {
    Hittable::Sphere(Sphere::new(center, fx(radius), Arc::new(mat)))
}

fn mirror_world() -> Hittable {
    let objects = vec![
        ball(
            v3(0, -100_500_000, -1_000_000),
            100_000_000,
            Material::Metal(Metal::new(v3(800_000, 800_000, 0), fx(200_000))),
        ),
        ball(
            v3(0, 0, -1_000_000),
            500_000,
            Material::Metal(Metal::new(v3(700_000, 300_000, 300_000), fx(0))),
        ),
        ball(v3(-1_000_000, 0, -1_000_000), 500_000, Material::Dielectric(Dielectric::new(fx(1_500_000)))),
        ball(
            v3(1_000_000, 0, -1_000_000),
            500_000,
            Material::Metal(Metal::new(v3(800_000, 600_000, 200_000), fx(1_000_000))),
        ),
    ];
    BVHNode::build(objects, Fixed::zero(), Fixed::one()).unwrap()
}

fn lit_world() -> Hittable {
    let mut list = HittableList::new();
    list.add(ball(
        v3(0, -100_500_000, -1_000_000),
        100_000_000,
        Material::Lambertian(Lambertian::new(v3(800_000, 800_000, 0))),
    ));
    list.add(ball(
        v3(0, 0, -1_000_000),
        500_000,
        Material::Lambertian(Lambertian::new(v3(700_000, 300_000, 300_000))),
    ));
    list.add(lamp());
    Hittable::List(list)
}

fn lamp() -> Hittable {
    ball(v3(0, 3_000_000, -1_000_000), 1_000_000, Material::DiffuseLight(DiffuseLight::new(Vec3::from_ints(4, 4, 4))))
}

fn lamps() -> Hittable {
    let mut list = HittableList::new();
    list.add(lamp());
    Hittable::List(list)
}

fn camera() -> Camera {
    Camera::new(
        Vec3::from_ints(0, 0, 5),
        Vec3::zero(),
        Vec3::from_ints(0, 1, 0),
        Fixed::from_int(2),
        fx(1_500_000),
        fx(200_000),
        Fixed::from_int(5),
        Fixed::zero(),
        Fixed::one(),
    )
}

#[test]
fn background_blends_white_into_sky() {
    let up = Ray::new(Vec3::zero(), Vec3::from_ints(0, 1, 0), Fixed::zero());
    assert_eq!(background(up), v3(500_000, 700_000, 1_000_000));
    let down = Ray::new(Vec3::zero(), Vec3::from_ints(0, -3, 0), Fixed::zero());
    assert_eq!(background(down), Vec3::from_ints(1, 1, 1));
    let level = Ray::new(Vec3::zero(), Vec3::from_ints(1, 0, 0), Fixed::zero());
    assert_eq!(background(level), v3(750_000, 850_000, 1_000_000));
    let slanted = Ray::new(Vec3::zero(), Vec3::from_ints(1, 1, 0), Fixed::zero());
    assert_eq!(background(slanted), v3(573_223, 743_934, 1_000_000));
}

#[test]
fn background_of_a_ray_without_direction() {
    let nowhere = Ray::new(Vec3::zero(), Vec3::zero(), Fixed::zero());
    assert_eq!(background(nowhere), v3(750_000, 850_000, 1_000_000));
}

#[test]
fn shading_adds_what_is_emitted_to_what_arrives() {
    let c = shade(
        v3(100_000, 0, 0),
        v3(500_000, 500_000, 500_000),
        v3(1_000_000, 800_000, 600_000),
        fx(500_000),
    );
    assert_eq!(c, v3(350_000, 200_000, 150_000));
}

#[test]
fn levels_are_gamma_corrected_and_capped() {
    assert_eq!(level(Fixed::from_int(100), 100), 255);
    assert_eq!(level(Fixed::zero(), 100), 0);
    assert_eq!(level(Fixed::from_int(25), 100), 127);
    assert_eq!(level(Fixed::from_int(50), 100), 181);
    assert_eq!(level(fx(500_000), 1), 181);
    assert_eq!(level(Fixed::from_int(-1), 10), 0);
    assert_eq!(level(Fixed::from_int(900), 100), 255);
}

#[test]
fn levels_without_samples_are_black_or_full() {
    assert_eq!(level(Fixed::one(), 0), 255);
    assert_eq!(level(Fixed::zero(), 0), 0);
}

#[test]
fn pixel_is_written_channel_by_channel() {
    assert_eq!(write_color(Vec3::from_ints(100, 25, 0), 100), [255, 127, 0]);
    assert_eq!(write_color(v3(500_000, 1_000_000, 250_000), 1), [181, 255, 127]);
}

#[test]
fn path_of_no_segments_is_black() {
    let world = mirror_world();
    let mut rng = RandomSource::from_seed(1);
    let r = Ray::new(Vec3::from_ints(0, 0, 5), Vec3::from_ints(0, 0, -1), Fixed::zero());
    assert_eq!(ray_color(r, &world, None, 0, &mut rng), Vec3::zero());
    assert_eq!(ray_color(r, &world, None, -3, &mut rng), Vec3::zero());
}

#[test]
fn ray_that_hits_nothing_sees_the_background() {
    let world = mirror_world();
    let mut rng = RandomSource::from_seed(1);
    let r = Ray::new(Vec3::from_ints(0, 0, 5), Vec3::from_ints(0, 1, 0), Fixed::zero());
    assert_eq!(ray_color(r, &world, None, 50, &mut rng), v3(500_000, 700_000, 1_000_000));
}

#[test]
fn ray_into_a_light_sees_its_emission() {
    let world = lit_world();
    let lights = lamps();
    let mut rng = RandomSource::from_seed(1);
    let r = Ray::new(Vec3::from_ints(0, 3, 5), Vec3::from_ints(0, 0, -1), Fixed::zero());
    assert_eq!(ray_color(r, &world, None, 50, &mut rng), Vec3::from_ints(4, 4, 4));
    assert_eq!(ray_color(r, &world, Some(&lights), 50, &mut rng), Vec3::from_ints(4, 4, 4));
    let inside = Ray::new(v3(0, 3_000_000, -1_000_000), Vec3::from_ints(0, 0, 1), Fixed::zero());
    assert_eq!(ray_color(inside, &world, None, 50, &mut rng), Vec3::zero());
}

#[test]
fn mirror_facing_the_sky_returns_the_attenuated_sky() {
    let mut list = HittableList::new();
    list.add(ball(
        Vec3::from_ints(0, -1, 0),
        1_000_000,
        Material::Metal(Metal::new(v3(800_000, 600_000, 200_000), fx(0))),
    ));
    let world = Hittable::List(list);
    let mut rng = RandomSource::from_seed(1);
    let r = Ray::new(Vec3::from_ints(0, 5, 0), Vec3::from_ints(0, -1, 0), Fixed::zero());
    assert_eq!(ray_color(r, &world, None, 5, &mut rng), v3(400_000, 420_000, 200_000));
    assert_eq!(ray_color(r, &world, None, 1, &mut rng), Vec3::zero());
}

#[test]
fn passive_scene_creates_no_energy() {
    let world = mirror_world();
    let cam = camera();
    let mut rng = RandomSource::from_seed(17);
    for i in 0..40i64 {
        for j in 0..20i64 {
            let r = cam.get_ray(fx(i * 25_000), fx(j * 50_000), &mut rng);
            let c = ray_color(r, &world, None, 20, &mut rng);
            assert!(0 <= c.x.raw && c.x.raw <= 1_000_000);
            assert!(0 <= c.y.raw && c.y.raw <= 1_000_000);
            assert!(0 <= c.z.raw && c.z.raw <= 1_000_000);
        }
    }
}

#[test]
fn steering_without_lights_keeps_the_scattered_ray() {
    let own = Material::Lambertian(Lambertian::new(Vec3::from_ints(1, 1, 1)));
    let rec = HitRecord::new(
        Vec3::zero(),
        Vec3::from_ints(0, 0, 1),
        Fixed::one(),
        fx(0),
        fx(0),
        true,
        &own,
    );
    let r_in = Ray::new(Vec3::from_ints(0, 0, 1), Vec3::from_ints(0, 0, -1), Fixed::zero());
    let scattered = Ray::new(Vec3::zero(), Vec3::from_ints(0, 0, 1), Fixed::zero());
    let mut rng = RandomSource::from_seed(1);
    let mut twin = RandomSource::from_seed(1);
    let (out, density) = steer(None, r_in, &rec, scattered, fx(318_309), &mut rng);
    assert_eq!(out, scattered);
    assert_eq!(density.raw, 318_309);
    assert_eq!(rng.next_u32(), twin.next_u32());
}

#[test]
fn steering_with_lights_mixes_both_densities() {
    let own = Material::Lambertian(Lambertian::new(Vec3::from_ints(1, 1, 1)));
    let rec = HitRecord::new(
        Vec3::zero(),
        Vec3::from_ints(0, 1, 0),
        Fixed::one(),
        fx(0),
        fx(0),
        true,
        &own,
    );
    let lights = lamps();
    let r_in = Ray::new(Vec3::from_ints(0, 1, 0), Vec3::from_ints(0, -1, 0), Fixed::zero());
    let scattered = Ray::new(Vec3::zero(), Vec3::from_ints(1, 0, 0), Fixed::zero());
    let mut rng = RandomSource::from_seed(4);
    let mut toward = 0;
    for _ in 0..200 {
        let (out, density) = steer(Some(&lights), r_in, &rec, scattered, fx(100_000), &mut rng);
        assert_eq!(out.orig, rec.p);
        if out == scattered {
            assert_eq!(density.raw, 0);
        } else {
            toward += 1;
            assert!(out.dir.y.raw > 0);
            assert!(density.raw > 0);
        }
    }
    assert!(toward > 50 && toward < 150);
}

#[test]
fn lit_scene_renders_with_and_without_light_sampling() {
    let world = lit_world();
    let lights = lamps();
    let mut rng = RandomSource::from_seed(8);
    let r = Ray::new(Vec3::from_ints(0, 0, 5), Vec3::from_ints(0, 0, -1), Fixed::zero());
    let mut lit = false;
    for _ in 0..50 {
        let a = ray_color(r, &world, None, 10, &mut rng);
        let b = ray_color(r, &world, Some(&lights), 10, &mut rng);
        assert!(a.x.raw >= 0 && a.y.raw >= 0 && a.z.raw >= 0);
        assert!(b.x.raw >= 0 && b.y.raw >= 0 && b.z.raw >= 0);
        lit = lit || b.x.raw > 0;
    }
    assert!(lit);
}

#[test]
fn camera_frame() {
    let cam = camera();
    assert_eq!(cam.origin, Vec3::from_ints(0, 0, 5));
    assert_eq!(cam.w, Vec3::from_ints(0, 0, 1));
    assert_eq!(cam.u, Vec3::from_ints(1, 0, 0));
    assert_eq!(cam.v, Vec3::from_ints(0, 1, 0));
    assert_eq!(cam.horizontal, Vec3::from_ints(15, 0, 0));
    assert_eq!(cam.vertical, Vec3::from_ints(0, 10, 0));
    assert_eq!(cam.lower_left_corner, v3(-7_500_000, -5_000_000, 0));
    assert_eq!(cam.lens_radius.raw, 100_000);
}

#[test]
fn camera_ray_through_the_center() {
    let cam = camera();
    let r = cam.ray_through(fx(500_000), fx(500_000), Vec3::zero(), Fixed::zero());
    assert_eq!(r.orig, Vec3::from_ints(0, 0, 5));
    assert_eq!(r.dir, Vec3::from_ints(0, 0, -5));
    assert_eq!(r.tm.raw, 0);
}

#[test]
fn camera_ray_from_the_lens_at_a_shutter_time() {
    let cam = camera();
    let r = cam.ray_through(Fixed::one(), Fixed::zero(), v3(500_000, -500_000, 0), fx(250_000));
    assert_eq!(r.orig, v3(50_000, -50_000, 5_000_000));
    assert_eq!(r.dir, v3(7_450_000, -4_950_000, -5_000_000));
    assert_eq!(r.tm.raw, 250_000);
}

#[test]
fn camera_rays_leave_from_the_lens_within_the_shutter() {
    let cam = camera();
    let mut rng = RandomSource::from_seed(2);
    for _ in 0..100 {
        let r = cam.get_ray(fx(500_000), fx(500_000), &mut rng);
        assert!(r.orig.sub(cam.origin).length_sqr().raw <= 10_000);
        assert!(0 <= r.tm.raw && r.tm.raw < 1_000_000);
        assert_eq!(r.orig.add(r.dir), Vec3::zero());
    }
}

#[test]
fn pixels_are_placed_from_the_top_row_down() {
    let f = Frame::new(4, 3, 1, 1);
    assert_eq!(f.place(0), (0, 2));
    assert_eq!(f.place(3), (3, 2));
    assert_eq!(f.place(4), (0, 1));
    assert_eq!(f.place(11), (3, 0));
}

#[test]
fn same_seed_renders_the_same_image() {
    let world = mirror_world();
    let cam = camera();
    let f = Frame::new(6, 4, 3, 8);
    let mut a = RandomSource::from_seed(99);
    let mut b = RandomSource::from_seed(99);
    let first = f.render(&cam, &world, None, &mut a);
    let second = f.render(&cam, &world, None, &mut b);
    assert_eq!(first.len(), 24);
    assert_eq!(first, second);
    assert_eq!(a.next_u32(), b.next_u32());
    let mut c = RandomSource::from_seed(100);
    let third = f.render(&cam, &world, None, &mut c);
    assert_ne!(first, third);
}

#[test]
fn same_seed_renders_the_same_lit_image() {
    let world = lit_world();
    let lights = lamps();
    let cam = camera();
    let f = Frame::new(5, 3, 2, 6);
    let mut a = RandomSource::from_seed(5);
    let mut b = RandomSource::from_seed(5);
    assert_eq!(
        f.render(&cam, &world, Some(&lights), &mut a),
        f.render(&cam, &world, Some(&lights), &mut b)
    );
}

#[test]
fn image_is_its_pixels_in_order() {
    let world = mirror_world();
    let cam = camera();
    let f = Frame::new(3, 2, 2, 4);
    let mut a = RandomSource::from_seed(31);
    let mut b = RandomSource::from_seed(31);
    let image = f.render(&cam, &world, None, &mut a);
    let mut pixels = Vec::new();
    for k in 0..6u64 {
        let (x, y) = f.place(k);
        pixels.push(f.render_pixel(&cam, &world, None, x, y, &mut b));
    }
    assert_eq!(image, pixels);
}

#[test]
fn pixel_is_the_level_of_its_samples() {
    let world = mirror_world();
    let cam = camera();
    let f = Frame::new(3, 2, 4, 4);
    let mut a = RandomSource::from_seed(12);
    let mut b = RandomSource::from_seed(12);
    let rgb = f.render_pixel(&cam, &world, None, 1, 1, &mut a);
    let mut sum = Vec3::zero();
    for _ in 0..4 {
        sum = sum.add(f.sample(&cam, &world, None, 1, 1, &mut b));
    }
    assert_eq!(rgb, write_color(sum, 4));
}

#[test]
fn empty_frames_render_nothing() {
    let world = mirror_world();
    let cam = camera();
    let mut rng = RandomSource::from_seed(1);
    assert!(Frame::new(0, 5, 1, 1).render(&cam, &world, None, &mut rng).is_empty());
    assert!(Frame::new(5, 0, 1, 1).render(&cam, &world, None, &mut rng).is_empty());
    let black = Frame::new(2, 1, 0, 5).render(&cam, &world, None, &mut rng);
    assert_eq!(black, vec![[0u8, 0, 0], [0, 0, 0]]);
}

#[test]
fn diffuse_bounce_is_weighted_by_its_densities() {
    let albedo = v3(700_000, 300_000, 300_000);
    let mut list = HittableList::new();
    list.add(ball(Vec3::from_ints(0, -1, 0), 1_000_000, Material::Lambertian(Lambertian::new(albedo))));
    let world = Hittable::List(list);
    let r = Ray::new(Vec3::from_ints(0, 5, 0), Vec3::from_ints(0, -1, 0), fx(500_000));
    let mut escaped = 0;
    for seed in 0..40u64 {
        let mut rng = RandomSource::from_seed(seed);
        let mut twin = RandomSource::from_seed(seed);
        let found = ray_color(r, &world, None, 2, &mut rng);
        let rec = world.hit(r, fx(1_000), fx(i64::MAX)).unwrap();
        let (attenuation, scattered, pdf) = rec.mat_ptr.scatter(r, &rec, &mut twin).unwrap();
        assert_eq!(attenuation, albedo);
        assert_eq!(scattered.tm.raw, 500_000);
        if pdf.raw > 0 && world.hit(scattered, fx(1_000), fx(i64::MAX)).is_none() {
            escaped += 1;
            let weight = rec.mat_ptr.scattering_pdf(r, &rec, scattered).div(pdf);
            assert_eq!(weight.raw, 1_000_000);
            let expected = shade(Vec3::zero(), attenuation, background(scattered), weight);
            assert_eq!(found, expected);
        }
        assert_eq!(rng.next_u32(), twin.next_u32());
    }
    assert!(escaped > 20);
}

#[test]
fn light_sampling_follows_the_steered_ray() {
    let world = lit_world();
    let lights = lamps();
    let side = Ray::new(v3(3_000_000, 0, -1_000_000), Vec3::from_ints(-1, 0, 0), Fixed::zero());
    let mut lit = 0;
    for seed in 0..60u64 {
        let mut rng = RandomSource::from_seed(seed);
        let mut twin = RandomSource::from_seed(seed);
        let found = ray_color(side, &world, Some(&lights), 2, &mut rng);
        let rec = world.hit(side, fx(1_000), fx(i64::MAX)).unwrap();
        assert_eq!(rec.t.raw, 2_500_000);
        let (attenuation, scattered, pdf) = rec.mat_ptr.scatter(side, &rec, &mut twin).unwrap();
        if pdf.raw == 0 {
            continue;
        }
        let (out, density) = steer(Some(&lights), side, &rec, scattered, pdf, &mut twin);
        if density.raw <= 0 {
            assert_eq!(found, Vec3::zero());
            continue;
        }
        let weight = rec.mat_ptr.scattering_pdf(side, &rec, out).div(density);
        let next = ray_color(out, &world, Some(&lights), 1, &mut twin);
        assert_eq!(found, shade(Vec3::zero(), attenuation, next, weight));
        if next == Vec3::from_ints(4, 4, 4) {
            lit += 1;
        }
        assert_eq!(rng.next_u32(), twin.next_u32());
    }
    assert!(lit > 5);
}

#[test]
fn diffuse_scene_without_lights_creates_no_energy() {
    let mut list = HittableList::new();
    list.add(ball(
        v3(0, -100_500_000, -1_000_000),
        100_000_000,
        Material::Lambertian(Lambertian::new(Vec3::from_ints(1, 1, 1))),
    ));
    list.add(ball(
        v3(0, 0, -1_000_000),
        500_000,
        Material::Lambertian(Lambertian::new(v3(1_000_000, 900_000, 1_000_000))),
    ));
    let world = Hittable::List(list);
    let mut rng = RandomSource::from_seed(23);
    for i in -20..=20i64 {
        for j in -10..=10i64 {
            let r = Ray::new(Vec3::zero(), v3(i * 50_000, j * 50_000, -1_000_000), Fixed::zero());
            let c = ray_color(r, &world, None, 30, &mut rng);
            assert!(0 <= c.x.raw && c.x.raw <= 1_000_000);
            assert!(0 <= c.y.raw && c.y.raw <= 1_000_000);
            assert!(0 <= c.z.raw && c.z.raw <= 1_000_000);
        }
    }
}

#[test]
fn rendered_scene_shows_sky_above_and_ground_below() {
    let mut list = HittableList::new();
    list.add(ball(
        v3(0, -100_500_000, -1_000_000),
        100_000_000,
        Material::Lambertian(Lambertian::new(v3(800_000, 800_000, 0))),
    ));
    list.add(ball(
        v3(0, 0, -1_000_000),
        500_000,
        Material::Lambertian(Lambertian::new(v3(700_000, 300_000, 300_000))),
    ));
    let world = Hittable::List(list);
    let cam = Camera::new(
        Vec3::zero(),
        Vec3::from_ints(0, 0, -1),
        Vec3::from_ints(0, 1, 0),
        Fixed::from_int(2),
        Fixed::from_ratio(4, 3),
        Fixed::zero(),
        Fixed::one(),
        Fixed::zero(),
        Fixed::zero(),
    );
    let f = Frame::new(8, 6, 24, 12);
    let mut rng = RandomSource::from_seed(3);
    let image = f.render(&cam, &world, None, &mut rng);
    assert_eq!(image.len(), 48);
    for x in 0..8 {
        let sky = image[x];
        assert!(sky[2] > sky[0] && sky[2] > 200);
        let ground = image[40 + x];
        assert!(ground[0] > ground[2] && ground[1] > ground[2]);
    }
    let ball_pixel = image[3 * 8 + 3];
    assert!(ball_pixel[0] > ball_pixel[1] && ball_pixel[0] > ball_pixel[2]);
}
