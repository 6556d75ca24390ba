use raytracer::angle::{acos, atan2};
use raytracer::fixed::Fixed;
use raytracer::material::{Dielectric, Lambertian, Material};
use raytracer::onb::Onb;
use raytracer::random::{
    random_cosine_direction, random_in_unit_sphere, random_to_sphere, RandomSource,
};
use raytracer::ray::Ray;
use raytracer::sphere::{sphere_uv, Sphere};
use raytracer::vec3::Vec3;
use std::sync::Arc;

fn fixed(x: f64) -> Fixed {
    Fixed::from_raw((x * 1_000_000.0).round() as i64)
}

fn decimal(x: Fixed) -> f64 {
    x.raw as f64 / 1_000_000.0
}

fn vector(x: f64, y: f64, z: f64) -> Vec3 {
    Vec3::new(fixed(x), fixed(y), fixed(z))
}

fn close(a: f64, b: f64, tolerance: f64) -> bool {
    (a - b).abs() <= tolerance
}

fn directions() -> Vec<(f64, f64, f64)> {
    let mut out = Vec::new();
    for i in 0..24 {
        for j in 1..12 {
            let phi = i as f64 * std::f64::consts::PI / 12.0 + 0.01;
            let theta = j as f64 * std::f64::consts::PI / 12.0;
            out.push((theta.sin() * phi.cos(), theta.cos(), theta.sin() * phi.sin()));
        }
    }
    out
}

#[test]
fn square_root_is_within_a_millionth() {
    for k in 1..2000i64 {
        let x = k as f64 * 0.37;
        assert!(close(decimal(fixed(x).sqrt()), x.sqrt(), 0.000_002));
    }
}

#[test]
fn products_and_quotients_are_within_a_millionth() {
    for k in -50..50i64 {
        for l in 1..50i64 {
            let a = k as f64 * 0.731;
            let b = l as f64 * 0.113;
            assert!(close(decimal(fixed(a).mul(fixed(b))), a * b, 0.000_002));
            assert!(close(decimal(fixed(a).div(fixed(b))), a / b, 0.000_01 * (1.0 + (a / b).abs())));
        }
    }
}

#[test]
fn arc_tangent_is_within_two_thousandths() {
    for i in -20..=20i64 {
        for j in -20..=20i64 {
            if i == 0 && j == 0 {
                continue;
            }
            let y = i as f64 * 0.25;
            let x = j as f64 * 0.25;
            let exact = y.atan2(x);
            let found = decimal(atan2(fixed(y), fixed(x)));
            let across = close(found.abs(), std::f64::consts::PI, 0.002)
                && close(exact.abs(), std::f64::consts::PI, 0.002);
            assert!(close(found, exact, 0.002) || across);
        }
    }
}

#[test]
fn arc_cosine_is_within_three_thousandths() {
    for k in -100..=100i64 {
        let c = k as f64 * 0.01;
        assert!(close(decimal(acos(fixed(c))), c.acos(), 0.003));
    }
}

#[test]
fn surface_coordinates_follow_the_angles() {
    for (x, y, z) in directions() {
        let (u, v) = sphere_uv(vector(x, y, z));
        let theta = (-y).acos();
        let phi = (-z).atan2(x) + std::f64::consts::PI;
        assert!(close(decimal(v), theta / std::f64::consts::PI, 0.001));
        assert!(close(decimal(u), phi / (2.0 * std::f64::consts::PI), 0.001));
    }
}

#[test]
fn surface_coordinates_jump_only_at_the_seam() {
    let at = |angle: f64| {
        let (u, _) = sphere_uv(vector(angle.cos(), 0.0, angle.sin()));
        decimal(u)
    };
    let steps = 720;
    let mut jumps = 0;
    for k in 0..steps {
        let a = k as f64 * 2.0 * std::f64::consts::PI / steps as f64 + 0.001;
        let b = (k + 1) as f64 * 2.0 * std::f64::consts::PI / steps as f64 + 0.001;
        let step = (at(a) - at(b)).abs();
        if step > 0.5 {
            jumps += 1;
            assert!(a.cos() < -0.99 && b.cos() < -0.99);
        } else {
            assert!(step < 0.005);
        }
    }
    assert_eq!(jumps, 1);
}

#[test]
fn surface_coordinates_tell_distant_points_apart() {
    let points = directions();
    for (i, a) in points.iter().enumerate() {
        for b in points.iter().skip(i + 1) {
            let (ua, va) = sphere_uv(vector(a.0, a.1, a.2));
            let (ub, vb) = sphere_uv(vector(b.0, b.1, b.2));
            assert!((ua, va) != (ub, vb));
        }
    }
}

#[test]
fn unit_vectors_have_unit_length() {
    for (x, y, z) in directions() {
        let unit = vector(3.0 * x, 3.0 * y, 3.0 * z).to_unit();
        assert!(close(decimal(unit.length()), 1.0, 0.000_01));
        assert!(close(decimal(unit.x), x, 0.000_01));
    }
}

#[test]
fn basis_is_orthonormal_up_to_rounding() {
    for (x, y, z) in directions() {
        let b = Onb::build_from_w(vector(2.0 * x, 2.0 * y, 2.0 * z));
        assert!(close(decimal(b.w().x), x, 0.000_01));
        assert!(close(decimal(b.u().length()), 1.0, 0.000_02));
        assert!(close(decimal(b.v().length()), 1.0, 0.000_02));
        assert!(close(decimal(b.u().dot(b.v())), 0.0, 0.000_02));
        assert!(close(decimal(b.u().dot(b.w())), 0.0, 0.000_02));
        assert!(close(decimal(b.v().dot(b.w())), 0.0, 0.000_02));
    }
}

#[test]
fn hit_normals_have_unit_length_and_face_the_ray() {
    let s = Sphere::new(
        vector(0.0, 0.0, -3.0),
        fixed(1.25),
        Arc::new(Material::Lambertian(Lambertian::new(vector(0.5, 0.5, 0.5)))),
    );
    let mut hits = 0;
    for i in -10..=10i64 {
        for j in -10..=10i64 {
            let r = Ray::new(
                Vec3::zero(),
                vector(i as f64 * 0.05, j as f64 * 0.05, -1.0),
                Fixed::zero(),
            );
            if let Some(rec) = s.hit(r, fixed(0.001), Fixed::from_int(1000)) {
                hits += 1;
                assert!(close(decimal(rec.normal.length()), 1.0, 0.000_01));
                assert!(rec.normal.dot(r.dir).raw < 0);
                assert!(rec.front_face);
                assert_eq!(rec.p, r.at(rec.t));
                let distance = rec.p.sub(s.center).length();
                assert!(close(decimal(distance), 1.25, 0.000_01));
            }
        }
    }
    assert!(hits > 100);
}

#[test]
fn schlick_reflectance_matches_the_formula() {
    for k in 0..=20i64 {
        let cos = k as f64 * 0.05;
        for ir in [1.0 / 1.5, 1.33, 1.5, 2.4] {
            let r0 = ((1.0 - ir) / (1.0 + ir)) * ((1.0 - ir) / (1.0 + ir));
            let exact = r0 + (1.0 - r0) * (1.0 - cos).powi(5);
            assert!(close(decimal(Dielectric::reflectance(fixed(cos), fixed(ir))), exact, 0.000_02));
        }
    }
}

#[test]
fn refraction_matches_snell() {
    let n = Vec3::from_ints(0, 1, 0);
    for k in 1..9i64 {
        let angle = k as f64 * 0.17;
        let incoming = vector(angle.sin(), -angle.cos(), 0.0);
        let out = incoming.refract(n, fixed(1.0 / 1.5));
        let sine = angle.sin() / 1.5;
        assert!(close(decimal(out.x), sine, 0.000_01));
        assert!(close(decimal(out.y), -(1.0 - sine * sine).sqrt(), 0.000_01));
    }
}

#[test]
fn drawn_numbers_are_spread_evenly() {
    let mut rng = RandomSource::from_seed(2024);
    let n = 4000;
    let mut sum = 0.0;
    let mut low = 0;
    for _ in 0..n {
        let u = decimal(rng.next_unit());
        sum += u;
        if u < 0.25 {
            low += 1;
        }
    }
    assert!(close(sum / n as f64, 0.5, 0.05));
    assert!(close(low as f64 / n as f64, 0.25, 0.05));
}

#[test]
fn cosine_directions_have_unit_length_and_lean_to_the_axis() {
    let mut rng = RandomSource::from_seed(77);
    let n = 4000;
    let mut sum = 0.0;
    for _ in 0..n {
        let d = random_cosine_direction(&mut rng);
        assert!(close(decimal(d.length()), 1.0, 0.000_01));
        sum += decimal(d.z);
    }
    assert!(close(sum / n as f64, 2.0 / 3.0, 0.05));
}

#[test]
fn ball_samples_fill_the_ball() {
    let mut rng = RandomSource::from_seed(78);
    let n = 4000;
    let mut inner = 0;
    let mut sum = 0.0;
    for _ in 0..n {
        let p = random_in_unit_sphere(&mut rng);
        sum += decimal(p.x);
        if decimal(p.length()) < 0.5 {
            inner += 1;
        }
    }
    assert!(close(sum / n as f64, 0.0, 0.05));
    assert!(close(inner as f64 / n as f64, 0.125, 0.04));
}

#[test]
fn directions_toward_a_sphere_have_unit_length() {
    let mut rng = RandomSource::from_seed(79);
    for _ in 0..500 {
        let d = random_to_sphere(fixed(0.5), fixed(9.0), &mut rng);
        assert!(close(decimal(d.length()), 1.0, 0.000_01));
        assert!(decimal(d.z) >= (1.0f64 - 0.25 / 9.0).sqrt() - 0.000_01);
    }
}

#[test]
fn diffuse_density_matches_its_own_sampling() {
    let own = Material::Lambertian(Lambertian::new(vector(0.5, 0.5, 0.5)));
    let m = Lambertian::new(vector(0.5, 0.5, 0.5));
    let mut rng = RandomSource::from_seed(80);
    for (x, y, z) in directions() {
        let rec = raytracer::hittable::HitRecord::new(
            Vec3::zero(),
            vector(x, y, z),
            Fixed::one(),
            Fixed::zero(),
            Fixed::zero(),
            true,
            &own,
        );
        let r_in = Ray::new(vector(x, y, z), vector(-x, -y, -z), Fixed::zero());
        let (_, scattered, pdf) = m.scatter(r_in, &rec, &mut rng).unwrap();
        assert_eq!(pdf, m.scattering_pdf(r_in, &rec, scattered));
        let cosine = decimal(rec.normal.dot(scattered.dir));
        assert!(close(decimal(pdf), cosine / std::f64::consts::PI, 0.000_01));
        assert!(pdf.raw >= 0);
    }
}
