use raytracer::angle::{acos, atan2, atan_unit, turn};
use raytracer::fixed::{Fixed, RAW_MAX, RAW_MIN, SCALE};
use raytracer::onb::Onb;
use raytracer::ray::Ray;
use raytracer::vec3::Vec3;

fn fx(raw: i64) -> Fixed {
    Fixed::from_raw(raw)
}

fn v3(x: i64, y: i64, z: i64) -> Vec3 {
    Vec3::new(fx(x), fx(y), fx(z))
}

#[test]
fn whole_numbers_are_scaled() {
    assert_eq!(Fixed::from_int(3).raw, 3 * SCALE);
    assert_eq!(Fixed::from_int(-100).raw, -100_000_000);
    assert_eq!(Fixed::zero().raw, 0);
    assert_eq!(Fixed::one().raw, 1_000_000);
}

#[test]
fn whole_numbers_out_of_range_are_clamped() {
    assert_eq!(Fixed::from_int(i64::MAX).raw, RAW_MAX);
    assert_eq!(Fixed::from_int(i64::MIN).raw, RAW_MIN);
}

#[test]
fn ratios_round_toward_zero() {
    assert_eq!(Fixed::from_ratio(1, 3).raw, 333_333);
    assert_eq!(Fixed::from_ratio(-1, 3).raw, -333_333);
    assert_eq!(Fixed::from_ratio(1, -3).raw, -333_333);
    assert_eq!(Fixed::from_ratio(201, 2).raw, 100_500_000);
    assert_eq!(Fixed::from_ratio(7, 0).raw, 0);
}

#[test]
fn sums_and_differences_are_clamped() {
    assert_eq!(fx(1_500_000).add(fx(2_250_000)).raw, 3_750_000);
    assert_eq!(fx(RAW_MAX).add(fx(1)).raw, RAW_MAX);
    assert_eq!(fx(RAW_MIN).sub(fx(1)).raw, RAW_MIN);
    assert_eq!(fx(1_000_000).sub(fx(2_500_000)).raw, -1_500_000);
    assert_eq!(fx(RAW_MIN).neg().raw, RAW_MAX);
    assert_eq!(fx(250_000).neg().raw, -250_000);
}

#[test]
fn products_round_toward_zero() {
    assert_eq!(fx(1_500_000).mul(fx(2_000_000)).raw, 3_000_000);
    assert_eq!(fx(-1).mul(fx(500_000)).raw, 0);
    assert_eq!(fx(1).mul(fx(500_000)).raw, 0);
    assert_eq!(fx(-3).mul(fx(500_000)).raw, -1);
    assert_eq!(fx(RAW_MAX).mul(fx(2_000_000)).raw, RAW_MAX);
    assert_eq!(fx(RAW_MAX).mul(fx(-2_000_000)).raw, RAW_MIN);
}

#[test]
fn quotients_round_toward_zero() {
    assert_eq!(fx(1_000_000).div(fx(3_000_000)).raw, 333_333);
    assert_eq!(fx(-1_000_000).div(fx(3_000_000)).raw, -333_333);
    assert_eq!(fx(1_000_000).div(fx(-3_000_000)).raw, -333_333);
    assert_eq!(fx(5_000_000).div(fx(500_000)).raw, 10_000_000);
}

#[test]
fn division_by_zero_goes_to_the_end_of_the_range() {
    assert_eq!(fx(1).div(fx(0)).raw, RAW_MAX);
    assert_eq!(fx(-1).div(fx(0)).raw, RAW_MIN);
    assert_eq!(fx(0).div(fx(0)).raw, 0);
}

#[test]
fn square_roots_round_down() {
    assert_eq!(fx(2_000_000).sqrt().raw, 1_414_213);
    assert_eq!(fx(250_000).sqrt().raw, 500_000);
    assert_eq!(fx(16_000_000).sqrt().raw, 4_000_000);
    assert_eq!(fx(0).sqrt().raw, 0);
    assert_eq!(fx(-4_000_000).sqrt().raw, 0);
    assert_eq!(fx(RAW_MAX).sqrt().raw, 3_037_000_499_976);
}

#[test]
fn least_greatest_and_clamp() {
    assert_eq!(fx(3).min(fx(-2)).raw, -2);
    assert_eq!(fx(3).max(fx(-2)).raw, 3);
    assert_eq!(fx(-7).abs().raw, 7);
    assert_eq!(fx(RAW_MIN).abs().raw, RAW_MAX);
    assert_eq!(fx(1_500_000).clamp(fx(0), fx(999_000)).raw, 999_000);
    assert_eq!(fx(-5).clamp(fx(0), fx(999_000)).raw, 0);
    assert_eq!(fx(400_000).clamp(fx(0), fx(999_000)).raw, 400_000);
}

#[test]
fn whole_part_rounds_toward_zero() {
    assert_eq!(fx(2_999_999).trunc(), 2);
    assert_eq!(fx(-2_999_999).trunc(), -2);
    assert_eq!(fx(255_743_001).trunc(), 255);
}

#[test]
fn vector_sums_and_products() {
    let a = v3(1_000_000, 2_000_000, 3_000_000);
    let b = v3(-500_000, 250_000, 4_000_000);
    assert_eq!(a.add(b), v3(500_000, 2_250_000, 7_000_000));
    assert_eq!(a.sub(b), v3(1_500_000, 1_750_000, -1_000_000));
    assert_eq!(a.neg(), v3(-1_000_000, -2_000_000, -3_000_000));
    assert_eq!(a.scale(fx(500_000)), v3(500_000, 1_000_000, 1_500_000));
    assert_eq!(a.shrink(fx(2_000_000)), v3(500_000, 1_000_000, 1_500_000));
    assert_eq!(a.hadamard(b), v3(-500_000, 500_000, 12_000_000));
    assert_eq!(a.dot(b).raw, 12_000_000);
    assert_eq!(Vec3::from_ints(1, 0, 0).cross(Vec3::from_ints(0, 1, 0)), Vec3::from_ints(0, 0, 1));
    assert_eq!(Vec3::zero(), v3(0, 0, 0));
}

#[test]
fn vector_lengths_and_units() {
    let a = Vec3::from_ints(3, 0, 4);
    assert_eq!(a.length_sqr().raw, 25_000_000);
    assert_eq!(a.length().raw, 5_000_000);
    assert_eq!(a.to_unit(), v3(600_000, 0, 800_000));
    assert_eq!(Vec3::from_ints(1, 0, -1).to_unit(), v3(707_107, 0, -707_107));
}

#[test]
fn unit_of_the_zero_vector_is_the_zero_vector() {
    assert_eq!(Vec3::zero().to_unit(), Vec3::zero());
}

#[test]
fn near_zero_is_within_a_hundred_thousandth() {
    assert!(v3(9, -9, 0).near_zero());
    assert!(!v3(10, 0, 0).near_zero());
    assert!(!v3(0, 0, -10).near_zero());
}

#[test]
fn reflection_mirrors_about_the_normal() {
    let n = Vec3::from_ints(0, 1, 0);
    assert_eq!(Vec3::from_ints(1, -1, 0).reflect(n), Vec3::from_ints(1, 1, 0));
    assert_eq!(v3(707_107, -707_107, 0).reflect(n), v3(707_107, 707_107, 0));
}

#[test]
fn refraction_follows_snell() {
    let n = Vec3::from_ints(0, 0, 1);
    let ratio = fx(666_666);
    assert_eq!(Vec3::from_ints(0, 0, -1).refract(n, ratio), v3(0, 0, -1_000_000));
    assert_eq!(v3(707_107, 0, -707_107).refract(n, ratio), v3(471_404, 0, -881_917));
}

#[test]
fn ray_at_parameter() {
    let r = Ray::new(v3(1_000_000, 0, 0), v3(0, 2_000_000, -500_000), fx(250_000));
    assert_eq!(r.at(fx(1_500_000)), v3(1_000_000, 3_000_000, -750_000));
    assert_eq!(r.at(fx(0)), r.orig);
    assert_eq!(r.tm.raw, 250_000);
}

#[test]
fn arc_tangent_values() {
    assert_eq!(atan_unit(fx(0)).raw, 0);
    assert_eq!(atan_unit(fx(1_000_000)).raw, 785_398);
    assert_eq!(atan_unit(fx(500_000)).raw, 462_161);
    assert_eq!(atan2(fx(1_000_000), fx(1_000_000)).raw, 785_398);
    assert_eq!(atan2(fx(0), fx(0)).raw, 0);
    assert_eq!(atan2(fx(1_000_000), fx(0)).raw, 1_570_796);
    assert_eq!(atan2(fx(0), fx(-1_000_000)).raw, 3_141_592);
    assert_eq!(atan2(fx(-1_000_000), fx(0)).raw, -1_570_796);
}

#[test]
fn angle_against_the_negative_x_axis() {
    assert_eq!(turn(fx(0), fx(-1_000_000)).raw, 0);
    assert_eq!(turn(fx(-1_000_000), fx(0)).raw, 1_570_796);
    assert_eq!(turn(fx(0), fx(1_000_000)).raw, 3_141_592);
    assert_eq!(turn(fx(1_000_000), fx(0)).raw, 4_712_388);
    assert_eq!(turn(fx(0), fx(0)).raw, 3_141_592);
    assert_eq!(turn(fx(100), fx(-1_000_000)).raw, 6_283_082);
}

#[test]
fn arc_cosine_values() {
    assert_eq!(acos(fx(1_000_000)).raw, 0);
    assert_eq!(acos(fx(0)).raw, 1_570_796);
    assert_eq!(acos(fx(-1_000_000)).raw, 3_141_592);
    assert_eq!(acos(fx(500_000)).raw, 1_048_296);
    assert_eq!(acos(fx(7_000_000)).raw, 0);
}

#[test]
fn basis_about_the_z_axis() {
    let b = Onb::build_from_w(Vec3::from_ints(0, 0, 1));
    assert_eq!(b.u(), Vec3::from_ints(-1, 0, 0));
    assert_eq!(b.v(), Vec3::from_ints(0, 1, 0));
    assert_eq!(b.w(), Vec3::from_ints(0, 0, 1));
    assert_eq!(b.local_vec(v3(600_000, 0, 800_000)), v3(-600_000, 0, 800_000));
    assert_eq!(b.local(fx(0), fx(500_000), fx(0)), v3(0, 500_000, 0));
}

#[test]
fn basis_about_the_x_axis_uses_the_other_helper() {
    let b = Onb::build_from_w(Vec3::from_ints(1, 0, 0));
    assert_eq!(b.w(), Vec3::from_ints(1, 0, 0));
    assert_eq!(b.v(), Vec3::from_ints(0, 0, 1));
    assert_eq!(b.u(), Vec3::from_ints(0, -1, 0));
}

#[test]
fn basis_scales_its_axis_to_unit_length() {
    let b = Onb::build_from_w(Vec3::from_ints(0, 2, 0));
    assert_eq!(b.w(), Vec3::from_ints(0, 1, 0));
    assert_eq!(b.v(), Vec3::from_ints(0, 0, -1));
    assert_eq!(b.u(), Vec3::from_ints(-1, 0, 0));
}
