use raytracing::fixed::{Fixed, SCALE};
use raytracing::interval::Interval;
use raytracing::ray::Ray;
use raytracing::rng::{random_real, random_real_range};
use raytracing::vec3::Vec3;

fn fx(raw: i64) -> Fixed {
    Fixed::from_raw(raw)
}

fn v3(x: i64, y: i64, z: i64) -> Vec3 {
    Vec3::new(fx(x), fx(y), fx(z))
}

#[test]
fn fixed_constructors() {
    assert_eq!(Fixed::zero().raw, 0);
    assert_eq!(Fixed::one().raw, SCALE);
    assert_eq!(Fixed::from_int(3).raw, 3 * SCALE);
    assert_eq!(Fixed::from_int(-2).raw, -2 * SCALE);
    assert_eq!(Fixed::from_ratio(1, 2).raw, 32768);
    assert_eq!(Fixed::from_ratio(7, 10).raw, 45875);
    assert_eq!(Fixed::from_ratio(-1, 2).raw, -32768);
    // Rounding is toward zero, also for negative quotients.
    assert_eq!(Fixed::from_ratio(-1, 3).raw, -21845);
    assert_eq!(Fixed::from_ratio(1, 3).raw, 21845);
}

#[test]
fn fixed_arithmetic_exact() {
    let a = Fixed::from_ratio(3, 2);
    let b = Fixed::from_ratio(5, 2);
    assert_eq!(a.add(b).raw, 4 * SCALE);
    assert_eq!(a.sub(b).raw, -SCALE);
    assert_eq!(a.neg().raw, -98304);
    assert_eq!(a.mul(b).raw, 245760); // 1.5 * 2.5 == 3.75 exactly
    assert_eq!(b.div(a).raw, 109226); // 2.5 / 1.5 rounds toward zero
    assert_eq!(fx(3).mul(fx(3)).raw, 0); // tiny products truncate to zero
    assert_eq!(fx(-5).abs().raw, 5);
}

#[test]
fn fixed_sqrt_exact() {
    assert_eq!(Fixed::from_int(4).sqrt().raw, 2 * SCALE);
    assert_eq!(Fixed::from_ratio(9, 4).sqrt().raw, 98304); // sqrt(2.25) == 1.5
    assert_eq!(Fixed::zero().sqrt().raw, 0);
    // sqrt rounds down: sqrt(2) in raw units.
    let r = Fixed::from_int(2).sqrt().raw;
    assert!(r * r <= 2 * SCALE * SCALE && (r + 1) * (r + 1) > 2 * SCALE * SCALE);
}

#[test]
fn fixed_comparisons() {
    assert!(fx(1).lt(fx(2)));
    assert!(!fx(2).lt(fx(2)));
    assert!(fx(2).le(fx(2)));
    assert!(!fx(3).le(fx(2)));
}

#[test]
fn vector_componentwise_ops() {
    let a = v3(SCALE, 2 * SCALE, -SCALE);
    let b = v3(3 * SCALE, -SCALE, SCALE);
    let sum = a.add(b);
    assert_eq!((sum.x.raw, sum.y.raw, sum.z.raw), (4 * SCALE, SCALE, 0));
    let diff = a.sub(b);
    assert_eq!((diff.x.raw, diff.y.raw, diff.z.raw), (-2 * SCALE, 3 * SCALE, -2 * SCALE));
    let neg = a.neg();
    assert_eq!((neg.x.raw, neg.y.raw, neg.z.raw), (-SCALE, -2 * SCALE, SCALE));
    let scaled = a.mul(Fixed::from_int(2));
    assert_eq!((scaled.x.raw, scaled.y.raw, scaled.z.raw), (2 * SCALE, 4 * SCALE, -2 * SCALE));
    let halved = a.div(Fixed::from_int(2));
    assert_eq!((halved.x.raw, halved.y.raw, halved.z.raw), (32768, SCALE, -32768));
}

#[test]
fn vector_dot_and_cross() {
    let a = v3(SCALE, 2 * SCALE, 3 * SCALE);
    let b = v3(4 * SCALE, -5 * SCALE, 6 * SCALE);
    // 1*4 - 2*5 + 3*6 == 12
    assert_eq!(a.dot(b).raw, 12 * SCALE);
    let c = a.cross(b);
    // (2*6 - 3*(-5), 3*4 - 1*6, 1*(-5) - 2*4) == (27, 6, -13)
    assert_eq!((c.x.raw, c.y.raw, c.z.raw), (27 * SCALE, 6 * SCALE, -13 * SCALE));
}

#[test]
fn vector_length_and_unit() {
    let v = v3(3 * SCALE, 4 * SCALE, 0);
    assert_eq!(v.length_squared().raw, 25 * SCALE);
    assert_eq!(v.length().raw, 5 * SCALE);
    let u = v.unit_vector();
    // 0.6 and 0.8 round down by at most one raw unit.
    assert_eq!(u.x.raw, 39321);
    assert_eq!(u.y.raw, 52428);
    assert_eq!(u.z.raw, 0);
}

#[test]
fn unit_vector_length_is_close_to_one() {
    // The proved bound: the squared length of a normalized vector is within
    // a few raw units of scale of one.
    let samples = [
        v3(3 * SCALE, 4 * SCALE, 0),
        v3(SCALE, SCALE, SCALE),
        v3(-7 * SCALE, 2 * SCALE, 9 * SCALE),
        v3(100 * SCALE, -1, 55),
    ];
    for v in samples.iter() {
        let lensq = v.unit_vector().length_squared().raw;
        assert!((lensq - SCALE).abs() <= 8, "squared length {} strays from one", lensq);
    }
}

#[test]
fn near_zero_threshold() {
    assert!(Vec3::zero().is_near_zero());
    assert!(v3(255, -255, 0).is_near_zero());
    assert!(!v3(256, 0, 0).is_near_zero());
    assert!(!v3(SCALE, 2 * SCALE, 3 * SCALE).is_near_zero());
}

#[test]
fn reflect_about_normal() {
    let v = v3(SCALE, -SCALE, 0);
    let n = v3(0, SCALE, 0);
    let r = raytracing::vec3::reflect(v, n);
    // v - 2 (v . n) n == (1, 1, 0)
    assert_eq!((r.x.raw, r.y.raw, r.z.raw), (SCALE, SCALE, 0));
}

#[test]
fn ray_position_at_zero_is_origin() {
    let ray = Ray::new(v3(SCALE, 2 * SCALE, 3 * SCALE), v3(-SCALE, 5, 7));
    let p = ray.at(Fixed::zero());
    assert_eq!((p.x.raw, p.y.raw, p.z.raw), (SCALE, 2 * SCALE, 3 * SCALE));
}

#[test]
fn ray_position_is_linear() {
    let ray = Ray::new(v3(SCALE, 0, 0), v3(2 * SCALE, -SCALE, 32768));
    let p = ray.at(Fixed::from_ratio(5, 2));
    // origin + direction * 2.5
    assert_eq!((p.x.raw, p.y.raw, p.z.raw), (6 * SCALE, -163840, 81920));
}

#[test]
fn ray_zero_is_trivial() {
    let ray = Ray::zero();
    assert_eq!(ray.origin.x.raw, 0);
    assert_eq!(ray.direction.z.raw, 0);
}

#[test]
fn interval_contains_and_surrounds() {
    let itv = Interval::new(fx(0), fx(100));
    assert!(itv.contains(fx(0)));
    assert!(itv.contains(fx(100)));
    assert!(!itv.contains(fx(101)));
    assert!(!itv.surrounds(fx(0)));
    assert!(itv.surrounds(fx(50)));
    assert!(!itv.surrounds(fx(100)));
}

#[test]
fn interval_size_and_clamp() {
    let itv = Interval::new(fx(-50), fx(150));
    assert_eq!(itv.size().raw, 200);
    assert_eq!(itv.clamp(fx(-100)).raw, -50);
    assert_eq!(itv.clamp(fx(40)).raw, 40);
    assert_eq!(itv.clamp(fx(151)).raw, 150);
}

#[test]
fn interval_empty_contains_nothing() {
    let empty = Interval::empty();
    assert!(!empty.contains(fx(0)));
    assert!(!empty.surrounds(fx(0)));
    let universe = Interval::universe();
    assert!(universe.contains(fx(0)));
}

#[test]
fn random_real_stays_in_unit_range() {
    for _ in 0..1000 {
        let r = random_real();
        assert!(0 <= r.raw && r.raw < SCALE);
    }
}

#[test]
fn random_real_range_stays_in_range() {
    let min = Fixed::from_int(-1);
    let max = Fixed::one();
    for _ in 0..1000 {
        let r = random_real_range(min, max);
        assert!(min.raw <= r.raw && r.raw < max.raw);
    }
}

#[test]
fn random_unit_vector_is_bounded_and_near_unit() {
    for _ in 0..200 {
        let u = Vec3::random_unit_vector();
        assert!(u.x.raw.abs() <= 0x100_0000);
        assert!(u.y.raw.abs() <= 0x100_0000);
        assert!(u.z.raw.abs() <= 0x100_0000);
        let lensq = u.length_squared().raw;
        assert!((lensq - SCALE).abs() <= 2048, "length squared {}", lensq);
    }
}

#[test]
fn random_on_hemisphere_agrees_with_normal() {
    let normal = v3(0, 0, SCALE);
    for _ in 0..500 {
        let u = Vec3::random_on_hemisphere(normal);
        assert!(u.dot(normal).raw >= 0);
    }
}

#[test]
fn random_vectors_stay_in_range() {
    for _ in 0..100 {
        let v = Vec3::random();
        assert!(0 <= v.x.raw && v.x.raw < SCALE);
        let w = Vec3::random_range(Fixed::from_int(-1), Fixed::one());
        assert!(-SCALE <= w.y.raw && w.y.raw < SCALE);
    }
}
