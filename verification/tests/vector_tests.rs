use raytracer::fixed::floor_div;
use raytracer::fixed::isqrt;
use raytracer::interval::Interval;
use raytracer::ray::Ray;
use raytracer::vec3::cross;
use raytracer::vec3::dot;
use raytracer::vec3::random_in_unit_sphere;
use raytracer::vec3::random_on_hemisphere;
use raytracer::vec3::random_unit_vector;
use raytracer::vec3::reflect;
use raytracer::vec3::unit_vector;
use raytracer::vec3::Vec3;
use raytracer::ONE;

#[test]
fn floor_div_rounds_toward_negative_infinity() {
    assert_eq!(floor_div(7, 2), 3);
    assert_eq!(floor_div(-7, 2), -4);
    assert_eq!(floor_div(-6, 2), -3);
    assert_eq!(floor_div(0, 5), 0);
}

#[test]
fn isqrt_exact_and_floored() {
    assert_eq!(isqrt(0), 0);
    assert_eq!(isqrt(1), 1);
    assert_eq!(isqrt(24), 4);
    assert_eq!(isqrt(25), 5);
    assert_eq!(isqrt(1_000_000_000_000), 1_000_000);
    assert_eq!(isqrt(999_999_999_999), 999_999);
}

#[test]
fn componentwise_arithmetic_is_exact() {
    let a = Vec3::new(1_000_000, -2_000_000, 3_000_000);
    let b = Vec3::new(500_000, 500_000, -500_000);
    let s = a.add(b);
    assert_eq!((s.x, s.y, s.z), (1_500_000, -1_500_000, 2_500_000));
    let d = a.sub(b);
    assert_eq!((d.x, d.y, d.z), (500_000, -2_500_000, 3_500_000));
    let n = a.neg();
    assert_eq!((n.x, n.y, n.z), (-1_000_000, 2_000_000, -3_000_000));
    // Componentwise fixed-point product: one times a half is a half.
    let m = a.mul(b);
    assert_eq!((m.x, m.y, m.z), (500_000, -1_000_000, -1_500_000));
    let sc = a.scale(2_000_000);
    assert_eq!((sc.x, sc.y, sc.z), (2_000_000, -4_000_000, 6_000_000));
    let dv = a.div(2_000_000);
    assert_eq!((dv.x, dv.y, dv.z), (500_000, -1_000_000, 1_500_000));
}

#[test]
fn assigning_operators_update_in_place() {
    let mut v = Vec3::new(ONE, 2 * ONE, -ONE);
    v.add_assign(Vec3::new(ONE, 0, 0));
    assert_eq!((v.x, v.y, v.z), (2 * ONE, 2 * ONE, -ONE));
    v.sub_assign(Vec3::new(0, ONE, 0));
    assert_eq!((v.x, v.y, v.z), (2 * ONE, ONE, -ONE));
    v.mul_assign(Vec3::new(500_000, 500_000, 500_000));
    assert_eq!((v.x, v.y, v.z), (ONE, 500_000, -500_000));
    v.div_assign(2 * ONE);
    assert_eq!((v.x, v.y, v.z), (500_000, 250_000, -250_000));
}

#[test]
fn dot_product_matches_squared_length() {
    let v = Vec3::new(3_000_000, 4_000_000, 0);
    assert_eq!(dot(v, v), v.length_squared());
    assert_eq!(v.length_squared(), 25_000_000_000_000);
    assert_eq!(v.length(), 5_000_000);
}

#[test]
fn cross_product_of_axes_and_orthogonality() {
    let x = Vec3::new(ONE, 0, 0);
    let y = Vec3::new(0, ONE, 0);
    let z = cross(x, y);
    assert_eq!((z.x, z.y, z.z), (0, 0, ONE));
    let a = Vec3::new(1_000_000, 2_000_000, 3_000_000);
    let b = Vec3::new(-4_000_000, 5_000_000, 6_000_000);
    // The raw cross product (before rescaling) is exactly orthogonal;
    // rescaling by the whole unit keeps it so for these unit multiples.
    let c = cross(a, b);
    assert_eq!(dot(c, a), 0);
    assert_eq!(dot(c, b), 0);
}

#[test]
fn unit_vector_of_three_four_five_triangle() {
    let v = Vec3::new(3_000_000, 4_000_000, 0);
    let u = unit_vector(v);
    assert_eq!((u.x, u.y, u.z), (600_000, 800_000, 0));
    assert_eq!(u.length_squared(), 1_000_000_000_000);
}

#[test]
fn unit_vector_length_is_one_within_resolution() {
    let v = Vec3::new(1_234_567, -7_654_321, 2_222_222);
    let u = unit_vector(v);
    let q = u.length_squared();
    assert!(q >= 999_993_999_997);
    assert!(q <= 1_000_008_000_001);
}

#[test]
fn near_zero_only_on_zero_vector() {
    assert!(Vec3::new(0, 0, 0).near_zero());
    assert!(!Vec3::new(0, 1, 0).near_zero());
    assert!(!Vec3::new(-1, 0, 0).near_zero());
}

#[test]
fn index_selects_components() {
    let v = Vec3::new(7, 8, 9);
    assert_eq!(v.index(0), 7);
    assert_eq!(v.index(1), 8);
    assert_eq!(v.index(2), 9);
}

#[test]
fn random_vectors_respect_their_ranges() {
    for _ in 0..100 {
        let v = Vec3::random(-ONE, ONE);
        assert!(-ONE <= v.x && v.x < ONE);
        assert!(-ONE <= v.y && v.y < ONE);
        assert!(-ONE <= v.z && v.z < ONE);
        let p = random_in_unit_sphere();
        let q = p.length_squared();
        assert!(1 <= q && q < 1_000_000_000_000);
        let u = random_unit_vector();
        let uq = u.length_squared();
        assert!(uq >= 999_993_999_997 && uq <= 1_000_010_000_000);
    }
}

#[test]
fn random_draws_are_not_constant() {
    let mut seen_distinct = false;
    let first = raytracer::rng::random_in_range(0, ONE);
    for _ in 0..100 {
        if raytracer::rng::random_in_range(0, ONE) != first {
            seen_distinct = true;
        }
    }
    assert!(seen_distinct);
    assert_eq!(raytracer::rng::random_in_range(5, 6), 5);
}

#[test]
fn hemisphere_samples_never_oppose_the_normal() {
    let n = Vec3::new(0, 0, ONE);
    for _ in 0..100 {
        let v = random_on_hemisphere(n);
        assert!(dot(v, n) >= 0);
    }
}

#[test]
fn reflection_about_a_normal_mirrors_the_ray() {
    let v = Vec3::new(0, -ONE, 0);
    let n = Vec3::new(0, ONE, 0);
    let r = reflect(v, n);
    assert_eq!((r.x, r.y, r.z), (0, ONE, 0));
    // A grazing direction keeps its tangential part.
    let v2 = unit_vector(Vec3::new(ONE, -ONE, 0));
    let r2 = reflect(v2, n);
    assert_eq!(r2.x, v2.x);
    assert_eq!(r2.y, -v2.y);
}

#[test]
fn interval_containment_and_clamp() {
    let itv = Interval::new(0, 999_000);
    assert!(itv.contains(0));
    assert!(itv.contains(999_000));
    assert!(!itv.surrounds(0));
    assert!(itv.surrounds(1));
    assert!(!itv.surrounds(999_000));
    assert!(!itv.contains(-1));
    assert_eq!(itv.clamp(-5), 0);
    assert_eq!(itv.clamp(1_000_000), 999_000);
    assert_eq!(itv.clamp(123), 123);
    let empty = Interval::default();
    assert!(!empty.contains(0));
}

#[test]
fn ray_evaluates_points_along_itself() {
    let r = Ray::new(Vec3::new(ONE, 0, 0), Vec3::new(0, 0, -ONE));
    let p = r.at(2_500_000);
    assert_eq!((p.x, p.y, p.z), (ONE, 0, -2_500_000));
    let back = r.at(-ONE);
    assert_eq!((back.x, back.y, back.z), (ONE, 0, ONE));
    let d = Ray::default();
    assert_eq!((d.origin.x, d.direction.z), (0, 0));
}
