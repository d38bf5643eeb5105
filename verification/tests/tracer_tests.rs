use raytracer::camera::Camera;
use raytracer::camera::Shading;
use raytracer::hittable::HitRecord;
use raytracer::hittable::HittableList;
use raytracer::image::create;
use raytracer::image::ppm_bytes;
use raytracer::image::quantize;
use raytracer::image::rgb_of;
use raytracer::image::Rgb;
use raytracer::interval::Interval;
use raytracer::material::Lambertian;
use raytracer::material::Material;
use raytracer::material::Metal;
use raytracer::ray::Ray;
use raytracer::sphere::Sphere;
use raytracer::utils::degrees_to_radians;
use raytracer::vec3::Vec3;
use raytracer::ONE;

fn axis_ray() -> Ray {
    Ray::new(Vec3::new(0, 0, 0), Vec3::new(0, 0, -ONE))
}

#[test]
fn sphere_hit_straight_on_gives_distance_minus_radius() {
    let s = Sphere::new(Vec3::new(0, 0, -2_000_000), 500_000, None);
    let rec = s.hit(&axis_ray(), Interval::new(0, i64::MAX)).unwrap();
    assert_eq!(rec.t, 1_500_000);
    assert_eq!((rec.p.x, rec.p.y, rec.p.z), (0, 0, -1_500_000));
    // The outward normal runs straight back against the ray.
    assert_eq!((rec.normal.x, rec.normal.y, rec.normal.z), (0, 0, ONE));
    assert!(rec.front_face);
    assert!(rec.mat.is_none());
}

#[test]
fn sphere_missed_by_a_perpendicular_ray() {
    let s = Sphere::new(Vec3::new(0, 0, -2_000_000), 500_000, None);
    let up = Ray::new(Vec3::new(0, 0, 0), Vec3::new(0, ONE, 0));
    assert!(s.hit(&up, Interval::new(0, i64::MAX)).is_none());
    // An offset beyond the radius misses too.
    let offset = Ray::new(Vec3::new(600_000, 0, 0), Vec3::new(0, 0, -ONE));
    assert!(s.hit(&offset, Interval::new(0, i64::MAX)).is_none());
}

#[test]
fn sphere_tangent_ray_accepts_exactly_one_root() {
    // The ray grazes the sphere at an offset equal to the radius: the
    // discriminant is exactly zero and both roots coincide.
    let s = Sphere::new(Vec3::new(0, 0, -2_000_000), 500_000, None);
    let r = Ray::new(Vec3::new(500_000, 0, 0), Vec3::new(0, 0, -ONE));
    let rec = s.hit(&r, Interval::new(0, i64::MAX)).unwrap();
    assert_eq!(rec.t, 2_000_000);
    assert_eq!((rec.p.x, rec.p.y, rec.p.z), (500_000, 0, -2_000_000));
}

#[test]
fn normal_points_inward_for_a_ray_from_inside() {
    let s = Sphere::new(Vec3::new(0, 0, -2_000_000), 500_000, None);
    let from_center = Ray::new(Vec3::new(0, 0, -2_000_000), Vec3::new(0, 0, -ONE));
    let rec = s.hit(&from_center, Interval::new(0, i64::MAX)).unwrap();
    assert_eq!(rec.t, 500_000);
    assert!(!rec.front_face);
    // Flipped to oppose the ray: it points back toward the centre.
    assert_eq!((rec.normal.x, rec.normal.y, rec.normal.z), (0, 0, ONE));
}

#[test]
fn nearest_hit_wins_regardless_of_registration_order() {
    let near = Sphere::new(Vec3::new(0, 0, -2_000_000), 500_000, None);
    let far = Sphere::new(Vec3::new(0, 0, -4_000_000), 500_000, None);
    let mut a = HittableList::new();
    a.add(near);
    a.add(far);
    let mut b = HittableList::new();
    b.add(far);
    b.add(near);
    let ra = a.hit(&axis_ray(), Interval::new(0, i64::MAX)).unwrap();
    let rb = b.hit(&axis_ray(), Interval::new(0, i64::MAX)).unwrap();
    assert_eq!(ra.t, 1_500_000);
    assert_eq!(rb.t, 1_500_000);
    assert_eq!(ra.p.z, rb.p.z);
}

#[test]
fn empty_world_never_hits() {
    let world = HittableList::new();
    assert!(world.hit(&axis_ray(), Interval::new(0, i64::MAX)).is_none());
}

#[test]
fn shadow_acne_band_excludes_the_surface_just_left() {
    // The origin sits on the sphere's surface: the self-intersection at
    // zero is excluded, and the far side of the sphere is found instead.
    let s = Sphere::new(Vec3::new(0, 0, -500_000), 500_000, None);
    let r = axis_ray();
    let rec = s.hit(&r, Interval::new(1_000, i64::MAX)).unwrap();
    assert_eq!(rec.t, ONE);
    assert!(rec.t > 1_000);
}

#[test]
fn set_face_normal_orients_against_the_ray() {
    let mut rec = HitRecord::default();
    let r = axis_ray();
    rec.set_face_normal(&r, Vec3::new(0, 0, ONE));
    assert!(rec.front_face);
    assert_eq!(rec.normal.z, ONE);
    rec.set_face_normal(&r, Vec3::new(0, 0, -ONE));
    assert!(!rec.front_face);
    assert_eq!(rec.normal.z, ONE);
}

#[test]
fn lambertian_always_scatters_with_its_albedo() {
    let albedo = Vec3::new(500_000, 400_000, 300_000);
    let lam = Lambertian::new(albedo);
    let s = Sphere::new(
        Vec3::new(0, 0, -2_000_000),
        500_000,
        Some(Material::Lambertian(lam)),
    );
    let rec = s.hit(&axis_ray(), Interval::new(0, i64::MAX)).unwrap();
    let mut attenuation = Vec3::default();
    let mut scattered = Ray::default();
    for _ in 0..50 {
        assert!(lam.scatter(&axis_ray(), &rec, &mut attenuation, &mut scattered));
        assert_eq!((attenuation.x, attenuation.y, attenuation.z), (500_000, 400_000, 300_000));
        assert_eq!(scattered.origin.z, rec.p.z);
        assert!(!scattered.direction.near_zero());
    }
}

#[test]
fn metal_reflects_about_the_stored_normal() {
    let albedo = Vec3::new(800_000, 800_000, 800_000);
    let met = Metal::new(albedo);
    let s = Sphere::new(Vec3::new(0, 0, -2_000_000), 500_000, Some(Material::Metal(met)));
    let rec = s.hit(&axis_ray(), Interval::new(0, i64::MAX)).unwrap();
    let mut attenuation = Vec3::default();
    let mut scattered = Ray::default();
    assert!(met.scatter(&axis_ray(), &rec, &mut attenuation, &mut scattered));
    assert_eq!(attenuation.x, 800_000);
    // A head-on ray reflects straight back.
    assert_eq!(
        (scattered.direction.x, scattered.direction.y, scattered.direction.z),
        (0, 0, ONE),
    );
    assert_eq!(scattered.origin.z, rec.p.z);
}

#[test]
fn camera_dimensions_follow_the_aspect_ratio() {
    // A sixteen-by-nine ratio at four hundred columns gives 225 rows.
    let cam = Camera::new(400, 1_777_777, 100, 0);
    assert_eq!(cam.image_height, 225);
    assert_eq!(cam.image_width, 400);
    // Flooring clamps to at least one row.
    let flat = Camera::new(50, 100_000_000, 1, 0);
    assert_eq!(flat.image_height, 1);
}

#[test]
fn depth_zero_always_returns_black() {
    let mut world = HittableList::new();
    world.add(Sphere::new(Vec3::new(0, 0, -2_000_000), 500_000, None));
    let r = axis_ray();
    let c = Camera::ray_color_diffuse(&r, &world, 0);
    assert_eq!((c.x, c.y, c.z), (0, 0, 0));
    let c2 = Camera::ray_color_lambertian_diffuse(&r, &world, 0);
    assert_eq!((c2.x, c2.y, c2.z), (0, 0, 0));
}

#[test]
fn background_poles_are_blue_and_white() {
    let world = HittableList::new();
    let up = Ray::new(Vec3::new(0, 0, 0), Vec3::new(0, ONE, 0));
    let c = Camera::ray_color(&up, &world, 10);
    assert_eq!((c.x, c.y, c.z), (600_000, 700_000, ONE));
    let down = Ray::new(Vec3::new(0, 0, 0), Vec3::new(0, -ONE, 0));
    let w = Camera::ray_color(&down, &world, 10);
    assert_eq!((w.x, w.y, w.z), (ONE, ONE, ONE));
}

#[test]
fn gamma_is_the_fixed_point_square_root() {
    assert_eq!(Camera::linear_to_gamma(0), 0);
    assert_eq!(Camera::linear_to_gamma(-5), 0);
    assert_eq!(Camera::linear_to_gamma(250_000), 500_000);
    assert_eq!(Camera::linear_to_gamma(ONE), ONE);
    // Composed with the intensity clamp the channel stays below one.
    let intensity = Interval::new(0, 999_000);
    assert_eq!(intensity.clamp(Camera::linear_to_gamma(ONE)), 999_000);
    assert_eq!(intensity.clamp(Camera::linear_to_gamma(640_000)), 800_000);
}

#[test]
fn quantization_clamps_into_eight_bits() {
    assert_eq!(quantize(0), 0);
    assert_eq!(quantize(-100), 0);
    assert_eq!(quantize(500_000), 127);
    assert_eq!(quantize(999_000), 255);
    assert_eq!(quantize(ONE), 255);
    assert_eq!(quantize(5_000_000), 255);
    let p = rgb_of(Vec3::new(0, 500_000, 999_000));
    assert_eq!(p, Rgb { r: 0, g: 127, b: 255 });
}

#[test]
fn ppm_stream_has_header_and_one_line_per_pixel() {
    let pixels = vec![Rgb { r: 1, g: 2, b: 3 }, Rgb { r: 255, g: 0, b: 10 }];
    let bytes = ppm_bytes(2, 1, &pixels);
    assert_eq!(bytes, b"P3\n2 1\n255\n1 2 3\n255 0 10\n".to_vec());
}

#[test]
fn gradient_image_starts_black_and_ends_yellow() {
    let bytes = create();
    let text = String::from_utf8(bytes).unwrap();
    assert!(text.starts_with("P3\n256 256\n255\n0 0 0\n"));
    assert!(text.ends_with("255 255 0\n"));
    assert_eq!(text.lines().count(), 3 + 256 * 256);
}

#[test]
fn render_is_deterministic_without_sampling() {
    let mut world = HittableList::new();
    world.add(Sphere::new(Vec3::new(0, 0, -ONE), 500_000, None));
    world.add(Sphere::new(Vec3::new(0, -100_500_000, -ONE), 100_000_000, None));
    let cam = Camera::new(400, 1_777_777, 1, 0);
    let first = cam.render(&world, Shading::Normals, false, false);
    assert_eq!(first.len(), 400 * 225);
    let second = cam.render(&world, Shading::Normals, false, false);
    assert_eq!(first, second);
    let a = ppm_bytes(400, 225, &first);
    let b = ppm_bytes(400, 225, &second);
    assert_eq!(a, b);
    // The top-left pixel misses the scene and shows the gradient.
    let corner = first[0];
    assert!(corner.b >= corner.r);
}

#[test]
fn sampled_render_has_full_coverage() {
    let mut world = HittableList::new();
    world.add(
        Sphere::new(
            Vec3::new(0, 0, -ONE),
            500_000,
            Some(Material::Lambertian(Lambertian::new(Vec3::new(500_000, 500_000, 500_000)))),
        ),
    );
    let cam = Camera::new(40, 1_777_777, 4, 8);
    let pixels = cam.render(&world, Shading::LambertianDiffuse, true, true);
    assert_eq!(pixels.len(), 40 * 22);
}

#[test]
fn single_pixel_render_has_exact_values() {
    // A one-by-one square camera fires its only primary ray straight
    // ahead; the shaded normal of a centred sphere quantizes exactly.
    let cam = Camera::new(1, 1_000_000, 1, 0);
    assert_eq!(cam.image_height, 1);
    let mut world = HittableList::new();
    world.add(Sphere::new(Vec3::new(0, 0, -2_000_000), 500_000, None));
    let hit_pixels = cam.render(&world, Shading::Normals, false, false);
    assert_eq!(hit_pixels, vec![Rgb { r: 127, g: 127, b: 255 }]);
    // With nothing to hit, the straight-ahead ray shows the mid blend of
    // the background gradient.
    let empty = HittableList::new();
    let sky_pixels = cam.render(&empty, Shading::Normals, false, false);
    assert_eq!(sky_pixels, vec![Rgb { r: 204, g: 217, b: 255 }]);
}

#[test]
fn degrees_convert_to_fixed_point_radians() {
    assert_eq!(degrees_to_radians(180_000_000), 3_141_593);
    assert_eq!(degrees_to_radians(90_000_000), 1_570_796);
    assert_eq!(degrees_to_radians(0), 0);
}
