//! The camera: derived viewport geometry, per-pixel ray generation with
//! optional jittered sampling, the recursive colour evaluators, and the
//! render loop.

use crate::fixed::floor_div;
use crate::fixed::lemma_abs_mul;
use crate::fixed::lemma_div_between;
use crate::fixed::lemma_sqrt_floor_pos;
use crate::fixed::lemma_sqrt_lt;
use crate::fixed::isqrt;
use crate::fixed::sqrti;
use crate::hittable::list_hit;
use crate::hittable::spec_face_normal;
use crate::hittable::wf_list;
use crate::hittable::HittableList;
use crate::image::rgb_of;
use crate::image::Rgb;
use crate::interval::Interval;
use crate::material::wf_albedo;
use crate::ray::wf_ray;
use crate::ray::Ray;
use crate::rng::random_in_range;
use crate::sphere::hit_outward;
use crate::sphere::Sphere;
use crate::vec3::in_range;
use crate::vec3::unit_vector;
use crate::vec3::vlen2;
use crate::vec3::vmul;
use crate::vec3::vunit;
use crate::vec3::Color;
use crate::vec3::Point3;
use crate::vec3::Vec3;
use crate::ONE;
use vstd::arithmetic::div_mod::lemma_div_pos_is_pos;
use vstd::arithmetic::div_mod::lemma_fundamental_div_mod;
use vstd::arithmetic::div_mod::lemma_mod_division_less_than_divisor;
use vstd::arithmetic::mul::lemma_mul_inequality;
use vstd::prelude::*;

verus! {

/// Which colour evaluator the render loop drives when sampling.
#[derive(Clone, Copy, Debug, PartialEq, Eq, Structural)]
pub enum Shading {
    Normals,
    Diffuse,
    LambertianDiffuse,
}

/// A camera at the origin facing negative z, with its derived viewport
/// geometry and render parameters.
pub struct Camera {
    pub image_width: i64,
    pub aspect_ratio: i64,
    pub samples_per_pixel: i64,
    pub max_depth: i64,
    pub image_height: i64,
    pub center: Point3,
    pub pixel00_loc: Point3,
    pub pixel_delta_u: Vec3,
    pub pixel_delta_v: Vec3,
}

/// The image height derived from width and aspect ratio, floored and
/// clamped to at least one row.
pub open spec fn spec_image_height(w: int, ar: int) -> int {
    let h = w * ONE / ar;
    if h < 1 {
        1
    } else {
        h
    }
}

/// The viewport width: the fixed height of two units scaled by the actual
/// integer pixel aspect ratio.
pub open spec fn spec_viewport_width(w: int, h: int) -> int {
    2 * ONE * w / h
}

/// The geometric part of a camera's invariant: every derived field holds
/// the value computed from width and aspect ratio, and the bounds the ray
/// builder needs.
pub open spec fn camera_wf(c: Camera) -> bool {
    let w = c.image_width as int;
    let h = c.image_height as int;
    let vw = spec_viewport_width(w, h);
    &&& 1 <= c.image_width <= 10_000
    &&& 10_000 <= c.aspect_ratio <= 100_000_000
    &&& h == spec_image_height(w, c.aspect_ratio as int)
    &&& 1 <= h <= 1_000_000
    &&& c.center@ == (0int, 0int, 0int)
    &&& c.pixel_delta_u@ == (vw / w, 0int, 0int)
    &&& c.pixel_delta_v@ == (0int, -(2 * ONE) / h, 0int)
    &&& c.pixel00_loc@ == (-(vw / 2) + vw / w / 2, ONE + (-(2 * ONE) / h) / 2, -ONE as int)
    &&& 0 <= c.pixel_delta_u@.0 <= 400_000_000
    &&& -2_000_000 <= c.pixel_delta_v@.1 <= 0
    &&& w * c.pixel_delta_u@.0 <= 400_000_000
    &&& h * c.pixel_delta_v@.1 >= -3_000_000
    &&& in_range(c.pixel00_loc@, 200_000_000)
}

/// Every channel of an evaluated colour stays within one unit below zero
/// and two units above: attenuation can only keep a colour in the band.
pub open spec fn color_band(c: (int, int, int)) -> bool {
    &&& -(ONE as int) <= c.0 <= 2 * ONE
    &&& -(ONE as int) <= c.1 <= 2 * ONE
    &&& -(ONE as int) <= c.2 <= 2 * ONE
}

/// Flat shading of a surface normal: half of the normal shifted up by
/// one unit in every channel.
pub open spec fn spec_normal_shade(n: (int, int, int)) -> (int, int, int) {
    ((n.0 + ONE) / 2, (n.1 + ONE) / 2, (n.2 + ONE) / 2)
}

/// One channel of the background blend: white at zero, sky blue at one.
pub open spec fn spec_lerp(a: int, w: int, b: int) -> int {
    ((ONE - a) * w + a * b) / ONE as int
}

/// The background gradient: a blend from white to sky blue by the unit
/// direction's height.
pub open spec fn spec_background(dir: (int, int, int)) -> (int, int, int) {
    let u = vunit(dir);
    let a = (u.1 + ONE) / 2;
    (
        spec_lerp(a, ONE as int, 600_000),
        spec_lerp(a, ONE as int, 700_000),
        spec_lerp(a, ONE as int, ONE as int),
    )
}

/// The blend of two channels within one unit stays within one unit.
pub proof fn lemma_lerp_bounds(a: int, w: int, b: int)
    requires
        0 <= a <= ONE,
        0 <= w <= ONE,
        0 <= b <= ONE,
    ensures
        0 <= spec_lerp(a, w, b) <= ONE,
{
    assert(0 <= (ONE - a) * w + a * b <= 1_000_000_000_000) by (nonlinear_arith)
        requires
            0 <= a <= ONE,
            0 <= w <= ONE,
            0 <= b <= ONE,
            ONE == 1_000_000i64,
    {
    }
    lemma_div_between((ONE - a) * w + a * b, 1_000_000, 0, 1_000_000);
}

/// Gamma correction of one channel: the fixed-point square root.
pub open spec fn spec_gamma(x: int) -> int {
    if x <= 0 {
        0
    } else {
        sqrti(x * ONE)
    }
}

/// The colour of a ray under flat-normal shading: the shaded against-ray
/// normal of the nearest hit, or the background gradient.
pub open spec fn spec_ray_color(r: Ray, objs: Seq<Sphere>) -> (int, int, int) {
    match list_hit(objs, r, 0, i64::MAX as int) {
        Some((i, t)) => spec_normal_shade(
            spec_face_normal(r.direction@, hit_outward(objs[i], r, t)),
        ),
        None => spec_background(r.direction@),
    }
}

/// The centre of pixel `(i, j)` in world space; the deltas move only
/// along their own axis.
pub open spec fn spec_pixel_center(c: Camera, i: int, j: int) -> (int, int, int) {
    (
        c.pixel00_loc@.0 + i * c.pixel_delta_u@.0,
        c.pixel00_loc@.1 + j * c.pixel_delta_v@.1,
        c.pixel00_loc@.2,
    )
}

/// The unjittered primary ray through the centre of pixel `(i, j)`.
pub open spec fn spec_primary_ray(c: Camera, i: int, j: int) -> Ray {
    Ray {
        origin: Vec3 { x: 0, y: 0, z: 0 },
        direction: Vec3 {
            x: spec_pixel_center(c, i, j).0 as i64,
            y: spec_pixel_center(c, i, j).1 as i64,
            z: spec_pixel_center(c, i, j).2 as i64,
        },
    }
}

/// The pixel at flat index `k` of the unsampled render: the quantized
/// flat-normal colour of the primary ray through it.
pub open spec fn spec_render_pixel(c: Camera, objs: Seq<Sphere>, k: int) -> Rgb {
    let i = k % c.image_width as int;
    let j = k / c.image_width as int;
    let col = spec_ray_color(spec_primary_ray(c, i, j), objs);
    Rgb {
        r: crate::image::spec_quantize(col.0) as u8,
        g: crate::image::spec_quantize(col.1) as u8,
        b: crate::image::spec_quantize(col.2) as u8,
    }
}

/// The background gradient for a nonzero direction, exact.
fn background(dir: Vec3) -> (c: Color)
    requires
        in_range(dir@, crate::VEC_MAX as int),
        vlen2(dir@) >= 1,
    ensures
        c@ == spec_background(dir@),
        0 <= c@.0 <= ONE,
        0 <= c@.1 <= ONE,
        0 <= c@.2 <= ONE,
{
    let u = unit_vector(dir);
    let a = floor_div(u.y as i128 + ONE as i128, 2) as i64;
    proof {
        lemma_div_between(u@.1 + ONE, 2, 0, 1_000_000);
        lemma_lerp_bounds(a as int, ONE as int, 600_000);
        lemma_lerp_bounds(a as int, ONE as int, 700_000);
        lemma_lerp_bounds(a as int, ONE as int, ONE as int);
        lemma_abs_mul(ONE - a, ONE as int, 1_000_000, 1_000_000);
        lemma_abs_mul(a as int, 600_000, 1_000_000, 1_000_000);
        lemma_abs_mul(a as int, 700_000, 1_000_000, 1_000_000);
        lemma_abs_mul(a as int, ONE as int, 1_000_000, 1_000_000);
    }
    Vec3::new(
        floor_div((ONE - a) as i128 * ONE as i128 + a as i128 * 600_000, ONE as i128) as i64,
        floor_div((ONE - a) as i128 * ONE as i128 + a as i128 * 700_000, ONE as i128) as i64,
        floor_div((ONE - a) as i128 * ONE as i128 + a as i128 * ONE as i128, ONE as i128) as i64,
    )
}

impl Camera {
    /// Derive the viewport geometry from the image width and aspect
    /// ratio; the height is floored and clamped to at least one row. The
    /// bounds on the arguments keep every derived coordinate and every
    /// per-pixel product inside the fixed-point budget.
    pub fn new(image_width: i64, aspect_ratio: i64, samples_per_pixel: i64, max_depth: i64) -> (c:
        Camera)
        requires
            1 <= image_width <= 10_000,
            10_000 <= aspect_ratio <= 100_000_000,
            1 <= samples_per_pixel <= 100_000,
            0 <= max_depth <= 1_000,
        ensures
            camera_wf(c),
            c.image_width == image_width,
            c.aspect_ratio == aspect_ratio,
            c.samples_per_pixel == samples_per_pixel,
            c.max_depth == max_depth,
    {
        let ghost wi = image_width as int;
        proof {
            lemma_mul_inequality(wi, aspect_ratio as int, ONE as int);
            vstd::arithmetic::mul::lemma_mul_is_commutative(aspect_ratio as int, ONE as int);
            lemma_div_between(wi * ONE as int, aspect_ratio as int, 0, 1_000_000);
            lemma_div_pos_is_pos(wi * ONE as int, aspect_ratio as int);
        }
        let h0 = floor_div(image_width as i128 * ONE as i128, aspect_ratio as i128) as i64;
        let image_height: i64 = if h0 < 1 {
            1
        } else {
            h0
        };
        let ghost hi = image_height as int;
        proof {
            // Two hundred rows per hundred columns at the flattest ratio:
            // the viewport width stays below four hundred units.
            lemma_fundamental_div_mod(wi * ONE as int, aspect_ratio as int);
            lemma_mod_division_less_than_divisor(wi * ONE as int, aspect_ratio as int);
            lemma_mul_inequality(aspect_ratio as int, 100_000_000, h0 as int);
            vstd::arithmetic::mul::lemma_mul_is_commutative(aspect_ratio as int, h0 as int);
            vstd::arithmetic::mul::lemma_mul_is_commutative(100_000_000, h0 as int);
            assert(200 * hi >= wi);
            assert(2 * ONE as int * wi == 2_000_000 * wi) by (nonlinear_arith)
                requires
                    ONE == 1_000_000i64,
            {
            }
            lemma_div_between(2 * ONE as int * wi, hi, 0, 400_000_000);
        }
        let vw = floor_div(2 * ONE as i128 * image_width as i128, image_height as i128) as i64;
        proof {
            lemma_fundamental_div_mod(vw as int, wi);
            lemma_mod_division_less_than_divisor(vw as int, wi);
            lemma_div_between(vw as int, wi, 0, 400_000_000);
            lemma_fundamental_div_mod(-(2 * ONE as int), hi);
            lemma_mod_division_less_than_divisor(-(2 * ONE as int), hi);
            lemma_div_between(-(2 * ONE as int), hi, -2_000_000, 0);
        }
        let pixel_delta_u = Vec3::new(floor_div(vw as i128, image_width as i128) as i64, 0, 0);
        let pixel_delta_v = Vec3::new(
            0,
            floor_div(-(2 * ONE as i128), image_height as i128) as i64,
            0,
        );
        proof {
            lemma_div_between(vw as int, 2, 0, 200_000_000);
            lemma_div_between(pixel_delta_u@.0, 2, 0, 200_000_000);
            lemma_div_between(pixel_delta_v@.1, 2, -1_000_000, 0);
        }
        let center = Vec3::new(0, 0, 0);
        let ul_x = -floor_div(vw as i128, 2) as i64;
        let pixel00_loc = Vec3::new(
            ul_x + floor_div(pixel_delta_u.x as i128, 2) as i64,
            ONE + floor_div(pixel_delta_v.y as i128, 2) as i64,
            -ONE,
        );
        Camera {
            image_width,
            aspect_ratio,
            samples_per_pixel,
            max_depth,
            image_height,
            center,
            pixel00_loc,
            pixel_delta_u,
            pixel_delta_v,
        }
    }

    /// Gamma-2 decoding of one channel: the fixed-point square root of a
    /// nonnegative channel, zero below zero.
    pub fn linear_to_gamma(linear_component: i64) -> (r: i64)
        ensures
            r as int == spec_gamma(linear_component as int),
            0 <= r,
            linear_component <= ONE ==> r <= ONE,
            linear_component <= 4 * ONE ==> r <= 2 * ONE,
    {
        if linear_component <= 0 {
            0
        } else {
            proof {
                lemma_abs_mul(
                    linear_component as int,
                    ONE as int,
                    9_223_372_036_854_775_807,
                    1_000_000,
                );
            }
            let q = linear_component as i128 * ONE as i128;
            proof {
                assert(linear_component as int * ONE as int >= 1) by (nonlinear_arith)
                    requires
                        linear_component >= 1,
                        ONE == 1_000_000i64,
                {
                }
            }
            let s = isqrt(q as u128);
            proof {
                lemma_sqrt_floor_pos(q as nat);
                lemma_sqrt_lt(q as int, s as int, 3_040_000_000_000);
                if linear_component <= ONE {
                    lemma_sqrt_lt(q as int, s as int, 1_000_001);
                }
                if linear_component <= 4 * ONE {
                    lemma_sqrt_lt(q as int, s as int, 2_000_001);
                }
            }
            s as i64
        }
    }

    /// Flat-normal shading: the colour of the nearest hit's against-ray
    /// normal, or the background gradient on a miss.
    pub fn ray_color(r: &Ray, world: &HittableList, _max_depth: i64) -> (c: Color)
        requires
            wf_ray(*r),
            wf_list(world.objects@),
            vlen2(r.direction@) >= 1,
        ensures
            c@ == spec_ray_color(*r, world.objects@),
            color_band(c@),
    {
        match world.hit(r, Interval::new(0, i64::MAX)) {
            Some(rec) => {
                proof {
                    lemma_div_between(rec.normal@.0 + ONE, 2, -500_000, 1_500_000);
                    lemma_div_between(rec.normal@.1 + ONE, 2, -500_000, 1_500_000);
                    lemma_div_between(rec.normal@.2 + ONE, 2, -500_000, 1_500_000);
                }
                Vec3::new(
                    floor_div(rec.normal.x as i128 + ONE as i128, 2) as i64,
                    floor_div(rec.normal.y as i128 + ONE as i128, 2) as i64,
                    floor_div(rec.normal.z as i128 + ONE as i128, 2) as i64,
                )
            },
            None => background(r.direction),
        }
    }

    /// Uniform-hemisphere diffuse shading: on a hit the bounce direction
    /// is drawn on the normal's hemisphere and the bounced colour is
    /// halved; recursion stops at depth zero with black. The hit search
    /// starts a thousandth of a unit out to avoid re-meeting the surface
    /// just left.
    pub fn ray_color_diffuse(r: &Ray, world: &HittableList, depth: i64) -> (c: Color)
        requires
            wf_ray(*r),
            wf_list(world.objects@),
            vlen2(r.direction@) >= 1,
            depth <= 1_000,
        ensures
            depth <= 0 ==> c@ == (0int, 0int, 0int),
            depth > 0 && list_hit(world.objects@, *r, crate::SHADOW_EPS as int, i64::MAX as int)
                is None ==> c@ == spec_background(r.direction@),
            color_band(c@),
        decreases depth,
    {
        if depth <= 0 {
            return Vec3::new(0, 0, 0);
        }
        match world.hit(r, Interval::new(crate::SHADOW_EPS, i64::MAX)) {
            Some(rec) => {
                let direction = crate::vec3::random_on_hemisphere(rec.normal);
                let bounced = Ray::new(rec.p, direction);
                let inner = Self::ray_color_diffuse(&bounced, world, depth - 1);
                proof {
                    lemma_div_between(inner@.0, 2, -500_000, 1_000_000);
                    lemma_div_between(inner@.1, 2, -500_000, 1_000_000);
                    lemma_div_between(inner@.2, 2, -500_000, 1_000_000);
                }
                Vec3::new(
                    floor_div(inner.x as i128, 2) as i64,
                    floor_div(inner.y as i128, 2) as i64,
                    floor_div(inner.z as i128, 2) as i64,
                )
            },
            None => background(r.direction),
        }
    }

    /// Material shading: the nearest hit's material scatters the ray and
    /// tints the bounced colour by its albedo; absorption and exhausted
    /// depth give black; a surface without a material shows its shaded
    /// normal; a miss shows the background.
    pub fn ray_color_lambertian_diffuse(r: &Ray, world: &HittableList, depth: i64) -> (c: Color)
        requires
            wf_ray(*r),
            wf_list(world.objects@),
            vlen2(r.direction@) >= 1,
            depth <= 1_000,
        ensures
            depth <= 0 ==> c@ == (0int, 0int, 0int),
            depth > 0 && list_hit(world.objects@, *r, crate::SHADOW_EPS as int, i64::MAX as int)
                is None ==> c@ == spec_background(r.direction@),
            depth > 0 ==> (list_hit(
                world.objects@,
                *r,
                crate::SHADOW_EPS as int,
                i64::MAX as int,
            ) matches Some((i, t)) ==> (world.objects@[i].mat is None ==> c@ == spec_normal_shade(
                spec_face_normal(r.direction@, hit_outward(world.objects@[i], *r, t)),
            ))),
            color_band(c@),
        decreases depth,
    {
        if depth <= 0 {
            return Vec3::new(0, 0, 0);
        }
        match world.hit(r, Interval::new(crate::SHADOW_EPS, i64::MAX)) {
            Some(rec) => {
                match rec.mat {
                    Some(mat) => {
                        let mut attenuation = Vec3::default();
                        let mut scattered = Ray::default();
                        if mat.scatter(r, &rec, &mut attenuation, &mut scattered) {
                            let inner = Self::ray_color_lambertian_diffuse(
                                &scattered,
                                world,
                                depth - 1,
                            );
                            proof {
                                lemma_vmul_band(attenuation@, inner@);
                            }
                            attenuation.mul(inner)
                        } else {
                            Vec3::new(0, 0, 0)
                        }
                    },
                    None => {
                        proof {
                            lemma_div_between(rec.normal@.0 + ONE, 2, -500_000, 1_500_000);
                            lemma_div_between(rec.normal@.1 + ONE, 2, -500_000, 1_500_000);
                            lemma_div_between(rec.normal@.2 + ONE, 2, -500_000, 1_500_000);
                        }
                        Vec3::new(
                            floor_div(rec.normal.x as i128 + ONE as i128, 2) as i64,
                            floor_div(rec.normal.y as i128 + ONE as i128, 2) as i64,
                            floor_div(rec.normal.z as i128 + ONE as i128, 2) as i64,
                        )
                    },
                }
            },
            None => background(r.direction),
        }
    }
}

/// The jitter a sample pair displaces a pixel centre by: each fixed-point
/// fraction of a pixel scales its own delta vector.
pub open spec fn spec_sample_square(c: Camera, px: int, py: int) -> (int, int, int) {
    (px * c.pixel_delta_u@.0 / ONE as int, py * c.pixel_delta_v@.1 / ONE as int, 0int)
}

impl Camera {
    /// The deterministic part of pixel sampling: the displacement for a
    /// given jitter pair, each within half a pixel.
    pub fn pixel_sample_square_with(&self, px: i64, py: i64) -> (v: Vec3)
        requires
            camera_wf(*self),
            -500_000 <= px <= 500_000,
            -500_000 <= py <= 500_000,
        ensures
            v@ == spec_sample_square(*self, px as int, py as int),
            -200_000_000 <= v@.0 <= 200_000_000,
            -1_000_000 <= v@.1 <= 1_000_000,
            v@.2 == 0,
    {
        proof {
            lemma_abs_mul(px as int, self.pixel_delta_u@.0, 500_000, 400_000_000);
            lemma_abs_mul(py as int, self.pixel_delta_v@.1, 500_000, 2_000_000);
            lemma_div_between(px as int * self.pixel_delta_u@.0, 1_000_000, -200_000_000, 200_000_000);
            lemma_div_between(py as int * self.pixel_delta_v@.1, 1_000_000, -1_000_000, 1_000_000);
        }
        Vec3::new(
            floor_div(px as i128 * self.pixel_delta_u.x as i128, ONE as i128) as i64,
            floor_div(py as i128 * self.pixel_delta_v.y as i128, ONE as i128) as i64,
            0,
        )
    }

    /// A uniformly random displacement within the square around a pixel
    /// centre: half a pixel each way along both deltas.
    pub fn pixel_sample_square(&self) -> (v: Vec3)
        requires
            camera_wf(*self),
        ensures
            -200_000_000 <= v@.0 <= 200_000_000,
            -1_000_000 <= v@.1 <= 1_000_000,
            v@.2 == 0,
    {
        let px = -(ONE / 2) + random_in_range(0, ONE);
        let py = -(ONE / 2) + random_in_range(0, ONE);
        self.pixel_sample_square_with(px, py)
    }

    /// The centre of pixel `(i, j)`, exact.
    fn pixel_center(&self, i: i64, j: i64) -> (p: Point3)
        requires
            camera_wf(*self),
            0 <= i < self.image_width,
            0 <= j < self.image_height,
        ensures
            p@ == spec_pixel_center(*self, i as int, j as int),
            in_range(p@, 603_000_000),
            p@.2 == -(ONE as int),
    {
        proof {
            lemma_mul_inequality(0, i as int, self.pixel_delta_u@.0);
            lemma_mul_inequality(i as int, self.image_width as int, self.pixel_delta_u@.0);
            lemma_mul_inequality(0, j as int, -self.pixel_delta_v@.1);
            lemma_mul_inequality(j as int, self.image_height as int, -self.pixel_delta_v@.1);
            assert(j as int * -self.pixel_delta_v@.1 == -(j as int * self.pixel_delta_v@.1))
                by (nonlinear_arith);
            assert(self.image_height as int * -self.pixel_delta_v@.1 == -(
            self.image_height as int * self.pixel_delta_v@.1)) by (nonlinear_arith);
        }
        Vec3::new(
            self.pixel00_loc.x + i * self.pixel_delta_u.x,
            self.pixel00_loc.y + j * self.pixel_delta_v.y,
            self.pixel00_loc.z,
        )
    }

    /// A jittered camera ray for pixel `(i, j)`: from the camera centre
    /// through a random point in the square around the pixel's centre.
    pub fn get_ray(&self, i: i64, j: i64) -> (r: Ray)
        requires
            camera_wf(*self),
            0 <= i < self.image_width,
            0 <= j < self.image_height,
        ensures
            r.origin@ == (0int, 0int, 0int),
            wf_ray(r),
            vlen2(r.direction@) >= 1,
            -200_000_000 <= r.direction@.0 - spec_pixel_center(*self, i as int, j as int).0
                <= 200_000_000,
            -1_000_000 <= r.direction@.1 - spec_pixel_center(*self, i as int, j as int).1
                <= 1_000_000,
            r.direction@.2 == spec_pixel_center(*self, i as int, j as int).2,
    {
        let pixel_center = self.pixel_center(i, j);
        let offset = self.pixel_sample_square();
        let pixel_sample = pixel_center.add(offset);
        let ray_origin = self.center;
        let ray_direction = pixel_sample.sub(ray_origin);
        proof {
            assert(vlen2(ray_direction@) >= 1) by (nonlinear_arith)
                requires
                    ray_direction@.2 == -1_000_000,
                    vlen2(ray_direction@) == ray_direction@.0 * ray_direction@.0
                        + ray_direction@.1 * ray_direction@.1 + ray_direction@.2
                        * ray_direction@.2,
            {
            }
        }
        Ray::new(ray_origin, ray_direction)
    }

    /// Render the scene to a row-major pixel buffer, top row first. With
    /// sampling off, one ray goes through each pixel centre and the image
    /// is the quantized flat-normal colour of every pixel, exactly; with
    /// sampling on, the stated evaluator's samples are averaged, gamma
    /// correction optionally applied, and the channels clamped before
    /// quantization.
    pub fn render(
        &self,
        world: &HittableList,
        shading: Shading,
        anti_aliasing: bool,
        gamma_correction: bool,
    ) -> (pixels: Vec<Rgb>)
        requires
            camera_wf(*self),
            wf_list(world.objects@),
            1 <= self.samples_per_pixel <= 100_000,
            0 <= self.max_depth <= 1_000,
        ensures
            pixels@.len() == self.image_height * self.image_width,
            !anti_aliasing ==> forall|k: int|
                0 <= k < pixels@.len() ==> pixels@[k] == spec_render_pixel(
                    *self,
                    world.objects@,
                    k,
                ),
    {
        let w = self.image_width;
        let h = self.image_height;
        let mut pixels: Vec<Rgb> = Vec::new();
        let mut j: i64 = 0;
        if anti_aliasing {
            while j < h
                invariant
                    camera_wf(*self),
                    wf_list(world.objects@),
                    1 <= self.samples_per_pixel <= 100_000,
                    0 <= self.max_depth <= 1_000,
                    w == self.image_width,
                    h == self.image_height,
                    0 <= j <= h,
                    pixels@.len() == j * w,
                decreases h - j,
            {
                let mut i: i64 = 0;
                while i < w
                    invariant
                        camera_wf(*self),
                        wf_list(world.objects@),
                        1 <= self.samples_per_pixel <= 100_000,
                        0 <= self.max_depth <= 1_000,
                        w == self.image_width,
                        h == self.image_height,
                        0 <= j < h,
                        0 <= i <= w,
                        pixels@.len() == j * w + i,
                    decreases w - i,
                {
                    let mut sr: i64 = 0;
                    let mut sg: i64 = 0;
                    let mut sb: i64 = 0;
                    let mut s: i64 = 0;
                    let spp = self.samples_per_pixel;
                    while s < spp
                        invariant
                            camera_wf(*self),
                            wf_list(world.objects@),
                            0 <= self.max_depth <= 1_000,
                            w == self.image_width,
                            h == self.image_height,
                            0 <= j < h,
                            0 <= i < w,
                            0 <= s <= spp,
                            spp <= 100_000,
                            -1_000_000 * s <= sr <= 2_000_000 * s,
                            -1_000_000 * s <= sg <= 2_000_000 * s,
                            -1_000_000 * s <= sb <= 2_000_000 * s,
                        decreases spp - s,
                    {
                        let ray = self.get_ray(i, j);
                        let c = match shading {
                            Shading::Normals => Self::ray_color(&ray, world, self.max_depth),
                            Shading::Diffuse => Self::ray_color_diffuse(
                                &ray,
                                world,
                                self.max_depth,
                            ),
                            Shading::LambertianDiffuse => Self::ray_color_lambertian_diffuse(
                                &ray,
                                world,
                                self.max_depth,
                            ),
                        };
                        sr = sr + c.x;
                        sg = sg + c.y;
                        sb = sb + c.z;
                        s = s + 1;
                    }
                    proof {
                        lemma_div_between(sr as int, spp as int, -1_000_000, 2_000_000);
                        lemma_div_between(sg as int, spp as int, -1_000_000, 2_000_000);
                        lemma_div_between(sb as int, spp as int, -1_000_000, 2_000_000);
                    }
                    let mut cr = floor_div(sr as i128, spp as i128) as i64;
                    let mut cg = floor_div(sg as i128, spp as i128) as i64;
                    let mut cb = floor_div(sb as i128, spp as i128) as i64;
                    if gamma_correction {
                        cr = Self::linear_to_gamma(cr);
                        cg = Self::linear_to_gamma(cg);
                        cb = Self::linear_to_gamma(cb);
                    }
                    let intensity = Interval::new(0, 999_000);
                    cr = intensity.clamp(cr);
                    cg = intensity.clamp(cg);
                    cb = intensity.clamp(cb);
                    pixels.push(rgb_of(Vec3::new(cr, cg, cb)));
                    i = i + 1;
                }
                j = j + 1;
                proof {
                    assert((j - 1) * w + w == j * w) by (nonlinear_arith);
                }
            }
            proof {
                assert(pixels@.len() == h * w) by (nonlinear_arith)
                    requires
                        pixels@.len() == j * w,
                        j == h,
                {
                }
            }
        } else {
            while j < h
                invariant
                    camera_wf(*self),
                    wf_list(world.objects@),
                    w == self.image_width,
                    h == self.image_height,
                    0 <= j <= h,
                    pixels@.len() == j * w,
                    forall|k: int|
                        0 <= k < pixels@.len() ==> pixels@[k] == spec_render_pixel(
                            *self,
                            world.objects@,
                            k,
                        ),
                decreases h - j,
            {
                let mut i: i64 = 0;
                while i < w
                    invariant
                        camera_wf(*self),
                        wf_list(world.objects@),
                        w == self.image_width,
                        h == self.image_height,
                        0 <= j < h,
                        0 <= i <= w,
                        pixels@.len() == j * w + i,
                        forall|k: int|
                            0 <= k < pixels@.len() ==> pixels@[k] == spec_render_pixel(
                                *self,
                                world.objects@,
                                k,
                            ),
                    decreases w - i,
                {
                    let pixel_center = self.pixel_center(i, j);
                    let ray_origin = self.center;
                    let ray_direction = pixel_center.sub(ray_origin);
                    let ray = Ray::new(ray_origin, ray_direction);
                    proof {
                        assert(vlen2(ray.direction@) >= 1) by (nonlinear_arith)
                            requires
                                ray.direction@.2 == -1_000_000,
                                vlen2(ray.direction@) == ray.direction@.0 * ray.direction@.0
                                    + ray.direction@.1 * ray.direction@.1 + ray.direction@.2
                                    * ray.direction@.2,
                        {
                        }
                        assert(ray == spec_primary_ray(*self, i as int, j as int));
                    }
                    let c = Self::ray_color(&ray, world, self.max_depth);
                    pixels.push(rgb_of(c));
                    proof {
                        let k = j * w + i;
                        assert(k % w as int == i as int && k / w as int == j as int)
                            by (nonlinear_arith)
                            requires
                                k == j * w + i,
                                0 <= i < w,
                                0 <= j,
                                w >= 1,
                        {
                        }
                        assert(pixels@.last() == spec_render_pixel(*self, world.objects@, k));
                    }
                    i = i + 1;
                }
                j = j + 1;
                proof {
                    assert((j - 1) * w + w == j * w) by (nonlinear_arith);
                }
            }
            proof {
                assert(pixels@.len() == h * w) by (nonlinear_arith)
                    requires
                        pixels@.len() == j * w,
                        j == h,
                {
                }
            }
        }
        pixels
    }
}

/// The poles of the background gradient: a ray pointing straight up shows
/// pure sky blue, one pointing straight down shows pure white.
pub proof fn lemma_background_poles()
    ensures
        spec_background((0int, ONE as int, 0int)) == (600_000int, 700_000int, 1_000_000int),
        spec_background((0int, -(ONE as int), 0int)) == (
            1_000_000int,
            1_000_000int,
            1_000_000int,
        ),
{
    let se = ONE as int;
    let up = (0int, se, 0int);
    let down = (0int, -se, 0int);
    assert(vlen2(up) == se * se && vlen2(down) == se * se && se * se == 1_000_000_000_000)
        by (nonlinear_arith)
        requires
            se == 1_000_000,
            vlen2(up) == 0 * 0 + se * se + 0 * 0,
            vlen2(down) == 0 * 0 + (-se) * (-se) + 0 * 0,
    {
    }
    assert((se * se) <= 1_000_000_000_000 < (se + 1) * (se + 1)) by (nonlinear_arith)
        requires
            se == 1_000_000,
    {
    }
    crate::fixed::lemma_sqrt_floor_unique(1_000_000_000_000nat, se as nat);
    assert(sqrti(vlen2(up)) == se && sqrti(vlen2(down)) == se);
    vstd::arithmetic::div_mod::lemma_div_of0(se);
    assert(0 * se == 0 && se * se == se * se && (-se) * se == se * (-se)) by (nonlinear_arith);
    vstd::arithmetic::div_mod::lemma_div_multiples_vanish(se, se);
    vstd::arithmetic::div_mod::lemma_div_multiples_vanish(-se, se);
    assert(vunit(up) == (0int, se, 0int));
    assert(vunit(down) == (0int, -se, 0int));
    // Straight up blends fully into blue; straight down keeps white.
    assert((se + se) / 2 == se && (-se + se) / 2 == 0);
    assert(0 * 600_000 == 0 && 0 * 700_000 == 0 && 0 * se == 0 && se * 600_000 == se * 600_000)
        by (nonlinear_arith);
    assert((se - se) * se == se * 0 && (se - 0) * se == se * se) by (nonlinear_arith);
    vstd::arithmetic::div_mod::lemma_div_multiples_vanish(0, se);
    assert(se * 600_000 == 600_000_000_000 && se * 700_000 == 700_000_000_000 && se * se
        == 1_000_000_000_000) by (nonlinear_arith)
        requires
            se == 1_000_000,
    {
    }
    assert(spec_lerp(se, se, 600_000) == (0 + 600_000_000_000) / 1_000_000);
    assert(spec_lerp(se, se, 700_000) == (0 + 700_000_000_000) / 1_000_000);
    assert(spec_lerp(se, se, se) == (0 + 1_000_000_000_000) / 1_000_000);
    assert(spec_lerp(0, se, 600_000) == (1_000_000_000_000 + 0) / 1_000_000);
    assert(spec_lerp(0, se, 700_000) == (1_000_000_000_000 + 0) / 1_000_000);
    assert(spec_lerp(0, se, se) == (1_000_000_000_000 + 0) / 1_000_000);
}

/// Attenuating a colour in the band by an albedo keeps it in the band.
pub proof fn lemma_vmul_band(a: (int, int, int), c: (int, int, int))
    requires
        wf_albedo(a),
        color_band(c),
    ensures
        color_band(vmul(a, c)),
{
    assert(-1_000_000_000_000 <= a.0 * c.0 <= 2_000_000_000_000 && -1_000_000_000_000 <= a.1 * c.1
        <= 2_000_000_000_000 && -1_000_000_000_000 <= a.2 * c.2 <= 2_000_000_000_000)
        by (nonlinear_arith)
        requires
            0 <= a.0 <= 1_000_000 && 0 <= a.1 <= 1_000_000 && 0 <= a.2 <= 1_000_000,
            -1_000_000 <= c.0 <= 2_000_000 && -1_000_000 <= c.1 <= 2_000_000 && -1_000_000 <= c.2
                <= 2_000_000,
    {
    }
    lemma_div_between(a.0 * c.0, 1_000_000, -1_000_000, 2_000_000);
    lemma_div_between(a.1 * c.1, 1_000_000, -1_000_000, 2_000_000);
    lemma_div_between(a.2 * c.2, 1_000_000, -1_000_000, 2_000_000);
}

} // verus!
