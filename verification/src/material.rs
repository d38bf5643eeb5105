//! Materials: how a surface scatters an incoming ray and which colour it
//! keeps. A material computes a scattered ray and an attenuation from an
//! incoming ray and a hit record.

use crate::hittable::HitRecord;
use crate::ray::Ray;
use crate::vec3::in_range;
use crate::vec3::lemma_nonzero_of_vlen2;
use crate::vec3::lemma_vlen2_pos;
use crate::vec3::random_unit_vector;
use crate::vec3::reflect;
use crate::vec3::unit_vector;
use crate::vec3::vadd;
use crate::vec3::vlen2;
use crate::vec3::vreflect;
use crate::vec3::vunit;
use crate::vec3::Color;
use crate::vec3::Vec3;
use crate::ONE;
use crate::VEC_MAX;
use vstd::prelude::*;

verus! {

/// An albedo's channels lie within one unit: it can only darken.
pub open spec fn wf_albedo(a: (int, int, int)) -> bool {
    &&& 0 <= a.0 <= ONE
    &&& 0 <= a.1 <= ONE
    &&& 0 <= a.2 <= ONE
}

/// A matte surface: scatters near the normal, tinted by its albedo.
#[derive(Clone, Copy, Debug)]
pub struct Lambertian {
    pub albedo: Color,
}

/// A mirror surface: reflects the incoming direction about the normal.
#[derive(Clone, Copy, Debug)]
pub struct Metal {
    pub albedo: Color,
}

/// The closed set of materials a sphere may carry.
#[derive(Clone, Copy, Debug)]
pub enum Material {
    Lambertian(Lambertian),
    Metal(Metal),
}

/// The albedo a material tints with.
pub open spec fn mat_albedo(m: Material) -> Vec3 {
    match m {
        Material::Lambertian(l) => l.albedo,
        Material::Metal(me) => me.albedo,
    }
}

/// A material is well formed when its albedo is.
pub open spec fn mat_wf(m: Material) -> bool {
    wf_albedo(mat_albedo(m)@)
}

/// A hit record offers what scattering needs: a bounded nonzero normal
/// and a bounded point.
pub open spec fn scatter_input_wf(rec: HitRecord) -> bool {
    &&& in_range(rec.normal@, 2 * ONE as int)
    &&& vlen2(rec.normal@) >= 1
    &&& in_range(rec.p@, crate::POS_MAX as int)
}

/// What a scattered ray must satisfy to feed the next bounce.
pub open spec fn scatter_output_wf(scattered: Ray) -> bool {
    &&& in_range(scattered.direction@, 60 * ONE as int)
    &&& vlen2(scattered.direction@) >= 1
    &&& scattered.direction@ != (0int, 0int, 0int)
}

impl Lambertian {
    pub fn new(a: Color) -> (r: Self)
        ensures
            r.albedo == a,
    {
        Lambertian { albedo: a }
    }

    /// The deterministic part of Lambertian scattering, for a given unit
    /// sample: the direction is normal plus sample, or the normal itself
    /// when that sum cancels to zero.
    pub fn scatter_with(
        &self,
        rec: &HitRecord,
        sample: Vec3,
        attenuation: &mut Color,
        scattered: &mut Ray,
    ) -> (r: bool)
        requires
            scatter_input_wf(*rec),
            in_range(sample@, ONE as int),
        ensures
            r == true,
            *final(attenuation) == self.albedo,
            final(scattered).origin == rec.p,
            final(scattered).direction@ == (if vadd(rec.normal@, sample@) == (0int, 0int, 0int) {
                rec.normal@
            } else {
                vadd(rec.normal@, sample@)
            }),
            scatter_output_wf(*final(scattered)),
    {
        let mut scatter_direction = rec.normal.add(sample);
        if scatter_direction.near_zero() {
            scatter_direction = rec.normal;
            proof {
                lemma_nonzero_of_vlen2(rec.normal@);
            }
        } else {
            proof {
                lemma_vlen2_pos(scatter_direction@);
            }
        }
        *scattered = Ray { origin: rec.p, direction: scatter_direction };
        *attenuation = self.albedo;
        true
    }

    /// Lambertian scattering: a random unit sample is added to the
    /// normal; whatever was drawn, the stated output shape holds.
    pub fn scatter(
        &self,
        _r_in: &Ray,
        rec: &HitRecord,
        attenuation: &mut Color,
        scattered: &mut Ray,
    ) -> (r: bool)
        requires
            scatter_input_wf(*rec),
        ensures
            r == true,
            *final(attenuation) == self.albedo,
            final(scattered).origin == rec.p,
            scatter_output_wf(*final(scattered)),
    {
        let sample = random_unit_vector();
        self.scatter_with(rec, sample, attenuation, scattered)
    }
}

impl Metal {
    pub fn new(a: Color) -> (r: Self)
        ensures
            r.albedo == a,
    {
        Metal { albedo: a }
    }

    /// Metal scattering: the normalized incoming direction reflected
    /// about the stored normal. A reflection that cancels to zero at
    /// fixed-point resolution is treated as absorption.
    pub fn scatter(
        &self,
        r_in: &Ray,
        rec: &HitRecord,
        attenuation: &mut Color,
        scattered: &mut Ray,
    ) -> (r: bool)
        requires
            scatter_input_wf(*rec),
            in_range(r_in.direction@, VEC_MAX as int),
            vlen2(r_in.direction@) >= 1,
        ensures
            r == (vreflect(vunit(r_in.direction@), rec.normal@) != (0int, 0int, 0int)),
            r ==> *final(attenuation) == self.albedo,
            r ==> final(scattered).origin == rec.p,
            r ==> final(scattered).direction@ == vreflect(vunit(r_in.direction@), rec.normal@),
            r ==> scatter_output_wf(*final(scattered)),
            !r ==> *final(attenuation) == *old(attenuation),
            !r ==> *final(scattered) == *old(scattered),
    {
        let reflected = reflect(unit_vector(r_in.direction), rec.normal);
        if reflected.near_zero() {
            false
        } else {
            proof {
                lemma_vlen2_pos(reflected@);
            }
            *scattered = Ray { origin: rec.p, direction: reflected };
            *attenuation = self.albedo;
            true
        }
    }
}

impl Material {
    /// Dispatch to the variant's scattering rule.
    pub fn scatter(
        &self,
        r_in: &Ray,
        rec: &HitRecord,
        attenuation: &mut Color,
        scattered: &mut Ray,
    ) -> (r: bool)
        requires
            scatter_input_wf(*rec),
            in_range(r_in.direction@, VEC_MAX as int),
            vlen2(r_in.direction@) >= 1,
        ensures
            r ==> *final(attenuation) == mat_albedo(*self),
            r ==> final(scattered).origin == rec.p,
            r ==> scatter_output_wf(*final(scattered)),
            self matches Material::Lambertian(_) ==> r == true,
            self matches Material::Metal(_) ==> r == (vreflect(
                vunit(r_in.direction@),
                rec.normal@,
            ) != (0int, 0int, 0int)),
    {
        match self {
            Material::Lambertian(l) => l.scatter(r_in, rec, attenuation, scattered),
            Material::Metal(m) => m.scatter(r_in, rec, attenuation, scattered),
        }
    }
}

} // verus!
