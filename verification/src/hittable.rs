//! Hit records: what a ray-object intersection reports, with the
//! convention that the stored normal always opposes the incoming ray.

use crate::interval::Interval;
use crate::material::Material;
use crate::ray::wf_ray;
use crate::ray::Ray;
use crate::sphere::hit_record_matches;
use crate::sphere::sphere_hit_t;
use crate::sphere::wf_sphere;
use crate::sphere::Sphere;
use crate::vec3::dot;
use crate::vec3::in_range;
use crate::vec3::vdot;
use crate::vec3::vneg;
use crate::vec3::Point3;
use crate::vec3::Vec3;
use crate::VEC_MAX;
use vstd::prelude::*;

verus! {

/// The result of a successful hit test: the point, the against-ray unit
/// normal, the ray parameter, which side the ray came from, and the
/// material met there.
#[derive(Clone, Copy, Debug)]
pub struct HitRecord {
    pub p: Point3,
    pub normal: Vec3,
    pub t: i64,
    pub front_face: bool,
    pub mat: Option<Material>,
}

/// The ray comes from outside: it runs against the outward normal.
pub open spec fn spec_front_face(dir: (int, int, int), outward: (int, int, int)) -> bool {
    vdot(dir, outward) < 0
}

/// The stored normal: the outward one, flipped when the ray comes from
/// inside so that it always opposes the ray.
pub open spec fn spec_face_normal(dir: (int, int, int), outward: (int, int, int)) -> (
    int,
    int,
    int,
) {
    if spec_front_face(dir, outward) {
        outward
    } else {
        vneg(outward)
    }
}

impl HitRecord {
    pub fn new(p: Point3, normal: Vec3, t: i64, front_face: bool) -> (r: HitRecord)
        ensures
            r.p == p,
            r.normal == normal,
            r.t == t,
            r.front_face == front_face,
            r.mat is None,
    {
        HitRecord { p, normal, t, front_face, mat: None }
    }

    pub fn default() -> (r: HitRecord)
        ensures
            r.p@ == (0int, 0int, 0int),
            r.normal@ == (0int, 0int, 0int),
            r.t == 0,
            r.front_face == false,
            r.mat is None,
    {
        HitRecord {
            p: Vec3::default(),
            normal: Vec3::default(),
            t: 0,
            front_face: false,
            mat: None,
        }
    }

    /// Store `outward_normal` oriented against the ray, and record which
    /// side the ray came from.
    pub fn set_face_normal(&mut self, r: &Ray, outward_normal: Vec3)
        requires
            in_range(r.direction@, VEC_MAX as int),
            in_range(outward_normal@, VEC_MAX as int),
        ensures
            final(self).front_face == spec_front_face(r.direction@, outward_normal@),
            final(self).normal@ == spec_face_normal(r.direction@, outward_normal@),
            final(self).p == old(self).p,
            final(self).t == old(self).t,
            final(self).mat == old(self).mat,
    {
        let ff = dot(r.direction, outward_normal) < 0;
        self.front_face = ff;
        self.normal = if ff {
            outward_normal
        } else {
            outward_normal.neg()
        };
    }
}

/// An unordered collection of spheres, queried for the nearest hit.
pub struct HittableList {
    pub objects: Vec<Sphere>,
}

/// Every member sphere is well formed.
pub open spec fn wf_list(objs: Seq<Sphere>) -> bool {
    forall|i: int| 0 <= i < objs.len() ==> wf_sphere(#[trigger] objs[i])
}

/// The nearest hit over a sequence of spheres between `lo` and `hi`: each
/// member is tested against an upper bound narrowed to the closest hit so
/// far, exactly as the scan performs it. The result names the winning
/// member and its parameter.
pub open spec fn list_hit(objs: Seq<Sphere>, r: Ray, lo: int, hi: int) -> Option<(int, int)>
    decreases objs.len(),
{
    if objs.len() == 0 {
        None
    } else {
        let prev = list_hit(objs.drop_last(), r, lo, hi);
        let closest = match prev {
            Some((_i, t)) => t,
            None => hi,
        };
        match sphere_hit_t(objs.last(), r, lo, closest) {
            Some(t) => Some((objs.len() - 1, t)),
            None => prev,
        }
    }
}

/// Nearest-hit selection: whatever order the spheres were registered in,
/// the scan reports a hit exactly when some member is hit within the
/// bounds, and the reported parameter is the least among all members'
/// individual hit parameters.
pub proof fn lemma_list_hit_nearest(objs: Seq<Sphere>, r: Ray, lo: int, hi: int)
    ensures
        list_hit(objs, r, lo, hi) is None ==> forall|j: int|
            0 <= j < objs.len() ==> #[trigger] sphere_hit_t(objs[j], r, lo, hi) is None,
        list_hit(objs, r, lo, hi) matches Some((i, t)) ==> {
            &&& 0 <= i < objs.len()
            &&& sphere_hit_t(objs[i], r, lo, hi) == Some(t)
            &&& lo < t < hi
            &&& forall|j: int|
                0 <= j < objs.len() ==> (#[trigger] sphere_hit_t(objs[j], r, lo, hi) matches Some(
                    tj,
                ) ==> t <= tj)
        },
    decreases objs.len(),
{
    if objs.len() == 0 {
    } else {
        let prefix = objs.drop_last();
        let last = objs.last();
        lemma_list_hit_nearest(prefix, r, lo, hi);
        let prev = list_hit(prefix, r, lo, hi);
        let closest = match prev {
            Some((_i, t)) => t,
            None => hi,
        };
        crate::sphere::lemma_sphere_hit_narrow(last, r, lo, closest, hi);
        crate::sphere::lemma_sphere_hit_in_bounds(last, r, lo, closest);
        assert(forall|j: int| 0 <= j < objs.len() - 1 ==> objs[j] == prefix[j]);
        match sphere_hit_t(last, r, lo, closest) {
            Some(tl) => {
                assert(list_hit(objs, r, lo, hi) == Some((objs.len() - 1, tl)));
            },
            None => {
                assert(list_hit(objs, r, lo, hi) == prev);
                assert(sphere_hit_t(last, r, lo, hi) matches Some(tl) ==> tl >= closest);
            },
        }
    }
}

/// The shadow-acne guard: a hit search that starts a thousandth of a unit
/// out never reports a parameter at or below that bound, so a bounced ray
/// cannot re-meet the surface it just left at a vanishing distance.
pub proof fn lemma_shadow_acne_guard(objs: Seq<Sphere>, r: Ray)
    ensures
        list_hit(objs, r, crate::SHADOW_EPS as int, i64::MAX as int) matches Some((i, t)) ==> t
            > crate::SHADOW_EPS,
{
    lemma_list_hit_nearest(objs, r, crate::SHADOW_EPS as int, i64::MAX as int);
}

impl HittableList {
    pub fn new() -> (r: HittableList)
        ensures
            r.objects@ == Seq::<Sphere>::empty(),
    {
        HittableList { objects: Vec::new() }
    }

    /// Register one more sphere; order of registration does not affect
    /// which hit is nearest.
    pub fn add(&mut self, object: Sphere)
        ensures
            final(self).objects@ == old(self).objects@.push(object),
    {
        self.objects.push(object);
    }

    /// The record of the nearest hit among all members with parameter
    /// strictly inside `ray_t`, or nothing when no member is hit.
    pub fn hit(&self, r: &Ray, ray_t: Interval) -> (res: Option<HitRecord>)
        requires
            wf_list(self.objects@),
            wf_ray(*r),
        ensures
            res is Some <==> list_hit(self.objects@, *r, ray_t.min as int, ray_t.max as int)
                is Some,
            res matches Some(rec) ==> {
                &&& list_hit(self.objects@, *r, ray_t.min as int, ray_t.max as int) matches Some(
                    (i, t),
                ) && 0 <= i < self.objects@.len() && rec.t as int == t && hit_record_matches(
                    self.objects@[i],
                    *r,
                    t,
                    rec,
                )
                &&& ray_t.min < rec.t < ray_t.max
                &&& forall|j: int|
                    0 <= j < self.objects@.len() ==> (#[trigger] sphere_hit_t(
                        self.objects@[j],
                        *r,
                        ray_t.min as int,
                        ray_t.max as int,
                    ) matches Some(tj) ==> rec.t <= tj)
            },
            res is None ==> forall|j: int|
                0 <= j < self.objects@.len() ==> #[trigger] sphere_hit_t(
                    self.objects@[j],
                    *r,
                    ray_t.min as int,
                    ray_t.max as int,
                ) is None,
    {
        proof {
            lemma_list_hit_nearest(
                self.objects@,
                *r,
                ray_t.min as int,
                ray_t.max as int,
            );
        }
        let ghost lo = ray_t.min as int;
        let ghost hi = ray_t.max as int;
        let mut result: Option<HitRecord> = None;
        let mut closest_so_far: i64 = ray_t.max;
        let mut idx: usize = 0;
        let n = self.objects.len();
        while idx < n
            invariant
                n == self.objects@.len(),
                0 <= idx <= n,
                wf_list(self.objects@),
                wf_ray(*r),
                lo == ray_t.min as int,
                hi == ray_t.max as int,
                match (result, list_hit(self.objects@.take(idx as int), *r, lo, hi)) {
                    (Some(rec), Some((i, t))) => {
                        &&& closest_so_far == rec.t
                        &&& rec.t as int == t
                        &&& 0 <= i < idx
                        &&& hit_record_matches(self.objects@[i], *r, t, rec)
                        &&& ray_t.min < rec.t < ray_t.max
                    },
                    (None, None) => closest_so_far == ray_t.max,
                    _ => false,
                },
            decreases n - idx,
        {
            proof {
                assert(self.objects@.take(idx as int + 1).drop_last() =~= self.objects@.take(
                    idx as int,
                ));
                assert(self.objects@.take(idx as int + 1).last() == self.objects@[idx as int]);
            }
            match self.objects[idx].hit(r, Interval::new(ray_t.min, closest_so_far)) {
                Some(rec2) => {
                    result = Some(rec2);
                    closest_so_far = rec2.t;
                },
                None => {},
            }
            idx = idx + 1;
        }
        proof {
            assert(self.objects@.take(n as int) =~= self.objects@);
        }
        result
    }
}

} // verus!
