//! The scene aggregate: an ordered collection of spheres whose intersection
//! test reports the nearest valid hit.
//!
//! The scan keeps a shrinking upper bound (`closest so far`), so each
//! sphere is only asked about parameters nearer than the best hit found;
//! the reported hit carries the globally minimal valid parameter, earliest
//! sphere first on exact ties.

use vstd::prelude::*;
use crate::fp::lemma_fdiv_ordered;
use crate::fp::lemma_isqrt_exists;
use crate::hit::{face_normalv, HitRecord};
use crate::material::{mat_wf, Material};
use crate::ray::{rayatv, ray_wf, Ray, RayV};
use crate::sphere::{
    a_of, disc_of, outward_of, root_ok, sphere_first_t, sphere_wf, Sphere, SphereV, T_LIMIT,
};
use crate::vec3::{boundedv, dotv, Vec3, WORLD_BOUND};

verus! {

/// Every sphere of the scene is acceptable to the intersection protocol.
pub open spec fn scene_wf(objs: Seq<Sphere>) -> bool {
    forall|i: int| 0 <= i < objs.len() ==> sphere_wf(#[trigger] objs[i]@)
}

/// What sphere `i` of the scene reports for the given interval.
pub open spec fn scene_first_t(objs: Seq<Sphere>, r: RayV, i: int, tmin: int, tmax: int) -> Option<
    int,
> {
    sphere_first_t(objs[i]@, r, tmin, tmax)
}

/// The record `rec` is exactly what a hit of sphere `s` at its reported
/// parameter fills in.
pub open spec fn rec_matches(s: SphereV, r: RayV, rec: HitRecord, tmin: int, tmax: int) -> bool {
    &&& sphere_first_t(s, r, tmin, tmax) == Some(rec.t as int)
    &&& root_ok(s, r, rec.t as int, tmin, tmax)
    &&& rec.point@ == rayatv(r, rec.t as int)
    &&& rec.normal@ == face_normalv(r.dir, outward_of(s, r, rec.t as int))
    &&& rec.frontface == (dotv(r.dir, outward_of(s, r, rec.t as int)) < 0)
    &&& rec.mat == s.mat
    &&& (dotv(r.dir, outward_of(s, r, rec.t as int)) != 0 ==> dotv(rec.normal@, r.dir) < 0)
}

/// Narrowing the upper end of the search interval keeps exactly the hits
/// whose parameter is below the new end, with the same parameter.
pub proof fn lemma_first_t_shrink(s: SphereV, r: RayV, tmin: int, c: int, tmax: int)
    requires
        c <= tmax,
        a_of(r) >= 1,
    ensures
        sphere_first_t(s, r, tmin, c) == (
        if sphere_first_t(s, r, tmin, tmax) is Some && sphere_first_t(s, r, tmin, tmax)->Some_0
            < c {
            sphere_first_t(s, r, tmin, tmax)
        } else {
            None::<int>
        }),
{
    if disc_of(s, r) >= 0 {
        lemma_isqrt_exists(disc_of(s, r) * (crate::fp::SCALE as int));
        lemma_fdiv_ordered(
            -crate::sphere::halfb_of(s, r) - crate::sphere::sqrtd_of(s, r),
            -crate::sphere::halfb_of(s, r) + crate::sphere::sqrtd_of(s, r),
            a_of(r),
        );
    }
}

pub struct HittableList {
    pub objects: Vec<Sphere>,
}

impl HittableList {
    /// Decide `scene_wf` executably, so unverified callers can test a
    /// scene before rendering with it.
    pub fn is_well_formed(&self) -> (b: bool)
        ensures
            b == scene_wf(self.objects@),
    {
        let n = self.objects.len();
        let mut idx: usize = 0;
        while idx < n
            invariant
                idx <= n,
                n == self.objects@.len(),
                forall|k: int| 0 <= k < idx ==> sphere_wf(#[trigger] self.objects@[k]@),
            decreases n - idx,
        {
            let obj = self.objects[idx];
            if !obj.is_well_formed() {
                return false;
            }
            idx = idx + 1;
        }
        true
    }

    pub fn clear(&mut self)
        ensures
            final(self).objects@.len() == 0,
    {
        self.objects.clear();
    }

    pub fn add(&mut self, obj: Sphere)
        ensures
            final(self).objects@ == old(self).objects@.push(obj),
    {
        self.objects.push(obj);
    }

    /// Nearest-hit search: linear scan with a shrinking upper bound.
    /// Reports whether any sphere is hit in the open interval; on success
    /// the record is the one of the sphere with the globally minimal valid
    /// parameter (the earliest such sphere on exact ties).
    #[verifier::loop_isolation(false)]
    pub fn hit(&self, r: &Ray, tmin: i64, tmax: i64, rec: &mut HitRecord) -> (b: bool)
        requires
            scene_wf(self.objects@),
            ray_wf(r@),
            0 <= tmin,
            tmax <= T_LIMIT,
        ensures
            b == (exists|i: int|
                0 <= i < self.objects@.len() && (#[trigger] scene_first_t(
                    self.objects@,
                    r@,
                    i,
                    tmin as int,
                    tmax as int,
                )) is Some),
            b ==> (exists|i: int|
                0 <= i < self.objects@.len() && rec_matches(
                    (#[trigger] self.objects@[i])@,
                    r@,
                    *final(rec),
                    tmin as int,
                    tmax as int,
                )),
            b ==> (forall|j: int|
                0 <= j < self.objects@.len() && (#[trigger] scene_first_t(
                    self.objects@,
                    r@,
                    j,
                    tmin as int,
                    tmax as int,
                )) is Some ==> final(rec).t as int <= scene_first_t(
                    self.objects@,
                    r@,
                    j,
                    tmin as int,
                    tmax as int,
                )->Some_0),
            b ==> tmin < final(rec).t < tmax,
            b ==> final(rec).point@ == rayatv(r@, final(rec).t as int),
            b ==> boundedv(final(rec).point@, WORLD_BOUND as int),
            b ==> boundedv(final(rec).normal@, 262144),
            b ==> final(rec).mat is Some && mat_wf(final(rec).mat->Some_0),
            !b ==> *final(rec) == *old(rec),
    {
        let mut temprec = HitRecord {
            point: crate::vec3::zeros(),
            normal: crate::vec3::zeros(),
            t: 0,
            frontface: false,
            mat: None,
        };
        let mut hitany = false;
        let mut closest = tmax;
        let n = self.objects.len();
        let mut idx: usize = 0;
        while idx < n
            invariant
                idx <= n,
                n == self.objects@.len(),
                closest <= tmax,
                hitany ==> tmin < closest,
                !hitany ==> closest == tmax && *rec == *old(rec),
                hitany == (exists|i: int|
                    0 <= i < idx && (#[trigger] scene_first_t(
                        self.objects@,
                        r@,
                        i,
                        tmin as int,
                        tmax as int,
                    )) is Some),
                hitany ==> rec.t == closest,
                hitany ==> (exists|i: int|
                    0 <= i < idx && rec_matches(
                        (#[trigger] self.objects@[i])@,
                        r@,
                        *rec,
                        tmin as int,
                        tmax as int,
                    )),
                forall|j: int|
                    0 <= j < idx && (#[trigger] scene_first_t(
                        self.objects@,
                        r@,
                        j,
                        tmin as int,
                        tmax as int,
                    )) is Some ==> closest as int <= scene_first_t(
                        self.objects@,
                        r@,
                        j,
                        tmin as int,
                        tmax as int,
                    )->Some_0,
            decreases n - idx,
        {
            let obj = self.objects[idx];
            let this_hit = obj.hit(r, tmin, closest, &mut temprec);
            proof {
                lemma_first_t_shrink(obj@, r@, tmin as int, closest as int, tmax as int);
                assert(scene_first_t(self.objects@, r@, idx as int, tmin as int, tmax as int)
                    == sphere_first_t(obj@, r@, tmin as int, tmax as int));
            }
            if this_hit {
                hitany = true;
                closest = temprec.t;
                rec.t = temprec.t;
                rec.point = temprec.point;
                rec.normal = temprec.normal;
                rec.frontface = temprec.frontface;
                rec.mat = temprec.mat;
                proof {
                    assert(rec_matches(
                        self.objects@[idx as int]@,
                        r@,
                        *rec,
                        tmin as int,
                        tmax as int,
                    ));
                }
            }
            idx = idx + 1;
        }
        proof {
            if hitany {
                let i = choose|i: int|
                    0 <= i < self.objects@.len() && rec_matches(
                        (#[trigger] self.objects@[i])@,
                        r@,
                        *rec,
                        tmin as int,
                        tmax as int,
                    );
                assert(sphere_wf(self.objects@[i]@));
                assert(root_ok(self.objects@[i]@, r@, rec.t as int, tmin as int, tmax as int));
            }
        }
        hitany
    }
}

} // verus!
