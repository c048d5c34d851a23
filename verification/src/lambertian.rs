//! The diffuse (Lambertian) material.

use vstd::prelude::*;
use crate::hit::HitRecord;
use crate::ray::Ray;
use crate::fp::SCALE;
use crate::hit::lemma_dot_comm;
use crate::vec3::{addv, boundedv, dotv, len_sqrv, lemma_dot_add_left, near_zerov, scalev, unitv, Vec3, V3};

verus! {

/// The diffuse scattered direction for a drawn ball sample `p`: the
/// normal nudged by the normalized sample, or the bare normal when the
/// sum degenerates below the resolution threshold.
pub open spec fn lambertian_dir(normal: V3, p: V3) -> V3 {
    if near_zerov(addv(normal, unitv(scalev(p, 16777216)))) {
        normal
    } else {
        addv(normal, unitv(scalev(p, 16777216)))
    }
}

/// The diffuse direction leaves on the normal's side, up to a rounding
/// tolerance of 18 quanta, whenever the normal and the nudge are of
/// unit-scale length: twice the dot product is the squared length of the
/// sum plus the difference of the squared lengths, up to rounding, and
/// the near-zero fallback returns the normal itself.
pub proof fn lemma_scatter_dir_side(n: V3, u: V3)
    requires
        len_sqrv(n) >= (SCALE as int) - 16,
        len_sqrv(u) <= (SCALE as int) + 7,
    ensures
        dotv((if near_zerov(addv(n, u)) { n } else { addv(n, u) }), n) >= -18,
{
    if !near_zerov(addv(n, u)) {
        let dir = addv(n, u);
        crate::vec3::lemma_not_near_zero_len(dir);
        lemma_dot_add_left(n, u, n);
        lemma_dot_add_left(n, u, dir);
        lemma_dot_add_left(n, u, u);
        lemma_dot_comm(n, dir);
        lemma_dot_comm(u, dir);
        lemma_dot_comm(u, n);
        assert(len_sqrv(dir) <= dotv(dir, n) + dotv(dir, u) + 3);
        assert(dotv(dir, u) <= dotv(n, u) + len_sqrv(u) + 3);
        assert(dotv(dir, n) <= len_sqrv(n) + dotv(u, n) + 3);
        assert(dotv(dir, n) >= len_sqrv(n) + dotv(u, n) - 3);
        assert(2 * dotv(dir, n) >= len_sqrv(n) + len_sqrv(dir) - len_sqrv(u) - 15);
    }
}

#[derive(Debug, Copy, Clone)]
pub struct Lambertian {
    pub albedo: Vec3,
}

impl Lambertian {
    /// Diffuse scatter: the normal nudged by a random unit vector, falling
    /// back to the bare normal when the sum degenerates.  Never absorbs,
    /// and attenuates by the stored albedo unconditionally.
    pub fn scatter(
        &self,
        r_in: &Ray,
        rec: &HitRecord,
        attenuation: &mut Vec3,
        scattered: &mut Ray,
    ) -> (b: bool)
        requires
            boundedv(rec.normal@, 262144),
        ensures
            b == true,
            final(attenuation)@ == self.albedo@,
            final(scattered)@.orig == rec.point@,
            exists|p: V3|
                boundedv(p, SCALE as int) && 1 <= len_sqrv(p) < SCALE && final(scattered)@.dir
                    == lambertian_dir(rec.normal@, p),
            boundedv(final(scattered)@.dir, 17039360),
            len_sqrv(rec.normal@) >= (SCALE as int) - 16 ==> dotv(
                final(scattered)@.dir,
                rec.normal@,
            ) >= -18,
    {
        let ru = Vec3::rand_unit_vec();
        let mut scatter_dir = rec.normal.add(ru);
        if scatter_dir.near_zero() {
            scatter_dir = rec.normal;
        }
        scattered.orig = rec.point;
        scattered.dir = scatter_dir;
        attenuation.x = self.albedo.x;
        attenuation.y = self.albedo.y;
        attenuation.z = self.albedo.z;
        proof {
            let p = choose|p: V3|
                boundedv(p, SCALE as int) && 1 <= len_sqrv(p) < SCALE && ru@ == unitv(
                    scalev(p, 16777216),
                );
            assert(boundedv(p, SCALE as int) && 1 <= len_sqrv(p) < SCALE && scattered.dir@
                == lambertian_dir(rec.normal@, p));
            if len_sqrv(rec.normal@) >= (SCALE as int) - 16 {
                lemma_scatter_dir_side(rec.normal@, ru@);
            }
        }
        true
    }
}

} // verus!
