//! The scatter protocol and the specular (metal) material.
//!
//! The set of material kinds is closed, so the dynamic dispatch of the
//! scatter protocol is a sum type over the two known kinds.

use vstd::prelude::*;
use crate::fp::{fmul, SCALE};
use crate::hit::HitRecord;
use crate::lambertian::Lambertian;
use crate::ray::Ray;
use crate::vec3::{boundedv, dotv, len_sqrv, reflectv, unitv, Vec3, V3};
use crate::fp::{lemma_fdiv_mag, lemma_fmul_mag};

verus! {

/// A colour usable as an albedo: channels within [0, 1].
pub open spec fn albedo_wf(a: V3) -> bool {
    &&& 0 <= a.x <= SCALE
    &&& 0 <= a.y <= SCALE
    &&& 0 <= a.z <= SCALE
}

#[derive(Debug, Copy, Clone)]
pub struct Metal {
    pub albedo: Vec3,
}

/// The closed set of material kinds.
#[derive(Debug, Copy, Clone)]
pub enum Material {
    Lambertian(Lambertian),
    Metal(Metal),
}

/// A material whose albedo is a genuine colour.
pub open spec fn mat_wf(m: Material) -> bool {
    match m {
        Material::Lambertian(l) => albedo_wf(l.albedo@),
        Material::Metal(me) => albedo_wf(me.albedo@),
    }
}

impl Metal {
    /// Specular scatter: reflect the unit incoming direction about the
    /// normal.  Absorbs exactly when the reflection points into the surface.
    pub fn scatter(
        &self,
        r_in: &Ray,
        rec: &HitRecord,
        attenuation: &mut Vec3,
        scattered: &mut Ray,
    ) -> (b: bool)
        requires
            boundedv(r_in@.dir, crate::vec3::WORLD_BOUND as int),
            len_sqrv(r_in@.dir) >= 1,
            boundedv(rec.normal@, 262144),
        ensures
            final(attenuation)@ == self.albedo@,
            final(scattered)@.orig == rec.point@,
            final(scattered)@.dir == reflectv(unitv(r_in@.dir), rec.normal@),
            b == (dotv(final(scattered)@.dir, rec.normal@) > 0),
            boundedv(final(scattered)@.dir, 8796093022208),
    {
        let u = r_in.dir.unit_vector();
        proof {
            lemma_fdiv_mag(r_in@.dir.x, crate::vec3::lenv(r_in@.dir), crate::vec3::WORLD_BOUND as int, 256);
            lemma_fdiv_mag(r_in@.dir.y, crate::vec3::lenv(r_in@.dir), crate::vec3::WORLD_BOUND as int, 256);
            lemma_fdiv_mag(r_in@.dir.z, crate::vec3::lenv(r_in@.dir), crate::vec3::WORLD_BOUND as int, 256);
        }
        let reflected = Vec3::reflect(&u, &rec.normal);
        scattered.orig = rec.point;
        scattered.dir = reflected;
        attenuation.x = self.albedo.x;
        attenuation.y = self.albedo.y;
        attenuation.z = self.albedo.z;
        proof {
            crate::vec3::lemma_dot_fits(reflected@, rec.normal@, 8796093022208, 262144);
        }
        let d = scattered.dir.dot(&rec.normal);
        d > 0
    }
}

impl Material {
    /// Dispatch of the scatter protocol over the closed kind set.
    pub fn scatter(
        &self,
        r_in: &Ray,
        rec: &HitRecord,
        attenuation: &mut Vec3,
        scattered: &mut Ray,
    ) -> (b: bool)
        requires
            boundedv(r_in@.dir, crate::vec3::WORLD_BOUND as int),
            len_sqrv(r_in@.dir) >= 1,
            boundedv(rec.normal@, 262144),
        ensures
            self matches Material::Lambertian(l) ==> b == true && final(attenuation)@ == l.albedo@
                && (exists|p: V3|
                boundedv(p, SCALE as int) && 1 <= crate::vec3::len_sqrv(p) < SCALE
                    && final(scattered)@.dir == crate::lambertian::lambertian_dir(
                    rec.normal@,
                    p,
                )),
            self matches Material::Metal(m) ==> final(attenuation)@ == m.albedo@
                && final(scattered)@.dir == reflectv(unitv(r_in@.dir), rec.normal@)
                && b == (dotv(final(scattered)@.dir, rec.normal@) > 0),
            final(scattered)@.orig == rec.point@,
            boundedv(final(scattered)@.dir, 8796093022208),
    {
        match self {
            Material::Lambertian(l) => l.scatter(r_in, rec, attenuation, scattered),
            Material::Metal(m) => m.scatter(r_in, rec, attenuation, scattered),
        }
    }
}

} // verus!
