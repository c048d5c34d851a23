//! The sphere primitive and its ray-intersection test.
//!
//! The quadratic `|ray.at(t) - center|^2 = radius^2` is solved in the
//! half-coefficient form; the nearer root inside the open search interval
//! is preferred, the farther tried when the nearer is rejected.  A root is
//! also rejected when the point or the outward normal it yields leaves the
//! representable range.  A well-formed sphere keeps its whole surface
//! inside world range, so for such spheres this guard is a defensive
//! redundancy, reachable only through rounding at the world edge.

use vstd::prelude::*;
use crate::fp::{
    fdiv, fmul, fsqrt, is_isqrt, lemma_fdiv_mag, lemma_fmul_mag, lemma_fmul_sq_nonneg, div_fp,
    mul_fp, sqrt_fp,
};
use crate::hit::{face_normalv, HitRecord};
use crate::material::{mat_wf, Material};
use crate::lambertian::Lambertian;
use crate::ray::{rayatv, ray_wf, Ray, RayV};
use crate::vec3::{
    boundedv, divkv, dotv, lemma_dot_fits, lemma_dot_mag, len_sqrv, subv, Vec3, V3, WORLD_BOUND,
};

verus! {

/// Upper limit of the search interval: the renderer's stand-in for an
/// unbounded ray (about sixteen million world units).
pub const T_LIMIT: i64 = 1099511627776;

/// Mathematical value of a sphere.
pub ghost struct SphereV {
    pub center: V3,
    pub radius: int,
    pub mat: Option<Material>,
}

#[derive(Debug, Copy, Clone)]
pub struct Sphere {
    pub center: Vec3,
    pub radius: i64,
    pub mat: Option<Material>,
}

impl View for Sphere {
    type V = SphereV;

    open spec fn view(&self) -> SphereV {
        SphereV { center: self.center@, radius: self.radius as int, mat: self.mat }
    }
}

/// A sphere the intersection protocol accepts: a positive representable
/// radius, a material present, and the whole surface inside world range
/// (each centre component at least a radius away from the world edge), so
/// that no genuine intersection point can leave the representable world.
pub open spec fn sphere_wf(s: SphereV) -> bool {
    &&& boundedv(s.center, WORLD_BOUND - s.radius)
    &&& 1 <= s.radius <= WORLD_BOUND
    &&& s.mat is Some
    &&& mat_wf(s.mat->Some_0)
}

/// Centre-to-origin offset.
pub open spec fn ocv(s: SphereV, r: RayV) -> V3 {
    subv(r.orig, s.center)
}

/// Quadratic coefficient `a`: squared length of the direction.
pub open spec fn a_of(r: RayV) -> int {
    len_sqrv(r.dir)
}

/// Half-coefficient `b/2`.
pub open spec fn halfb_of(s: SphereV, r: RayV) -> int {
    dotv(ocv(s, r), r.dir)
}

/// Constant coefficient `c`.
pub open spec fn c_of(s: SphereV, r: RayV) -> int {
    len_sqrv(ocv(s, r)) - fmul(s.radius, s.radius)
}

/// Discriminant of the half-coefficient quadratic.
pub open spec fn disc_of(s: SphereV, r: RayV) -> int {
    fmul(halfb_of(s, r), halfb_of(s, r)) - fmul(a_of(r), c_of(s, r))
}

/// Square root of the discriminant (meaningful when it is nonnegative).
pub open spec fn sqrtd_of(s: SphereV, r: RayV) -> int {
    fsqrt(disc_of(s, r))
}

/// The nearer root of the quadratic.
pub open spec fn root_near(s: SphereV, r: RayV) -> int {
    fdiv(-halfb_of(s, r) - sqrtd_of(s, r), a_of(r))
}

/// The farther root of the quadratic.
pub open spec fn root_far(s: SphereV, r: RayV) -> int {
    fdiv(-halfb_of(s, r) + sqrtd_of(s, r), a_of(r))
}

/// Outward unit-scale normal at parameter `t`.
pub open spec fn outward_of(s: SphereV, r: RayV, t: int) -> V3 {
    divkv(subv(rayatv(r, t), s.center), s.radius)
}

/// A root the test accepts: strictly inside the open interval, with its
/// surface point in world range and its outward normal in normal range.
pub open spec fn root_ok(s: SphereV, r: RayV, t: int, tmin: int, tmax: int) -> bool {
    &&& tmin < t < tmax
    &&& boundedv(rayatv(r, t), WORLD_BOUND as int)
    &&& boundedv(outward_of(s, r, t), 262144)
}

/// The parameter a sphere's hit reports for the given interval: the nearer
/// acceptable root if any, else the farther, else nothing.
pub open spec fn sphere_first_t(s: SphereV, r: RayV, tmin: int, tmax: int) -> Option<int> {
    if disc_of(s, r) < 0 {
        None
    } else if root_ok(s, r, root_near(s, r), tmin, tmax) {
        Some(root_near(s, r))
    } else if root_ok(s, r, root_far(s, r), tmin, tmax) {
        Some(root_far(s, r))
    } else {
        None
    }
}

impl Sphere {
    /// Decide `sphere_wf` executably, so unverified callers can test a
    /// sphere before handing it to the intersection protocol.
    pub fn is_well_formed(&self) -> (b: bool)
        ensures
            b == sphere_wf(self@),
    {
        if self.radius < 1 || WORLD_BOUND < self.radius {
            return false;
        }
        let limit = WORLD_BOUND - self.radius;
        if self.center.x < -limit || limit < self.center.x || self.center.y < -limit || limit
            < self.center.y || self.center.z < -limit || limit < self.center.z {
            return false;
        }
        match self.mat {
            Some(Material::Lambertian(l)) => 0 <= l.albedo.x && l.albedo.x <= crate::fp::SCALE
                && 0 <= l.albedo.y && l.albedo.y <= crate::fp::SCALE && 0 <= l.albedo.z
                && l.albedo.z <= crate::fp::SCALE,
            Some(Material::Metal(m)) => 0 <= m.albedo.x && m.albedo.x <= crate::fp::SCALE && 0
                <= m.albedo.y && m.albedo.y <= crate::fp::SCALE && 0 <= m.albedo.z && m.albedo.z
                <= crate::fp::SCALE,
            None => false,
        }
    }

    /// Decide `root_ok` executably.
    fn root_in_bounds(&self, r: &Ray, t: i64, tmin: i64, tmax: i64) -> (b: bool)
        requires
            sphere_wf(self@),
            ray_wf(r@),
            0 <= tmin,
            tmax <= T_LIMIT,
        ensures
            b == root_ok(self@, r@, t as int, tmin as int, tmax as int),
    {
        if t <= tmin || tmax <= t {
            return false;
        }
        proof {
            lemma_fmul_mag(r@.dir.x, t as int, WORLD_BOUND as int, T_LIMIT as int);
            lemma_fmul_mag(r@.dir.y, t as int, WORLD_BOUND as int, T_LIMIT as int);
            lemma_fmul_mag(r@.dir.z, t as int, WORLD_BOUND as int, T_LIMIT as int);
        }
        let p = r.at(t);
        if p.x < -WORLD_BOUND || WORLD_BOUND < p.x || p.y < -WORLD_BOUND || WORLD_BOUND < p.y
            || p.z < -WORLD_BOUND || WORLD_BOUND < p.z {
            return false;
        }
        let diff = p.sub(self.center);
        proof {
            lemma_fdiv_mag(diff@.x, self@.radius, 134217728, 1);
            lemma_fdiv_mag(diff@.y, self@.radius, 134217728, 1);
            lemma_fdiv_mag(diff@.z, self@.radius, 134217728, 1);
        }
        let ow = diff.div_s(self.radius);
        if ow.x < -262144 || 262144 < ow.x || ow.y < -262144 || 262144 < ow.y || ow.z < -262144
            || 262144 < ow.z {
            return false;
        }
        true
    }

    /// Intersection test: does the ray meet this sphere at a parameter in
    /// the open interval `(tmin, tmax)`?  On success the record is fully
    /// populated; on failure it is left untouched.
    pub fn hit(&self, r: &Ray, tmin: i64, tmax: i64, rec: &mut HitRecord) -> (b: bool)
        requires
            sphere_wf(self@),
            ray_wf(r@),
            0 <= tmin,
            tmax <= T_LIMIT,
        ensures
            b == (sphere_first_t(self@, r@, tmin as int, tmax as int) is Some),
            b ==> sphere_first_t(self@, r@, tmin as int, tmax as int) == Some(
                final(rec).t as int,
            ),
            b ==> root_ok(self@, r@, final(rec).t as int, tmin as int, tmax as int),
            b ==> final(rec).point@ == rayatv(r@, final(rec).t as int),
            b ==> final(rec).normal@ == face_normalv(
                r@.dir,
                outward_of(self@, r@, final(rec).t as int),
            ),
            b ==> final(rec).frontface == (dotv(
                r@.dir,
                outward_of(self@, r@, final(rec).t as int),
            ) < 0),
            b ==> final(rec).mat == self.mat,
            b ==> boundedv(final(rec).normal@, 262144),
            b ==> (dotv(r@.dir, outward_of(self@, r@, final(rec).t as int)) != 0 ==> dotv(
                final(rec).normal@,
                r@.dir,
            ) < 0),
            !b ==> *final(rec) == *old(rec),
    {
        let oc = r.orig.sub(self.center);
        let a = r.dir.length_sqr();
        proof {
            lemma_dot_fits(oc@, r@.dir, 134217728, 67108864);
            lemma_dot_mag(r@.dir, r@.dir, WORLD_BOUND as int, WORLD_BOUND as int);
            lemma_dot_mag(oc@, oc@, 134217728, 134217728);
            lemma_fmul_mag(self@.radius, self@.radius, WORLD_BOUND as int, WORLD_BOUND as int);
            lemma_fmul_sq_nonneg(self@.radius);
        }
        let halfb = oc.dot(&r.dir);
        let c = oc.length_sqr() - mul_fp(self.radius, self.radius);
        proof {
            lemma_fmul_mag(halfb as int, halfb as int, 412316860416, 412316860416);
            lemma_fmul_mag(a as int, c as int, 206158430208, 893353197568);
        }
        let discriminant = mul_fp(halfb, halfb) - mul_fp(a, c);
        if discriminant < 0 {
            return false;
        }
        let sqrtd = sqrt_fp(discriminant);
        proof {
            assert(sqrtd as int <= 1000000000000) by (nonlinear_arith)
                requires
                    is_isqrt((discriminant as int) * 65536, sqrtd as int),
                    0 <= discriminant as int <= 6000000000000000000,
            ;
            lemma_fdiv_mag(-(halfb as int) - (sqrtd as int), a as int, 1412316860416, 1);
            lemma_fdiv_mag(-(halfb as int) + (sqrtd as int), a as int, 1412316860416, 1);
        }
        let mut root = div_fp(-halfb - sqrtd, a);
        if !self.root_in_bounds(r, root, tmin, tmax) {
            root = div_fp(-halfb + sqrtd, a);
            if !self.root_in_bounds(r, root, tmin, tmax) {
                return false;
            }
        }
        rec.t = root;
        proof {
            lemma_fmul_mag(r@.dir.x, root as int, WORLD_BOUND as int, T_LIMIT as int);
            lemma_fmul_mag(r@.dir.y, root as int, WORLD_BOUND as int, T_LIMIT as int);
            lemma_fmul_mag(r@.dir.z, root as int, WORLD_BOUND as int, T_LIMIT as int);
        }
        rec.point = r.at(rec.t);
        let diff = rec.point.sub(self.center);
        proof {
            lemma_fdiv_mag(diff@.x, self@.radius, 134217728, 1);
            lemma_fdiv_mag(diff@.y, self@.radius, 134217728, 1);
            lemma_fdiv_mag(diff@.z, self@.radius, 134217728, 1);
        }
        let outwnormal = diff.div_s(self.radius);
        rec.setfacenormal(r, &outwnormal);
        rec.mat = self.mat;
        true
    }
}

} // verus!
