//! A parametric line: origin plus scaled direction.

use vstd::prelude::*;
use crate::fp::{fits_i64, fmul};
use crate::vec3::{addv, boundedv, len_sqrv, scalev, Vec3, V3, WORLD_BOUND};

verus! {

/// Mathematical value of a ray.
pub ghost struct RayV {
    pub orig: V3,
    pub dir: V3,
}

#[derive(Debug, Copy, Clone)]
pub struct Ray {
    pub orig: Vec3,
    pub dir: Vec3,
}

impl View for Ray {
    type V = RayV;

    open spec fn view(&self) -> RayV {
        RayV { orig: self.orig@, dir: self.dir@ }
    }
}

/// The point the ray reaches at parameter `t`.
pub open spec fn rayatv(r: RayV, t: int) -> V3 {
    addv(r.orig, scalev(r.dir, t))
}

/// A ray the intersection protocol accepts: coordinates in world range and
/// a direction long enough that its square does not truncate to zero.
pub open spec fn ray_wf(r: RayV) -> bool {
    &&& boundedv(r.orig, WORLD_BOUND as int)
    &&& boundedv(r.dir, WORLD_BOUND as int)
    &&& len_sqrv(r.dir) >= 1
}

impl Ray {
    pub fn new(origin: Vec3, direction: Vec3) -> (r: Ray)
        ensures
            r@ == (RayV { orig: origin@, dir: direction@ }),
    {
        Ray { orig: origin, dir: direction }
    }

    pub fn at(self, t: i64) -> (p: Vec3)
        requires
            fits_i64(fmul(self@.dir.x, t as int)),
            fits_i64(fmul(self@.dir.y, t as int)),
            fits_i64(fmul(self@.dir.z, t as int)),
            fits_i64(self@.orig.x + fmul(self@.dir.x, t as int)),
            fits_i64(self@.orig.y + fmul(self@.dir.y, t as int)),
            fits_i64(self@.orig.z + fmul(self@.dir.z, t as int)),
        ensures
            p@ == rayatv(self@, t as int),
    {
        self.orig.add(self.dir.scale(t))
    }
}

} // verus!
