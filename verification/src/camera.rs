//! The camera: a fixed viewport derived once from aspect ratio and focal
//! length, and the map from image-plane coordinates to rays.

use vstd::prelude::*;
use crate::fp::{
    fdiv, fmul, fits_i64, lemma_fmul_mag, lemma_fmul_sq_nonneg, div_fp, mul_fp, SCALE,
};
use crate::ray::{ray_wf, Ray, RayV};
use crate::vec3::{addv, boundedv, len_sqrv, scalev, subv, zeros, Vec3, V3};

verus! {

/// Mathematical value of a camera.
pub ghost struct CameraV {
    pub origin: V3,
    pub lowerleft_corner: V3,
    pub horizontal: V3,
    pub vertical: V3,
}

#[derive(Debug, Copy, Clone)]
pub struct Camera {
    origin: Vec3,
    lowerleft_corner: Vec3,
    horizontal: Vec3,
    vertical: Vec3,
}

impl View for Camera {
    type V = CameraV;

    closed spec fn view(&self) -> CameraV {
        CameraV {
            origin: self.origin@,
            lowerleft_corner: self.lowerleft_corner@,
            horizontal: self.horizontal@,
            vertical: self.vertical@,
        }
    }
}

/// A camera whose rays the renderer accepts: fields of modest size, image
/// plane spanned in x/y only, looking down the negative z axis from the
/// plane z = 0, so every generated direction has z at most -1.
pub open spec fn camera_wf(c: CameraV) -> bool {
    &&& boundedv(c.origin, 1048576)
    &&& boundedv(c.lowerleft_corner, 1048576)
    &&& boundedv(c.horizontal, 1048576)
    &&& boundedv(c.vertical, 1048576)
    &&& c.horizontal.z == 0
    &&& c.vertical.z == 0
    &&& c.origin.z == 0
    &&& c.lowerleft_corner.z <= -(SCALE as int)
}

/// The direction of the ray through image-plane coordinates (u, v).
pub open spec fn ray_dirv(c: CameraV, u: int, v: int) -> V3 {
    subv(addv(addv(c.lowerleft_corner, scalev(c.horizontal, u)), scalev(c.vertical, v)), c.origin)
}

impl Camera {
    /// Decide `camera_wf` executably, so unverified callers can test a
    /// camera before rendering with it.
    pub fn is_well_formed(&self) -> (b: bool)
        ensures
            b == camera_wf(self@),
    {
        let bound: i64 = 1048576;
        -bound <= self.origin.x && self.origin.x <= bound && -bound <= self.origin.y
            && self.origin.y <= bound && -bound <= self.origin.z && self.origin.z <= bound
            && -bound <= self.lowerleft_corner.x && self.lowerleft_corner.x <= bound && -bound
            <= self.lowerleft_corner.y && self.lowerleft_corner.y <= bound && -bound
            <= self.lowerleft_corner.z && self.lowerleft_corner.z <= bound && -bound
            <= self.horizontal.x && self.horizontal.x <= bound && -bound <= self.horizontal.y
            && self.horizontal.y <= bound && -bound <= self.horizontal.z && self.horizontal.z
            <= bound && -bound <= self.vertical.x && self.vertical.x <= bound && -bound
            <= self.vertical.y && self.vertical.y <= bound && -bound <= self.vertical.z
            && self.vertical.z <= bound && self.horizontal.z == 0 && self.vertical.z == 0
            && self.origin.z == 0 && self.lowerleft_corner.z <= -SCALE
    }

    /// The baseline configuration: viewport height 2, aspect ratio 16:9,
    /// focal length 1, origin at the world zero point.
    pub fn init() -> (r: Self)
        ensures
            r@.origin == (V3 { x: 0, y: 0, z: 0 }),
            r@.horizontal == (V3 { x: 233016, y: 0, z: 0 }),
            r@.vertical == (V3 { x: 0, y: 131072, z: 0 }),
            r@.lowerleft_corner == (V3 { x: -116508, y: -65536, z: -65536 }),
            camera_wf(r@),
    {
        let aspect_ratio = div_fp(16 * SCALE, 9 * SCALE);
        let vheight = 2 * SCALE;
        let wheight = mul_fp(aspect_ratio, vheight);
        let focallength = SCALE;

        let orig = zeros();
        let h = Vec3::new(wheight, 0, 0);
        let v = Vec3::new(0, vheight, 0);
        let llcorner = orig.sub(h.div_s(2 * SCALE)).sub(v.div_s(2 * SCALE)).sub(
            Vec3::new(0, 0, focallength),
        );

        Camera { origin: orig, horizontal: h, vertical: v, lowerleft_corner: llcorner }
    }

    /// The ray from the camera origin toward the viewport point (u, v),
    /// for u and v in [0, 2]: one image unit plus jitter headroom.
    pub fn get_ray(self, u: i64, v: i64) -> (r: Ray)
        requires
            camera_wf(self@),
            0 <= u <= 2 * SCALE,
            0 <= v <= 2 * SCALE,
        ensures
            r@.orig == self@.origin,
            r@.dir == ray_dirv(self@, u as int, v as int),
            ray_wf(r@),
    {
        proof {
            lemma_fmul_mag(self@.horizontal.x, u as int, 1048576, 131072);
            lemma_fmul_mag(self@.horizontal.y, u as int, 1048576, 131072);
            lemma_fmul_mag(self@.horizontal.z, u as int, 1048576, 131072);
            lemma_fmul_mag(self@.vertical.x, v as int, 1048576, 131072);
            lemma_fmul_mag(self@.vertical.y, v as int, 1048576, 131072);
            lemma_fmul_mag(self@.vertical.z, v as int, 1048576, 131072);
        }
        let dir = self.lowerleft_corner.add(self.horizontal.scale(u)).add(
            self.vertical.scale(v),
        ).sub(self.origin);
        proof {
            assert(fmul(0, u as int) == 0);
            assert(fmul(0, v as int) == 0);
            assert(dir@.z <= -(SCALE as int));
            assert(fmul(dir@.z, dir@.z) >= SCALE) by (nonlinear_arith)
                requires
                    dir@.z <= -(SCALE as int),
            ;
            lemma_fmul_sq_nonneg(dir@.x);
            lemma_fmul_sq_nonneg(dir@.y);
        }
        Ray { orig: self.origin, dir }
    }
}

} // verus!
