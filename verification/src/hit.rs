//! The intersection record and its orientation convention.

use vstd::prelude::*;
use crate::material::Material;
use crate::ray::Ray;
use crate::fp::lemma_fmul_comm;
use crate::vec3::{boundedv, dotv, lemma_dot_neg, negv, Vec3, V3, DOT_BOUND};

verus! {

/// The normal stored in a record: the outward normal if the ray arrives
/// from outside, otherwise its negation, so that the stored normal always
/// faces the incoming ray.
pub open spec fn face_normalv(dir: V3, outward: V3) -> V3 {
    if dotv(dir, outward) < 0 {
        outward
    } else {
        negv(outward)
    }
}

/// Dot products commute.
pub proof fn lemma_dot_comm(a: V3, b: V3)
    ensures
        dotv(a, b) == dotv(b, a),
{
    lemma_fmul_comm(a.x, b.x);
    lemma_fmul_comm(a.y, b.y);
    lemma_fmul_comm(a.z, b.z);
}

/// Orientation invariant: whenever the incoming direction is not
/// perpendicular to the outward normal, the corrected normal makes a
/// strictly negative dot product with the incoming direction — for
/// front-face and back-face hits alike.
pub proof fn lemma_face_normal_orientation(dir: V3, outward: V3)
    requires
        dotv(dir, outward) != 0,
    ensures
        dotv(face_normalv(dir, outward), dir) < 0,
{
    lemma_dot_comm(dir, outward);
    if dotv(dir, outward) < 0 {
    } else {
        lemma_dot_neg(outward, dir);
    }
}

#[derive(Debug, Copy, Clone)]
pub struct HitRecord {
    pub point: Vec3,
    pub normal: Vec3,
    pub t: i64,
    pub frontface: bool,
    pub mat: Option<Material>,
}

impl HitRecord {
    /// Record the orientation-corrected normal for an intersection whose
    /// geometric (outward) normal is given.
    pub fn setfacenormal(&mut self, r: &Ray, outward_normal: &Vec3)
        requires
            boundedv(r@.dir, DOT_BOUND as int),
            boundedv(outward_normal@, DOT_BOUND as int),
        ensures
            final(self).frontface == (dotv(r@.dir, outward_normal@) < 0),
            final(self).normal@ == face_normalv(r@.dir, outward_normal@),
            final(self).point == old(self).point,
            final(self).t == old(self).t,
            final(self).mat == old(self).mat,
            dotv(r@.dir, outward_normal@) != 0 ==> dotv(final(self).normal@, r@.dir) < 0,
    {
        proof {
            crate::vec3::lemma_dot_fits(r@.dir, outward_normal@, DOT_BOUND as int, DOT_BOUND as int);
            if dotv(r@.dir, outward_normal@) != 0 {
                lemma_face_normal_orientation(r@.dir, outward_normal@);
            }
        }
        self.frontface = r.dir.dot(outward_normal) < 0;
        self.normal = if self.frontface {
            *outward_normal
        } else {
            outward_normal.neg()
        };
    }
}

} // verus!
