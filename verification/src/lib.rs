//! A recursive, stochastic ray tracer over analytic spheres, in fixed-point
//! arithmetic: every real quantity is an `i64` scaled by 2^16, so each
//! operation of the pipeline carries an exact integer contract.  The
//! pipeline: a vector algebra kernel, the ray/sphere intersection protocol,
//! diffuse and specular scattering, the scene's nearest-hit scan, and the
//! depth-bounded radiance recursion with per-pixel sampling.

pub mod camera;
pub mod fp;
pub mod hit;
pub mod hittable_list;
pub mod lambertian;
pub mod material;
pub mod ray;
pub mod render;
pub mod rng;
pub mod sphere;
pub mod vec3;
