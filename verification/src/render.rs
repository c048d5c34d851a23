//! The renderer: the recursive radiance function, per-pixel multi-sample
//! accumulation, and the gamma-corrected conversion to channel values.

use vstd::prelude::*;
use crate::camera::{camera_wf, ray_dirv, Camera, CameraV};
use crate::fp::{
    fdiv, fsqrt, lemma_fmul_unit_range, lemma_sdiv_mag, sdiv, sdiv128, sqrt_fp, SCALE,
};
use crate::hit::HitRecord;
use crate::hittable_list::{rec_matches, scene_first_t, scene_wf, HittableList};
use crate::lambertian::lambertian_dir;
use crate::material::Material;
use crate::ray::{ray_wf, Ray, RayV};
use crate::sphere::{Sphere, T_LIMIT};
use crate::vec3::{
    addv, boundedv, len_sqrv, lenv, scalev, unitv, zeros, Vec3, V3, WORLD_BOUND,
};
use crate::fp::lemma_fdiv_mag;

verus! {

/// Lower end of every radiance search interval (about 0.001): excludes
/// self-intersections of freshly scattered rays at their origin.
pub const SHADOW_EPS: i64 = 66;

/// The zero colour.
pub open spec fn zerov() -> V3 {
    V3 { x: 0, y: 0, z: 0 }
}

/// Does the ray meet any sphere of the scene in the renderer's interval?
pub open spec fn scene_hits(objs: Seq<Sphere>, r: RayV) -> bool {
    exists|i: int|
        0 <= i < objs.len() && (#[trigger] scene_first_t(
            objs,
            r,
            i,
            SHADOW_EPS as int,
            T_LIMIT as int,
        )) is Some
}

/// The background gradient: white blended toward sky blue by the height of
/// the normalized direction, mapped from [-1, 1] to [0, 1].  The blend
/// parameter is clamped into [0, 1]: normalization can overshoot one by a
/// few quanta, and the clamp keeps the gradient a convex blend.
pub open spec fn backgroundv(r: RayV) -> V3 {
    let ud = unitv(r.dir);
    let t = clampv(sdiv(ud.y + (SCALE as int), 2), 0, SCALE as int);
    addv(
        scalev(V3 { x: SCALE as int, y: SCALE as int, z: SCALE as int }, (SCALE as int) - t),
        scalev(V3 { x: 32768, y: 45875, z: SCALE as int }, t),
    )
}

/// Every colour channel lies in [0, 1].
pub open spec fn unit_colorv(v: V3) -> bool {
    &&& 0 <= v.x <= SCALE
    &&& 0 <= v.y <= SCALE
    &&& 0 <= v.z <= SCALE
}

/// `v` is a radiance value the recursive evaluation can produce for this
/// ray at this depth: exactly zero at exhausted depth, exactly the
/// background gradient on a miss, and on a hit an outcome the nearest
/// record's material admits — zero on absorption or on a scattered
/// direction unusable at this resolution, else a possible bounce radiance
/// tinted by the material's albedo.
pub open spec fn possible_radiance(objs: Seq<Sphere>, r: RayV, depth: int, v: V3) -> bool
    decreases depth, 0int,
{
    if depth <= 0 {
        v == zerov()
    } else if !scene_hits(objs, r) {
        v == backgroundv(r)
    } else {
        exists|i: int, rec: HitRecord|
            0 <= i < objs.len() && #[trigger] rec_matches(
                objs[i]@,
                r,
                rec,
                SHADOW_EPS as int,
                T_LIMIT as int,
            ) && (forall|j: int|
                0 <= j < objs.len() && (#[trigger] scene_first_t(
                    objs,
                    r,
                    j,
                    SHADOW_EPS as int,
                    T_LIMIT as int,
                )) is Some ==> rec.t as int <= scene_first_t(
                    objs,
                    r,
                    j,
                    SHADOW_EPS as int,
                    T_LIMIT as int,
                )->Some_0) && scatter_radiance(objs, r, rec, depth - 1, v)
    }
}

/// The radiance outcomes the hit record's material admits, where `bdepth`
/// is the depth budget left for the bounce.
pub open spec fn scatter_radiance(
    objs: Seq<Sphere>,
    r: RayV,
    rec: HitRecord,
    bdepth: int,
    v: V3,
) -> bool
    decreases bdepth, 2int,
{
    match rec.mat {
        Some(Material::Lambertian(l)) => exists|p: V3|
            boundedv(p, SCALE as int) && 1 <= len_sqrv(p) < SCALE && scattered_outcome(
                objs,
                l.albedo@,
                rec.point@,
                lambertian_dir(rec.normal@, p),
                bdepth,
                v,
            ),
        Some(Material::Metal(m)) => {
            let dir = crate::vec3::reflectv(unitv(r.dir), rec.normal@);
            if crate::vec3::dotv(dir, rec.normal@) <= 0 {
                v == zerov()
            } else {
                scattered_outcome(objs, m.albedo@, rec.point@, dir, bdepth, v)
            }
        },
        None => false,
    }
}

/// What a non-absorbed scatter yields: zero when the scattered direction
/// cannot be traced at this resolution, else the attenuated radiance of a
/// possible evaluation of the scattered ray with the remaining budget.
pub open spec fn scattered_outcome(
    objs: Seq<Sphere>,
    albedo: V3,
    origin: V3,
    dir: V3,
    bdepth: int,
    v: V3,
) -> bool
    decreases bdepth, 1int,
{
    if !boundedv(dir, WORLD_BOUND as int) || len_sqrv(dir) < 1 {
        v == zerov()
    } else {
        exists|bounce: V3|
            possible_radiance(objs, RayV { orig: origin, dir: dir }, bdepth, bounce) && v == (
            #[trigger] crate::vec3::emulv(albedo, bounce))
    }
}

/// Clamp `x` into `[min, max]`.
pub open spec fn clampv(x: int, min: int, max: int) -> int {
    if x < min {
        min
    } else if x > max {
        max
    } else {
        x
    }
}

pub fn clamp(x: i64, min: i64, max: i64) -> (r: i64)
    ensures
        r as int == clampv(x as int, min as int, max as int),
{
    if x < min {
        min
    } else if x > max {
        max
    } else {
        x
    }
}

/// One channel of the final pixel: the per-sample average, gamma-2
/// corrected (square root), clamped below one, scaled to [0, 255].
pub open spec fn channelv(sum: int, samples: int) -> int {
    let avg = sdiv(sum, samples);
    let avgc = if avg < 0 {
        0
    } else {
        avg
    };
    sdiv(256 * clampv(fsqrt(avgc), 0, 65470), SCALE as int)
}

/// Lift a scattered outcome for the actual scattered direction to the
/// material's scatter-radiance relation, using what the scatter contract
/// says the direction is.
proof fn lemma_outcome_to_scatter_radiance(
    objs: Seq<Sphere>,
    r: RayV,
    rec: HitRecord,
    att: V3,
    sdir: V3,
    depth: int,
    v: V3,
)
    requires
        rec.mat is Some,
        (match rec.mat->Some_0 {
            Material::Lambertian(l) => att == l.albedo@ && (exists|p: V3|
                boundedv(p, SCALE as int) && 1 <= len_sqrv(p) < SCALE && sdir == lambertian_dir(
                    rec.normal@,
                    p,
                )),
            Material::Metal(m) => att == m.albedo@ && sdir == crate::vec3::reflectv(
                unitv(r.dir),
                rec.normal@,
            ) && crate::vec3::dotv(sdir, rec.normal@) > 0,
        }),
        scattered_outcome(objs, att, rec.point@, sdir, depth, v),
    ensures
        scatter_radiance(objs, r, rec, depth, v),
{
    match rec.mat {
        Some(mm) => {
            match mm {
                Material::Lambertian(l) => {
                    let p = choose|p: V3|
                        boundedv(p, SCALE as int) && 1 <= len_sqrv(p) < SCALE && sdir
                            == lambertian_dir(rec.normal@, p);
                    assert(boundedv(p, SCALE as int) && 1 <= len_sqrv(p) < SCALE
                        && scattered_outcome(
                        objs,
                        l.albedo@,
                        rec.point@,
                        lambertian_dir(rec.normal@, p),
                        depth,
                        v,
                    ));
                },
                Material::Metal(m) => {
                },
            }
        },
        None => {
        },
    }
}

/// At exhausted depth the only possible radiance is zero.
proof fn lemma_pr_exhausted(objs: Seq<Sphere>, r: RayV, depth: int)
    requires
        depth <= 0,
    ensures
        possible_radiance(objs, r, depth, zerov()),
{
}

/// On a miss the only possible radiance is the background gradient.
proof fn lemma_pr_miss(objs: Seq<Sphere>, r: RayV, depth: int)
    requires
        depth > 0,
        !scene_hits(objs, r),
    ensures
        possible_radiance(objs, r, depth, backgroundv(r)),
{
}

/// On a hit, any outcome the nearest record's material admits is a
/// possible radiance.
proof fn lemma_pr_hit(objs: Seq<Sphere>, r: RayV, depth: int, rec: HitRecord, v: V3)
    requires
        depth > 0,
        exists|i: int|
            0 <= i < objs.len() && rec_matches(
                (#[trigger] objs[i])@,
                r,
                rec,
                SHADOW_EPS as int,
                T_LIMIT as int,
            ),
        forall|j: int|
            0 <= j < objs.len() && (#[trigger] scene_first_t(
                objs,
                r,
                j,
                SHADOW_EPS as int,
                T_LIMIT as int,
            )) is Some ==> rec.t as int <= scene_first_t(
                objs,
                r,
                j,
                SHADOW_EPS as int,
                T_LIMIT as int,
            )->Some_0,
        scatter_radiance(objs, r, rec, depth - 1, v),
    ensures
        possible_radiance(objs, r, depth, v),
{
    let i = choose|i: int|
        0 <= i < objs.len() && rec_matches(
            (#[trigger] objs[i])@,
            r,
            rec,
            SHADOW_EPS as int,
            T_LIMIT as int,
        );
    assert(scene_first_t(objs, r, i, SHADOW_EPS as int, T_LIMIT as int) is Some);
    assert(0 <= i < objs.len() && rec_matches(objs[i]@, r, rec, SHADOW_EPS as int, T_LIMIT as int)
        && (forall|j: int|
        0 <= j < objs.len() && (#[trigger] scene_first_t(
            objs,
            r,
            j,
            SHADOW_EPS as int,
            T_LIMIT as int,
        )) is Some ==> rec.t as int <= scene_first_t(
            objs,
            r,
            j,
            SHADOW_EPS as int,
            T_LIMIT as int,
        )->Some_0) && scatter_radiance(objs, r, rec, depth - 1, v));
}

/// A guarded (untraceable) scattered direction yields zero.
proof fn lemma_guard_outcome(objs: Seq<Sphere>, att: V3, origin: V3, dir: V3, bdepth: int)
    requires
        !boundedv(dir, WORLD_BOUND as int) || len_sqrv(dir) < 1,
    ensures
        scattered_outcome(objs, att, origin, dir, bdepth, zerov()),
{
}

/// A traced bounce yields the attenuated bounce radiance.
proof fn lemma_bounce_outcome(
    objs: Seq<Sphere>,
    att: V3,
    origin: V3,
    dir: V3,
    bdepth: int,
    bval: V3,
)
    requires
        boundedv(dir, WORLD_BOUND as int),
        len_sqrv(dir) >= 1,
        possible_radiance(objs, RayV { orig: origin, dir: dir }, bdepth, bval),
    ensures
        scattered_outcome(objs, att, origin, dir, bdepth, crate::vec3::emulv(att, bval)),
{
    let w = crate::vec3::emulv(att, bval);
    assert(exists|b2: V3|
        possible_radiance(objs, RayV { orig: origin, dir: dir }, bdepth, b2) && w == (
        #[trigger] crate::vec3::emulv(att, b2)));
}

/// The radiance carried by one sampled ray path.
///
/// Depth exhaustion yields exactly zero; a miss yields exactly the
/// background gradient; a hit scatters and recurses, or yields zero on
/// absorption.  A scattered direction that leaves the representable range
/// (which cannot arise from scenes at this resolution) is treated as
/// absorbed, in line with the degenerate-case policy.  Every channel of
/// the result lies in [0, 1]: the gradient is a convex blend and every
/// bounce tints by an albedo in [0, 1].
#[verifier::rlimit(100)]
pub fn ray_color(r: &Ray, world: &HittableList, depth: i32) -> (res: Vec3)
    requires
        ray_wf(r@),
        scene_wf(world.objects@),
    ensures
        possible_radiance(world.objects@, r@, depth as int, res@),
        depth <= 0 ==> res@ == zerov(),
        depth > 0 && !scene_hits(world.objects@, r@) ==> res@ == backgroundv(r@),
        unit_colorv(res@),
    decreases depth,
{
    let mut rec = HitRecord {
        point: zeros(),
        normal: zeros(),
        t: 0,
        frontface: false,
        mat: None,
    };

    if depth <= 0 {
        proof {
            lemma_pr_exhausted(world.objects@, r@, depth as int);
        }
        return zeros();
    }

    if world.hit(r, SHADOW_EPS, T_LIMIT, &mut rec) {
        let mut scattered = Ray::new(zeros(), zeros());
        let mut attenuation = zeros();
        let m = rec.mat.unwrap();
        if m.scatter(r, &rec, &mut attenuation, &mut scattered) {
            if scattered.dir.x < -WORLD_BOUND || WORLD_BOUND < scattered.dir.x
                || scattered.dir.y < -WORLD_BOUND || WORLD_BOUND < scattered.dir.y
                || scattered.dir.z < -WORLD_BOUND || WORLD_BOUND < scattered.dir.z {
                proof {
                    lemma_guard_outcome(
                        world.objects@,
                        attenuation@,
                        rec.point@,
                        scattered@.dir,
                        depth as int - 1,
                    );
                    lemma_outcome_to_scatter_radiance(
                        world.objects@,
                        r@,
                        rec,
                        attenuation@,
                        scattered@.dir,
                        depth as int - 1,
                        zerov(),
                    );
                    lemma_pr_hit(world.objects@, r@, depth as int, rec, zerov());
                }
                return zeros();
            }
            let ls = scattered.dir.length_sqr();
            if ls < 1 {
                proof {
                    lemma_guard_outcome(
                        world.objects@,
                        attenuation@,
                        rec.point@,
                        scattered@.dir,
                        depth as int - 1,
                    );
                    lemma_outcome_to_scatter_radiance(
                        world.objects@,
                        r@,
                        rec,
                        attenuation@,
                        scattered@.dir,
                        depth as int - 1,
                        zerov(),
                    );
                    lemma_pr_hit(world.objects@, r@, depth as int, rec, zerov());
                }
                return zeros();
            }
            let bounce = ray_color(&scattered, world, depth - 1);
            proof {
                lemma_fmul_unit_range(attenuation@.x, bounce@.x);
                lemma_fmul_unit_range(attenuation@.y, bounce@.y);
                lemma_fmul_unit_range(attenuation@.z, bounce@.z);
                assert(scattered@ == (RayV { orig: rec.point@, dir: scattered@.dir }));
                lemma_bounce_outcome(
                    world.objects@,
                    attenuation@,
                    rec.point@,
                    scattered@.dir,
                    depth as int - 1,
                    bounce@,
                );
                lemma_outcome_to_scatter_radiance(
                    world.objects@,
                    r@,
                    rec,
                    attenuation@,
                    scattered@.dir,
                    depth as int - 1,
                    crate::vec3::emulv(attenuation@, bounce@),
                );
                lemma_pr_hit(
                    world.objects@,
                    r@,
                    depth as int,
                    rec,
                    crate::vec3::emulv(attenuation@, bounce@),
                );
            }
            return attenuation.mul(bounce);
        }
        proof {
            match m {
                Material::Metal(mm) => {
                    assert(scatter_radiance(world.objects@, r@, rec, depth as int - 1, zerov()));
                },
                Material::Lambertian(_) => {
                    assert(false);
                },
            }
            lemma_pr_hit(world.objects@, r@, depth as int, rec, zerov());
        }
        return zeros();
    }

    let ud = r.dir.unit_vector();
    proof {
        lemma_fdiv_mag(r@.dir.x, lenv(r@.dir), WORLD_BOUND as int, 256);
        lemma_fdiv_mag(r@.dir.y, lenv(r@.dir), WORLD_BOUND as int, 256);
        lemma_fdiv_mag(r@.dir.z, lenv(r@.dir), WORLD_BOUND as int, 256);
        lemma_sdiv_mag(ud@.y + 65536, 2, 17179934720, 2);
    }
    let s = ud.y + SCALE;
    let t = clamp(sdiv128(s as i128, 2) as i64, 0, SCALE);
    proof {
        lemma_fmul_unit_range(65536, 65536 - (t as int));
        lemma_fmul_unit_range(32768, t as int);
        lemma_fmul_unit_range(45875, t as int);
        lemma_fmul_unit_range(65536, t as int);
    }
    let white_part = crate::vec3::ones().scale(SCALE - t);
    let blue_part = Vec3::new(32768, 45875, SCALE).scale(t);
    proof {
        lemma_pr_miss(world.objects@, r@, depth as int);
    }
    white_part.add(blue_part)
}

/// The final integer channels for one pixel, from the accumulated radiance
/// of `samplesperpixel` samples: averaged, gamma-corrected, clamped and
/// scaled to [0, 255].
pub fn write_color(vec: Vec3, samplesperpixel: u32) -> (rgb: (i32, i32, i32))
    requires
        samplesperpixel >= 1,
    ensures
        rgb.0 as int == channelv(vec@.x, samplesperpixel as int),
        rgb.1 as int == channelv(vec@.y, samplesperpixel as int),
        rgb.2 as int == channelv(vec@.z, samplesperpixel as int),
        0 <= rgb.0 <= 255,
        0 <= rgb.1 <= 255,
        0 <= rgb.2 <= 255,
{
    let r = write_channel(vec.x, samplesperpixel);
    let g = write_channel(vec.y, samplesperpixel);
    let b = write_channel(vec.z, samplesperpixel);
    (r, g, b)
}

/// One channel of `write_color`.
fn write_channel(sum: i64, samples: u32) -> (c: i32)
    requires
        samples >= 1,
    ensures
        c as int == channelv(sum as int, samples as int),
        0 <= c <= 255,
{
    let avgc: i64 = if sum < 0 {
        proof {
            vstd::arithmetic::div_mod::lemma_div_pos_is_pos(-(sum as int), samples as int);
        }
        0
    } else {
        proof {
            lemma_sdiv_mag(sum as int, samples as int, 0x7fff_ffff_ffff_ffffint, 1);
        }
        sdiv128(sum as i128, samples as i128) as i64
    };
    let gamma = sqrt_fp(avgc);
    let cl = clamp(gamma, 0, 65470);
    proof {
        lemma_sdiv_mag(256 * (cl as int), 65536, 16760320, 65536);
        crate::fp::lemma_sdiv_ordered(0, 256 * (cl as int), 65536);
    }
    sdiv128((256 * cl) as i128, 65536) as i32
}

/// Sum of the x channels of a sequence of radiance samples.
pub open spec fn sum_x(vals: Seq<V3>) -> int
    decreases vals.len(),
{
    if vals.len() == 0 {
        0
    } else {
        sum_x(vals.drop_last()) + vals.last().x
    }
}

/// Sum of the y channels of a sequence of radiance samples.
pub open spec fn sum_y(vals: Seq<V3>) -> int
    decreases vals.len(),
{
    if vals.len() == 0 {
        0
    } else {
        sum_y(vals.drop_last()) + vals.last().y
    }
}

/// Sum of the z channels of a sequence of radiance samples.
pub open spec fn sum_z(vals: Seq<V3>) -> int
    decreases vals.len(),
{
    if vals.len() == 0 {
        0
    } else {
        sum_z(vals.drop_last()) + vals.last().z
    }
}

/// The jittered image-plane coordinate of index `k` out of `n`, for the
/// unit jitter sample `m`: (k + m) / (n - 1) in fixed point.
pub open spec fn jitter_val(k: int, n: int, m: int) -> int {
    fdiv(k * (SCALE as int) + m, (n - 1) * (SCALE as int))
}

/// `v` is a radiance value one sample of pixel (i, j) can produce: a
/// possible radiance of the camera ray through the pixel's jittered
/// image-plane coordinates.
pub open spec fn possible_sample(
    objs: Seq<Sphere>,
    c: CameraV,
    i: int,
    j: int,
    width: int,
    height: int,
    depth: int,
    v: V3,
) -> bool {
    exists|ru: int, rv: int|
        0 <= ru < SCALE && 0 <= rv < SCALE && #[trigger] possible_radiance(
            objs,
            RayV {
                orig: c.origin,
                dir: ray_dirv(c, jitter_val(i, width, ru), jitter_val(j, height, rv)),
            },
            depth,
            v,
        )
}

/// One pixel of the image: `samples` jittered camera rays, their radiance
/// accumulated and converted to channel values.  The channels are the
/// `channelv` conversion of the sums of a sequence of per-sample radiance
/// values, each one a possible evaluation of a jittered camera ray of this
/// pixel; they always land in [0, 255].
pub fn render_pixel(
    world: &HittableList,
    cam: &Camera,
    i: u32,
    j: u32,
    width: u32,
    height: u32,
    samples: u32,
    depth: i32,
) -> (rgb: (i32, i32, i32))
    requires
        scene_wf(world.objects@),
        camera_wf(cam@),
        width >= 2,
        height >= 2,
        i < width,
        j < height,
        1 <= samples <= 1048576,
    ensures
        exists|vals: Seq<V3>|
            #![trigger sum_x(vals)]
            vals.len() == samples as int && (forall|k: int|
                0 <= k < vals.len() ==> possible_sample(
                    world.objects@,
                    cam@,
                    i as int,
                    j as int,
                    width as int,
                    height as int,
                    depth as int,
                    #[trigger] vals[k],
                )) && rgb.0 as int == channelv(sum_x(vals), samples as int) && rgb.1 as int
                == channelv(sum_y(vals), samples as int) && rgb.2 as int == channelv(
                sum_z(vals),
                samples as int,
            ),
        0 <= rgb.0 <= 255,
        0 <= rgb.1 <= 255,
        0 <= rgb.2 <= 255,
{
    let mut color_pixel = zeros();
    let ghost mut vals: Seq<V3> = Seq::empty();
    let mut s: u32 = 0;
    while s < samples
        invariant
            s <= samples,
            vals.len() == s as int,
            forall|k: int|
                0 <= k < vals.len() ==> possible_sample(
                    world.objects@,
                    cam@,
                    i as int,
                    j as int,
                    width as int,
                    height as int,
                    depth as int,
                    #[trigger] vals[k],
                ),
            color_pixel@.x == sum_x(vals),
            color_pixel@.y == sum_y(vals),
            color_pixel@.z == sum_z(vals),
            0 <= color_pixel@.x <= (s as int) * 65536,
            0 <= color_pixel@.y <= (s as int) * 65536,
            0 <= color_pixel@.z <= (s as int) * 65536,
            scene_wf(world.objects@),
            camera_wf(cam@),
            width >= 2,
            height >= 2,
            i < width,
            j < height,
            samples <= 1048576,
        decreases samples - s,
    {
        let u = jitter_coord(i, width);
        let v = jitter_coord(j, height);
        let r = cam.get_ray(u, v);
        let c = ray_color(&r, world, depth);
        proof {
            let ru = choose|ru: int|
                0 <= ru < SCALE && u as int == #[trigger] jitter_val(i as int, width as int, ru);
            let rv = choose|rv: int|
                0 <= rv < SCALE && v as int == #[trigger] jitter_val(j as int, height as int, rv);
            assert(possible_radiance(
                world.objects@,
                RayV {
                    orig: cam@.origin,
                    dir: ray_dirv(
                        cam@,
                        jitter_val(i as int, width as int, ru),
                        jitter_val(j as int, height as int, rv),
                    ),
                },
                depth as int,
                c@,
            ));
            assert(possible_sample(
                world.objects@,
                cam@,
                i as int,
                j as int,
                width as int,
                height as int,
                depth as int,
                c@,
            ));
            assert(vals.push(c@).drop_last() =~= vals);
            assert((s as int) * 65536 + 65536 == (s as int + 1) * 65536) by (nonlinear_arith);
            assert((s as int + 1) * 65536 <= 1048576 * 65536) by (nonlinear_arith)
                requires
                    s as int + 1 <= 1048576,
            ;
        }
        color_pixel.add_assign(c);
        proof {
            vals = vals.push(c@);
        }
        s = s + 1;
    }
    let rgb = write_color(color_pixel, samples);
    proof {
        assert(vals.len() == samples as int && (forall|k: int|
            0 <= k < vals.len() ==> possible_sample(
                world.objects@,
                cam@,
                i as int,
                j as int,
                width as int,
                height as int,
                depth as int,
                #[trigger] vals[k],
            )) && rgb.0 as int == channelv(sum_x(vals), samples as int) && rgb.1 as int
            == channelv(sum_y(vals), samples as int) && rgb.2 as int == channelv(
            sum_z(vals),
            samples as int,
        ));
    }
    rgb
}

/// The jittered image-plane coordinate of index `k` out of `n`:
/// (k + random unit sample) / (n - 1), which lies in [0, 2].
fn jitter_coord(k: u32, n: u32) -> (u: i64)
    requires
        n >= 2,
        k < n,
    ensures
        0 <= u <= 2 * SCALE,
        exists|ru: int|
            0 <= ru < SCALE && u as int == #[trigger] jitter_val(k as int, n as int, ru),
{
    let ru = crate::rng::sample_unit();
    let num: i64 = (k as i64) * SCALE + ru;
    let den: i64 = ((n - 1) as i64) * SCALE;
    proof {
        assert((k as int) * 65536 <= ((n - 1) as int) * 65536) by (nonlinear_arith)
            requires
                k as int <= (n - 1) as int,
        ;
        assert(0 <= (num as int) * 65536 <= (den as int) * 131072) by (nonlinear_arith)
            requires
                0 <= num as int,
                num as int <= den as int + 65536,
                den as int >= 65536,
        ;
        vstd::arithmetic::div_mod::lemma_div_is_ordered(
            (num as int) * 65536,
            (den as int) * 131072,
            den as int,
        );
        vstd::arithmetic::div_mod::lemma_div_multiples_vanish(131072, den as int);
        vstd::arithmetic::div_mod::lemma_div_pos_is_pos((num as int) * 65536, den as int);
    }
    let q = crate::fp::div_fp(num, den);
    proof {
        assert(0 <= ru as int && (ru as int) < SCALE && q as int == jitter_val(
            k as int,
            n as int,
            ru as int,
        ));
    }
    q
}

} // verus!
