//! Tests for rays, intersections, materials, the scene scan, the radiance
//! function and the pixel pipeline.  Values are fixed-point: 65536 is one.

use raytrace::camera::Camera;
use raytrace::hit::HitRecord;
use raytrace::hittable_list::HittableList;
use raytrace::lambertian::Lambertian;
use raytrace::material::{Material, Metal};
use raytrace::ray::Ray;
use raytrace::render::{clamp, ray_color, render_pixel, write_color, SHADOW_EPS};
use raytrace::sphere::{Sphere, T_LIMIT};
use raytrace::vec3::{zeros, Vec3};

const S: i64 = 65536;

fn fresh_rec() -> HitRecord {
    HitRecord { point: zeros(), normal: zeros(), t: 0, frontface: false, mat: None }
}

fn gray() -> Material {
    Material::Lambertian(Lambertian { albedo: Vec3::new(32768, 32768, 32768) })
}

#[test]
fn ray_at_walks_the_parametric_line() {
    let r = Ray::new(Vec3::new(S, 0, 0), Vec3::new(0, 0, -S));
    assert_eq!(r.at(2 * S), Vec3::new(S, 0, -2 * S));
    assert_eq!(r.at(0), Vec3::new(S, 0, 0));
    assert_eq!(r.at(32768), Vec3::new(S, 0, -32768));
}

#[test]
fn sphere_hit_reports_near_root_in_interval() {
    // Unit sphere two units down the -z axis; ray straight at it.
    let sp = Sphere { center: Vec3::new(0, 0, -2 * S), radius: S, mat: Some(gray()) };
    let r = Ray::new(zeros(), Vec3::new(0, 0, -S));
    let mut rec = fresh_rec();
    assert!(sp.hit(&r, SHADOW_EPS, T_LIMIT, &mut rec));
    // Near surface is one unit away: t = 1 exactly.
    assert_eq!(rec.t, S);
    assert!(SHADOW_EPS < rec.t && rec.t < T_LIMIT);
    assert_eq!(rec.point, Vec3::new(0, 0, -S));
    assert!(rec.frontface);
    assert_eq!(rec.normal, Vec3::new(0, 0, S));
    // The hit point is on the surface: |point - center|^2 equals radius^2.
    let d = rec.point.sub(sp.center);
    assert_eq!(d.length_sqr(), S);
    // The stored normal faces the incoming ray.
    assert!(rec.normal.dot(&r.dir) < 0);
}

#[test]
fn sphere_hit_from_inside_uses_far_root_and_back_face() {
    let sp = Sphere { center: Vec3::new(0, 0, -2 * S), radius: S, mat: Some(gray()) };
    // Ray cast from the centre: the near root is behind the origin.
    let r = Ray::new(Vec3::new(0, 0, -2 * S), Vec3::new(0, 0, -S));
    let mut rec = fresh_rec();
    assert!(sp.hit(&r, SHADOW_EPS, T_LIMIT, &mut rec));
    assert_eq!(rec.t, S);
    assert!(!rec.frontface);
    // Outward normal points along -z there; stored normal is flipped to +z.
    assert_eq!(rec.normal, Vec3::new(0, 0, S));
    assert!(rec.normal.dot(&r.dir) < 0);
}

#[test]
fn sphere_miss_and_rejected_interval() {
    let sp = Sphere { center: Vec3::new(0, 0, -2 * S), radius: S, mat: Some(gray()) };
    // Pointing away: negative discriminant territory / roots behind origin.
    let away = Ray::new(zeros(), Vec3::new(0, 0, S));
    let mut rec = fresh_rec();
    assert!(!sp.hit(&away, SHADOW_EPS, T_LIMIT, &mut rec));
    // A sideways ray misses entirely.
    let side = Ray::new(zeros(), Vec3::new(0, 3 * S, -S));
    assert!(!sp.hit(&side, SHADOW_EPS, T_LIMIT, &mut rec));
    // Both roots beyond tmax are rejected.
    let r = Ray::new(zeros(), Vec3::new(0, 0, -S));
    assert!(!sp.hit(&r, SHADOW_EPS, 32768, &mut rec));
}

#[test]
fn shadow_epsilon_excludes_self_intersection() {
    // A ray starting exactly on the sphere's surface, pointing away: its
    // own surface point (t = 0) must not count as a hit.
    let sp = Sphere { center: Vec3::new(0, 0, -2 * S), radius: S, mat: Some(gray()) };
    let r = Ray::new(Vec3::new(0, 0, -S), Vec3::new(0, 0, S));
    let mut rec = fresh_rec();
    assert!(!sp.hit(&r, SHADOW_EPS, T_LIMIT, &mut rec));
}

#[test]
fn set_face_normal_orients_against_ray_both_ways() {
    let r = Ray::new(zeros(), Vec3::new(0, 0, -S));
    let mut rec = fresh_rec();
    // Outward normal opposing the ray: kept, front face.
    rec.setfacenormal(&r, &Vec3::new(0, 0, S));
    assert!(rec.frontface);
    assert_eq!(rec.normal, Vec3::new(0, 0, S));
    assert!(rec.normal.dot(&r.dir) < 0);
    // Outward normal along the ray: flipped, back face.
    rec.setfacenormal(&r, &Vec3::new(0, 0, -S));
    assert!(!rec.frontface);
    assert_eq!(rec.normal, Vec3::new(0, 0, S));
    assert!(rec.normal.dot(&r.dir) < 0);
}

#[test]
fn scene_hit_reports_nearest_sphere_material() {
    let near = Sphere {
        center: Vec3::new(0, 0, -2 * S),
        radius: 32768,
        mat: Some(Material::Metal(Metal { albedo: Vec3::new(S, 0, 0) })),
    };
    let far = Sphere {
        center: Vec3::new(0, 0, -4 * S),
        radius: 32768,
        mat: Some(Material::Lambertian(Lambertian { albedo: Vec3::new(0, S, 0) })),
    };
    let r = Ray::new(zeros(), Vec3::new(0, 0, -S));

    // Far first, near second: the nearer sphere must still win.
    let mut world = HittableList { objects: Vec::new() };
    world.add(far);
    world.add(near);
    let mut rec = fresh_rec();
    assert!(world.hit(&r, SHADOW_EPS, T_LIMIT, &mut rec));
    // Front of the near sphere is 1.5 units away.
    assert_eq!(rec.t, 98304);
    assert!(matches!(rec.mat, Some(Material::Metal(m)) if m.albedo == Vec3::new(S, 0, 0)));

    // Same scene in the other insertion order gives the same answer.
    let mut world2 = HittableList { objects: Vec::new() };
    world2.add(near);
    world2.add(far);
    let mut rec2 = fresh_rec();
    assert!(world2.hit(&r, SHADOW_EPS, T_LIMIT, &mut rec2));
    assert_eq!(rec2.t, 98304);
    assert!(matches!(rec2.mat, Some(Material::Metal(m)) if m.albedo == Vec3::new(S, 0, 0)));
}

#[test]
fn well_formedness_checkers_accept_and_reject() {
    let good = Sphere { center: Vec3::new(0, 0, -2 * S), radius: S, mat: Some(gray()) };
    assert!(good.is_well_formed());
    let no_mat = Sphere { center: zeros(), radius: S, mat: None };
    assert!(!no_mat.is_well_formed());
    let zero_radius = Sphere { center: zeros(), radius: 0, mat: Some(gray()) };
    assert!(!zero_radius.is_well_formed());
    // Surface poking past the world edge is rejected.
    let edge = Sphere {
        center: Vec3::new(67108864 - 100, 0, 0),
        radius: S,
        mat: Some(gray()),
    };
    assert!(!edge.is_well_formed());
    // An albedo channel above one is rejected.
    let glow = Sphere {
        center: zeros(),
        radius: S,
        mat: Some(Material::Lambertian(Lambertian { albedo: Vec3::new(2 * S, 0, 0) })),
    };
    assert!(!glow.is_well_formed());

    let mut world = HittableList { objects: Vec::new() };
    world.add(good);
    assert!(world.is_well_formed());
    world.add(no_mat);
    assert!(!world.is_well_formed());

    assert!(Camera::init().is_well_formed());
}

#[test]
fn scene_clear_empties_and_empty_scene_misses() {
    let mut world = HittableList { objects: Vec::new() };
    world.add(Sphere { center: Vec3::new(0, 0, -2 * S), radius: S, mat: Some(gray()) });
    world.clear();
    assert_eq!(world.objects.len(), 0);
    let mut rec = fresh_rec();
    let r = Ray::new(zeros(), Vec3::new(0, 0, -S));
    assert!(!world.hit(&r, SHADOW_EPS, T_LIMIT, &mut rec));
}

#[test]
fn lambertian_never_absorbs() {
    let l = Lambertian { albedo: Vec3::new(32768, 16384, 8192) };
    let r_in = Ray::new(zeros(), Vec3::new(0, 0, -S));
    let mut rec = fresh_rec();
    rec.point = Vec3::new(0, 0, -S);
    rec.normal = Vec3::new(0, 0, S);
    for _ in 0..20 {
        let mut attenuation = zeros();
        let mut scattered = Ray::new(zeros(), zeros());
        assert!(l.scatter(&r_in, &rec, &mut attenuation, &mut scattered));
        assert_eq!(attenuation, Vec3::new(32768, 16384, 8192));
        assert_eq!(scattered.orig, rec.point);
        // The scattered direction leaves on the normal's side, up to the
        // proven rounding tolerance.
        assert!(scattered.dir.dot(&rec.normal) >= -18);
    }
}

#[test]
fn metal_reflects_and_absorbs_only_grazing() {
    let m = Metal { albedo: Vec3::new(52428, 52428, 52428) };
    let mut rec = fresh_rec();
    rec.point = Vec3::new(0, 0, -S);
    rec.normal = Vec3::new(0, 0, S);

    // Head-on: reflected straight back, not absorbed.
    let head_on = Ray::new(zeros(), Vec3::new(0, 0, -S));
    let mut attenuation = zeros();
    let mut scattered = Ray::new(zeros(), zeros());
    assert!(m.scatter(&head_on, &rec, &mut attenuation, &mut scattered));
    assert_eq!(scattered.dir, Vec3::new(0, 0, S));
    assert_eq!(attenuation, Vec3::new(52428, 52428, 52428));

    // Grazing: the reflection stays in the surface plane, so it is absorbed.
    let grazing = Ray::new(zeros(), Vec3::new(S, 0, 0));
    let mut att2 = zeros();
    let mut scat2 = Ray::new(zeros(), zeros());
    assert!(!m.scatter(&grazing, &rec, &mut att2, &mut scat2));
}

#[test]
fn radiance_of_miss_is_background_gradient() {
    let world = HittableList { objects: Vec::new() };
    // Straight down: the normalized direction has height -1, the blend
    // parameter is 0, the colour is pure white.
    let down = Ray::new(zeros(), Vec3::new(0, -S, 0));
    assert_eq!(ray_color(&down, &world, 50), Vec3::new(S, S, S));
    // Horizontal: height 0, halfway blend between white and sky blue.
    let level = Ray::new(zeros(), Vec3::new(0, 0, -S));
    assert_eq!(ray_color(&level, &world, 50), Vec3::new(49152, 55705, S));
    // Straight up: height 1, pure sky blue.
    let up = Ray::new(zeros(), Vec3::new(0, S, 0));
    assert_eq!(ray_color(&up, &world, 50), Vec3::new(32768, 45875, S));
}

#[test]
fn radiance_at_exhausted_depth_is_black() {
    let mut world = HittableList { objects: Vec::new() };
    world.add(Sphere { center: Vec3::new(0, 0, -2 * S), radius: S, mat: Some(gray()) });
    let r = Ray::new(zeros(), Vec3::new(0, 0, -S));
    assert_eq!(ray_color(&r, &world, 0), Vec3::new(0, 0, 0));
    assert_eq!(ray_color(&r, &world, -3), Vec3::new(0, 0, 0));
}

#[test]
fn clamp_restricts_to_interval() {
    assert_eq!(clamp(5, 0, 10), 5);
    assert_eq!(clamp(-5, 0, 10), 0);
    assert_eq!(clamp(15, 0, 10), 10);
    assert_eq!(clamp(0, 0, 10), 0);
    assert_eq!(clamp(10, 0, 10), 10);
}

#[test]
fn write_color_averages_gamma_corrects_and_scales() {
    // Averages of (1.0, 0.0, 0.25) over 4 samples:
    // sqrt(1.0) -> clamped to 0.999 -> 255; sqrt(0) -> 0; sqrt(0.25) = 0.5 -> 128.
    let accumulated = Vec3::new(4 * S, 0, S);
    assert_eq!(write_color(accumulated, 4), (255, 0, 128));
    // Negative radiance is clamped to black.
    assert_eq!(write_color(Vec3::new(-S, -1, -100), 1), (0, 0, 0));
}

#[test]
fn camera_rays_span_the_viewport() {
    let cam = Camera::init();
    // Centre of the image: straight down the -z axis.
    let centre = cam.get_ray(32768, 32768);
    assert_eq!(centre.orig, Vec3::new(0, 0, 0));
    assert_eq!(centre.dir, Vec3::new(0, 0, -S));
    // Lower-left corner.
    let corner = cam.get_ray(0, 0);
    assert_eq!(corner.dir, Vec3::new(-116508, -S, -S));
    // u spans the 16:9 width: at u = 1 the x component flips sign.
    let right = cam.get_ray(S, 0);
    assert_eq!(right.dir, Vec3::new(116508, -S, -S));
}

#[test]
fn center_pixel_of_unit_sphere_scene_is_lit_sphere_not_background() {
    // A half-unit Lambertian gray sphere one unit ahead, over a large
    // Lambertian ground sphere.
    let mut world = HittableList { objects: Vec::new() };
    world.add(Sphere { center: Vec3::new(0, 0, -S), radius: 32768, mat: Some(gray()) });
    let light_gray = Material::Lambertian(Lambertian { albedo: Vec3::new(52428, 52428, 52428) });
    world.add(Sphere {
        center: Vec3::new(0, -6586368, -S),
        radius: 100 * S,
        mat: Some(light_gray),
    });
    let cam = Camera::init();

    // The centre ray reports a hit on the small sphere, not the background.
    let centre = cam.get_ray(32768, 32768);
    let mut rec = fresh_rec();
    assert!(world.hit(&centre, SHADOW_EPS, T_LIMIT, &mut rec));
    assert_eq!(rec.t, 32768);
    assert!(matches!(rec.mat, Some(Material::Lambertian(_))));

    // Rendering the centre pixel with one sample: the gray sphere tints
    // whatever the scattered path gathers, so every channel stays strictly
    // between black and white.
    let (r, g, b) = render_pixel(&world, &cam, 500, 281, 1000, 562, 1, 50);
    assert!(r > 0 && r < 255, "r = {}", r);
    assert!(g > 0 && g < 255, "g = {}", g);
    assert!(b > 0 && b < 255, "b = {}", b);
}

#[test]
fn doubling_samples_leaves_expected_pixel_unchanged() {
    // Against an empty scene the pixel value is the background plus jitter
    // noise; doubling the sample count must not shift it.
    let world = HittableList { objects: Vec::new() };
    let cam = Camera::init();
    let few = render_pixel(&world, &cam, 100, 50, 200, 100, 4, 50);
    let many = render_pixel(&world, &cam, 100, 50, 200, 100, 8, 50);
    assert!((few.0 - many.0).abs() <= 3);
    assert!((few.1 - many.1).abs() <= 3);
    assert!((few.2 - many.2).abs() <= 3);
}
