//! Exact-value tests for the fixed-point vector kernel.
//! All values are in fixed-point units: 65536 is one world unit.

use raytrace::vec3::{ones, zeros, Vec3};

const S: i64 = 65536;

#[test]
fn add_sub_neg_are_componentwise() {
    let a = Vec3::new(S, 2 * S, -3 * S);
    let b = Vec3::new(5, -7, 11);
    assert_eq!(a.add(b), Vec3::new(S + 5, 2 * S - 7, -3 * S + 11));
    assert_eq!(a.sub(b), Vec3::new(S - 5, 2 * S + 7, -3 * S - 11));
    assert_eq!(a.neg(), Vec3::new(-S, -2 * S, 3 * S));
    assert_eq!(zeros(), Vec3::new(0, 0, 0));
    assert_eq!(ones(), Vec3::new(S, S, S));
}

#[test]
fn scalar_and_elementwise_products() {
    let a = Vec3::new(S, 2 * S, -S);
    // Scaling by one half (32768) halves each component.
    assert_eq!(a.scale(32768), Vec3::new(32768, S, -32768));
    // Element-wise product acts channel by channel.
    let tint = Vec3::new(32768, S, 0);
    assert_eq!(a.mul(tint), Vec3::new(32768, 2 * S, 0));
    // Scalar divide.
    assert_eq!(a.div_s(2 * S), Vec3::new(32768, S, -32768));
}

#[test]
fn assign_operators_match_their_pure_forms() {
    let mut a = Vec3::new(S, 0, -S);
    a.add_assign(Vec3::new(1, 2, 3));
    assert_eq!(a, Vec3::new(S + 1, 2, -S + 3));
    let mut b = Vec3::new(S, -2 * S, 4);
    b.mul_assign(32768);
    assert_eq!(b, Vec3::new(32768, -S, 2));
    let mut c = Vec3::new(S, -S, 10);
    c.div_assign(2 * S);
    assert_eq!(c, Vec3::new(32768, -32768, 5));
}

#[test]
fn index_accesses_components() {
    let a = Vec3::new(7, 8, 9);
    assert_eq!(a.index(0), 7);
    assert_eq!(a.index(1), 8);
    assert_eq!(a.index(2), 9);
}

#[test]
fn dot_and_length_sqr_exact() {
    let a = Vec3::new(3 * S, 4 * S, 0);
    let b = Vec3::new(S, S, S);
    // dot = 3 + 4 = 7 in world units.
    assert_eq!(a.dot(&b), 7 * S);
    // |a|^2 = 9 + 16 = 25.
    assert_eq!(a.length_sqr(), 25 * S);
    assert_eq!(a.length(), 5 * S);
}

#[test]
fn cross_of_axes_gives_third_axis() {
    let x = Vec3::new(S, 0, 0);
    let y = Vec3::new(0, S, 0);
    assert_eq!(x.cross(y), Vec3::new(0, 0, S));
    assert_eq!(y.cross(x), Vec3::new(0, 0, -S));
}

#[test]
fn unit_vector_exact_components() {
    let v = Vec3::new(3 * S, 4 * S, 0);
    let u = v.unit_vector();
    // 3/5 and 4/5, truncated toward zero.
    assert_eq!(u, Vec3::new(39321, 52428, 0));
}

#[test]
fn unit_vector_has_length_one_up_to_rounding() {
    // The proven normalization law, checked on concrete values: the
    // squared length of the normalized vector is within ten quanta of one.
    for v in [
        Vec3::new(3 * S, 4 * S, 0),
        Vec3::new(S, S, S),
        Vec3::new(-2 * S, 5 * S, 7 * S),
        Vec3::new(100 * S, -3, 17),
        Vec3::new(0, -S, 0),
    ] {
        let ls = v.unit_vector().length_sqr();
        assert!(S - 10 <= ls && ls <= S + 7, "length_sqr was {}", ls);
    }
}

#[test]
fn near_zero_detects_sub_resolution_vectors() {
    assert!(Vec3::new(0, 0, 0).near_zero());
    assert!(Vec3::new(255, -255, 100).near_zero());
    assert!(!Vec3::new(256, 0, 0).near_zero());
    assert!(!Vec3::new(0, 0, -S).near_zero());
}

#[test]
fn reflect_bounces_off_plane() {
    // Incoming straight down onto a z-up normal reflects straight up.
    let v = Vec3::new(0, 0, -S);
    let n = Vec3::new(0, 0, S);
    assert_eq!(Vec3::reflect(&v, &n), Vec3::new(0, 0, S));
    // A 45-degree incoming ray keeps its tangential part.
    let v2 = Vec3::new(S, 0, -S);
    assert_eq!(Vec3::reflect(&v2, &n), Vec3::new(S, 0, S));
    // A tangential ray is unchanged (grazing).
    let v3 = Vec3::new(S, 0, 0);
    assert_eq!(Vec3::reflect(&v3, &n), Vec3::new(S, 0, 0));
}

#[test]
fn random_vectors_respect_their_ranges() {
    for _ in 0..50 {
        let r = Vec3::newrandom();
        assert!(0 <= r.x && r.x < S);
        assert!(0 <= r.y && r.y < S);
        assert!(0 <= r.z && r.z < S);
        let rr = Vec3::newrandom_range(-S, S);
        assert!(-S <= rr.x && rr.x < S);
        assert!(-S <= rr.y && rr.y < S);
        assert!(-S <= rr.z && rr.z < S);
    }
}

#[test]
fn ball_samples_are_interior_and_nondegenerate() {
    for _ in 0..50 {
        let p = Vec3::random_in_unit_sphere();
        let ls = p.length_sqr();
        assert!(1 <= ls && ls < S);
    }
}

#[test]
fn unit_sphere_samples_have_unit_length() {
    for _ in 0..50 {
        let u = Vec3::rand_unit_vec();
        let ls = u.length_sqr();
        assert!(S - 10 <= ls && ls <= S + 7);
    }
}

#[test]
fn hemisphere_samples_point_along_normal() {
    let n = Vec3::new(0, 0, S);
    for _ in 0..50 {
        let h = Vec3::rand_in_hemisphere(&n);
        assert!(h.dot(&n) >= 0);
        let ls = h.length_sqr();
        assert!(1 <= ls && ls < S);
    }
}
