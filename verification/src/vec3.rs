//! Three-component fixed-point vectors: the algebra every other part of the
//! renderer is built on.  A `Vec3` serves interchangeably as point, direction
//! and colour.  Its mathematical value is a `V3`: the three components as
//! unbounded integers in fixed-point units.

use vstd::prelude::*;
use crate::fp::{
    fdiv, fmul, fsqrt, fits_i64, is_isqrt, isqrt, lemma_fdiv_mag, lemma_fmul_comm,
    lemma_fmul_mag, lemma_fmul_neg, lemma_fmul_sq_nonneg, div_fp, mul_fp, sdiv, sqrt_fp, SCALE,
};
use crate::rng::{sample_range, sample_unit};

verus! {

/// Coordinate magnitude the scene geometry may use (1024 world units).
pub const WORLD_BOUND: i64 = 67108864;

/// Largest component magnitude for which a dot product cannot overflow.
pub const DOT_BOUND: i64 = 274877906944;

/// Mathematical value of a vector: unbounded fixed-point components.
pub ghost struct V3 {
    pub x: int,
    pub y: int,
    pub z: int,
}

/// Every component's magnitude is at most `m`.
pub open spec fn boundedv(a: V3, m: int) -> bool {
    &&& -m <= a.x <= m
    &&& -m <= a.y <= m
    &&& -m <= a.z <= m
}

pub open spec fn addv(a: V3, b: V3) -> V3 {
    V3 { x: a.x + b.x, y: a.y + b.y, z: a.z + b.z }
}

pub open spec fn subv(a: V3, b: V3) -> V3 {
    V3 { x: a.x - b.x, y: a.y - b.y, z: a.z - b.z }
}

pub open spec fn negv(a: V3) -> V3 {
    V3 { x: -a.x, y: -a.y, z: -a.z }
}

/// Scalar multiple (fixed-point product on each component).
pub open spec fn scalev(a: V3, k: int) -> V3 {
    V3 { x: fmul(a.x, k), y: fmul(a.y, k), z: fmul(a.z, k) }
}

/// Scalar quotient (fixed-point quotient on each component).
pub open spec fn divkv(a: V3, k: int) -> V3 {
    V3 { x: fdiv(a.x, k), y: fdiv(a.y, k), z: fdiv(a.z, k) }
}

/// Element-wise product; colour tinting.
pub open spec fn emulv(a: V3, b: V3) -> V3 {
    V3 { x: fmul(a.x, b.x), y: fmul(a.y, b.y), z: fmul(a.z, b.z) }
}

pub open spec fn dotv(a: V3, b: V3) -> int {
    fmul(a.x, b.x) + fmul(a.y, b.y) + fmul(a.z, b.z)
}

pub open spec fn crossv(a: V3, b: V3) -> V3 {
    V3 {
        x: fmul(a.y, b.z) - fmul(a.z, b.y),
        y: fmul(a.z, b.x) - fmul(a.x, b.z),
        z: fmul(a.x, b.y) - fmul(a.y, b.x),
    }
}

pub open spec fn len_sqrv(a: V3) -> int {
    dotv(a, a)
}

pub open spec fn lenv(a: V3) -> int {
    fsqrt(len_sqrv(a))
}

pub open spec fn unitv(a: V3) -> V3 {
    divkv(a, lenv(a))
}

/// All components below 1/256 of a unit: too small for this resolution
/// (the square of anything smaller truncates to zero).
pub open spec fn near_zerov(a: V3) -> bool {
    boundedv(a, 255)
}

/// Specular reflection of `v` about `n`: v - n*2*dot(v,n), evaluated in
/// the same order as the executable code.
pub open spec fn reflectv(v: V3, n: V3) -> V3 {
    subv(v, scalev(scalev(n, 2 * (SCALE as int)), dotv(v, n)))
}

/// Negating the left argument negates a dot product.
pub proof fn lemma_dot_neg(a: V3, b: V3)
    ensures
        dotv(negv(a), b) == -dotv(a, b),
{
    lemma_fmul_neg(a.x, b.x);
    lemma_fmul_neg(a.y, b.y);
    lemma_fmul_neg(a.z, b.z);
}

/// Squared length is unchanged by negation.
pub proof fn lemma_len_sqr_neg(a: V3)
    ensures
        len_sqrv(negv(a)) == len_sqrv(a),
{
    lemma_fmul_neg(a.x, -a.x);
    lemma_fmul_neg(a.y, -a.y);
    lemma_fmul_neg(a.z, -a.z);
    lemma_fmul_comm(a.x, -a.x);
    lemma_fmul_comm(a.y, -a.y);
    lemma_fmul_comm(a.z, -a.z);
    lemma_fmul_neg(a.x, a.x);
    lemma_fmul_neg(a.y, a.y);
    lemma_fmul_neg(a.z, a.z);
}

/// A dot product distributes over vector addition in its left argument,
/// up to three quanta of rounding.
pub proof fn lemma_dot_add_left(a: V3, b: V3, c: V3)
    ensures
        dotv(a, c) + dotv(b, c) - 3 <= dotv(addv(a, b), c) <= dotv(a, c) + dotv(b, c) + 3,
{
    crate::fp::lemma_fmul_add_err(a.x, b.x, c.x);
    crate::fp::lemma_fmul_add_err(a.y, b.y, c.y);
    crate::fp::lemma_fmul_add_err(a.z, b.z, c.z);
}

/// A vector that is not near zero has a nonzero squared length.
pub proof fn lemma_not_near_zero_len(v: V3)
    requires
        !near_zerov(v),
    ensures
        len_sqrv(v) >= 1,
{
    lemma_fmul_sq_nonneg(v.x);
    lemma_fmul_sq_nonneg(v.y);
    lemma_fmul_sq_nonneg(v.z);
    assert(len_sqrv(v) >= 1) by (nonlinear_arith)
        requires
            !near_zerov(v),
            fmul(v.x, v.x) >= 0,
            fmul(v.y, v.y) >= 0,
            fmul(v.z, v.z) >= 0,
    ;
}

/// Magnitude bound on a dot product of bounded vectors.
pub proof fn lemma_dot_mag(a: V3, b: V3, ma: int, mb: int)
    requires
        boundedv(a, ma),
        boundedv(b, mb),
    ensures
        -(3 * ((ma * mb) / (SCALE as int))) <= dotv(a, b) <= 3 * ((ma * mb) / (SCALE as int)),
{
    lemma_fmul_mag(a.x, b.x, ma, mb);
    lemma_fmul_mag(a.y, b.y, ma, mb);
    lemma_fmul_mag(a.z, b.z, ma, mb);
}

/// For bounded vectors every intermediate of the dot product fits an `i64`.
pub proof fn lemma_dot_fits(a: V3, b: V3, ma: int, mb: int)
    requires
        boundedv(a, ma),
        boundedv(b, mb),
        3 * ((ma * mb) / (SCALE as int)) <= i64::MAX,
    ensures
        fits_i64(fmul(a.x, b.x)),
        fits_i64(fmul(a.y, b.y)),
        fits_i64(fmul(a.z, b.z)),
        fits_i64(fmul(a.x, b.x) + fmul(a.y, b.y)),
        fits_i64(dotv(a, b)),
        -(3 * ((ma * mb) / (SCALE as int))) <= dotv(a, b) <= 3 * ((ma * mb) / (SCALE as int)),
{
    lemma_fmul_mag(a.x, b.x, ma, mb);
    lemma_fmul_mag(a.y, b.y, ma, mb);
    lemma_fmul_mag(a.z, b.z, ma, mb);
}

/// A component whose square is below the scaled squared length is itself,
/// scaled, at most `s * (l + 2)` in magnitude.
proof fn lemma_scaled_comp_bound(a: int, m: int, l: int, s: int, nr: int)
    requires
        m == (if a >= 0 {
            a * s
        } else {
            -(a * s)
        }),
        a * a <= nr,
        nr < (l + 1) * (l + 1) + 3 * s,
        l >= s,
        s == 65536,
    ensures
        0 <= m <= s * (l + 2),
{
    assert(a * a < (l + 3) * (l + 3)) by (nonlinear_arith)
        requires
            a * a <= nr,
            nr < (l + 1) * (l + 1) + 3 * s,
            l >= s,
            s == 65536,
    ;
    assert(-(l + 2) <= a <= l + 2) by (nonlinear_arith)
        requires
            a * a < (l + 3) * (l + 3),
            l >= 0,
    ;
    assert(0 <= m <= s * (l + 2)) by (nonlinear_arith)
        requires
            m == (if a >= 0 {
                a * s
            } else {
                -(a * s)
            }),
            -(l + 2) <= a <= l + 2,
            s == 65536,
            l >= 0,
    ;
}

/// Normalization law: any vector of length at least one world unit
/// normalizes to a vector whose squared length is one, up to a handful of
/// quanta of rounding (at most 10/65536 below or 7/65536 above).
pub proof fn lemma_unit_vector_length(v: V3)
    requires
        len_sqrv(v) >= SCALE,
    ensures
        (SCALE as int) - 10 <= len_sqrv(unitv(v)) <= (SCALE as int) + 7,
{
    let s = SCALE as int;
    let q = len_sqrv(v);
    let n = q * s;
    crate::fp::lemma_isqrt_exists(n);
    let l = isqrt(n);
    assert(l >= s) by (nonlinear_arith)
        requires
            is_isqrt(n, l),
            n >= s * s,
            s == 65536,
    ;
    crate::fp::lemma_fmul_sq_exact(v.x);
    crate::fp::lemma_fmul_sq_exact(v.y);
    crate::fp::lemma_fmul_sq_exact(v.z);
    let rr = (v.x * v.x) % s + (v.y * v.y) % s + (v.z * v.z) % s;
    assert(v.x * v.x + v.y * v.y + v.z * v.z == n + rr);

    let ux = sdiv(v.x * s, l);
    let uy = sdiv(v.y * s, l);
    let uz = sdiv(v.z * s, l);
    assert(unitv(v) == (V3 { x: ux, y: uy, z: uz }));
    let mx = if v.x >= 0 { v.x * s } else { -(v.x * s) };
    let my = if v.y >= 0 { v.y * s } else { -(v.y * s) };
    let mz = if v.z >= 0 { v.z * s } else { -(v.z * s) };
    crate::fp::lemma_sdiv_sq_bounds(v.x, l, ux, mx);
    crate::fp::lemma_sdiv_sq_bounds(v.y, l, uy, my);
    crate::fp::lemma_sdiv_sq_bounds(v.z, l, uz, mz);
    assert(mx * mx == (v.x * v.x) * (s * s) && my * my == (v.y * v.y) * (s * s) && mz * mz == (
    v.z * v.z) * (s * s)) by (nonlinear_arith)
        requires
            mx == (if v.x >= 0 { v.x * s } else { -(v.x * s) }),
            my == (if v.y >= 0 { v.y * s } else { -(v.y * s) }),
            mz == (if v.z >= 0 { v.z * s } else { -(v.z * s) }),
    ;
    let usum = ux * ux + uy * uy + uz * uz;
    let msum2 = mx * mx + my * my + mz * mz;
    assert(msum2 == (s * s) * (n + rr)) by (nonlinear_arith)
        requires
            msum2 == mx * mx + my * my + mz * mz,
            mx * mx == (v.x * v.x) * (s * s),
            my * my == (v.y * v.y) * (s * s),
            mz * mz == (v.z * v.z) * (s * s),
            v.x * v.x + v.y * v.y + v.z * v.z == n + rr,
    ;

    // Upper bound: usum <= s^2 + 7s.
    assert(usum * (l * l) <= msum2) by (nonlinear_arith)
        requires
            usum == ux * ux + uy * uy + uz * uz,
            msum2 == mx * mx + my * my + mz * mz,
            ux * ux * (l * l) <= mx * mx,
            uy * uy * (l * l) <= my * my,
            uz * uz * (l * l) <= mz * mz,
    ;
    assert((s * s) * (n + rr) <= (s * s + 7 * s) * (l * l)) by (nonlinear_arith)
        requires
            n < (l + 1) * (l + 1),
            0 <= rr < 3 * s,
            l >= s,
            s == 65536,
    ;
    assert(usum <= s * s + 7 * s) by (nonlinear_arith)
        requires
            usum * (l * l) <= (s * s + 7 * s) * (l * l),
            l >= 1,
    ;

    // Lower bound: usum >= s^2 - 6s - 12.
    assert(v.x * v.x <= n + rr && v.y * v.y <= n + rr && v.z * v.z <= n + rr) by (nonlinear_arith)
        requires
            v.x * v.x + v.y * v.y + v.z * v.z == n + rr,
            v.x * v.x >= 0,
            v.y * v.y >= 0,
            v.z * v.z >= 0,
    ;
    lemma_scaled_comp_bound(v.x, mx, l, s, n + rr);
    lemma_scaled_comp_bound(v.y, my, l, s, n + rr);
    lemma_scaled_comp_bound(v.z, mz, l, s, n + rr);
    assert(usum * (l * l) >= msum2 - (2 * mx * l + 2 * my * l + 2 * mz * l)) by (nonlinear_arith)
        requires
            usum == ux * ux + uy * uy + uz * uz,
            msum2 == mx * mx + my * my + mz * mz,
            mx * mx - 2 * mx * l <= ux * ux * (l * l),
            my * my - 2 * my * l <= uy * uy * (l * l),
            mz * mz - 2 * mz * l <= uz * uz * (l * l),
    ;
    assert(2 * mx * l + 2 * my * l + 2 * mz * l <= 6 * s * (l + 2) * l) by (nonlinear_arith)
        requires
            mx <= s * (l + 2),
            my <= s * (l + 2),
            mz <= s * (l + 2),
            l > 0,
    ;
    assert((s * s) * (n + rr) >= (s * s) * (l * l)) by (nonlinear_arith)
        requires
            n >= l * l,
            rr >= 0,
            s == 65536,
    ;
    assert(usum * (l * l) >= (s * s) * (l * l) - 6 * s * (l + 2) * l);
    assert((s * s) * (l * l) - 6 * s * (l + 2) * l >= (s * s - 6 * s - 12) * (l * l))
        by (nonlinear_arith)
        requires
            l >= s,
            s == 65536,
    ;
    assert(usum >= s * s - 6 * s - 12) by (nonlinear_arith)
        requires
            usum * (l * l) >= (s * s - 6 * s - 12) * (l * l),
            l >= 1,
    ;

    // From component squares to the fixed-point squared length.
    crate::fp::lemma_fmul_sq_exact(ux);
    crate::fp::lemma_fmul_sq_exact(uy);
    crate::fp::lemma_fmul_sq_exact(uz);
    assert(s * len_sqrv(unitv(v)) == usum - ((ux * ux) % s + (uy * uy) % s + (uz * uz) % s));
}

#[derive(Debug, Copy, Clone, PartialEq, Eq, Structural)]
pub struct Vec3 {
    pub x: i64,
    pub y: i64,
    pub z: i64,
}

impl View for Vec3 {
    type V = V3;

    open spec fn view(&self) -> V3 {
        V3 { x: self.x as int, y: self.y as int, z: self.z as int }
    }
}

pub fn zeros() -> (r: Vec3)
    ensures
        r@ == (V3 { x: 0, y: 0, z: 0 }),
{
    Vec3::new(0, 0, 0)
}

pub fn ones() -> (r: Vec3)
    ensures
        r@ == (V3 { x: SCALE as int, y: SCALE as int, z: SCALE as int }),
{
    Vec3::new(SCALE, SCALE, SCALE)
}

impl Vec3 {
    pub fn new(a: i64, b: i64, c: i64) -> (r: Self)
        ensures
            r@ == (V3 { x: a as int, y: b as int, z: c as int }),
    {
        Self { x: a, y: b, z: c }
    }

    pub fn index(&self, index: u32) -> (r: i64)
        requires
            index < 3,
        ensures
            index == 0 ==> r == self.x,
            index == 1 ==> r == self.y,
            index == 2 ==> r == self.z,
    {
        if index == 0 {
            self.x
        } else if index == 1 {
            self.y
        } else {
            self.z
        }
    }

    pub fn neg(self) -> (r: Self)
        requires
            self.x > i64::MIN,
            self.y > i64::MIN,
            self.z > i64::MIN,
        ensures
            r@ == negv(self@),
    {
        Vec3 { x: -self.x, y: -self.y, z: -self.z }
    }

    pub fn add(self, other: Self) -> (r: Self)
        requires
            fits_i64(self@.x + other@.x),
            fits_i64(self@.y + other@.y),
            fits_i64(self@.z + other@.z),
        ensures
            r@ == addv(self@, other@),
    {
        Self { x: self.x + other.x, y: self.y + other.y, z: self.z + other.z }
    }

    pub fn sub(self, other: Self) -> (r: Self)
        requires
            fits_i64(self@.x - other@.x),
            fits_i64(self@.y - other@.y),
            fits_i64(self@.z - other@.z),
        ensures
            r@ == subv(self@, other@),
    {
        Self { x: self.x - other.x, y: self.y - other.y, z: self.z - other.z }
    }

    /// Element-wise product, as the original's vector-by-vector multiply.
    pub fn mul(self, other: Self) -> (r: Self)
        requires
            fits_i64(fmul(self@.x, other@.x)),
            fits_i64(fmul(self@.y, other@.y)),
            fits_i64(fmul(self@.z, other@.z)),
        ensures
            r@ == emulv(self@, other@),
    {
        Self {
            x: mul_fp(self.x, other.x),
            y: mul_fp(self.y, other.y),
            z: mul_fp(self.z, other.z),
        }
    }

    /// Scalar multiply, as the original's vector-by-real multiply.
    pub fn scale(self, k: i64) -> (r: Self)
        requires
            fits_i64(fmul(self@.x, k as int)),
            fits_i64(fmul(self@.y, k as int)),
            fits_i64(fmul(self@.z, k as int)),
        ensures
            r@ == scalev(self@, k as int),
    {
        Self { x: mul_fp(self.x, k), y: mul_fp(self.y, k), z: mul_fp(self.z, k) }
    }

    /// Scalar divide, as the original's vector-by-real divide.
    pub fn div_s(self, k: i64) -> (r: Self)
        requires
            k > 0,
            fits_i64(fdiv(self@.x, k as int)),
            fits_i64(fdiv(self@.y, k as int)),
            fits_i64(fdiv(self@.z, k as int)),
        ensures
            r@ == divkv(self@, k as int),
    {
        Self { x: div_fp(self.x, k), y: div_fp(self.y, k), z: div_fp(self.z, k) }
    }

    pub fn add_assign(&mut self, rhs: Self)
        requires
            fits_i64(old(self)@.x + rhs@.x),
            fits_i64(old(self)@.y + rhs@.y),
            fits_i64(old(self)@.z + rhs@.z),
        ensures
            final(self)@ == addv(old(self)@, rhs@),
    {
        self.x = self.x + rhs.x;
        self.y = self.y + rhs.y;
        self.z = self.z + rhs.z;
    }

    pub fn mul_assign(&mut self, rhs: i64)
        requires
            fits_i64(fmul(old(self)@.x, rhs as int)),
            fits_i64(fmul(old(self)@.y, rhs as int)),
            fits_i64(fmul(old(self)@.z, rhs as int)),
        ensures
            final(self)@ == scalev(old(self)@, rhs as int),
    {
        self.x = mul_fp(self.x, rhs);
        self.y = mul_fp(self.y, rhs);
        self.z = mul_fp(self.z, rhs);
    }

    pub fn div_assign(&mut self, rhs: i64)
        requires
            rhs > 0,
            fits_i64(fdiv(old(self)@.x, rhs as int)),
            fits_i64(fdiv(old(self)@.y, rhs as int)),
            fits_i64(fdiv(old(self)@.z, rhs as int)),
        ensures
            final(self)@ == divkv(old(self)@, rhs as int),
    {
        self.x = div_fp(self.x, rhs);
        self.y = div_fp(self.y, rhs);
        self.z = div_fp(self.z, rhs);
    }

    pub fn dot(self, other: &Vec3) -> (r: i64)
        requires
            fits_i64(fmul(self@.x, other@.x)),
            fits_i64(fmul(self@.y, other@.y)),
            fits_i64(fmul(self@.z, other@.z)),
            fits_i64(fmul(self@.x, other@.x) + fmul(self@.y, other@.y)),
            fits_i64(dotv(self@, other@)),
        ensures
            r as int == dotv(self@, other@),
    {
        mul_fp(self.x, other.x) + mul_fp(self.y, other.y) + mul_fp(self.z, other.z)
    }

    pub fn cross(self, other: Vec3) -> (r: Self)
        requires
            boundedv(self@, DOT_BOUND as int),
            boundedv(other@, DOT_BOUND as int),
        ensures
            r@ == crossv(self@, other@),
    {
        proof {
            lemma_fmul_mag(self@.x, other@.x, DOT_BOUND as int, DOT_BOUND as int);
            lemma_fmul_mag(self@.x, other@.y, DOT_BOUND as int, DOT_BOUND as int);
            lemma_fmul_mag(self@.x, other@.z, DOT_BOUND as int, DOT_BOUND as int);
            lemma_fmul_mag(self@.y, other@.x, DOT_BOUND as int, DOT_BOUND as int);
            lemma_fmul_mag(self@.y, other@.z, DOT_BOUND as int, DOT_BOUND as int);
            lemma_fmul_mag(self@.z, other@.x, DOT_BOUND as int, DOT_BOUND as int);
            lemma_fmul_mag(self@.z, other@.y, DOT_BOUND as int, DOT_BOUND as int);
        }
        Self::new(
            mul_fp(self.y, other.z) - mul_fp(self.z, other.y),
            mul_fp(self.z, other.x) - mul_fp(self.x, other.z),
            mul_fp(self.x, other.y) - mul_fp(self.y, other.x),
        )
    }

    pub fn length_sqr(self) -> (r: i64)
        requires
            boundedv(self@, DOT_BOUND as int),
        ensures
            r as int == len_sqrv(self@),
            r >= 0,
    {
        proof {
            lemma_fmul_sq_nonneg(self@.x);
            lemma_fmul_sq_nonneg(self@.y);
            lemma_fmul_sq_nonneg(self@.z);
            lemma_dot_fits(self@, self@, DOT_BOUND as int, DOT_BOUND as int);
        }
        self.dot(&self)
    }

    pub fn length(self) -> (r: i64)
        requires
            boundedv(self@, DOT_BOUND as int),
        ensures
            r as int == lenv(self@),
            r >= 0,
    {
        sqrt_fp(self.length_sqr())
    }

    pub fn unit_vector(self) -> (r: Self)
        requires
            boundedv(self@, DOT_BOUND as int),
            len_sqrv(self@) >= 1,
        ensures
            r@ == unitv(self@),
            lenv(self@) >= 256,
    {
        let ls = self.length_sqr();
        let l = sqrt_fp(ls);
        proof {
            assert(l as int >= 256) by (nonlinear_arith)
                requires
                    is_isqrt((ls as int) * 65536, l as int),
                    ls as int >= 1,
            ;
            lemma_fdiv_mag(self@.x, l as int, DOT_BOUND as int, 256);
            lemma_fdiv_mag(self@.y, l as int, DOT_BOUND as int, 256);
            lemma_fdiv_mag(self@.z, l as int, DOT_BOUND as int, 256);
        }
        Self::new(div_fp(self.x, l), div_fp(self.y, l), div_fp(self.z, l))
    }

    /// Components all below the resolution threshold (1/256 of a unit);
    /// when false, the squared length is at least one quantum.
    pub fn near_zero(&self) -> (r: bool)
        ensures
            r == near_zerov(self@),
            !r ==> len_sqrv(self@) >= 1,
    {
        let r = -255 <= self.x && self.x <= 255 && -255 <= self.y && self.y <= 255 && -255
            <= self.z && self.z <= 255;
        proof {
            lemma_fmul_sq_nonneg(self@.x);
            lemma_fmul_sq_nonneg(self@.y);
            lemma_fmul_sq_nonneg(self@.z);
            if !r {
                assert(len_sqrv(self@) >= 1) by (nonlinear_arith)
                    requires
                        !near_zerov(self@),
                        fmul(self@.x, self@.x) >= 0,
                        fmul(self@.y, self@.y) >= 0,
                        fmul(self@.z, self@.z) >= 0,
                ;
            }
        }
        r
    }

    /// Specular reflection of `v` about the unit-scale normal `n`.
    pub fn reflect(v: &Self, n: &Self) -> (r: Self)
        requires
            boundedv(v@, 34359738368),
            boundedv(n@, 262144),
        ensures
            r@ == reflectv(v@, n@),
            boundedv(r@, 8796093022208),
    {
        proof {
            lemma_dot_fits(v@, n@, 34359738368, 262144);
        }
        let d = v.dot(n);
        proof {
            lemma_fmul_mag(n@.x, 131072, 262144, 131072);
            lemma_fmul_mag(n@.y, 131072, 262144, 131072);
            lemma_fmul_mag(n@.z, 131072, 262144, 131072);
        }
        let n2 = n.scale(2 * SCALE);
        proof {
            lemma_fmul_mag(n2@.x, d as int, 524288, 412316860416);
            lemma_fmul_mag(n2@.y, d as int, 524288, 412316860416);
            lemma_fmul_mag(n2@.z, d as int, 524288, 412316860416);
        }
        let n2d = n2.scale(d);
        v.sub(n2d)
    }

    /// A vector with uniform components in [0, 1).
    pub fn newrandom() -> (r: Self)
        ensures
            0 <= r@.x < SCALE,
            0 <= r@.y < SCALE,
            0 <= r@.z < SCALE,
    {
        Vec3::new(sample_unit(), sample_unit(), sample_unit())
    }

    /// A vector with uniform components in [min, max).
    pub fn newrandom_range(min: i64, max: i64) -> (r: Self)
        requires
            min < max,
            max - min <= i64::MAX,
        ensures
            min <= r@.x < max,
            min <= r@.y < max,
            min <= r@.z < max,
    {
        Vec3 { x: sample_range(min, max), y: sample_range(min, max), z: sample_range(min, max) }
    }

    /// Rejection-sample a point interior to the unit ball.  The loop repeats
    /// the draw until it lands strictly inside the ball and above the
    /// resolution threshold; a deterministic interior fallback bounds the
    /// iteration count so that termination is provable, and is reached only
    /// after an astronomically improbable run of rejections.
    pub fn random_in_unit_sphere() -> (r: Self)
        ensures
            boundedv(r@, SCALE as int),
            1 <= len_sqrv(r@) < SCALE,
    {
        let mut fuel: u64 = 4294967296;
        while fuel > 0
            decreases fuel,
        {
            let p = Vec3::newrandom_range(-SCALE, SCALE);
            let ls = p.length_sqr();
            if 1 <= ls && ls < SCALE {
                return p;
            }
            fuel = fuel - 1;
        }
        let f = Vec3::new(0, 32768, 0);
        proof {
            assert(fmul(0, 0) == 0);
            assert(fmul(32768, 32768) == 16384);
        }
        f
    }

    /// A point on the unit sphere: a ball sample, normalized.  The sample
    /// is first rescaled by 256, which is exact in fixed point and leaves
    /// the direction unchanged: the quotient in the normalization loses
    /// precision on vectors shorter than one unit, and every ball sample
    /// is shorter than one unit.
    pub fn rand_unit_vec() -> (r: Self)
        ensures
            exists|p: V3|
                boundedv(p, SCALE as int) && 1 <= len_sqrv(p) < SCALE && r@ == unitv(
                    scalev(p, 16777216),
                ),
            boundedv(r@, 65540),
            (SCALE as int) - 10 <= len_sqrv(r@) <= (SCALE as int) + 7,
    {
        let p = Vec3::random_in_unit_sphere();
        proof {
            crate::fp::lemma_fmul_by_whole(p@.x, 256);
            crate::fp::lemma_fmul_by_whole(p@.y, 256);
            crate::fp::lemma_fmul_by_whole(p@.z, 256);
        }
        let q = p.scale(256 * SCALE);
        proof {
            crate::fp::lemma_fmul_sq_scaled(p@.x);
            crate::fp::lemma_fmul_sq_scaled(p@.y);
            crate::fp::lemma_fmul_sq_scaled(p@.z);
            crate::fp::lemma_fmul_sq_exact(p@.x);
            crate::fp::lemma_fmul_sq_exact(p@.y);
            crate::fp::lemma_fmul_sq_exact(p@.z);
            assert(len_sqrv(q@) == p@.x * p@.x + p@.y * p@.y + p@.z * p@.z);
            assert(len_sqrv(q@) >= SCALE);
        }
        let r = q.unit_vector();
        proof {
            lemma_unit_vector_length(q@);
            crate::fp::lemma_fmul_sq_exact(r@.x);
            crate::fp::lemma_fmul_sq_exact(r@.y);
            crate::fp::lemma_fmul_sq_exact(r@.z);
            assert(-65540 <= r@.x <= 65540 && -65540 <= r@.y <= 65540 && -65540 <= r@.z
                <= 65540) by (nonlinear_arith)
                requires
                    fmul(r@.x, r@.x) + fmul(r@.y, r@.y) + fmul(r@.z, r@.z) <= 65543,
                    fmul(r@.x, r@.x) >= 0,
                    fmul(r@.y, r@.y) >= 0,
                    fmul(r@.z, r@.z) >= 0,
                    r@.x * r@.x == 65536 * fmul(r@.x, r@.x) + (r@.x * r@.x) % 65536,
                    r@.y * r@.y == 65536 * fmul(r@.y, r@.y) + (r@.y * r@.y) % 65536,
                    r@.z * r@.z == 65536 * fmul(r@.z, r@.z) + (r@.z * r@.z) % 65536,
                    0 <= (r@.x * r@.x) % 65536 < 65536,
                    0 <= (r@.y * r@.y) % 65536 < 65536,
                    0 <= (r@.z * r@.z) % 65536 < 65536,
            ;
            assert(boundedv(p@, SCALE as int) && 1 <= len_sqrv(p@) < SCALE && r@ == unitv(
                scalev(p@, 16777216),
            ));
        }
        r
    }

    /// A ball sample folded into the hemisphere around `normal`.
    pub fn rand_in_hemisphere(normal: &Vec3) -> (r: Self)
        requires
            boundedv(normal@, DOT_BOUND as int),
        ensures
            boundedv(r@, SCALE as int),
            1 <= len_sqrv(r@) < SCALE,
            dotv(r@, normal@) >= 0,
    {
        let inusphere = Vec3::random_in_unit_sphere();
        proof {
            lemma_dot_fits(inusphere@, normal@, SCALE as int, DOT_BOUND as int);
        }
        let d = inusphere.dot(normal);
        if d > 0 {
            inusphere
        } else {
            proof {
                lemma_dot_neg(inusphere@, normal@);
                lemma_len_sqr_neg(inusphere@);
            }
            inusphere.neg()
        }
    }
}

} // verus!
