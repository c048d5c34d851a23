//! Fixed-point arithmetic kernel.
//!
//! Every real quantity of the renderer (coordinate, colour channel, ray
//! parameter) is carried as an `i64` holding the real value scaled by
//! `SCALE`.  The kernel supplies the scaled product, quotient and square
//! root together with exact integer contracts, plus the magnitude lemmas
//! the geometric code needs to rule out overflow.

use vstd::prelude::*;
use vstd::arithmetic::div_mod::{
    lemma_div_is_ordered, lemma_div_is_ordered_by_denominator, lemma_div_pos_is_pos,
};

verus! {

/// Fixed-point units per world unit: all real values are scaled by 2^16.
pub const SCALE: i64 = 65536;

/// Truncating (round-toward-zero) division; the rounding used by the whole
/// fixed-point kernel.  Agrees with Euclidean `/` on a nonnegative dividend.
pub open spec fn sdiv(n: int, d: int) -> int {
    if n >= 0 {
        n / d
    } else {
        -((-n) / d)
    }
}

/// Fixed-point product of `a` and `b`: their real product, rounded toward zero.
pub open spec fn fmul(a: int, b: int) -> int {
    sdiv(a * b, SCALE as int)
}

/// Fixed-point quotient of `a` by `b`: their real quotient, rounded toward zero.
pub open spec fn fdiv(a: int, b: int) -> int {
    sdiv(a * (SCALE as int), b)
}

/// `n` is representable as an `i64`.
pub open spec fn fits_i64(n: int) -> bool {
    i64::MIN <= n <= i64::MAX
}

/// `r` is the integer square root of `n`.
pub open spec fn is_isqrt(n: int, r: int) -> bool {
    0 <= r && r * r <= n && n < (r + 1) * (r + 1)
}

/// The integer square root of `n` (meaningful for `n >= 0`).
pub open spec fn isqrt(n: int) -> int {
    choose|r: int| is_isqrt(n, r)
}

/// Fixed-point square root of `a`: sqrt(a/S) scaled back by S is sqrt(a*S).
pub open spec fn fsqrt(a: int) -> int {
    isqrt(a * (SCALE as int))
}

/// The integer square root is unique.
pub proof fn lemma_isqrt_unique(n: int, r: int, s: int)
    by (nonlinear_arith)
    requires
        is_isqrt(n, r),
        is_isqrt(n, s),
    ensures
        r == s,
{
}

/// Any witness of `is_isqrt` is the value `isqrt` denotes.
pub proof fn lemma_isqrt_witness(n: int, r: int)
    requires
        is_isqrt(n, r),
    ensures
        isqrt(n) == r,
{
    assert(is_isqrt(n, isqrt(n))) by {
        assert(exists|q: int| is_isqrt(n, q));
    }
    lemma_isqrt_unique(n, isqrt(n), r);
}

/// A truncating quotient is no larger in magnitude than `m / dmin` when the
/// dividend is bounded by `m` and the divisor is at least `dmin`.
pub proof fn lemma_sdiv_mag(n: int, d: int, m: int, dmin: int)
    requires
        -m <= n <= m,
        0 < dmin <= d,
    ensures
        -(m / dmin) <= sdiv(n, d) <= m / dmin,
{
    if n >= 0 {
        lemma_div_pos_is_pos(n, d);
        lemma_div_is_ordered_by_denominator(n, dmin, d);
        lemma_div_is_ordered(n, m, dmin);
        lemma_div_pos_is_pos(m, dmin);
    } else {
        lemma_div_pos_is_pos(-n, d);
        lemma_div_is_ordered_by_denominator(-n, dmin, d);
        lemma_div_is_ordered(-n, m, dmin);
        lemma_div_pos_is_pos(m, dmin);
    }
}

/// Magnitude bound for the fixed-point product.
pub proof fn lemma_fmul_mag(a: int, b: int, ma: int, mb: int)
    requires
        -ma <= a <= ma,
        -mb <= b <= mb,
    ensures
        -((ma * mb) / (SCALE as int)) <= fmul(a, b) <= (ma * mb) / (SCALE as int),
{
    assert(-(ma * mb) <= a * b <= ma * mb) by (nonlinear_arith)
        requires
            -ma <= a <= ma,
            -mb <= b <= mb,
    ;
    lemma_sdiv_mag(a * b, SCALE as int, ma * mb, SCALE as int);
}

/// Magnitude bound for the fixed-point quotient.
pub proof fn lemma_fdiv_mag(a: int, b: int, ma: int, bmin: int)
    requires
        -ma <= a <= ma,
        0 < bmin <= b,
        0 <= ma,
    ensures
        -((ma * (SCALE as int)) / bmin) <= fdiv(a, b) <= (ma * (SCALE as int)) / bmin,
{
    assert(-(ma * (SCALE as int)) <= a * (SCALE as int) <= ma * (SCALE as int))
        by (nonlinear_arith)
        requires
            -ma <= a <= ma,
    ;
    lemma_sdiv_mag(a * (SCALE as int), b, ma * (SCALE as int), bmin);
}

/// Truncating division is odd in the dividend.
pub proof fn lemma_sdiv_neg(n: int, d: int)
    requires
        d > 0,
    ensures
        sdiv(-n, d) == -sdiv(n, d),
{
    if n > 0 {
        assert(sdiv(-n, d) == -(n / d));
    } else if n < 0 {
        assert(sdiv(-n, d) == (-n) / d);
    }
}

/// Negating one factor negates the fixed-point product.
pub proof fn lemma_fmul_neg(a: int, b: int)
    ensures
        fmul(-a, b) == -fmul(a, b),
{
    assert((-a) * b == -(a * b)) by (nonlinear_arith);
    lemma_sdiv_neg(a * b, SCALE as int);
}

/// Truncating division is monotone in the dividend.
pub proof fn lemma_sdiv_ordered(n1: int, n2: int, d: int)
    requires
        d > 0,
        n1 <= n2,
    ensures
        sdiv(n1, d) <= sdiv(n2, d),
{
    if n1 >= 0 {
        lemma_div_is_ordered(n1, n2, d);
    } else if n2 < 0 {
        lemma_div_is_ordered(-n2, -n1, d);
    } else {
        lemma_div_pos_is_pos(-n1, d);
        lemma_div_pos_is_pos(n2, d);
    }
}

/// The fixed-point quotient is monotone in the dividend.
pub proof fn lemma_fdiv_ordered(a1: int, a2: int, b: int)
    requires
        b > 0,
        a1 <= a2,
    ensures
        fdiv(a1, b) <= fdiv(a2, b),
{
    lemma_sdiv_ordered(a1 * (SCALE as int), a2 * (SCALE as int), b);
}

/// The fixed-point product commutes.
pub proof fn lemma_fmul_comm(a: int, b: int)
    ensures
        fmul(a, b) == fmul(b, a),
{
    assert(a * b == b * a) by (nonlinear_arith);
}

/// A fixed-point square is nonnegative.
pub proof fn lemma_fmul_sq_nonneg(a: int)
    ensures
        fmul(a, a) >= 0,
{
    assert(a * a >= 0) by (nonlinear_arith);
    lemma_div_pos_is_pos(a * a, SCALE as int);
}

/// Every nonnegative integer has an integer square root.
pub proof fn lemma_isqrt_exists(n: int)
    requires
        n >= 0,
    ensures
        is_isqrt(n, isqrt(n)),
    decreases n,
{
    if n == 0 {
        assert(is_isqrt(0, 0));
        lemma_isqrt_witness(0, 0);
    } else {
        lemma_isqrt_exists(n - 1);
        let r = isqrt(n - 1);
        if (r + 1) * (r + 1) <= n {
            assert(is_isqrt(n, r + 1)) by (nonlinear_arith)
                requires
                    is_isqrt(n - 1, r),
                    (r + 1) * (r + 1) <= n,
            ;
            lemma_isqrt_witness(n, r + 1);
        } else {
            assert(is_isqrt(n, r));
            lemma_isqrt_witness(n, r);
        }
    }
}

/// Dividing an exact multiple of the scale by the scale is exact.
pub proof fn lemma_sdiv_multiple(m: int)
    ensures
        sdiv(m * (SCALE as int), SCALE as int) == m,
{
    let s = SCALE as int;
    if m >= 0 {
        assert(m * s >= 0 && m * s == s * m) by (nonlinear_arith)
            requires
                m >= 0,
                s == 65536,
        ;
        vstd::arithmetic::div_mod::lemma_div_multiples_vanish(m, s);
    } else {
        assert(m * s < 0 && -(m * s) == s * (-m)) by (nonlinear_arith)
            requires
                m < 0,
                s == 65536,
        ;
        vstd::arithmetic::div_mod::lemma_div_multiples_vanish(-m, s);
    }
}

/// A fixed-point product with a whole multiple of the scale is exact.
pub proof fn lemma_fmul_by_whole(a: int, k: int)
    ensures
        fmul(a, k * (SCALE as int)) == a * k,
{
    assert(a * (k * (SCALE as int)) == (a * k) * (SCALE as int)) by (nonlinear_arith);
    lemma_sdiv_multiple(a * k);
}

/// The fixed-point square of a vector scaled by 256 is the exact square of
/// the unscaled value.
pub proof fn lemma_fmul_sq_scaled(a: int)
    ensures
        fmul(256 * a, 256 * a) == a * a,
{
    assert((256 * a) * (256 * a) == (a * a) * (SCALE as int)) by (nonlinear_arith);
    lemma_sdiv_multiple(a * a);
}

/// The truncated remainder of division by the scale: strictly within one
/// scale of zero, carrying the dividend's sign.
pub proof fn lemma_sdiv_rem(x: int)
    ensures
        -(SCALE as int) < x - (SCALE as int) * sdiv(x, SCALE as int) < SCALE,
        x >= 0 ==> x - (SCALE as int) * sdiv(x, SCALE as int) >= 0,
        x < 0 ==> x - (SCALE as int) * sdiv(x, SCALE as int) <= 0,
{
    let s = SCALE as int;
    if x >= 0 {
        vstd::arithmetic::div_mod::lemma_fundamental_div_mod(x, s);
        vstd::arithmetic::div_mod::lemma_mod_bound(x, s);
    } else {
        vstd::arithmetic::div_mod::lemma_fundamental_div_mod(-x, s);
        vstd::arithmetic::div_mod::lemma_mod_bound(-x, s);
    }
}

/// The truncating quotient of a sum is within one of the sum of the
/// truncating quotients.
pub proof fn lemma_sdiv_add_err(x: int, y: int)
    ensures
        sdiv(x, SCALE as int) + sdiv(y, SCALE as int) - 1 <= sdiv(x + y, SCALE as int) <= sdiv(
            x,
            SCALE as int,
        ) + sdiv(y, SCALE as int) + 1,
{
    let s = SCALE as int;
    let qx = sdiv(x, s);
    let qy = sdiv(y, s);
    lemma_sdiv_rem(x);
    lemma_sdiv_rem(y);
    let rx = x - s * qx;
    let ry = y - s * qy;
    let t = x + y;
    let rr = rx + ry;
    if t >= 0 {
        if rr >= s {
            vstd::arithmetic::div_mod::lemma_fundamental_div_mod_converse_div(
                t,
                s,
                qx + qy + 1,
                rr - s,
            );
        } else if rr >= 0 {
            vstd::arithmetic::div_mod::lemma_fundamental_div_mod_converse_div(t, s, qx + qy, rr);
        } else if rr > -s {
            vstd::arithmetic::div_mod::lemma_fundamental_div_mod_converse_div(
                t,
                s,
                qx + qy - 1,
                rr + s,
            );
        } else {
            assert(rx < 0 && ry < 0);
            assert(x < 0 && y < 0);
            assert(false);
        }
    } else {
        if rr <= -s {
            vstd::arithmetic::div_mod::lemma_fundamental_div_mod_converse_div(
                -t,
                s,
                -(qx + qy) + 1,
                -rr - s,
            );
        } else if rr <= 0 {
            vstd::arithmetic::div_mod::lemma_fundamental_div_mod_converse_div(
                -t,
                s,
                -(qx + qy),
                -rr,
            );
        } else if rr < s {
            vstd::arithmetic::div_mod::lemma_fundamental_div_mod_converse_div(
                -t,
                s,
                -(qx + qy) - 1,
                s - rr,
            );
        } else {
            assert(rx > 0 && ry > 0);
            assert(x > 0 && y > 0);
            assert(false);
        }
    }
}

/// The fixed-point product distributes over addition in its first factor,
/// up to one quantum of rounding.
pub proof fn lemma_fmul_add_err(a: int, b: int, c: int)
    ensures
        fmul(a, c) + fmul(b, c) - 1 <= fmul(a + b, c) <= fmul(a, c) + fmul(b, c) + 1,
{
    assert((a + b) * c == a * c + b * c) by (nonlinear_arith);
    lemma_sdiv_add_err(a * c, b * c);
}

/// A fixed-point product with a factor in [0, 1] shrinks the other
/// (nonnegative) factor toward zero.
pub proof fn lemma_fmul_unit_range(a: int, b: int)
    requires
        0 <= a <= SCALE,
        0 <= b,
    ensures
        0 <= fmul(a, b) <= b,
{
    assert(0 <= a * b <= 65536 * b) by (nonlinear_arith)
        requires
            0 <= a <= 65536,
            0 <= b,
    ;
    lemma_div_pos_is_pos(a * b, SCALE as int);
    lemma_sdiv_ordered(a * b, 65536 * b, SCALE as int);
    assert(65536 * b == b * (SCALE as int));
    lemma_sdiv_multiple(b);
}

/// Exact division-with-remainder form of a fixed-point square.
pub proof fn lemma_fmul_sq_exact(a: int)
    ensures
        a * a >= 0,
        a * a == (SCALE as int) * fmul(a, a) + (a * a) % (SCALE as int),
        0 <= (a * a) % (SCALE as int) < SCALE,
        fmul(a, a) == (a * a) / (SCALE as int),
{
    assert(a * a >= 0) by (nonlinear_arith);
    vstd::arithmetic::div_mod::lemma_fundamental_div_mod(a * a, SCALE as int);
    vstd::arithmetic::div_mod::lemma_mod_bound(a * a, SCALE as int);
}

/// Squared truncating quotient, bounded on both sides by the dividend.
/// With `u = sdiv(a * SCALE, L)` and `m = |a * SCALE|`:
/// `m^2 - 2mL <= (uL)^2 <= m^2`.
pub proof fn lemma_sdiv_sq_bounds(a: int, l: int, u: int, m: int)
    requires
        l > 0,
        u == sdiv(a * (SCALE as int), l),
        m == (if a >= 0 {
            a * (SCALE as int)
        } else {
            -(a * (SCALE as int))
        }),
    ensures
        0 <= m,
        u * u * (l * l) <= m * m,
        m * m - 2 * m * l <= u * u * (l * l),
        u * u == m / l * (m / l),
{
    assert(0 <= m) by (nonlinear_arith)
        requires
            m == (if a >= 0 {
                a * (SCALE as int)
            } else {
                -(a * (SCALE as int))
            }),
    ;
    let x = m / l;
    let r = m % l;
    vstd::arithmetic::div_mod::lemma_fundamental_div_mod(m, l);
    vstd::arithmetic::div_mod::lemma_mod_bound(m, l);
    if a >= 0 {
        assert(u == m / l);
    } else {
        assert(sdiv(a * (SCALE as int), l) == -(m / l)) by {
            assert(-(a * (SCALE as int)) == m);
        }
    }
    assert(u * u == x * x) by (nonlinear_arith)
        requires
            u == x || u == -x,
    ;
    assert(x * x * (l * l) <= m * m && m * m - 2 * m * l <= x * x * (l * l)) by (nonlinear_arith)
        requires
            m == l * x + r,
            0 <= r < l,
            0 <= m,
            0 < l,
    ;
}

/// Unsigned division on nonnegative operands, stated over `int` division.
fn udiv128(n: u128, d: u128) -> (q: u128)
    requires
        d > 0,
    ensures
        q == n as int / d as int,
{
    n / d
}

/// Truncating division of a (possibly negative) `i128` by a positive one.
pub(crate) fn sdiv128(n: i128, d: i128) -> (q: i128)
    requires
        0 < d,
        n > i128::MIN,
    ensures
        q as int == sdiv(n as int, d as int),
{
    if n >= 0 {
        let qu = udiv128(n as u128, d as u128);
        proof {
            lemma_div_pos_is_pos(n as int, d as int);
            lemma_div_is_ordered_by_denominator(n as int, 1, d as int);
        }
        qu as i128
    } else {
        let m = -n;
        let qu = udiv128(m as u128, d as u128);
        proof {
            lemma_div_pos_is_pos(m as int, d as int);
            lemma_div_is_ordered_by_denominator(m as int, 1, d as int);
        }
        -(qu as i128)
    }
}

/// Fixed-point multiply.  The product of two `i64` always fits in `i128`;
/// the caller guarantees only that the scaled result fits back in `i64`.
pub fn mul_fp(a: i64, b: i64) -> (r: i64)
    requires
        i64::MIN <= fmul(a as int, b as int) <= i64::MAX,
    ensures
        r as int == fmul(a as int, b as int),
{
    proof {
        assert((a as int) * (b as int) < 0x8000_0000_0000_0000_0000_0000_0000_0000int
            && (a as int) * (b as int) > -0x8000_0000_0000_0000_0000_0000_0000_0000int)
            by (nonlinear_arith)
            requires
                -0x8000_0000_0000_0000int <= a as int <= 0x7fff_ffff_ffff_ffffint,
                -0x8000_0000_0000_0000int <= b as int <= 0x7fff_ffff_ffff_ffffint,
        ;
    }
    let p: i128 = (a as i128) * (b as i128);
    let q = sdiv128(p, SCALE as i128);
    q as i64
}

/// Fixed-point divide by a positive divisor.
pub fn div_fp(a: i64, b: i64) -> (r: i64)
    requires
        b > 0,
        i64::MIN <= fdiv(a as int, b as int) <= i64::MAX,
    ensures
        r as int == fdiv(a as int, b as int),
{
    let n: i128 = (a as i128) * (SCALE as i128);
    let q = sdiv128(n, b as i128);
    q as i64
}

/// Integer square root of a nonnegative `u128` below 2^96, by bisection.
fn isqrt_u128(n: u128) -> (r: u128)
    requires
        n < 0x1_0000_0000_0000_0000_0000_0000,
    ensures
        is_isqrt(n as int, r as int),
{
    let mut lo: u128 = 0;
    let mut hi: u128 = 0x1_0000_0000_0000;
    proof {
        assert((0x1_0000_0000_0000u128 as int) * (0x1_0000_0000_0000u128 as int)
            == 0x1_0000_0000_0000_0000_0000_0000int) by (nonlinear_arith);
    }
    while lo + 1 < hi
        invariant
            lo < hi,
            hi <= 0x1_0000_0000_0000,
            (lo as int) * (lo as int) <= n as int,
            (n as int) < (hi as int) * (hi as int),
        decreases hi - lo,
    {
        let mid = lo + (hi - lo) / 2;
        proof {
            assert((mid as int) * (mid as int) <= 0x1_0000_0000_0000_0000_0000_0000int)
                by (nonlinear_arith)
                requires
                    0 <= mid as int <= 0x1_0000_0000_0000int,
            ;
        }
        if mid * mid <= n {
            lo = mid;
        } else {
            hi = mid;
        }
    }
    lo
}

/// Fixed-point square root: the integer square root of `a * SCALE`.
pub fn sqrt_fp(a: i64) -> (r: i64)
    requires
        a >= 0,
    ensures
        r as int == fsqrt(a as int),
        is_isqrt((a as int) * (SCALE as int), r as int),
        r >= 0,
{
    proof {
        assert((a as int) * (SCALE as int) < 0x1_0000_0000_0000_0000_0000_0000int)
            by (nonlinear_arith)
            requires
                0 <= a as int <= 0x7fff_ffff_ffff_ffffint,
        ;
    }
    let n: u128 = (a as u128) * (SCALE as u128);
    let r = isqrt_u128(n);
    proof {
        let ni = (a as int) * (SCALE as int);
        assert(r as int <= 0x1_0000_0000_0000int) by (nonlinear_arith)
            requires
                is_isqrt(ni, r as int),
                ni < 0x1_0000_0000_0000_0000_0000_0000int,
        ;
        lemma_isqrt_witness(ni, r as int);
    }
    r as i64
}

} // verus!
