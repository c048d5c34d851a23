//! Random sampling, reduced to one outside call.
//!
//! The renderer needs uniform fixed-point samples in `[0, 1)` and in
//! `[min, max)`.  Both are derived, in verified code, from a single uniform
//! `u32` draw; `SCALE` divides `2^32`, so the reduction keeps uniformity.

use vstd::prelude::*;
use crate::fp::SCALE;
use vstd::arithmetic::div_mod::{lemma_div_is_ordered, lemma_div_pos_is_pos};

verus! {

/// Relies on rand::random: a fresh draw from the thread-local generator.
/// Nothing can be promised of a random value, so there is no `ensures`.
pub assume_specification<T>[ rand::random::<T> ]() -> (r: T)
    where
        rand::distributions::Standard: rand::distributions::Distribution<T>,
;

/// A uniform fixed-point sample in `[0, SCALE)`: the real interval [0, 1).
pub fn sample_unit() -> (r: i64)
    ensures
        0 <= r < SCALE,
{
    let w: u32 = rand::random::<u32>();
    (w % 65536) as i64
}

/// A fixed-point sample in `[min, max)`: the unit sample stretched over
/// the range, so a range wider than one unit is covered on a 65536-point
/// lattice rather than quantum by quantum.
pub fn sample_range(min: i64, max: i64) -> (r: i64)
    requires
        min < max,
        max - min <= i64::MAX,
    ensures
        min <= r < max,
{
    let u = sample_unit();
    let d: i128 = (max as i128) - (min as i128);
    proof {
        assert(0 <= (d as int) * (u as int) && (d as int) * (u as int) <= (d as int) * 65535)
            by (nonlinear_arith)
            requires
                0 < d as int,
                0 <= u as int <= 65535,
        ;
    }
    let p: i128 = d * (u as i128);
    let q: i128 = crate::fp::sdiv128(p, 65536);
    proof {
        lemma_div_pos_is_pos(p as int, 65536);
        lemma_div_is_ordered(p as int, (d as int) * 65535, 65536);
        assert(((d as int) * 65535) / 65536 < d as int) by (nonlinear_arith)
            requires
                0 < d as int,
        ;
    }
    min + (q as i64)
}

} // verus!
