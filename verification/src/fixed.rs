//! Fixed-point numbers.
//!
//! Action values and rewards are whole numbers of millionths; rates and
//! probabilities are parts per million. One unit is `SCALE`.

use vstd::prelude::*;

verus! {

/// One unit, and the rate or probability 1.
pub const SCALE: i64 = 1_000_000;

/// The largest magnitude that a stored action value takes: one million
/// units. Values beyond it are cut back to it.
pub const Q_LIMIT: i64 = 1_000_000_000_000;

/// `v` times the rate `ppm`, rounded towards zero.
pub open spec fn scaled(v: int, ppm: int) -> int {
    if v >= 0 {
        (v * ppm) / (SCALE as int)
    } else {
        -(((-v) * ppm) / (SCALE as int))
    }
}

/// `v` cut back to the range from `-limit` to `limit`.
pub open spec fn clamped(v: int, limit: int) -> int {
    if v > limit {
        limit
    } else if v < -limit {
        -limit
    } else {
        v
    }
}

/// A rate of at most 1 does not raise a magnitude, and keeps the sign.
pub proof fn lemma_scaled_bounds(v: int, ppm: int)
    requires
        0 <= ppm <= SCALE,
    ensures
        v >= 0 ==> 0 <= scaled(v, ppm) <= v,
        v <= 0 ==> v <= scaled(v, ppm) <= 0,
{
    let m = if v >= 0 {
        v
    } else {
        -v
    };
    assert(0 <= (m * ppm) / (SCALE as int) <= m) by (nonlinear_arith)
        requires
            m >= 0,
            0 <= ppm <= SCALE,
            SCALE == 1_000_000,
    ;
}

/// `v` times the rate `ppm`, rounded towards zero.
pub fn scale_by(v: i128, ppm: u32) -> (r: i128)
    requires
        -0x1_0000_0000_0000_0000_0000 <= v <= 0x1_0000_0000_0000_0000_0000,
    ensures
        r == scaled(v as int, ppm as int),
{
    assert(-0x1_0000_0000_0000_0000_0000_0000_0000 <= v * ppm
        <= 0x1_0000_0000_0000_0000_0000_0000_0000) by (nonlinear_arith)
        requires
            -0x1_0000_0000_0000_0000_0000 <= v <= 0x1_0000_0000_0000_0000_0000,
            0 <= ppm <= 0xFFFF_FFFF,
    ;
    if v >= 0 {
        (v * (ppm as i128)) / 1_000_000
    } else {
        assert(0 <= (-v) * ppm <= 0x1_0000_0000_0000_0000_0000_0000_0000) by (nonlinear_arith)
            requires
                0 <= -v <= 0x1_0000_0000_0000_0000_0000,
                0 <= ppm <= 0xFFFF_FFFF,
        ;
        -(((-v) * (ppm as i128)) / 1_000_000)
    }
}

/// `v` cut back to the range of stored action values.
pub fn clamp_value(v: i128) -> (r: i64)
    ensures
        r == clamped(v as int, Q_LIMIT as int),
        -Q_LIMIT <= r <= Q_LIMIT,
{
    if v > Q_LIMIT as i128 {
        Q_LIMIT
    } else if v < -(Q_LIMIT as i128) {
        -Q_LIMIT
    } else {
        v as i64
    }
}

} // verus!
