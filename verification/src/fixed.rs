//! Fixed-point helpers. Camera quantities are "milli" units: 1000 stands for
//! 1.0, so a zoom of 1500 is 1.5x and a centre of 500 is mid-frame.

use vstd::prelude::*;

verus! {

/// Largest zoom factor the library accepts, in milli units (1000x).
pub const MAX_ZOOM_MILLI: i64 = 1_000_000;

/// Clamp a milli value into the unit interval [0, 1000].
pub open spec fn clamp_unit_milli(v: int) -> int {
    if v < 0 {
        0
    } else if v > 1000 {
        1000
    } else {
        v
    }
}

/// A pixel coordinate `v` normalized against a dimension `scale`, in milli
/// units, clamped into the frame: clamp(v * 1000 / scale).
pub open spec fn norm_milli(v: int, scale: int) -> int {
    clamp_unit_milli(v * 1000 / scale)
}

/// Executable coordinate normalization.
pub fn norm_coord(v: i32, scale: u32) -> (r: i64)
    requires
        scale >= 1,
    ensures
        r == norm_milli(v as int, scale as int),
        0 <= r <= 1000,
{
    if v <= 0 {
        proof {
            assert(v * 1000 <= 0) by (nonlinear_arith)
                requires
                    v <= 0,
            ;
            assert(v * 1000 / (scale as int) <= 0) by (nonlinear_arith)
                requires
                    v * 1000 <= 0,
                    scale >= 1,
            ;
        }
        0
    } else {
        let prod: u64 = (v as u64) * 1000;
        let q: u64 = prod / (scale as u64);
        proof {
            assert(v * 1000 / (scale as int) >= 0) by (nonlinear_arith)
                requires
                    v >= 1,
                    scale >= 1,
            ;
        }
        if q > 1000 {
            1000
        } else {
            q as i64
        }
    }
}

/// Linear interpolation from `a` to `b` by `t` milli units, with the rounding
/// division always taken on a nonnegative magnitude:
/// `a + (b - a) * t / 1000` when `b >= a`, else `a - (a - b) * t / 1000`.
pub open spec fn lerp_milli(a: int, b: int, t: int) -> int {
    if b >= a {
        a + (b - a) * t / 1000
    } else {
        a - (a - b) * t / 1000
    }
}

/// The interpolant stays between its endpoints.
pub proof fn lemma_lerp_milli_bounds(a: int, b: int, t: int)
    requires
        0 <= t <= 1000,
    ensures
        b >= a ==> a <= lerp_milli(a, b, t) <= b,
        b < a ==> b <= lerp_milli(a, b, t) <= a,
        lerp_milli(a, b, 0) == a,
        lerp_milli(a, b, 1000) == b,
{
    if b >= a {
        assert(0 <= (b - a) * t / 1000 <= b - a) by (nonlinear_arith)
            requires
                b >= a,
                0 <= t <= 1000,
        ;
        assert((b - a) * 1000 / 1000 == b - a) by (nonlinear_arith);
        assert((b - a) * 0 == 0) by (nonlinear_arith);
    } else {
        assert(0 <= (a - b) * t / 1000 <= a - b) by (nonlinear_arith)
            requires
                b < a,
                0 <= t <= 1000,
        ;
        assert((a - b) * 1000 / 1000 == a - b) by (nonlinear_arith);
        assert((a - b) * 0 == 0) by (nonlinear_arith);
    }
}

/// Executable interpolation. The operand bound keeps every intermediate
/// product inside `u64`.
pub fn lerp(a: i64, b: i64, t: i64) -> (r: i64)
    requires
        0 <= t <= 1000,
        -4_000_000_000 <= a <= 4_000_000_000,
        -4_000_000_000 <= b <= 4_000_000_000,
    ensures
        r == lerp_milli(a as int, b as int, t as int),
        b >= a ==> a <= r <= b,
        b < a ==> b <= r <= a,
{
    proof {
        lemma_lerp_milli_bounds(a as int, b as int, t as int);
    }
    if b >= a {
        let d: u64 = ((b - a) as u64) * (t as u64) / 1000;
        proof {
            assert((b - a) * t / 1000 == ((b - a) as u64) * (t as u64) / 1000) by (nonlinear_arith)
                requires
                    b >= a,
                    0 <= t <= 1000,
                    b - a == ((b - a) as u64),
                    t == (t as u64),
            ;
        }
        a + (d as i64)
    } else {
        let d: u64 = ((a - b) as u64) * (t as u64) / 1000;
        proof {
            assert((a - b) * t / 1000 == ((a - b) as u64) * (t as u64) / 1000) by (nonlinear_arith)
                requires
                    b < a,
                    0 <= t <= 1000,
                    a - b == ((a - b) as u64),
                    t == (t as u64),
            ;
        }
        a - (d as i64)
    }
}

} // verus!
