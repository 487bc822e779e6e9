//! Fixed-point arithmetic for the statistics engine.
//!
//! Every sample value is an exact integer count of millionths of a unit
//! ("micros").  Sums of products of micro values live at `SCALE_SQ`.
//! The two primitives here — truncated division and the floor square
//! root — are the only rounding operations the engine performs, so each
//! carries an exact contract.

use vstd::prelude::*;

verus! {

/// Fixed-point steps per whole unit: values are counted in micros.
pub const SCALE: i128 = 1_000_000;

/// `SCALE * SCALE`: products of two micro values live at this scale.
pub const SCALE_SQ: i128 = 1_000_000_000_000;

/// Largest magnitude a single sample may have, in micros (1e9 units).
pub const MAX_ABS_MICROS: i64 = 1_000_000_000_000_000;

/// Most samples one (label, metric) accumulator accepts.  Together with
/// `MAX_ABS_MICROS` this keeps every intermediate statistic inside `i128`:
/// the variance numerator `n * sum_sq` reaches `n^2 * MAX_ABS_MICROS^2`,
/// which at micro precision and billion-unit magnitudes caps `n` near
/// this size.  A coarser scale would admit longer streams at less
/// precision.
pub const MAX_SAMPLES: usize = 10_000;

/// Integer division truncated toward zero — the rounding rule used by
/// every statistic in this crate.
pub open spec fn tdiv(a: int, b: int) -> int
    recommends
        b > 0,
{
    if a >= 0 {
        a / b
    } else {
        -((-a) / b)
    }
}

/// Truncated division on machine integers.
pub fn div_trunc(a: i128, b: i128) -> (q: i128)
    requires
        b > 0,
        a > i128::MIN,
    ensures
        q == tdiv(a as int, b as int),
{
    if a >= 0 {
        let m: u128 = a as u128;
        let d: u128 = b as u128;
        let q: u128 = m / d;
        proof {
            vstd::arithmetic::div_mod::lemma_div_nonincreasing(m as int, d as int);
            vstd::arithmetic::div_mod::lemma_div_pos_is_pos(m as int, d as int);
        }
        q as i128
    } else {
        let m: u128 = (-a) as u128;
        let d: u128 = b as u128;
        let q: u128 = m / d;
        proof {
            vstd::arithmetic::div_mod::lemma_div_nonincreasing(m as int, d as int);
            vstd::arithmetic::div_mod::lemma_div_pos_is_pos(m as int, d as int);
        }
        -(q as i128)
    }
}

/// Floor of the square root, by bisection on the answer.
pub fn sqrt_floor(x: u128) -> (r: u128)
    ensures
        r * r <= x,
        x < (r + 1) * (r + 1),
{
    if x == 0 {
        return 0;
    }
    let mut lo: u128 = 0;
    let mut hi: u128 = 18_446_744_073_709_551_616;
    proof {
        assert(x < hi * hi);
    }
    while lo + 1 < hi
        invariant
            lo < hi,
            hi <= 18_446_744_073_709_551_616,
            lo * lo <= x,
            x < hi * hi,
        decreases hi - lo,
    {
        let mid: u128 = lo + (hi - lo) / 2;
        proof {
            assert(lo < mid && mid < hi);
            assert(mid * mid < 0x1_0000_0000_0000_0000_0000_0000_0000_0000) by (nonlinear_arith)
                requires
                    mid < 0x1_0000_0000_0000_0000,
            ;
        }
        if mid * mid <= x {
            lo = mid;
        } else {
            hi = mid;
        }
    }
    lo
}

} // verus!
