//! Fixed-point sine and cosine over phase expressed in turns (one turn is a
//! full period, `ONE` in Q32).
//!
//! The quarter wave is a degree-9 Taylor polynomial of the sine; the other
//! quadrants follow by symmetry. The contracts state the range of the result
//! and the exact zero; the approximation error is checked numerically by the
//! crate's tests.

use vstd::prelude::*;
use crate::fixed::{ONE, fmul, fmul_s, div_pos, clamp, lemma_fmul_bound, lemma_fmul_nonneg, lemma_fmul_zero, lemma_abs_mul_bound};
use vstd::arithmetic::div_mod::{lemma_div_of0, lemma_div_is_ordered, lemma_fundamental_div_mod, lemma_remainder_upper, lemma_remainder_lower};

verus! {

/// `π/2` in Q32.
pub const HALF_PI: i64 = 6746518852;

/// The value `sin_quarter` computes for `t` in `[0, ONE]`.
pub open spec fn sin_quarter_s(t: int) -> int {
    let z = fmul_s(t, HALF_PI as int);
    let z2 = fmul_s(z, z);
    let z3 = fmul_s(z2, z);
    let z5 = fmul_s(z3, z2);
    let z7 = fmul_s(z5, z2);
    let z9 = fmul_s(z7, z2);
    let s = z - z3 / 6 + z5 / 120 - z7 / 5040 + z9 / 362880;
    crate::fixed::clamp_s(s, 0, ONE as int)
}

/// The value `sin_turn` computes for `x` in `[0, ONE)`.
pub open spec fn sin_turn_s(x: int) -> int {
    let u = x * 4;
    let k = u / (ONE as int);
    let t = u - k * ONE;
    if k == 0 {
        sin_quarter_s(t)
    } else if k == 1 {
        sin_quarter_s(ONE - t)
    } else if k == 2 {
        -sin_quarter_s(t)
    } else {
        -sin_quarter_s(ONE - t)
    }
}

/// The value `cos_turn` computes for `x` in `[0, ONE)`.
pub open spec fn cos_turn_s(x: int) -> int {
    let quarter = (ONE as int) / 4;
    let y = if x + quarter >= ONE {
        x + quarter - ONE
    } else {
        x + quarter
    };
    sin_turn_s(y)
}

/// `sin(π/2 · t)` for `t` in `[0, ONE]`, by a degree-9 Taylor polynomial.
fn sin_quarter(t: i64) -> (r: i64)
    requires
        0 <= t <= ONE,
    ensures
        0 <= r <= ONE,
        t == 0 ==> r == 0,
        r == sin_quarter_s(t as int),
{
    proof {
        lemma_abs_mul_bound(t as int, HALF_PI as int, ONE as int, HALF_PI as int);
    }
    let z = fmul(t, HALF_PI);
    proof {
        lemma_fmul_bound(t as int, HALF_PI as int, ONE as int, HALF_PI as int);
        lemma_fmul_nonneg(t as int, HALF_PI as int);
        assert(crate::fixed::tdiv(ONE as int * HALF_PI as int, ONE as int) == HALF_PI as int) by {
            crate::fixed::lemma_tdiv_exact(HALF_PI as int, ONE as int);
            assert(ONE as int * HALF_PI as int == HALF_PI as int * ONE as int) by (nonlinear_arith);
        }
    }
    // z in [0, HALF_PI], HALF_PI < 2·ONE
    proof {
        lemma_abs_mul_bound(z as int, z as int, 2 * ONE as int, 2 * ONE as int);
    }
    let z2 = fmul(z, z);
    proof {
        lemma_fmul_bound(z as int, z as int, 2 * ONE as int, 2 * ONE as int);
        lemma_fmul_nonneg(z as int, z as int);
        crate::fixed::lemma_tdiv_exact(4 * ONE as int, ONE as int);
        assert(2 * ONE as int * (2 * ONE as int) == 4 * ONE as int * ONE as int) by (nonlinear_arith);
    }
    // z2 in [0, 4·ONE]
    proof {
        lemma_abs_mul_bound(z2 as int, z as int, 4 * ONE as int, 2 * ONE as int);
    }
    let z3 = fmul(z2, z);
    proof {
        lemma_fmul_bound(z2 as int, z as int, 4 * ONE as int, 2 * ONE as int);
        lemma_fmul_nonneg(z2 as int, z as int);
        crate::fixed::lemma_tdiv_exact(8 * ONE as int, ONE as int);
        assert(4 * ONE as int * (2 * ONE as int) == 8 * ONE as int * ONE as int) by (nonlinear_arith);
    }
    // z3 in [0, 8·ONE]
    proof {
        lemma_abs_mul_bound(z3 as int, z2 as int, 8 * ONE as int, 4 * ONE as int);
    }
    let z5 = fmul(z3, z2);
    proof {
        lemma_fmul_bound(z3 as int, z2 as int, 8 * ONE as int, 4 * ONE as int);
        lemma_fmul_nonneg(z3 as int, z2 as int);
        crate::fixed::lemma_tdiv_exact(32 * ONE as int, ONE as int);
        assert(8 * ONE as int * (4 * ONE as int) == 32 * ONE as int * ONE as int) by (nonlinear_arith);
    }
    // z5 in [0, 32·ONE]
    proof {
        lemma_abs_mul_bound(z5 as int, z2 as int, 32 * ONE as int, 4 * ONE as int);
    }
    let z7 = fmul(z5, z2);
    proof {
        lemma_fmul_bound(z5 as int, z2 as int, 32 * ONE as int, 4 * ONE as int);
        lemma_fmul_nonneg(z5 as int, z2 as int);
        crate::fixed::lemma_tdiv_exact(128 * ONE as int, ONE as int);
        assert(32 * ONE as int * (4 * ONE as int) == 128 * ONE as int * ONE as int) by (nonlinear_arith);
    }
    // z7 in [0, 128·ONE]
    proof {
        lemma_abs_mul_bound(z7 as int, z2 as int, 128 * ONE as int, 4 * ONE as int);
    }
    let z9 = fmul(z7, z2);
    proof {
        lemma_fmul_bound(z7 as int, z2 as int, 128 * ONE as int, 4 * ONE as int);
        lemma_fmul_nonneg(z7 as int, z2 as int);
        crate::fixed::lemma_tdiv_exact(512 * ONE as int, ONE as int);
        assert(128 * ONE as int * (4 * ONE as int) == 512 * ONE as int * ONE as int) by (nonlinear_arith);
    }
    // z9 in [0, 512·ONE]
    let s = z - div_pos(z3, 6) + div_pos(z5, 120) - div_pos(z7, 5040) + div_pos(z9, 362880);
    proof {
        if t == 0 {
            lemma_fmul_zero(HALF_PI as int);
            lemma_fmul_zero(z as int);
            lemma_fmul_zero(z2 as int);
            lemma_div_of0(6);
            lemma_div_of0(120);
            lemma_div_of0(5040);
            lemma_div_of0(362880);
        }
    }
    clamp(s, 0, ONE)
}

/// `sin(2π · x)` for a phase `x` in turns, `0 <= x < ONE`.
pub fn sin_turn(x: i64) -> (r: i64)
    requires
        0 <= x < ONE,
    ensures
        -ONE <= r <= ONE,
        x == 0 ==> r == 0,
        r == sin_turn_s(x as int),
        2 * x <= ONE ==> r >= 0,
{
    let u = x * 4;
    let k = div_pos(u, ONE);
    proof {
        lemma_div_is_ordered(u as int, 4 * ONE as int - 1, ONE as int);
        assert((4 * (0x1_0000_0000 as int) - 1) / (0x1_0000_0000 as int) == 3) by (nonlinear_arith);
        lemma_fundamental_div_mod(u as int, ONE as int);
        lemma_remainder_upper(u as int, ONE as int);
        lemma_remainder_lower(u as int, ONE as int);
        if x == 0 {
            lemma_div_of0(ONE as int);
        }
    }
    let t = u - k * ONE;
    if k == 0 {
        sin_quarter(t)
    } else if k == 1 {
        sin_quarter(ONE - t)
    } else if k == 2 {
        -sin_quarter(t)
    } else {
        -sin_quarter(ONE - t)
    }
}

/// `cos(2π · x)` for a phase `x` in turns, `0 <= x < ONE`.
pub fn cos_turn(x: i64) -> (r: i64)
    requires
        0 <= x < ONE,
    ensures
        -ONE <= r <= ONE,
        r == cos_turn_s(x as int),
{
    let quarter = ONE / 4;
    let y = if x + quarter >= ONE {
        x + quarter - ONE
    } else {
        x + quarter
    };
    sin_turn(y)
}

} // verus!
