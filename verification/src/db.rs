//! Decibel-to-linear conversion in Q32 fixed point.
//!
//! `from_db` computes `10^(db/20)` through `2^x`; the fractional power of two
//! is a degree-6 Taylor polynomial of the exponential. The contracts state
//! the range and the exact unit at 0 dB; the approximation error is checked
//! numerically by the crate's tests.

use vstd::prelude::*;
use crate::fixed::{ONE, fmul, fmul_s, div_pos, clamp, lemma_fmul_bound, lemma_fmul_one_bound, lemma_fmul_nonneg, lemma_fmul_zero, lemma_abs_mul_bound, lemma_tdiv_exact};
use vstd::arithmetic::power2::{pow2, lemma_pow2_pos, lemma_pow2_strictly_increases, lemma2_to64};
use vstd::arithmetic::div_mod::{lemma_div_of0, lemma_div_is_ordered, lemma_div_is_ordered_by_denominator, lemma_fundamental_div_mod, lemma_remainder_upper, lemma_remainder_lower, lemma_div_pos_is_pos, lemma_div_nonincreasing};

verus! {

/// `ln 2` in Q32.
pub const LN2: i64 = 2977044472;

/// `log2(10) / 20` in Q32: the exponent scale from decibels to powers of two.
pub const DB_EXP: i64 = 713378626;

/// `2^n` as a `u64`.
pub fn pow2_u64(n: u64) -> (r: u64)
    requires
        n <= 63,
    ensures
        r == pow2(n as nat),
{
    let mut p: u64 = 1;
    let mut i: u64 = 0;
    proof {
        lemma2_to64();
    }
    while i < n
        invariant
            0 <= i <= n <= 63,
            p == pow2(i as nat),
        decreases n - i,
    {
        proof {
            if i < 62 {
                lemma_pow2_strictly_increases(i as nat, 62);
            }
            lemma2_to64();
            vstd::arithmetic::power2::lemma2_to64_rest();
            vstd::arithmetic::power2::lemma_pow2_adds(i as nat, 1);
        }
        p = p * 2;
        i = i + 1;
    }
    p
}

/// The value `exp2_frac` computes for `x` in `[0, ONE]`.
pub open spec fn exp2_frac_s(x: int) -> int {
    let u = fmul_s(x, LN2 as int);
    let u2 = fmul_s(u, u);
    let u3 = fmul_s(u2, u);
    let u4 = fmul_s(u3, u);
    let u5 = fmul_s(u4, u);
    let u6 = fmul_s(u5, u);
    let s = ONE + u + u2 / 2 + u3 / 6 + u4 / 24 + u5 / 120 + u6 / 720;
    crate::fixed::clamp_s(s, ONE as int, 2 * ONE as int)
}

/// The value `exp2_fixed` computes.
pub open spec fn exp2_fixed_s(e: int) -> int {
    if e >= 0 {
        let n = e / (ONE as int);
        let f = e - n * ONE;
        exp2_frac_s(f) * pow2(n as nat)
    } else {
        let m = -e;
        let n = m / (ONE as int);
        let f = m - n * ONE;
        if f == 0 {
            if n >= 63 {
                0
            } else {
                (ONE as int) / (pow2(n as nat) as int)
            }
        } else {
            if n >= 62 {
                0
            } else {
                exp2_frac_s(ONE - f) / (pow2((n + 1) as nat) as int)
            }
        }
    }
}

/// The value `from_db` computes.
pub open spec fn from_db_s(db: int) -> int {
    exp2_fixed_s(fmul_s(db, DB_EXP as int))
}

/// `2^f` for a fraction `f` in `[0, ONE]`, by a degree-6 Taylor polynomial
/// of the exponential; the result lies in `[ONE, 2·ONE]`.
fn exp2_frac(x: i64) -> (r: i64)
    requires
        0 <= x <= ONE,
    ensures
        ONE <= r <= 2 * ONE,
        x == 0 ==> r == ONE,
        r == exp2_frac_s(x as int),
{
    proof {
        lemma_abs_mul_bound(x as int, LN2 as int, ONE as int, ONE as int);
    }
    let u = fmul(x, LN2);
    proof {
        lemma_fmul_one_bound(LN2 as int, x as int, ONE as int);
        assert(fmul_s(LN2 as int, x as int) == fmul_s(x as int, LN2 as int)) by {
            assert(LN2 as int * x as int == x as int * LN2 as int) by (nonlinear_arith);
        }
        lemma_fmul_nonneg(x as int, LN2 as int);
    }
    // u in [0, ONE]
    proof {
        lemma_abs_mul_bound(u as int, u as int, ONE as int, ONE as int);
    }
    let u2 = fmul(u, u);
    proof {
        lemma_fmul_one_bound(u as int, u as int, ONE as int);
        lemma_fmul_nonneg(u as int, u as int);
        lemma_abs_mul_bound(u2 as int, u as int, ONE as int, ONE as int);
    }
    let u3 = fmul(u2, u);
    proof {
        lemma_fmul_one_bound(u2 as int, u as int, ONE as int);
        lemma_fmul_nonneg(u2 as int, u as int);
        lemma_abs_mul_bound(u3 as int, u as int, ONE as int, ONE as int);
    }
    let u4 = fmul(u3, u);
    proof {
        lemma_fmul_one_bound(u3 as int, u as int, ONE as int);
        lemma_fmul_nonneg(u3 as int, u as int);
        lemma_abs_mul_bound(u4 as int, u as int, ONE as int, ONE as int);
    }
    let u5 = fmul(u4, u);
    proof {
        lemma_fmul_one_bound(u4 as int, u as int, ONE as int);
        lemma_fmul_nonneg(u4 as int, u as int);
        lemma_abs_mul_bound(u5 as int, u as int, ONE as int, ONE as int);
    }
    let u6 = fmul(u5, u);
    proof {
        lemma_fmul_one_bound(u5 as int, u as int, ONE as int);
        lemma_fmul_nonneg(u5 as int, u as int);
    }
    let s = ONE + u + div_pos(u2, 2) + div_pos(u3, 6) + div_pos(u4, 24) + div_pos(u5, 120)
        + div_pos(u6, 720);
    proof {
        if x == 0 {
            lemma_fmul_zero(LN2 as int);
            lemma_fmul_zero(u as int);
            lemma_div_of0(2);
            lemma_div_of0(6);
            lemma_div_of0(24);
            lemma_div_of0(120);
            lemma_div_of0(720);
        }
    }
    clamp(s, ONE, 2 * ONE)
}

/// `2^(e / ONE)` in Q32, for exponents `e` in `[-64·ONE, 13·ONE]`.
pub fn exp2_fixed(e: i64) -> (r: i64)
    requires
        -64 * ONE <= e <= 13 * ONE,
    ensures
        0 <= r <= 16384 * ONE,
        e <= 0 ==> r <= ONE,
        e == 0 ==> r == ONE,
        e >= 0 ==> ONE <= r,
        e < 5 * ONE ==> r <= 32 * ONE,
        r == exp2_fixed_s(e as int),
{
    if e >= 0 {
        let n = div_pos(e, ONE);
        proof {
            lemma_div_is_ordered(e as int, 13 * ONE as int, ONE as int);
            assert(13 * (0x1_0000_0000 as int) / (0x1_0000_0000 as int) == 13) by (nonlinear_arith);
            if e < 5 * ONE {
                vstd::arithmetic::div_mod::lemma_multiply_divide_lt(e as int, ONE as int, 5);
            }
            lemma_fundamental_div_mod(e as int, ONE as int);
            lemma_remainder_upper(e as int, ONE as int);
            lemma_remainder_lower(e as int, ONE as int);
            if e == 0 {
                lemma_div_of0(ONE as int);
            }
        }
        let f = e - n * ONE;
        let g = exp2_frac(f);
        let p = pow2_u64(n as u64);
        proof {
            if n < 13 {
                lemma_pow2_strictly_increases(n as nat, 13);
            }
            lemma2_to64();
            assert(g as int * p as int <= 2 * ONE as int * 8192) by (nonlinear_arith)
                requires
                    0 <= g as int <= 2 * ONE as int,
                    0 <= p as int <= 8192,
            ;
            assert(ONE as int * 1 == ONE as int) by (nonlinear_arith);
            lemma_pow2_pos(n as nat);
            assert((g as int) * (p as int) >= ONE) by (nonlinear_arith)
                requires
                    g as int >= ONE as int,
                    p as int >= 1,
            ;
            if e < 5 * ONE {
                if (n as nat) < 4 {
                    lemma_pow2_strictly_increases(n as nat, 4);
                }
                assert((g as int) * (p as int) <= 32 * (ONE as int)) by (nonlinear_arith)
                    requires
                        0 <= g as int <= 2 * (ONE as int),
                        0 <= p as int <= 16,
                ;
            }
        }
        g * (p as i64)
    } else {
        let m = -e;
        let n = div_pos(m, ONE);
        proof {
            lemma_fundamental_div_mod(m as int, ONE as int);
            lemma_remainder_upper(m as int, ONE as int);
            lemma_remainder_lower(m as int, ONE as int);
        }
        let f = m - n * ONE;
        if f == 0 {
            if n >= 63 {
                0
            } else {
                let p = pow2_u64(n as u64);
                proof {
                    lemma_pow2_pos(n as nat);
                    lemma_div_nonincreasing(ONE as int, p as int);
                    lemma_div_pos_is_pos(ONE as int, p as int);
                }
                (ONE as u64 / p) as i64
            }
        } else {
            let g = exp2_frac(ONE - f);
            if n >= 62 {
                0
            } else {
                let p = pow2_u64(n as u64 + 1);
                proof {
                    lemma_pow2_pos((n + 1) as nat);
                    lemma_pow2_strictly_increases(0, (n + 1) as nat);
                    lemma2_to64();
                    // p >= 2, so g / p <= 2·ONE / 2 == ONE
                    lemma_div_is_ordered(g as int, 2 * ONE as int, p as int);
                    lemma_div_is_ordered_by_denominator(2 * ONE as int, 2, p as int);
                    lemma_div_pos_is_pos(g as int, p as int);
                    assert(2 * ONE as int / 2 == ONE as int) by (nonlinear_arith);
                }
                (g as u64 / p) as i64
            }
        }
    }
}

/// The linear gain of a level given in decibels (`db <= 0`): `10^(db/20)`.
pub fn from_db(db: i64) -> (r: i64)
    requires
        -256 * ONE <= db <= 0,
    ensures
        0 <= r <= ONE,
        db == 0 ==> r == ONE,
        r == from_db_s(db as int),
{
    proof {
        lemma_abs_mul_bound(db as int, DB_EXP as int, 256 * ONE as int, DB_EXP as int);
        lemma_fmul_bound(db as int, DB_EXP as int, 256 * ONE as int, DB_EXP as int);
        assert(crate::fixed::tdiv(256 * ONE as int * DB_EXP as int, ONE as int) == 256 * DB_EXP as int) by {
            lemma_tdiv_exact(256 * DB_EXP as int, ONE as int);
            assert(256 * ONE as int * DB_EXP as int == 256 * DB_EXP as int * ONE as int) by (nonlinear_arith);
        }
        // the product of a nonpositive and a nonnegative value is nonpositive
        assert(db as int * DB_EXP as int <= 0) by (nonlinear_arith)
            requires
                db as int <= 0,
        ;
        lemma_fmul_nonneg(-(db as int), DB_EXP as int);
        assert(-(db as int) * DB_EXP as int == -(db as int * DB_EXP as int)) by (nonlinear_arith);
        if db == 0 {
            lemma_fmul_zero(DB_EXP as int);
        }
    }
    let e = fmul(db, DB_EXP);
    exp2_fixed(e)
}

} // verus!
