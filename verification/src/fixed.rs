//! Q32 fixed-point arithmetic: an `i64` holds a real value scaled by `2^32`.
//!
//! Multiplication and division go through `i128` intermediates and truncate
//! toward zero, exactly as Rust's `/` does; the spec functions `tdiv`,
//! `fmul_s` and `fdiv_s` pin the result of every operation down to the bit.

use vstd::prelude::*;
use vstd::arithmetic::div_mod::{lemma_div_is_ordered, lemma_div_by_multiple, lemma_div_pos_is_pos, lemma_div_nonincreasing};

verus! {

/// The fixed-point representation of the real number 1.
pub const ONE: i64 = 0x1_0000_0000;

/// Truncating (toward zero) division, as Rust's `/` computes it for `d > 0`.
pub open spec fn tdiv(x: int, d: int) -> int {
    if x >= 0 {
        x / d
    } else {
        -((-x) / d)
    }
}

/// The exact result of a Q32 fixed-point multiplication.
pub open spec fn fmul_s(a: int, b: int) -> int {
    tdiv(a * b, ONE as int)
}

/// The exact result of a Q32 fixed-point division (`b > 0`).
pub open spec fn fdiv_s(a: int, b: int) -> int {
    tdiv(a * (ONE as int), b)
}

pub proof fn lemma_tdiv_bound(x: int, m: int, d: int)
    requires
        0 < d,
        -m <= x <= m,
        0 <= m,
    ensures
        -tdiv(m, d) <= tdiv(x, d) <= tdiv(m, d),
        tdiv(m, d) <= m,
{
    if x >= 0 {
        lemma_div_is_ordered(x, m, d);
        lemma_div_pos_is_pos(x, d);
    } else {
        lemma_div_is_ordered(-x, m, d);
        lemma_div_pos_is_pos(-x, d);
    }
    lemma_div_nonincreasing(m, d);
}

pub proof fn lemma_tdiv_exact(b: int, d: int)
    requires
        0 < d,
    ensures
        tdiv(b * d, d) == b,
{
    if b >= 0 {
        lemma_div_by_multiple(b, d);
    } else {
        lemma_div_by_multiple(-b, d);
        assert(-(b * d) == (-b) * d) by (nonlinear_arith);
    }
}

/// `|a| <= m` and `|b| <= n` bound a product: `|a * b| <= m * n`.
pub proof fn lemma_abs_mul_bound(a: int, b: int, m: int, n: int)
    requires
        -m <= a <= m,
        -n <= b <= n,
    ensures
        -(m * n) <= a * b <= m * n,
        0 <= m * n,
    {
    assert(-(m * n) <= a * b <= m * n && 0 <= m * n) by (nonlinear_arith)
        requires
            -m <= a <= m,
            -n <= b <= n,
    ;
}

/// Bounds of a fixed-point product from bounds of its factors.
pub proof fn lemma_fmul_bound(a: int, b: int, m: int, n: int)
    requires
        -m <= a <= m,
        -n <= b <= n,
    ensures
        -tdiv(m * n, ONE as int) <= fmul_s(a, b) <= tdiv(m * n, ONE as int),
        tdiv(m * n, ONE as int) <= m * n,
        0 <= m * n,
{
    lemma_abs_mul_bound(a, b, m, n);
    lemma_tdiv_bound(a * b, m * n, ONE as int);
}

/// Multiplying by a factor no larger than `ONE` cannot grow a magnitude.
pub proof fn lemma_fmul_one_bound(a: int, b: int, m: int)
    requires
        -m <= a <= m,
        0 <= m,
        -(ONE as int) <= b <= ONE as int,
    ensures
        -m <= fmul_s(a, b) <= m,
{
    lemma_fmul_bound(a, b, m, ONE as int);
    lemma_tdiv_exact(m, ONE as int);
}

pub proof fn lemma_fmul_zero(a: int)
    ensures
        fmul_s(a, 0) == 0,
        fmul_s(0, a) == 0,
{
    assert(a * 0 == 0) by (nonlinear_arith);
    assert(0 * a == 0) by (nonlinear_arith);
    assert(tdiv(0, ONE as int) == 0) by {
        vstd::arithmetic::div_mod::lemma_div_of0(ONE as int);
    }
}

/// A nonnegative product of nonnegative factors.
pub proof fn lemma_fmul_nonneg(a: int, b: int)
    requires
        0 <= a,
        0 <= b,
    ensures
        0 <= fmul_s(a, b),
{
    assert(0 <= a * b) by (nonlinear_arith)
        requires
            0 <= a,
            0 <= b,
    ;
    lemma_div_pos_is_pos(a * b, ONE as int);
}

/// A nonpositive product gives a nonpositive fixed-point result.
pub proof fn lemma_fmul_nonpos(a: int, b: int)
    requires
        a <= 0,
        0 <= b,
    ensures
        fmul_s(a, b) <= 0,
{
    assert(a * b <= 0) by (nonlinear_arith)
        requires
            a <= 0,
            0 <= b,
    ;
    if a * b < 0 {
        lemma_div_pos_is_pos(-(a * b), ONE as int);
    } else {
        vstd::arithmetic::div_mod::lemma_div_of0(ONE as int);
    }
}

/// A fixed-point square is nonnegative.
pub proof fn lemma_fmul_square_nonneg(a: int)
    ensures
        0 <= fmul_s(a, a),
{
    assert(0 <= a * a) by (nonlinear_arith);
    lemma_div_pos_is_pos(a * a, ONE as int);
}

/// Fixed-point multiplication, truncating toward zero.
pub fn fmul(a: i64, b: i64) -> (r: i64)
    requires
        -0x7fff_ffff_ffff_ffff * (ONE as int) <= a * b <= 0x7fff_ffff_ffff_ffff * (ONE as int),
    ensures
        r == fmul_s(a as int, b as int),
{
    let p: i128 = (a as i128) * (b as i128);
    proof {
        lemma_tdiv_bound(p as int, 0x7fff_ffff_ffff_ffff * (ONE as int), ONE as int);
        lemma_tdiv_exact(0x7fff_ffff_ffff_ffff, ONE as int);
    }
    let q: i128 = p.checked_div(ONE as i128).unwrap();
    q as i64
}

/// Fixed-point division by a positive divisor, truncating toward zero.
pub fn fdiv(a: i64, b: i64) -> (r: i64)
    requires
        0 < b,
        -0x7fff_ffff_ffff_ffff * (b as int) <= a * (ONE as int) <= 0x7fff_ffff_ffff_ffff * (b as int),
    ensures
        r == fdiv_s(a as int, b as int),
{
    let p: i128 = (a as i128) * (ONE as i128);
    proof {
        let bd = 0x7fff_ffff_ffff_ffff * (b as int);
        lemma_tdiv_bound(p as int, bd, b as int);
        lemma_tdiv_exact(0x7fff_ffff_ffff_ffff, b as int);
    }
    let q: i128 = p.checked_div(b as i128).unwrap();
    q as i64
}

/// Division of a nonnegative value by a positive constant.
pub fn div_pos(a: i64, k: i64) -> (r: i64)
    requires
        0 <= a,
        0 < k,
    ensures
        r == (a as int) / (k as int),
        0 <= r <= a,
{
    proof {
        lemma_div_pos_is_pos(a as int, k as int);
        lemma_div_nonincreasing(a as int, k as int);
    }
    (a as u64 / k as u64) as i64
}

/// Clamps a value into `[lo, hi]`.
pub fn clamp(x: i64, lo: i64, hi: i64) -> (r: i64)
    requires
        lo <= hi,
    ensures
        r == clamp_s(x as int, lo as int, hi as int),
        lo <= r <= hi,
{
    if x < lo {
        lo
    } else if x > hi {
        hi
    } else {
        x
    }
}

/// The value of `clamp`.
pub open spec fn clamp_s(x: int, lo: int, hi: int) -> int {
    if x < lo {
        lo
    } else if x > hi {
        hi
    } else {
        x
    }
}

} // verus!
