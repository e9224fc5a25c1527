//! The limiters applied after voice summing.

use vstd::prelude::*;
use crate::dsp::{ControllableLink, SignalLink, SIG_MAX};
use crate::event::ControlEvent;
use crate::fixed::{ONE, fmul, fdiv, fmul_s, fdiv_s, clamp, clamp_s, lemma_fmul_bound, lemma_abs_mul_bound, lemma_tdiv_exact};
use crate::types::Stereo;

verus! {

/// What the hard limiter does to one channel: values inside `[-ONE, ONE]`
/// pass unchanged, values outside saturate to the unit of their sign.
pub open spec fn hard_limit_s(x: int) -> int {
    if x > ONE {
        ONE as int
    } else if x < -ONE {
        -ONE as int
    } else {
        x
    }
}

/// Clips each channel at unity.
pub struct HardLimiter {}

impl SignalLink for HardLimiter {
    open spec fn inv(&self) -> bool {
        true
    }

    open spec fn accepts(&self, input: Stereo) -> bool {
        true
    }

    /// Passes `|x| <= ONE` exactly and saturates anything louder to the
    /// unit of its sign, channel by channel.
    fn tick(&mut self, input: Stereo) -> (r: Stereo)
        ensures
            r.0 == hard_limit_s(input.0 as int),
            r.1 == hard_limit_s(input.1 as int),
    {
        let mut output = input;
        if input.0 > ONE {
            output.0 = ONE;
        } else if input.0 < -ONE {
            output.0 = -ONE;
        }
        if input.1 > ONE {
            output.1 = ONE;
        } else if input.1 < -ONE {
            output.1 = -ONE;
        }
        output
    }
}

/// What the soft limiter does to one channel: inside `[-3, 3]` the Padé
/// approximation of the hyperbolic tangent, `x·(x² + 27) / (9x² + 27)`,
/// clamped at unity; outside, the unit of the sign.
pub open spec fn soft_limit_s(x: int) -> int {
    if x > 3 * ONE {
        ONE as int
    } else if x < -3 * (ONE as int) {
        -ONE as int
    } else {
        let x2 = fmul_s(x, x);
        let num = fmul_s(x, x2 + 27 * ONE);
        let den = 9 * x2 + 27 * ONE;
        clamp_s(fdiv_s(num, den), -ONE as int, ONE as int)
    }
}

/// Saturates smoothly toward unity.
pub struct SoftLimiter {}

impl SoftLimiter {
    /// One channel of the soft limiter.
    fn limit(x: i64) -> (r: i64)
        requires
            -SIG_MAX <= x <= SIG_MAX,
        ensures
            r == soft_limit_s(x as int),
            -ONE <= r <= ONE,
    {
        if x > 3 * ONE {
            ONE
        } else if x < -3 * ONE {
            -ONE
        } else {
            proof {
                lemma_abs_mul_bound(x as int, x as int, 3 * ONE as int, 3 * ONE as int);
                lemma_fmul_bound(x as int, x as int, 3 * ONE as int, 3 * ONE as int);
                crate::fixed::lemma_fmul_square_nonneg(x as int);
                lemma_tdiv_exact(9 * ONE as int, ONE as int);
                assert(3 * ONE as int * (3 * ONE as int) == 9 * ONE as int * ONE) by (nonlinear_arith);
            }
            let x2 = fmul(x, x);
            // x2 in [0, 9·ONE]
            proof {
                lemma_abs_mul_bound(x as int, x2 + 27 * ONE as int, 3 * ONE as int, 36 * ONE as int);
                lemma_fmul_bound(x as int, x2 + 27 * ONE as int, 3 * ONE as int, 36 * ONE as int);
                lemma_tdiv_exact(108 * ONE as int, ONE as int);
                assert(3 * ONE as int * (36 * ONE as int) == 108 * ONE as int * ONE) by (nonlinear_arith);
            }
            let num = fmul(x, x2 + 27 * ONE);
            // num in [-108·ONE, 108·ONE]
            let den = 9 * x2 + 27 * ONE;
            proof {
                lemma_abs_mul_bound(num as int, ONE as int, 108 * ONE as int, ONE as int);
                assert(108 * (ONE as int) * (ONE as int) <= 0x7fff_ffff_ffff_ffff * (den as int)) by (nonlinear_arith)
                    requires
                        den as int >= 27 * ONE as int,
                ;
            }
            clamp(fdiv(num, den), -ONE, ONE)
        }
    }
}

impl ControllableLink for SoftLimiter {
    open spec fn inv(&self) -> bool {
        true
    }

    open spec fn accepts(&self, input: Stereo) -> bool {
        -SIG_MAX <= input.0 <= SIG_MAX && -SIG_MAX <= input.1 <= SIG_MAX
    }

    /// Applies the Padé saturation channel by channel.
    fn tick(&mut self, input: Stereo) -> (r: Stereo)
        ensures
            r.0 == soft_limit_s(input.0 as int),
            r.1 == soft_limit_s(input.1 as int),
            -ONE <= r.0 <= ONE,
            -ONE <= r.1 <= ONE,
    {
        Stereo(Self::limit(input.0), Self::limit(input.1))
    }

    /// The soft limiter has no parameters.
    fn handle(&mut self, _msg: &ControlEvent) {
    }
}

/// The soft limiter is continuous at the takeover point: at exactly
/// `|x| = 3` the Padé formula already equals the saturated unit that every
/// louder input maps to.
pub proof fn lemma_soft_limiter_continuous_at_three()
    ensures
        soft_limit_s(3 * ONE) == ONE as int,
        soft_limit_s(-3 * (ONE as int)) == -ONE as int,
        forall|x: int| x > 3 * ONE ==> soft_limit_s(x) == ONE as int,
        forall|x: int| x < -3 * (ONE as int) ==> soft_limit_s(x) == -ONE as int,
{
    let s = ONE as int;
    assert(fmul_s(3 * s, 3 * s) == 9 * s) by {
        lemma_tdiv_exact(9 * s, s);
        assert(3 * s * (3 * s) == 9 * s * s) by (nonlinear_arith);
    }
    assert(fmul_s(3 * s, 9 * s + 27 * s) == 108 * s) by {
        lemma_tdiv_exact(108 * s, s);
        assert(3 * s * (9 * s + 27 * s) == 108 * s * s) by (nonlinear_arith);
    }
    assert(fdiv_s(108 * s, 9 * (9 * s) + 27 * s) == s) by {
        lemma_tdiv_exact(s, 108 * s);
        assert(108 * s * s == s * (108 * s)) by (nonlinear_arith);
    }
    assert(fmul_s(-3 * s, -3 * s) == 9 * s) by {
        lemma_tdiv_exact(9 * s, s);
        assert(-3 * s * (-3 * s) == 9 * s * s) by (nonlinear_arith);
    }
    assert(fmul_s(-3 * s, 9 * s + 27 * s) == -108 * s) by {
        lemma_tdiv_exact(-108 * s, s);
        assert(-3 * s * (9 * s + 27 * s) == -108 * s * s) by (nonlinear_arith);
    }
    assert(fdiv_s(-108 * s, 9 * (9 * s) + 27 * s) == -s) by {
        lemma_tdiv_exact(-s, 108 * s);
        assert(-108 * s * s == -s * (108 * s)) by (nonlinear_arith);
    }
}

} // verus!
