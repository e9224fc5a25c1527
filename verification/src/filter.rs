//! The biquad state-variable filter applied after voice summing.
//!
//! Coefficients follow the RBJ cookbook, normalized by `a0 = 1 + α` with
//! `α = sin(w) / 2Q`; the per-tick recurrence keeps the two delayed inputs
//! of the transposed Direct Form II. Everything is Q32 fixed point, pinned
//! exactly to the spec mirrors below; the delayed state saturates at
//! `STATE_MAX` so that no parameter choice can overflow the arithmetic.

use vstd::prelude::*;
use crate::dsp::{ControllableLink, SIG_MAX};
use crate::event::ControlEvent;
use crate::fixed::{ONE, fmul, fdiv, fmul_s, fdiv_s, div_pos, clamp, clamp_s, lemma_fmul_bound, lemma_abs_mul_bound, lemma_tdiv_exact, lemma_tdiv_bound};
use crate::trig::{sin_turn, cos_turn, sin_turn_s, cos_turn_s};
use crate::types::Stereo;

verus! {

/// The filter's frequency response shape.
#[derive(Clone, Copy, Debug, PartialEq, Eq, Structural)]
pub enum FilterType {
    LP,
    HP,
    BP,
    Notch,
}

/// No normalized coefficient exceeds fifty units.
pub const COEFF_MAX: i64 = 0xC8_0000_0000;

/// The delayed filter state saturates at this magnitude.
pub const STATE_MAX: i64 = 0x4_0000_0000_0000;

/// The smallest and largest resonance the filter accepts.
pub const Q_MIN: i64 = 42949673;

pub const Q_MAX: i64 = 429496729600;

/// The biquad coefficient set: denominator `a1, a2` and numerator
/// `b0, b1, b2`, all already divided by `a0`.
#[derive(Clone, Copy, Debug, PartialEq, Eq, Structural)]
pub struct BiquadCoeffs {
    pub a1: i64,
    pub a2: i64,
    pub b0: i64,
    pub b1: i64,
    pub b2: i64,
}

impl BiquadCoeffs {
    /// All coefficients are bounded.
    pub open spec fn wf(&self) -> bool {
        &&& -COEFF_MAX <= self.a1 <= COEFF_MAX
        &&& -COEFF_MAX <= self.a2 <= COEFF_MAX
        &&& -COEFF_MAX <= self.b0 <= COEFF_MAX
        &&& -COEFF_MAX <= self.b1 <= COEFF_MAX
        &&& -COEFF_MAX <= self.b2 <= COEFF_MAX
    }
}

/// The RBJ cookbook coefficients at a normalized frequency `w` (Q32 turns,
/// at most half a turn) and resonance `q`, divided through by `1 + α`.
pub open spec fn coeffs_s(w: int, q: int, filter_type: FilterType) -> BiquadCoeffs {
    let sinw = sin_turn_s(w);
    let cosw = cos_turn_s(w);
    let alpha = fdiv_s(sinw, 2 * q);
    let a0 = ONE + alpha;
    let a1 = -2 * cosw;
    let a2 = ONE - alpha;
    let (b0, b1, b2) = match filter_type {
        FilterType::LP => ((ONE - cosw) / 2, ONE - cosw, (ONE - cosw) / 2),
        FilterType::HP => ((ONE + cosw) / 2, -ONE as int - cosw, (ONE + cosw) / 2),
        FilterType::BP => (alpha, 0int, -alpha),
        FilterType::Notch => (ONE as int, -2 * cosw, ONE as int),
    };
    BiquadCoeffs {
        a1: fdiv_s(a1, a0) as i64,
        a2: fdiv_s(a2, a0) as i64,
        b0: fdiv_s(b0, a0) as i64,
        b1: fdiv_s(b1, a0) as i64,
        b2: fdiv_s(b2, a0) as i64,
    }
}

/// One channel of the filter recurrence: the new forward state (saturated)
/// and the output sample.
pub open spec fn biquad_step_s(c: BiquadCoeffs, x: int, x1: int, x2: int) -> (int, int) {
    let fw = clamp_s(x - fmul_s(x1, c.a1 as int) - fmul_s(x2, c.a2 as int), -STATE_MAX as int, STATE_MAX as int);
    let y = clamp_s(
        fmul_s(fw, c.b0 as int) + fmul_s(x1, c.b1 as int) + fmul_s(x2, c.b2 as int),
        -SIG_MAX as int,
        SIG_MAX as int,
    );
    (fw, y)
}

/// What a set of the cutoff does to a filter: the cutoff clamps below
/// Nyquist, the normalized frequency follows, the coefficients refresh.
pub open spec fn freq_set_s(f: Filter, freq: int) -> Filter {
    let fc = clamp_s(freq, 0, ((f.sample_rate as int) / 2) * (ONE as int));
    let w = clamp_s(fc / (f.sample_rate as int), 0, (ONE as int) / 2);
    Filter {
        fc: fc as i64,
        w: w as i64,
        coeffs: coeffs_s(w, f.q as int, f.filter_type),
        ..f
    }
}

/// What a set of the resonance does to a filter.
pub open spec fn q_set_s(f: Filter, q: int) -> Filter {
    let qc = clamp_s(q, Q_MIN as int, Q_MAX as int);
    Filter { q: qc as i64, coeffs: coeffs_s(f.w as int, qc, f.filter_type), ..f }
}

/// What a switch of the response shape does to a filter.
pub open spec fn type_set_s(f: Filter, filter_type: FilterType) -> Filter {
    Filter { filter_type, coeffs: coeffs_s(f.w as int, f.q as int, filter_type), ..f }
}

/// What a partial filter update does: each present field is applied in
/// order — type, then cutoff, then resonance.
pub open spec fn filter_handled_s(f: Filter, msg: ControlEvent) -> Filter {
    match msg {
        ControlEvent::Filter { filter_type, freq, q } => {
            let f1 = match filter_type {
                Some(t) => type_set_s(f, t),
                None => f,
            };
            let f2 = match freq {
                Some(fr) => freq_set_s(f1, fr as int),
                None => f1,
            };
            match q {
                Some(qq) => q_set_s(f2, qq as int),
                None => f2,
            }
        },
        _ => f,
    }
}

/// The biquad filter.
pub struct Filter {
    pub sample_rate: usize,
    pub filter_type: FilterType,
    /// Cutoff in Q32 Hz.
    pub fc: i64,
    /// Resonance.
    pub q: i64,
    /// Normalized cutoff in Q32 turns, at most half a turn.
    pub w: i64,
    /// Unity output gain.
    pub a: i64,
    pub coeffs: BiquadCoeffs,
    /// The two delayed forward values, newest first.
    pub x1: Stereo,
    pub x2: Stereo,
}

impl Filter {
    /// The invariant every reachable filter satisfies.
    pub open spec fn wf(&self) -> bool {
        &&& 8000 <= self.sample_rate <= 96000
        &&& 0 <= self.fc
        &&& Q_MIN <= self.q <= Q_MAX
        &&& 0 <= self.w && 2 * self.w <= ONE
        &&& self.coeffs.wf()
        &&& -STATE_MAX <= self.x1.0 <= STATE_MAX && -STATE_MAX <= self.x1.1 <= STATE_MAX
        &&& -STATE_MAX <= self.x2.0 <= STATE_MAX && -STATE_MAX <= self.x2.1 <= STATE_MAX
    }

    /// A lowpass at the Nyquist frequency with unit resonance.
    pub fn new(sample_rate: usize) -> (r: Filter)
        requires
            8000 <= sample_rate <= 96000,
        ensures
            r.wf(),
            r.filter_type == FilterType::LP,
            r.sample_rate == sample_rate,
            r.q == ONE,
            r.fc == ((sample_rate as int) / 2) * (ONE as int),
            r.w == clamp_s((r.fc as int) / (sample_rate as int), 0, (ONE as int) / 2),
            r.coeffs == coeffs_s(r.w as int, ONE as int, FilterType::LP),
            r.x1 == Stereo(0i64, 0i64) && r.x2 == Stereo(0i64, 0i64),
    {
        let fc = (sample_rate as i64 / 2) * ONE;
        let w = clamp(div_pos(fc, sample_rate as i64), 0, ONE / 2);
        let q = ONE;
        let filter_type = FilterType::LP;
        let coeffs = Filter::coeffs(w, q, filter_type);
        Filter {
            sample_rate,
            filter_type,
            fc,
            q,
            w,
            a: ONE,
            coeffs,
            x1: Stereo(0, 0),
            x2: Stereo(0, 0),
        }
    }

    /// Computes the normalized cookbook coefficients.
    fn coeffs(w: i64, q: i64, filter_type: FilterType) -> (r: BiquadCoeffs)
        requires
            0 <= w && 2 * w <= ONE,
            Q_MIN <= q <= Q_MAX,
        ensures
            r == coeffs_s(w as int, q as int, filter_type),
            r.wf(),
    {
        let sinw = sin_turn(w);
        let cosw = cos_turn(w);
        proof {
            lemma_abs_mul_bound(sinw as int, ONE as int, ONE as int, ONE as int);
            // alpha = sinw / 2q is at most 50 units for q at least Q_MIN
            lemma_tdiv_bound(sinw as int * ONE, ONE as int * ONE, 2 * q as int);
            vstd::arithmetic::div_mod::lemma_div_is_ordered_by_denominator(ONE as int * ONE, 2 * Q_MIN as int, 2 * q as int);
            lemma_tdiv_exact(50 * (ONE as int), 2 * Q_MIN as int);
            assert(ONE as int * ONE <= 50 * (ONE as int) * (2 * Q_MIN as int)) by (nonlinear_arith);
            vstd::arithmetic::div_mod::lemma_div_is_ordered(ONE as int * ONE, 50 * (ONE as int) * (2 * Q_MIN as int), 2 * Q_MIN as int);
            assert(ONE as int * ONE <= 0x7fff_ffff_ffff_ffff * (2 * (q as int))) by (nonlinear_arith)
                requires
                    q as int >= Q_MIN as int,
            ;
        }
        let alpha = fdiv(sinw, 2 * q);
        // alpha is nonnegative because sin is nonnegative on the first
        // half turn, so a0 is at least one
        proof {
            assert(0 <= (sinw as int) * (ONE as int)) by (nonlinear_arith)
                requires
                    0 <= sinw as int,
            ;
            vstd::arithmetic::div_mod::lemma_div_pos_is_pos((sinw as int) * (ONE as int), 2 * (q as int));
        }
        let a0 = ONE + alpha;
        proof {
            assert(-2 * (ONE as int) <= -2 * (cosw as int) <= 2 * (ONE as int));
        }
        let a1 = -2 * cosw;
        let a2 = ONE - alpha;
        let (b0, b1, b2) = match filter_type {
            FilterType::LP => ((ONE - cosw) / 2, ONE - cosw, (ONE - cosw) / 2),
            FilterType::HP => ((ONE + cosw) / 2, -ONE - cosw, (ONE + cosw) / 2),
            FilterType::BP => (alpha, 0i64, -alpha),
            FilterType::Notch => (ONE, -2 * cosw, ONE),
        };
        BiquadCoeffs {
            a1: Self::norm(a1, a0),
            a2: Self::norm(a2, a0),
            b0: Self::norm(b0, a0),
            b1: Self::norm(b1, a0),
            b2: Self::norm(b2, a0),
        }
    }

    /// Divides a raw coefficient by `a0`; with `a0` at least one the
    /// magnitude cannot grow.
    fn norm(x: i64, a0: i64) -> (r: i64)
        requires
            -COEFF_MAX <= x <= COEFF_MAX,
            ONE <= a0,
        ensures
            r == fdiv_s(x as int, a0 as int),
            -COEFF_MAX <= r <= COEFF_MAX,
    {
        proof {
            lemma_abs_mul_bound(x as int, ONE as int, COEFF_MAX as int, ONE as int);
            lemma_tdiv_bound(x as int * ONE, COEFF_MAX as int * ONE, a0 as int);
            vstd::arithmetic::div_mod::lemma_div_is_ordered_by_denominator(COEFF_MAX as int * ONE, ONE as int, a0 as int);
            lemma_tdiv_exact(COEFF_MAX as int, ONE as int);
            assert(COEFF_MAX as int * ONE == COEFF_MAX as int * (ONE as int)) by (nonlinear_arith);
            assert(COEFF_MAX as int * ONE <= 0x7fff_ffff_ffff_ffff * (a0 as int)) by (nonlinear_arith)
                requires
                    a0 as int >= ONE as int,
            ;
        }
        fdiv(x, a0)
    }

    /// Sets the cutoff (clamped below Nyquist) and recomputes the
    /// coefficients.
    pub fn set_freq(&mut self, freq: i64)
        requires
            old(self).wf(),
        ensures
            final(self).wf(),
            *final(self) == (Filter {
                fc: clamp_s(freq as int, 0, ((old(self).sample_rate as int) / 2) * (ONE as int)) as i64,
                w: final(self).w,
                coeffs: final(self).coeffs,
                ..*old(self)
            }),
            final(self).w == clamp_s((final(self).fc as int) / (old(self).sample_rate as int), 0, (ONE as int) / 2),
            final(self).coeffs == coeffs_s(final(self).w as int, old(self).q as int, old(self).filter_type),
    {
        self.fc = clamp(freq, 0, (self.sample_rate as i64 / 2) * ONE);
        self.w = clamp(div_pos(self.fc, self.sample_rate as i64), 0, ONE / 2);
        self.update_coeffs();
    }

    /// Sets the resonance (clamped into its working range) and recomputes
    /// the coefficients.
    pub fn set_q(&mut self, q: i64)
        requires
            old(self).wf(),
        ensures
            final(self).wf(),
            *final(self) == (Filter {
                q: clamp_s(q as int, Q_MIN as int, Q_MAX as int) as i64,
                coeffs: final(self).coeffs,
                ..*old(self)
            }),
            final(self).coeffs == coeffs_s(old(self).w as int, final(self).q as int, old(self).filter_type),
    {
        self.q = clamp(q, Q_MIN, Q_MAX);
        self.update_coeffs();
    }

    /// Recomputes the coefficients from the held parameters.
    fn update_coeffs(&mut self)
        requires
            old(self).wf(),
        ensures
            final(self).wf(),
            *final(self) == (Filter { coeffs: coeffs_s(old(self).w as int, old(self).q as int, old(self).filter_type), ..*old(self) }),
    {
        self.coeffs = Filter::coeffs(self.w, self.q, self.filter_type);
    }

    /// Switches the response shape and recomputes the coefficients.
    pub fn set_filter_type(&mut self, filter_type: FilterType)
        requires
            old(self).wf(),
        ensures
            final(self).wf(),
            *final(self) == (Filter {
                filter_type,
                coeffs: coeffs_s(old(self).w as int, old(self).q as int, filter_type),
                ..*old(self)
            }),
    {
        self.filter_type = filter_type;
        self.update_coeffs();
    }

    /// One channel of the recurrence.
    fn step(c: BiquadCoeffs, x: i64, x1: i64, x2: i64) -> (r: (i64, i64))
        requires
            c.wf(),
            -SIG_MAX <= x <= SIG_MAX,
            -STATE_MAX <= x1 <= STATE_MAX,
            -STATE_MAX <= x2 <= STATE_MAX,
        ensures
            (r.0 as int, r.1 as int) == biquad_step_s(c, x as int, x1 as int, x2 as int),
            -STATE_MAX <= r.0 <= STATE_MAX,
            -SIG_MAX <= r.1 <= SIG_MAX,
    {
        proof {
            lemma_step_products(x1 as int, c.a1 as int);
            lemma_step_products(x2 as int, c.a2 as int);
        }
        let fw = clamp(x - fmul(x1, c.a1) - fmul(x2, c.a2), -STATE_MAX, STATE_MAX);
        proof {
            lemma_step_products(fw as int, c.b0 as int);
            lemma_step_products(x1 as int, c.b1 as int);
            lemma_step_products(x2 as int, c.b2 as int);
        }
        let y = clamp(fmul(fw, c.b0) + fmul(x1, c.b1) + fmul(x2, c.b2), -SIG_MAX, SIG_MAX);
        (fw, y)
    }
}

/// A state value times a coefficient stays well inside the word.
proof fn lemma_step_products(x: int, c: int)
    requires
        -STATE_MAX <= x <= STATE_MAX,
        -COEFF_MAX <= c <= COEFF_MAX,
    ensures
        -0x7fff_ffff_ffff_ffff * (ONE as int) <= x * c <= 0x7fff_ffff_ffff_ffff * (ONE as int),
        -225179981368524800 <= fmul_s(x, c) <= 225179981368524800,
{
    lemma_abs_mul_bound(x, c, STATE_MAX as int, COEFF_MAX as int);
    lemma_fmul_bound(x, c, STATE_MAX as int, COEFF_MAX as int);
    lemma_tdiv_exact(225179981368524800, ONE as int);
    assert(STATE_MAX as int * (COEFF_MAX as int) == 225179981368524800 * (ONE as int)) by (nonlinear_arith);
}

impl ControllableLink for Filter {
    open spec fn inv(&self) -> bool {
        self.wf()
    }

    open spec fn accepts(&self, input: Stereo) -> bool {
        -SIG_MAX <= input.0 <= SIG_MAX && -SIG_MAX <= input.1 <= SIG_MAX
    }

    /// One frame through the biquad recurrence, both channels sharing the
    /// coefficients, exactly as `biquad_step_s` describes.
    fn tick(&mut self, input: Stereo) -> (r: Stereo)
        ensures
            ({
                let o = *old(self);
                let l = biquad_step_s(o.coeffs, input.0 as int, o.x1.0 as int, o.x2.0 as int);
                let rr = biquad_step_s(o.coeffs, input.1 as int, o.x1.1 as int, o.x2.1 as int);
                &&& (r.0 as int, r.1 as int) == (l.1, rr.1)
                &&& *final(self) == (Filter {
                    x1: Stereo(l.0 as i64, rr.0 as i64),
                    x2: o.x1,
                    ..o
                })
            }),
            -SIG_MAX <= r.0 <= SIG_MAX,
            -SIG_MAX <= r.1 <= SIG_MAX,
    {
        let (fw_l, y_l) = Filter::step(self.coeffs, input.0, self.x1.0, self.x2.0);
        let (fw_r, y_r) = Filter::step(self.coeffs, input.1, self.x1.1, self.x2.1);
        self.x2 = self.x1;
        self.x1 = Stereo(fw_l, fw_r);
        Stereo(y_l, y_r)
    }

    /// A partial parameter update: each present field is applied in order
    /// (type, then cutoff, then resonance), recomputing the coefficients,
    /// exactly as `filter_handled_s` describes.
    fn handle(&mut self, msg: &ControlEvent)
        ensures
            *final(self) == filter_handled_s(*old(self), *msg),
    {
        if let ControlEvent::Filter { filter_type, freq, q } = msg {
            if let Some(some_type) = filter_type {
                self.set_filter_type(*some_type);
            }
            if let Some(some_freq) = freq {
                self.set_freq(*some_freq);
            }
            if let Some(some_q) = q {
                self.set_q(*some_q);
            }
        }
    }
}

} // verus!
