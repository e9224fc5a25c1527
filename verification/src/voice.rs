//! One polyphonic voice: four oscillators through four envelopes with
//! per-oscillator level and pan, phase-modulating each other through a
//! 4-by-4 FM matrix; and the voice manager that allocates voices to keys
//! with note-stealing.

use vstd::prelude::*;
use std::collections::VecDeque;
use crate::db::from_db_s;
use crate::dsp::SignalSource;
use crate::env_gen::{ADSR, ADSRState, ADSRModel};
use crate::event::{ControlEvent, Controllable};
use crate::fixed::{ONE, fmul, fmul_s, tdiv, clamp, clamp_s, lemma_fmul_bound, lemma_fmul_one_bound, lemma_fmul_nonneg, lemma_fmul_zero, lemma_fmul_square_nonneg, lemma_abs_mul_bound, lemma_tdiv_exact, lemma_tdiv_bound};
use crate::pitch::{pitch_of, PitchConvert, CONCERT_A};
use crate::types::{Shared, Stereo, MINUS_THREE_DB, Wrap};
use crate::wavetable::{built_set_rel, waveform_at, BandLimitedTables, WavetableOsc, osc_raw_s, osc_ticked_s, osc_with_phase_s, osc_handled_s, generate_wavetables};

verus! {

/// The largest magnitude an FM matrix entry accepts: 16 in Q32.
pub const FM_LIMIT: i64 = 0x10_0000_0000;

/// Events below -60 dB cut an oscillator level to exact silence.
pub const VOLUME_FLOOR: i64 = -257698037760;

/// The fundamental frequency the wavetable sets are built for: 20 Hz in Q32.
pub const BASE_FREQ: i64 = 85899345920;

/// The per-oscillator gain a `Volume` event sets: silence below the
/// -60 dB floor, otherwise the decibel amount made linear. Amounts above
/// 0 dB cap at unity gain — a deliberate narrowing that keeps every level
/// within the unit invariant; the verified control surface only produces
/// amounts at or below 0 dB.
pub open spec fn volume_gain_s(db: int) -> int {
    if db < VOLUME_FLOOR {
        0
    } else {
        from_db_s(if db > 0 { 0 } else { db })
    }
}

/// The pan law: centered values sit both channels at -3 dB; off center,
/// the square of the position pulls one channel up and the other down by
/// the same quadratic amount.
pub open spec fn pan_frame_s(p_raw: int) -> (int, int) {
    let p = clamp_s(p_raw, -ONE as int, ONE as int);
    if -FEQ < p < FEQ {
        (MINUS_THREE_DB as int, MINUS_THREE_DB as int)
    } else {
        let d = fmul_s(fmul_s(p, p), ONE - MINUS_THREE_DB);
        if p > 0 {
            (MINUS_THREE_DB - d, MINUS_THREE_DB + d)
        } else {
            (MINUS_THREE_DB + d, MINUS_THREE_DB - d)
        }
    }
}

/// Values this close to zero count as zero in control comparisons.
pub const FEQ: i64 = 429;

/// The row of the FM matrix an oscillator id addresses; anything but
/// `OSC1`..`OSC4` addresses none.
pub open spec fn fm_row_s(id: Seq<char>) -> int {
    if id == "OSC1"@ {
        0
    } else if id == "OSC2"@ {
        1
    } else if id == "OSC3"@ {
        2
    } else if id == "OSC4"@ {
        3
    } else {
        4
    }
}

/// One polyphonic voice.
pub struct Voice {
    /// The 4-by-4 FM matrix, row-major: row `i`, column `j` is how much
    /// oscillator `j` modulates oscillator `i`'s phase.
    pub fm_mod: Vec<i64>,
    /// Per-oscillator linear gains.
    pub levels: Vec<i64>,
    /// Per-oscillator pan frames.
    pub pan: Vec<Stereo>,
    pub env1: ADSR,
    pub env2: ADSR,
    pub env3: ADSR,
    pub env4: ADSR,
    pub osc1: WavetableOsc,
    pub osc2: WavetableOsc,
    pub osc3: WavetableOsc,
    pub osc4: WavetableOsc,
}

impl Voice {
    /// The invariant every reachable voice satisfies.
    #[verifier::opaque]
    pub open spec fn wf(&self) -> bool {
        &&& self.fm_mod@.len() == 16
        &&& forall|i: int| 0 <= i < 16 ==> -FM_LIMIT <= #[trigger] self.fm_mod@[i] <= FM_LIMIT
        &&& self.levels@.len() == 4
        &&& forall|i: int| 0 <= i < 4 ==> 0 <= #[trigger] self.levels@[i] <= ONE
        &&& self.pan@.len() == 4
        &&& forall|i: int| 0 <= i < 4 ==> 0 <= (#[trigger] self.pan@[i]).0 <= ONE && 0 <= self.pan@[i].1 <= ONE
        &&& self.env1@.wf() && self.env2@.wf() && self.env3@.wf() && self.env4@.wf()
        &&& self.osc1.wf() && self.osc2.wf() && self.osc3.wf() && self.osc4.wf()
    }

    /// The oscillator samples one tick draws, each already scaled by its
    /// envelope.
    pub open spec fn sample_of(&self, i: int) -> int {
        let (o, e) = self.part(i);
        fmul_s(osc_raw_s(o), e.tick_s().1)
    }

    /// The oscillator and envelope model at a slot.
    pub open spec fn part(&self, i: int) -> (WavetableOsc, ADSRModel) {
        if i == 0 {
            (self.osc1, self.env1@)
        } else if i == 1 {
            (self.osc2, self.env2@)
        } else if i == 2 {
            (self.osc3, self.env3@)
        } else {
            (self.osc4, self.env4@)
        }
    }

    /// The frame one tick emits: the enveloped samples, each through its
    /// level and pan, summed.
    #[verifier::opaque]
    pub open spec fn frame_s(&self) -> (int, int) {
        let t0 = self.term(0);
        let t1 = self.term(1);
        let t2 = self.term(2);
        let t3 = self.term(3);
        (t0.0 + t1.0 + t2.0 + t3.0, t0.1 + t1.1 + t2.1 + t3.1)
    }

    /// One oscillator's contribution to the frame.
    pub open spec fn term(&self, i: int) -> (int, int) {
        let s = fmul_s(self.sample_of(i), self.levels@[i] as int);
        (fmul_s(s, self.pan@[i].0 as int), fmul_s(s, self.pan@[i].1 as int))
    }

    /// The phase-modulation input one tick hands to oscillator `i`.
    pub open spec fn phase_input(&self, i: int) -> int {
        fmul_s(self.sample_of(0), self.fm_mod@[4 * i] as int)
            + fmul_s(self.sample_of(1), self.fm_mod@[4 * i + 1] as int)
            + fmul_s(self.sample_of(2), self.fm_mod@[4 * i + 2] as int)
            + fmul_s(self.sample_of(3), self.fm_mod@[4 * i + 3] as int)
    }

    /// Whether any envelope is still shaping sound.
    pub open spec fn running_s(&self) -> bool {
        ||| self.env1@.state != ADSRState::Off
        ||| self.env2@.state != ADSRState::Off
        ||| self.env3@.state != ADSRState::Off
        ||| self.env4@.state != ADSRState::Off
    }

    /// How one tick advances a voice: envelopes and oscillators step, and
    /// each oscillator's phase offset becomes its FM input; levels, pans
    /// and the matrix stay.
    #[verifier::opaque]
    pub open spec fn ticked_rel(pre: Voice, post: Voice) -> bool {
        &&& post.fm_mod@ == pre.fm_mod@
        &&& post.levels@ == pre.levels@
        &&& post.pan@ == pre.pan@
        &&& post.env1@ == pre.env1@.tick_s().0
        &&& post.env2@ == pre.env2@.tick_s().0
        &&& post.env3@ == pre.env3@.tick_s().0
        &&& post.env4@ == pre.env4@.tick_s().0
        &&& post.osc1 == osc_with_phase_s(osc_ticked_s(pre.osc1), pre.phase_input(0))
        &&& post.osc2 == osc_with_phase_s(osc_ticked_s(pre.osc2), pre.phase_input(1))
        &&& post.osc3 == osc_with_phase_s(osc_ticked_s(pre.osc3), pre.phase_input(2))
        &&& post.osc4 == osc_with_phase_s(osc_ticked_s(pre.osc4), pre.phase_input(3))
    }

    /// A fresh voice: four sine oscillators named `OSC1`..`OSC4`, four
    /// envelopes named `ADSR-OSC1`..`ADSR-OSC4`, the first oscillator at
    /// -3 dB and the rest silent, everything panned center, no modulation.
    pub fn new(sample_rate: usize, wavetables: Shared<BandLimitedTables>, pitch_convert: Shared<PitchConvert>) -> (r: Voice)
        requires
            8000 <= sample_rate <= 96000,
            (*wavetables).wf(),
            (*pitch_convert).wf(),
        ensures
            r.wf(),
            !r.running_s(),
            r.levels@[0] == MINUS_THREE_DB && r.levels@[1] == 0 && r.levels@[2] == 0 && r.levels@[3] == 0,
            forall|i: int| 0 <= i < 4 ==> #[trigger] r.pan@[i] == Stereo(MINUS_THREE_DB, MINUS_THREE_DB),
            forall|i: int| 0 <= i < 16 ==> #[trigger] r.fm_mod@[i] == 0,
            r.osc1.id@ == "OSC1"@ && r.osc2.id@ == "OSC2"@ && r.osc3.id@ == "OSC3"@ && r.osc4.id@ == "OSC4"@,
            r.env1@.id == "ADSR-OSC1"@ && r.env2@.id == "ADSR-OSC2"@ && r.env3@.id == "ADSR-OSC3"@ && r.env4@.id == "ADSR-OSC4"@,
            r.osc1.tables == wavetables && r.osc2.tables == wavetables && r.osc3.tables == wavetables && r.osc4.tables == wavetables,
            r.osc1.pitch_convert == pitch_convert && r.osc2.pitch_convert == pitch_convert
                && r.osc3.pitch_convert == pitch_convert && r.osc4.pitch_convert == pitch_convert,
    {
        proof {
            reveal(Voice::wf);
        }
        let mut fm_mod: Vec<i64> = Vec::new();
        let mut k: usize = 0;
        while k < 16
            invariant
                0 <= k <= 16,
                fm_mod@.len() == k,
                forall|i: int| 0 <= i < k ==> #[trigger] fm_mod@[i] == 0,
            decreases 16 - k,
        {
            fm_mod.push(0);
            k = k + 1;
        }
        let mut levels: Vec<i64> = Vec::new();
        levels.push(MINUS_THREE_DB);
        levels.push(0);
        levels.push(0);
        levels.push(0);
        let mut pan: Vec<Stereo> = Vec::new();
        pan.push(Stereo(MINUS_THREE_DB, MINUS_THREE_DB));
        pan.push(Stereo(MINUS_THREE_DB, MINUS_THREE_DB));
        pan.push(Stereo(MINUS_THREE_DB, MINUS_THREE_DB));
        pan.push(Stereo(MINUS_THREE_DB, MINUS_THREE_DB));
        Voice {
            fm_mod,
            levels,
            pan,
            env1: ADSR::with_id(sample_rate, "ADSR-OSC1".to_owned()),
            env2: ADSR::with_id(sample_rate, "ADSR-OSC2".to_owned()),
            env3: ADSR::with_id(sample_rate, "ADSR-OSC3".to_owned()),
            env4: ADSR::with_id(sample_rate, "ADSR-OSC4".to_owned()),
            osc1: WavetableOsc::with_id("OSC1".to_owned(), sample_rate, wavetables.clone(), pitch_convert.clone()),
            osc2: WavetableOsc::with_id("OSC2".to_owned(), sample_rate, wavetables.clone(), pitch_convert.clone()),
            osc3: WavetableOsc::with_id("OSC3".to_owned(), sample_rate, wavetables.clone(), pitch_convert.clone()),
            osc4: WavetableOsc::with_id("OSC4".to_owned(), sample_rate, wavetables, pitch_convert),
        }
    }

    /// Whether any envelope is still shaping sound.
    pub fn running(&self) -> (r: bool)
        ensures
            r == self.running_s(),
    {
        let s1 = self.env1.state();
        let s2 = self.env2.state();
        let s3 = self.env3.state();
        let s4 = self.env4.state();
        !(matches!(s1, ADSRState::Off) && matches!(s2, ADSRState::Off) && matches!(s3, ADSRState::Off)
            && matches!(s4, ADSRState::Off))
    }

    /// One audio tick, exactly as `frame_s` and `ticked_rel` describe.
    #[verifier::rlimit(100)]
    pub fn tick(&mut self) -> (r: Stereo)
        requires
            old(self).wf(),
        ensures
            final(self).wf(),
            Voice::ticked_rel(*old(self), *final(self)),
            (r.0 as int, r.1 as int) == old(self).frame_s(),
            -4 * (ONE as int) <= r.0 <= 4 * (ONE as int),
            -4 * (ONE as int) <= r.1 <= 4 * (ONE as int),
    {
        proof {
            reveal(Voice::wf);
            reveal(Voice::frame_s);
            reveal(Voice::ticked_rel);
        }
        let o1 = self.osc1.tick();
        let e1 = self.env1.tick();
        let o2 = self.osc2.tick();
        let e2 = self.env2.tick();
        let o3 = self.osc3.tick();
        let e3 = self.env3.tick();
        let o4 = self.osc4.tick();
        let e4 = self.env4.tick();
        proof {
            lemma_sample_bounds(o1 as int, e1 as int);
            lemma_sample_bounds(o2 as int, e2 as int);
            lemma_sample_bounds(o3 as int, e3 as int);
            lemma_sample_bounds(o4 as int, e4 as int);
        }
        let s1 = fmul(o1, e1);
        let s2 = fmul(o2, e2);
        let s3 = fmul(o3, e3);
        let s4 = fmul(o4, e4);
        proof {
            lemma_term_bounds(s1 as int, self.levels@[0] as int, self.pan@[0].0 as int, self.pan@[0].1 as int);
            lemma_term_bounds(s2 as int, self.levels@[1] as int, self.pan@[1].0 as int, self.pan@[1].1 as int);
            lemma_term_bounds(s3 as int, self.levels@[2] as int, self.pan@[2].0 as int, self.pan@[2].1 as int);
            lemma_term_bounds(s4 as int, self.levels@[3] as int, self.pan@[3].0 as int, self.pan@[3].1 as int);
        }
        let u1 = fmul(s1, self.levels[0]);
        let u2 = fmul(s2, self.levels[1]);
        let u3 = fmul(s3, self.levels[2]);
        let u4 = fmul(s4, self.levels[3]);
        let frame = Stereo(
            fmul(u1, self.pan[0].0) + fmul(u2, self.pan[1].0) + fmul(u3, self.pan[2].0) + fmul(u4, self.pan[3].0),
            fmul(u1, self.pan[0].1) + fmul(u2, self.pan[1].1) + fmul(u3, self.pan[2].1) + fmul(u4, self.pan[3].1),
        );
        proof {
            lemma_fm_bounds(s1 as int, self.fm_mod@[0] as int);
            lemma_fm_bounds(s2 as int, self.fm_mod@[1] as int);
            lemma_fm_bounds(s3 as int, self.fm_mod@[2] as int);
            lemma_fm_bounds(s4 as int, self.fm_mod@[3] as int);
            lemma_fm_bounds(s1 as int, self.fm_mod@[4] as int);
            lemma_fm_bounds(s2 as int, self.fm_mod@[5] as int);
            lemma_fm_bounds(s3 as int, self.fm_mod@[6] as int);
            lemma_fm_bounds(s4 as int, self.fm_mod@[7] as int);
            lemma_fm_bounds(s1 as int, self.fm_mod@[8] as int);
            lemma_fm_bounds(s2 as int, self.fm_mod@[9] as int);
            lemma_fm_bounds(s3 as int, self.fm_mod@[10] as int);
            lemma_fm_bounds(s4 as int, self.fm_mod@[11] as int);
            lemma_fm_bounds(s1 as int, self.fm_mod@[12] as int);
            lemma_fm_bounds(s2 as int, self.fm_mod@[13] as int);
            lemma_fm_bounds(s3 as int, self.fm_mod@[14] as int);
            lemma_fm_bounds(s4 as int, self.fm_mod@[15] as int);
        }
        let p1 = fmul(s1, self.fm_mod[0]) + fmul(s2, self.fm_mod[1]) + fmul(s3, self.fm_mod[2]) + fmul(s4, self.fm_mod[3]);
        let p2 = fmul(s1, self.fm_mod[4]) + fmul(s2, self.fm_mod[5]) + fmul(s3, self.fm_mod[6]) + fmul(s4, self.fm_mod[7]);
        let p3 = fmul(s1, self.fm_mod[8]) + fmul(s2, self.fm_mod[9]) + fmul(s3, self.fm_mod[10]) + fmul(s4, self.fm_mod[11]);
        let p4 = fmul(s1, self.fm_mod[12]) + fmul(s2, self.fm_mod[13]) + fmul(s3, self.fm_mod[14]) + fmul(s4, self.fm_mod[15]);
        self.osc1.set_phase(p1);
        self.osc2.set_phase(p2);
        self.osc3.set_phase(p3);
        self.osc4.set_phase(p4);
        frame
    }
}

/// An enveloped oscillator sample stays within one unit.
proof fn lemma_sample_bounds(o: int, e: int)
    requires
        -ONE <= o <= ONE,
        0 <= e <= ONE,
    ensures
        -0x7fff_ffff_ffff_ffff * (ONE as int) <= o * e <= 0x7fff_ffff_ffff_ffff * (ONE as int),
        -ONE <= fmul_s(o, e) <= ONE,
{
    lemma_abs_mul_bound(o, e, ONE as int, ONE as int);
    lemma_fmul_one_bound(o, e, ONE as int);
}

/// Levelled and panned samples stay within one unit per channel.
proof fn lemma_term_bounds(s: int, level: int, pl: int, pr: int)
    requires
        -ONE <= s <= ONE,
        0 <= level <= ONE,
        0 <= pl <= ONE,
        0 <= pr <= ONE,
    ensures
        -0x7fff_ffff_ffff_ffff * (ONE as int) <= s * level <= 0x7fff_ffff_ffff_ffff * (ONE as int),
        -ONE <= fmul_s(s, level) <= ONE,
        -0x7fff_ffff_ffff_ffff * (ONE as int) <= fmul_s(s, level) * pl <= 0x7fff_ffff_ffff_ffff * (ONE as int),
        -0x7fff_ffff_ffff_ffff * (ONE as int) <= fmul_s(s, level) * pr <= 0x7fff_ffff_ffff_ffff * (ONE as int),
        -ONE <= fmul_s(fmul_s(s, level), pl) <= ONE,
        -ONE <= fmul_s(fmul_s(s, level), pr) <= ONE,
{
    lemma_abs_mul_bound(s, level, ONE as int, ONE as int);
    lemma_fmul_one_bound(s, level, ONE as int);
    lemma_abs_mul_bound(fmul_s(s, level), pl, ONE as int, ONE as int);
    lemma_abs_mul_bound(fmul_s(s, level), pr, ONE as int, ONE as int);
    lemma_fmul_one_bound(fmul_s(s, level), pl, ONE as int);
    lemma_fmul_one_bound(fmul_s(s, level), pr, ONE as int);
}

/// One FM product stays within sixteen units.
proof fn lemma_fm_bounds(s: int, fm: int)
    requires
        -ONE <= s <= ONE,
        -FM_LIMIT <= fm <= FM_LIMIT,
    ensures
        -0x7fff_ffff_ffff_ffff * (ONE as int) <= s * fm <= 0x7fff_ffff_ffff_ffff * (ONE as int),
        -16 * (ONE as int) <= fmul_s(s, fm) <= 16 * (ONE as int),
{
    lemma_abs_mul_bound(s, fm, ONE as int, FM_LIMIT as int);
    lemma_fmul_one_bound(fm, s, FM_LIMIT as int);
    assert(fm * s == s * fm) by (nonlinear_arith);
}

impl Voice {
    /// What a control event does to a voice: `Volume`, `Pan` and `FM` set
    /// the voice's own tables; everything else reaches every oscillator and
    /// envelope inside.
    pub open spec fn handled_rel(pre: Voice, post: Voice, msg: ControlEvent) -> bool {
        match msg {
            ControlEvent::Volume(vol) => {
                &&& post == (Voice { levels: post.levels, ..pre })
                &&& post.levels@.len() == 4
                &&& forall|j: int| 0 <= j < 4 ==> #[trigger] post.levels@[j] == if j < vol@.len() {
                    volume_gain_s(vol@[j] as int)
                } else {
                    pre.levels@[j] as int
                }
            },
            ControlEvent::Pan(pan) => {
                &&& post == (Voice { pan: post.pan, ..pre })
                &&& post.pan@.len() == 4
                &&& forall|j: int| 0 <= j < 4 ==> ((#[trigger] post.pan@[j]).0 as int, post.pan@[j].1 as int) == if j < pan@.len() {
                    pan_frame_s(pan@[j] as int)
                } else {
                    (pre.pan@[j].0 as int, pre.pan@[j].1 as int)
                }
            },
            ControlEvent::FM { id, levels } => {
                let row = fm_row_s(id@);
                &&& post == (Voice { fm_mod: post.fm_mod, ..pre })
                &&& post.fm_mod@.len() == 16
                &&& forall|k: int| 0 <= k < 16 ==> #[trigger] post.fm_mod@[k] == if row < 4 && 4 * row <= k < 4 * row + 4 && k - 4 * row < levels@.len() {
                    let v = clamp_s(levels@[k - 4 * row] as int, -FM_LIMIT as int, FM_LIMIT as int);
                    if k - 4 * row == row {
                        tdiv(v, 10)
                    } else {
                        v
                    }
                } else {
                    pre.fm_mod@[k] as int
                }
            },
            _ => {
                &&& post == (Voice {
                    env1: post.env1,
                    env2: post.env2,
                    env3: post.env3,
                    env4: post.env4,
                    osc1: post.osc1,
                    osc2: post.osc2,
                    osc3: post.osc3,
                    osc4: post.osc4,
                    ..pre
                })
                &&& post.env1@ == pre.env1@.handle_s(msg)
                &&& post.env2@ == pre.env2@.handle_s(msg)
                &&& post.env3@ == pre.env3@.handle_s(msg)
                &&& post.env4@ == pre.env4@.handle_s(msg)
                &&& post.osc1 == osc_handled_s(pre.osc1, msg)
                &&& post.osc2 == osc_handled_s(pre.osc2, msg)
                &&& post.osc3 == osc_handled_s(pre.osc3, msg)
                &&& post.osc4 == osc_handled_s(pre.osc4, msg)
            },
        }
    }

    /// The linear gain a `Volume` decibel amount sets.
    fn volume_gain(db: i64) -> (r: i64)
        ensures
            r == volume_gain_s(db as int),
            0 <= r <= ONE,
    {
        if db < VOLUME_FLOOR {
            0
        } else {
            crate::db::from_db(if db > 0 { 0 } else { db })
        }
    }

    /// The stereo pan frame of a pan position.
    fn pan_frame(p_raw: i64) -> (r: Stereo)
        ensures
            (r.0 as int, r.1 as int) == pan_frame_s(p_raw as int),
            0 <= r.0 <= ONE,
            0 <= r.1 <= ONE,
    {
        let p = clamp(p_raw, -ONE, ONE);
        if -FEQ < p && p < FEQ {
            Stereo(MINUS_THREE_DB, MINUS_THREE_DB)
        } else {
            proof {
                lemma_abs_mul_bound(p as int, p as int, ONE as int, ONE as int);
                lemma_fmul_square_nonneg(p as int);
                lemma_fmul_one_bound(p as int, p as int, ONE as int);
            }
            let p2 = fmul(p, p);
            proof {
                lemma_abs_mul_bound(p2 as int, ONE - MINUS_THREE_DB as int, ONE as int, ONE as int);
                lemma_fmul_nonneg(p2 as int, ONE - MINUS_THREE_DB as int);
                lemma_fmul_bound(p2 as int, ONE - MINUS_THREE_DB as int, ONE as int, ONE - MINUS_THREE_DB as int);
                lemma_tdiv_exact(ONE - MINUS_THREE_DB as int, ONE as int);
                assert((ONE as int) * (ONE - MINUS_THREE_DB as int) == (ONE - MINUS_THREE_DB as int) * ONE) by (nonlinear_arith);
            }
            let d = fmul(p2, ONE - MINUS_THREE_DB);
            if p > 0 {
                Stereo(MINUS_THREE_DB - d, MINUS_THREE_DB + d)
            } else {
                Stereo(MINUS_THREE_DB + d, MINUS_THREE_DB - d)
            }
        }
    }

    /// The FM matrix row an oscillator id addresses.
    fn fm_row(id: &String) -> (r: usize)
        ensures
            r == fm_row_s(id@),
            r <= 4,
    {
        if id.eq(&"OSC1".to_owned()) {
            0
        } else if id.eq(&"OSC2".to_owned()) {
            1
        } else if id.eq(&"OSC3".to_owned()) {
            2
        } else if id.eq(&"OSC4".to_owned()) {
            3
        } else {
            4
        }
    }

    /// One FM matrix entry from an event payload: clamped, and scaled down
    /// tenfold on the matrix diagonal to keep self-feedback stable.
    fn fm_entry(raw: i64, col: usize, row: usize) -> (r: i64)
        ensures
            r == ({
                let v = clamp_s(raw as int, -FM_LIMIT as int, FM_LIMIT as int);
                if col == row {
                    tdiv(v, 10)
                } else {
                    v
                }
            }),
            -FM_LIMIT <= r <= FM_LIMIT,
    {
        let v = clamp(raw, -FM_LIMIT, FM_LIMIT);
        if col == row {
            proof {
                lemma_tdiv_bound(v as int, FM_LIMIT as int, 10);
            }
            v.checked_div(10).unwrap()
        } else {
            v
        }
    }
}

impl Controllable for Voice {
    open spec fn inv(&self) -> bool {
        self.wf()
    }

    /// Applies a control event exactly as `Voice::handled_rel` describes.
    fn handle(&mut self, msg: &ControlEvent)
        ensures
            Voice::handled_rel(*old(self), *final(self), *msg),
    {
        proof {
            reveal(Voice::wf);
        }
        match msg {
            ControlEvent::Volume(volume) => {
                if volume.len() > 0 {
                    self.levels[0] = Self::volume_gain(volume[0]);
                }
                if volume.len() > 1 {
                    self.levels[1] = Self::volume_gain(volume[1]);
                }
                if volume.len() > 2 {
                    self.levels[2] = Self::volume_gain(volume[2]);
                }
                if volume.len() > 3 {
                    self.levels[3] = Self::volume_gain(volume[3]);
                }
            },
            ControlEvent::Pan(pan) => {
                if pan.len() > 0 {
                    self.pan[0] = Self::pan_frame(pan[0]);
                }
                if pan.len() > 1 {
                    self.pan[1] = Self::pan_frame(pan[1]);
                }
                if pan.len() > 2 {
                    self.pan[2] = Self::pan_frame(pan[2]);
                }
                if pan.len() > 3 {
                    self.pan[3] = Self::pan_frame(pan[3]);
                }
            },
            ControlEvent::FM { id, levels } => {
                let row = Self::fm_row(id);
                if row < 4 {
                    if levels.len() > 0 {
                        self.fm_mod[4 * row] = Self::fm_entry(levels[0], 0, row);
                    }
                    if levels.len() > 1 {
                        self.fm_mod[4 * row + 1] = Self::fm_entry(levels[1], 1, row);
                    }
                    if levels.len() > 2 {
                        self.fm_mod[4 * row + 2] = Self::fm_entry(levels[2], 2, row);
                    }
                    if levels.len() > 3 {
                        self.fm_mod[4 * row + 3] = Self::fm_entry(levels[3], 3, row);
                    }
                }
            },
            _ => {
                self.osc1.handle(msg);
                self.osc2.handle(msg);
                self.osc3.handle(msg);
                self.osc4.handle(msg);
                self.env1.handle(msg);
                self.env2.handle(msg);
                self.env3.handle(msg);
                self.env4.handle(msg);
            },
        }
    }
}

/// The lowest-indexed free voice at or after `start`.
pub open spec fn free_idx_s(vs: Seq<Voice>, start: int) -> Option<int>
    decreases vs.len() - start,
{
    if start < 0 || start >= vs.len() {
        None
    } else if !vs[start].running_s() {
        Some(start)
    } else {
        free_idx_s(vs, start + 1)
    }
}

/// The summed frames of the running voices among the first `n`.
pub open spec fn frames_sum(vs: Seq<Voice>, n: int) -> (int, int)
    decreases n,
{
    if n <= 0 {
        (0int, 0int)
    } else {
        let p = frames_sum(vs, n - 1);
        let f = if vs[n - 1].running_s() {
            vs[n - 1].frame_s()
        } else {
            (0int, 0int)
        };
        (p.0 + f.0, p.1 + f.1)
    }
}

/// Whether one of the first `k` queue entries plays `key` on voice `i`.
pub open spec fn queued(q: Seq<(u8, usize)>, key: u8, i: int, k: int) -> bool {
    exists|m: int| 0 <= m < k && (#[trigger] q[m]).0 == key && q[m].1 == i
}

/// Releasing an already released envelope changes nothing: the same
/// note-off delivered twice equals it delivered once.
pub proof fn lemma_noteoff_idempotent(m: ADSRModel, msg: ControlEvent)
    requires
        msg is NoteOff,
    ensures
        m.handle_s(msg).handle_s(msg) == m.handle_s(msg),
{
}

/// The manager of the fixed voice pool: note-ons take the lowest free
/// voice, or steal the longest-held one.
pub struct VoiceManager {
    pub voices: Vec<Voice>,
    /// Keys in the order their voices were taken. An entry is removed only
    /// when a steal pops it, so entries whose envelopes have since expired
    /// stay queued; a queued index therefore need not belong to a running
    /// voice, and the queue can outgrow the pool across note lifecycles.
    pub note_queue: VecDeque<(u8, usize)>,
}

impl VoiceManager {
    /// The invariant every reachable manager satisfies.
    pub open spec fn wf(&self) -> bool {
        &&& 1 <= self.voices@.len() <= 64
        &&& forall|i: int| 0 <= i < self.voices@.len() ==> (#[trigger] self.voices@[i]).wf()
        &&& forall|k: int| 0 <= k < self.note_queue@.len() ==> (#[trigger] self.note_queue@[k]).1 < self.voices@.len()
    }

    /// All voices in the pool hold the same table-set and pitch-table
    /// handles as the first voice does.
    pub open spec fn voices_share_tables(&self) -> bool {
        forall|i: int| 0 <= i < self.voices@.len() ==> {
            let v = #[trigger] self.voices@[i];
            &&& v.osc1.tables == self.voices@[0].osc1.tables
            &&& v.osc2.tables == self.voices@[0].osc1.tables
            &&& v.osc3.tables == self.voices@[0].osc1.tables
            &&& v.osc4.tables == self.voices@[0].osc1.tables
            &&& v.osc1.pitch_convert == self.voices@[0].osc1.pitch_convert
            &&& v.osc2.pitch_convert == self.voices@[0].osc1.pitch_convert
            &&& v.osc3.pitch_convert == self.voices@[0].osc1.pitch_convert
            &&& v.osc4.pitch_convert == self.voices@[0].osc1.pitch_convert
        }
    }

    /// A pool of fresh voices, all idle, sharing one read-only wavetable
    /// set built at the 20 Hz fundamental and one pitch table tuned to
    /// concert A.
    pub fn new(max_voices: usize, sample_rate: usize) -> (r: VoiceManager)
        requires
            1 <= max_voices <= 64,
            8000 <= sample_rate <= 96000,
        ensures
            r.wf(),
            r.voices@.len() == max_voices,
            r.note_queue@.len() == 0,
            forall|i: int| 0 <= i < max_voices ==> !(#[trigger] r.voices@[i]).running_s(),
            r.voices_share_tables(),
            forall|w: int| 0 <= w < 6 ==> built_set_rel(
                waveform_at(w),
                BASE_FREQ as int,
                sample_rate as int,
                ((*r.voices@[0].osc1.tables).sets@[w])@,
            ),
            forall|k: int| 0 <= k < 128 ==> (*r.voices@[0].osc1.pitch_convert).table@[k] == pitch_of(CONCERT_A as int, k),
    {
        let wavetables: Shared<BandLimitedTables> = Shared::wrap(generate_wavetables(BASE_FREQ, sample_rate));
        let pitch_convert: Shared<PitchConvert> = Shared::wrap(PitchConvert::default());
        let mut voices: Vec<Voice> = Vec::new();
        let mut i: usize = 0;
        while i < max_voices
            invariant
                0 <= i <= max_voices <= 64,
                8000 <= sample_rate <= 96000,
                voices@.len() == i,
                (*wavetables).wf(),
                (*pitch_convert).wf(),
                forall|j: int| 0 <= j < i ==> (#[trigger] voices@[j]).wf(),
                forall|j: int| 0 <= j < i ==> !(#[trigger] voices@[j]).running_s(),
                forall|j: int| 0 <= j < i ==> {
                    let v = #[trigger] voices@[j];
                    v.osc1.tables == wavetables && v.osc2.tables == wavetables
                        && v.osc3.tables == wavetables && v.osc4.tables == wavetables
                        && v.osc1.pitch_convert == pitch_convert && v.osc2.pitch_convert == pitch_convert
                        && v.osc3.pitch_convert == pitch_convert && v.osc4.pitch_convert == pitch_convert
                },
                forall|w: int| 0 <= w < 6 ==> built_set_rel(
                    waveform_at(w),
                    BASE_FREQ as int,
                    sample_rate as int,
                    ((*wavetables).sets@[w])@,
                ),
                forall|k: int| 0 <= k < 128 ==> (*pitch_convert).table@[k] == pitch_of(CONCERT_A as int, k),
            decreases max_voices - i,
        {
            voices.push(Voice::new(sample_rate, wavetables.clone(), pitch_convert.clone()));
            i = i + 1;
        }
        VoiceManager { voices, note_queue: VecDeque::new() }
    }

    /// The lowest-indexed voice not currently running, if any.
    pub fn free_voice(&self) -> (r: Option<usize>)
        requires
            self.wf(),
        ensures
            match r {
                Some(i) => Some(i as int) == free_idx_s(self.voices@, 0),
                None => free_idx_s(self.voices@, 0) is None,
            },
            r matches Some(i) ==> i < self.voices@.len(),
    {
        Self::free_from(&self.voices, 0)
    }

    /// Scans for a free voice from `start` upward.
    fn free_from(voices: &Vec<Voice>, start: usize) -> (r: Option<usize>)
        requires
            start <= voices@.len(),
        ensures
            match r {
                Some(i) => Some(i as int) == free_idx_s(voices@, start as int),
                None => free_idx_s(voices@, start as int) is None,
            },
            r matches Some(i) ==> start <= i < voices@.len(),
        decreases voices@.len() - start,
    {
        if start >= voices.len() {
            None
        } else if !voices[start].running() {
            Some(start)
        } else {
            Self::free_from(voices, start + 1)
        }
    }
}

/// How one manager tick advances the pool: the queue stays, every
/// running voice ticks exactly once, every idle voice stays put.
pub open spec fn vm_ticked_rel(pre: VoiceManager, post: VoiceManager) -> bool {
    &&& post.note_queue@ == pre.note_queue@
    &&& post.voices@.len() == pre.voices@.len()
    &&& forall|i: int| 0 <= i < pre.voices@.len() ==> if (#[trigger] pre.voices@[i]).running_s() {
        Voice::ticked_rel(pre.voices@[i], post.voices@[i])
    } else {
        post.voices@[i] == pre.voices@[i]
    }
}

impl SignalSource for VoiceManager {
    open spec fn inv(&self) -> bool {
        self.wf()
    }

    /// Sums the frames of every running voice, ticking each; idle voices
    /// do not move.
    #[verifier::rlimit(100)]
    fn tick(&mut self) -> (r: Stereo)
        ensures
            (r.0 as int, r.1 as int) == frames_sum(old(self).voices@, old(self).voices@.len() as int),
            vm_ticked_rel(*old(self), *final(self)),
            -256 * (ONE as int) <= r.0 <= 256 * (ONE as int),
            -256 * (ONE as int) <= r.1 <= 256 * (ONE as int),
    {
        let mut out = Stereo(0, 0);
        let mut i: usize = 0;
        let n = self.voices.len();
        while i < n
            invariant
                0 <= i <= n,
                n == old(self).voices@.len(),
                n <= 64,
                self.voices@.len() == n,
                self.note_queue@ == old(self).note_queue@,
                forall|j: int| 0 <= j < n ==> (#[trigger] self.voices@[j]).wf(),
                forall|j: int| i <= j < n ==> #[trigger] self.voices@[j] == old(self).voices@[j],
                forall|j: int| 0 <= j < i ==> if (#[trigger] old(self).voices@[j]).running_s() {
                    Voice::ticked_rel(old(self).voices@[j], self.voices@[j])
                } else {
                    self.voices@[j] == old(self).voices@[j]
                },
                (out.0 as int, out.1 as int) == frames_sum(old(self).voices@, i as int),
                -17179869184 * (i as int) <= out.0 <= 17179869184 * (i as int),
                -17179869184 * (i as int) <= out.1 <= 17179869184 * (i as int),
            decreases n - i,
        {
            if self.voices[i].running() {
                let f = self.voices[i].tick();
                out = Stereo(out.0 + f.0, out.1 + f.1);
            }
            i = i + 1;
        }
        out
    }
}

/// What a control event does to the pool: note-on fills the lowest free
/// voice, or steals the longest-held one, and records the key at the back
/// of the queue; note-off reaches every voice queued on that key;
/// everything else reaches every voice. No running voice is ever
/// reclaimed without first receiving the new note-on.
pub open spec fn vm_handled_rel(o: VoiceManager, f: VoiceManager, msg: ControlEvent) -> bool {
    match msg {
                    ControlEvent::NoteOn { key, .. } => {
                        match free_idx_s(o.voices@, 0) {
                            Some(i) => {
                                &&& f.note_queue@ == o.note_queue@.push((key, i as usize))
                                &&& Voice::handled_rel(o.voices@[i], f.voices@[i], msg)
                                &&& f.voices@.len() == o.voices@.len()
                                &&& forall|j: int| 0 <= j < o.voices@.len() && j != i ==> #[trigger] f.voices@[j] == o.voices@[j]
                            },
                            None => {
                                let i = if o.note_queue@.len() > 0 { o.note_queue@[0].1 as int } else { 0int };
                                let rest = if o.note_queue@.len() > 0 {
                                    o.note_queue@.subrange(1, o.note_queue@.len() as int)
                                } else {
                                    o.note_queue@
                                };
                                &&& f.note_queue@ == rest.push((key, i as usize))
                                &&& Voice::handled_rel(o.voices@[i], f.voices@[i], msg)
                                &&& f.voices@.len() == o.voices@.len()
                                &&& forall|j: int| 0 <= j < o.voices@.len() && j != i ==> #[trigger] f.voices@[j] == o.voices@[j]
                            },
                        }
                    },
        ControlEvent::NoteOff { key, .. } => {
            &&& f.note_queue@ == o.note_queue@
            &&& f.voices@.len() == o.voices@.len()
            &&& forall|i: int| 0 <= i < o.voices@.len() ==> if queued(o.note_queue@, key, i, o.note_queue@.len() as int) {
                Voice::handled_rel(o.voices@[i], (#[trigger] f.voices@[i]), msg)
            } else {
                f.voices@[i] == o.voices@[i]
            }
        },
        _ => {
            &&& f.note_queue@ == o.note_queue@
            &&& f.voices@.len() == o.voices@.len()
            &&& forall|i: int| 0 <= i < o.voices@.len() ==> Voice::handled_rel(o.voices@[i], (#[trigger] f.voices@[i]), msg)
        },
    }
}

impl Controllable for VoiceManager {
    open spec fn inv(&self) -> bool {
        self.wf()
    }

    /// Applies a control event exactly as `vm_handled_rel` describes.
    fn handle(&mut self, msg: &ControlEvent)
        ensures
            vm_handled_rel(*old(self), *final(self), *msg),
    {
        match msg {
            ControlEvent::NoteOn { key, .. } => {
                match self.free_voice() {
                    Some(idx) => {
                        self.note_queue.push_back((*key, idx));
                        self.voices[idx].handle(msg);
                    },
                    None => {
                        let old_idx: usize = match self.note_queue.pop_front() {
                            Some((_, i)) => i,
                            None => 0,
                        };
                        self.voices[old_idx].handle(msg);
                        self.note_queue.push_back((*key, old_idx));
                    },
                }
            },
            ControlEvent::NoteOff { key, .. } => {
                let mut k: usize = 0;
                let qlen = self.note_queue.len();
                while k < qlen
                    invariant
                        *msg matches ControlEvent::NoteOff { key: mkey, .. } && mkey == *key,
                        0 <= k <= qlen,
                        qlen == old(self).note_queue@.len(),
                        self.note_queue@ == old(self).note_queue@,
                        old(self).wf(),
                        self.voices@.len() == old(self).voices@.len(),
                        forall|j: int| 0 <= j < self.voices@.len() ==> (#[trigger] self.voices@[j]).wf(),
                        forall|i: int| 0 <= i < old(self).voices@.len() ==> if queued(old(self).note_queue@, *key, i, k as int) {
                            Voice::handled_rel(old(self).voices@[i], (#[trigger] self.voices@[i]), *msg)
                        } else {
                            self.voices@[i] == old(self).voices@[i]
                        },
                    decreases qlen - k,
                {
                    let entry = self.note_queue[k];
                    if entry.0 == *key {
                        proof {
                            if queued(old(self).note_queue@, *key, entry.1 as int, k as int) {
                                lemma_noteoff_idempotent(old(self).voices@[entry.1 as int].env1@, *msg);
                                lemma_noteoff_idempotent(old(self).voices@[entry.1 as int].env2@, *msg);
                                lemma_noteoff_idempotent(old(self).voices@[entry.1 as int].env3@, *msg);
                                lemma_noteoff_idempotent(old(self).voices@[entry.1 as int].env4@, *msg);
                            }
                        }
                        self.voices[entry.1].handle(msg);
                    }
                    k = k + 1;
                }
            },
            _ => {
                let mut i: usize = 0;
                let n = self.voices.len();
                while i < n
                    invariant
                        0 <= i <= n,
                        n == self.voices@.len() == old(self).voices@.len(),
                        self.note_queue@ == old(self).note_queue@,
                        forall|j: int| 0 <= j < n ==> (#[trigger] self.voices@[j]).wf(),
                        forall|j: int| i <= j < n ==> #[trigger] self.voices@[j] == old(self).voices@[j],
                        forall|j: int| 0 <= j < i ==> Voice::handled_rel(old(self).voices@[j], (#[trigger] self.voices@[j]), *msg),
                    decreases n - i,
                {
                    self.voices[i].handle(msg);
                    i = i + 1;
                }
            },
        }
    }
}

/// A pool whose voices all have their levels cut sums to exact silence,
/// whatever keys are held; and since ticking never touches levels, every
/// later tick stays silent too.
pub proof fn lemma_silent_pool(vs: Seq<Voice>, n: int)
    requires
        0 <= n <= vs.len(),
        forall|i: int| 0 <= i < vs.len() ==> (#[trigger] vs[i]).wf(),
        forall|i: int, j: int| 0 <= i < vs.len() && 0 <= j < 4 ==> #[trigger] vs[i].levels@[j] == 0,
    ensures
        frames_sum(vs, n) == (0int, 0int),
    decreases n,
{
    if n > 0 {
        lemma_silent_pool(vs, n - 1);
        if vs[n - 1].running_s() {
            lemma_silent_voice(vs[n - 1]);
        }
    }
}

/// A voice whose levels are all cut emits exact silence, whatever its
/// oscillators and envelopes hold.
pub proof fn lemma_silent_voice(v: Voice)
    requires
        v.wf(),
        forall|i: int| 0 <= i < 4 ==> #[trigger] v.levels@[i] == 0,
    ensures
        v.frame_s() == (0int, 0int),
{
    reveal(Voice::wf);
    reveal(Voice::frame_s);
    assert forall|i: int| 0 <= i < 4 implies #[trigger] v.term(i) == (0int, 0int) by {
        lemma_fmul_zero(v.sample_of(i));
        lemma_fmul_zero(v.pan@[i].0 as int);
        lemma_fmul_zero(v.pan@[i].1 as int);
    }
}

} // verus!
