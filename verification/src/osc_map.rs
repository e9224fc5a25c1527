//! Mapping decoded control-surface messages onto control events.
//!
//! A message arrives as its address split into parts plus its argument
//! list; floats are already Q32. The key grid tracks per-pad velocities to
//! tell presses from releases; every fader value is rescaled here exactly
//! as the contracts state.

use vstd::prelude::*;
use vstd::string::StringExecFns;
use crate::db::{exp2_fixed, exp2_fixed_s, from_db, from_db_s};
use crate::event::ControlEvent;
use crate::filter::FilterType;
use crate::fixed::{ONE, fmul, fmul_s, tdiv, div_pos, clamp, clamp_s, lemma_fmul_bound, lemma_fmul_nonneg, lemma_abs_mul_bound, lemma_tdiv_exact, lemma_tdiv_bound};
use crate::wavetable::Waveform;

verus! {

/// `log2(10)` in Q32.
pub const LOG2_10: i64 = 14267572527;

/// The default stage time handed out for a malformed envelope argument.
pub const TINY_TIME: i64 = 429497;

/// Pads on the playable grid.
pub const GRID_SIZE: usize = 96;

/// The grid can be shifted up by at most six octaves.
pub const MAX_TRANSPOSE: u8 = 72;

/// Velocities closer than this count as unchanged.
pub const FEQ: i64 = 429;

/// One decoded message argument: a Q32 float or something the mapping
/// ignores.
#[derive(Clone, Copy, Debug, PartialEq, Eq, Structural)]
pub enum OscArg {
    Float(i64),
    Other,
}

/// The float in an argument slot, if that slot holds one.
pub open spec fn arg_float(args: Seq<OscArg>, i: int) -> Option<int> {
    if 0 <= i < args.len() {
        match args[i] {
            OscArg::Float(v) => Some(v as int),
            OscArg::Other => None,
        }
    } else {
        None
    }
}

/// A fader argument as a plain value, zero when it is not a float.
pub open spec fn float_or_zero(a: OscArg) -> int {
    match a {
        OscArg::Float(v) => v as int,
        OscArg::Other => 0,
    }
}

/// The exponential fader curve `(10^v - 1) / 10` on `[0, 1]`.
pub open spec fn exp_scale_s(v: int) -> int {
    (exp2_fixed_s(fmul_s(clamp_s(v, 0, ONE as int), LOG2_10 as int)) - ONE) / 10
}

/// An envelope-time argument: the exponential curve of its float, or a
/// tiny stock time when it is not a float.
pub open spec fn env_arg_s(a: OscArg) -> int {
    match a {
        OscArg::Float(v) => exp_scale_s(v as int),
        OscArg::Other => TINY_TIME as int,
    }
}

/// A volume fader as decibels: `(1 - v) · -61`.
pub open spec fn vol_db_s(v: int) -> int {
    fmul_s(ONE - clamp_s(v, 0, ONE as int), -61 * (ONE as int))
}

/// A fader read as a small whole number (selections, transpositions).
pub open spec fn unit_int_s(v: int) -> int {
    tdiv(clamp_s(v, -16 * (ONE as int), 16 * (ONE as int)), ONE as int)
}

/// The transpose fader as semitones: six times its value, read in whole
/// octaves, twelve semitones each.
pub open spec fn transpose_semi_s(v: int) -> int {
    12 * clamp_s(tdiv(clamp_s(v, 0, 2 * (ONE as int)) * 6, ONE as int), 0, 6)
}

/// A detune fader as whole cents: a hundred times its value.
pub open spec fn cents_s(v: int) -> int {
    tdiv(clamp_s(v, -128 * (ONE as int), 128 * (ONE as int)) * 100, ONE as int)
}

/// A filter cutoff fader: `40 + 20000 · v` Hz.
pub open spec fn filter_freq_s(v: int) -> int {
    40 * (ONE as int) + fmul_s(clamp_s(v, 0, ONE as int), 20000 * (ONE as int))
}

/// A resonance fader: `4 · v`.
pub open spec fn filter_q_s(v: int) -> int {
    fmul_s(clamp_s(v, 0, ONE as int), 4 * (ONE as int))
}

/// The waveform a selection fader picks.
pub open spec fn waveform_of_s(s: int) -> Option<Waveform> {
    if s == 0 {
        Some(Waveform::Sine)
    } else if s == 1 {
        Some(Waveform::Saw)
    } else if s == 2 {
        Some(Waveform::Square)
    } else if s == 3 {
        Some(Waveform::Tri)
    } else if s == 4 {
        Some(Waveform::SharpTri)
    } else if s == 5 {
        Some(Waveform::Random)
    } else {
        None
    }
}

/// The filter type a selection fader picks.
pub open spec fn filter_type_of_s(s: int) -> Option<FilterType> {
    if s == 0 {
        Some(FilterType::LP)
    } else if s == 1 {
        Some(FilterType::HP)
    } else if s == 2 {
        Some(FilterType::BP)
    } else if s == 3 {
        Some(FilterType::Notch)
    } else {
        None
    }
}

/// The exponential fader curve, exactly `exp_scale_s`.
fn exp_scale(v: i64) -> (r: i64)
    ensures
        r == exp_scale_s(v as int),
        0 <= r <= 16384 * (ONE as int),
{
    let c = clamp(v, 0, ONE);
    proof {
        lemma_abs_mul_bound(c as int, LOG2_10 as int, ONE as int, LOG2_10 as int);
        lemma_fmul_bound(c as int, LOG2_10 as int, ONE as int, LOG2_10 as int);
        lemma_fmul_nonneg(c as int, LOG2_10 as int);
        lemma_tdiv_exact(4 * (ONE as int), ONE as int);
        assert((ONE as int) * (LOG2_10 as int) <= 4 * (ONE as int) * (ONE as int)) by (nonlinear_arith);
        vstd::arithmetic::div_mod::lemma_div_is_ordered((ONE as int) * (LOG2_10 as int), 4 * (ONE as int) * (ONE as int), ONE as int);
    }
    let e = exp2_fixed(fmul(c, LOG2_10));
    div_pos(e - ONE, 10)
}

/// An envelope-time argument, exactly `env_arg_s`.
fn env_arg(a: OscArg) -> (r: i64)
    ensures
        r == env_arg_s(a),
        0 <= r <= 16384 * (ONE as int),
{
    match a {
        OscArg::Float(v) => exp_scale(v),
        OscArg::Other => TINY_TIME,
    }
}

/// A volume fader as decibels, exactly `vol_db_s`.
fn vol_db(v: i64) -> (r: i64)
    ensures
        r == vol_db_s(v as int),
        -61 * (ONE as int) <= r <= 0,
{
    let c = clamp(v, 0, ONE);
    proof {
        lemma_abs_mul_bound(ONE - c as int, -61 * (ONE as int), ONE as int, 61 * (ONE as int));
        lemma_fmul_bound(ONE - c as int, -61 * (ONE as int), ONE as int, 61 * (ONE as int));
        lemma_tdiv_exact(61 * (ONE as int), ONE as int);
        assert((ONE as int) * (61 * (ONE as int)) == 61 * (ONE as int) * (ONE as int)) by (nonlinear_arith);
        assert((ONE - c as int) * (-61 * (ONE as int)) <= 0) by (nonlinear_arith)
            requires
                c as int <= ONE as int,
        ;
        crate::fixed::lemma_fmul_nonpos(-(ONE - c as int), 61 * (ONE as int));
        assert((ONE - c as int) * (-61 * (ONE as int)) == (-(ONE - c as int)) * (61 * (ONE as int))) by (nonlinear_arith);
    }
    fmul(ONE - c, -61 * ONE)
}

/// A fader as a small whole number, exactly `unit_int_s`.
fn unit_int(v: i64) -> (r: i64)
    ensures
        r == unit_int_s(v as int),
        -16 <= r <= 16,
{
    proof {
        lemma_tdiv_bound(clamp_s(v as int, -16 * (ONE as int), 16 * (ONE as int)), 16 * (ONE as int), ONE as int);
        lemma_tdiv_exact(16, ONE as int);
    }
    clamp(v, -16 * ONE, 16 * ONE).checked_div(ONE).unwrap()
}

/// A detune fader as whole cents, exactly `cents_s`.
fn cents(v: i64) -> (r: i64)
    ensures
        r == cents_s(v as int),
        -12800 <= r <= 12800,
{
    proof {
        lemma_abs_mul_bound(clamp_s(v as int, -128 * (ONE as int), 128 * (ONE as int)), 100, 128 * (ONE as int), 100);
        lemma_tdiv_bound(clamp_s(v as int, -128 * (ONE as int), 128 * (ONE as int)) * 100, 12800 * (ONE as int), ONE as int);
        lemma_tdiv_exact(12800, ONE as int);
        assert(128 * (ONE as int) * 100 == 12800 * (ONE as int)) by (nonlinear_arith);
    }
    (clamp(v, -128 * ONE, 128 * ONE) * 100).checked_div(ONE).unwrap()
}

/// A filter cutoff fader in Q32 Hz, exactly `filter_freq_s`.
fn filter_freq(v: i64) -> (r: i64)
    ensures
        r == filter_freq_s(v as int),
        0 <= r <= 20040 * (ONE as int),
{
    let c = clamp(v, 0, ONE);
    proof {
        lemma_abs_mul_bound(c as int, 20000 * (ONE as int), ONE as int, 20000 * (ONE as int));
        lemma_fmul_bound(c as int, 20000 * (ONE as int), ONE as int, 20000 * (ONE as int));
        lemma_fmul_nonneg(c as int, 20000 * (ONE as int));
        lemma_tdiv_exact(20000 * (ONE as int), ONE as int);
        assert((ONE as int) * (20000 * (ONE as int)) == 20000 * (ONE as int) * (ONE as int)) by (nonlinear_arith);
    }
    40 * ONE + fmul(c, 20000 * ONE)
}

/// A resonance fader, exactly `filter_q_s`.
fn filter_q(v: i64) -> (r: i64)
    ensures
        r == filter_q_s(v as int),
        0 <= r <= 4 * (ONE as int),
{
    let c = clamp(v, 0, ONE);
    proof {
        lemma_abs_mul_bound(c as int, 4 * (ONE as int), ONE as int, 4 * (ONE as int));
        lemma_fmul_bound(c as int, 4 * (ONE as int), ONE as int, 4 * (ONE as int));
        lemma_fmul_nonneg(c as int, 4 * (ONE as int));
        lemma_tdiv_exact(4 * (ONE as int), ONE as int);
        assert((ONE as int) * (4 * (ONE as int)) == 4 * (ONE as int) * (ONE as int)) by (nonlinear_arith);
    }
    fmul(c, 4 * ONE)
}

/// All float arguments as plain values, zero for anything else.
fn floats_of(args: &Vec<OscArg>) -> (r: Vec<i64>)
    ensures
        r@.len() == args@.len(),
        forall|i: int| 0 <= i < args@.len() ==> #[trigger] r@[i] == float_or_zero(args@[i]),
{
    let mut out: Vec<i64> = Vec::new();
    let mut i: usize = 0;
    while i < args.len()
        invariant
            0 <= i <= args@.len(),
            out@.len() == i,
            forall|j: int| 0 <= j < i ==> #[trigger] out@[j] == float_or_zero(args@[j]),
        decreases args@.len() - i,
    {
        match args[i] {
            OscArg::Float(v) => out.push(v),
            OscArg::Other => out.push(0),
        }
        i = i + 1;
    }
    out
}

/// One step of the key grid: what pad the argument at `idx` addresses and
/// whether its velocity move emits a note event.
pub open spec fn grid_key(idx: int, transpose: int) -> int {
    let rev = 12 * (idx / 12 + 1) - idx % 12;
    GRID_SIZE - rev + transpose
}

/// The grid and emitted events after folding the first `n` arguments.
pub open spec fn keys_fold(grid: Seq<i64>, transpose: int, args: Seq<OscArg>, n: int) -> (Seq<i64>, Seq<ControlEvent>)
    decreases n,
{
    if n <= 0 {
        (grid, Seq::<ControlEvent>::empty())
    } else {
        let (g, evs) = keys_fold(grid, transpose, args, n - 1);
        let idx = n - 1;
        match args[idx] {
            OscArg::Float(vel) => {
                if idx >= GRID_SIZE {
                    (g, evs)
                } else {
                    let key = grid_key(idx, transpose);
                    let v = clamp_s(vel as int, 0, ONE as int);
                    let old_v = g[key];
                    if -FEQ < v - old_v < FEQ {
                        (g, evs)
                    } else {
                        (
                            g.update(key, v as i64),
                            evs.push(
                                if v > old_v {
                                    ControlEvent::NoteOn { key: key as u8, velocity: v as i64 }
                                } else {
                                    ControlEvent::NoteOff { key: key as u8, velocity: v as i64 }
                                },
                            ),
                        )
                    }
                }
            },
            OscArg::Other => (g, evs),
        }
    }
}

/// What a single-float per-oscillator address maps to: phase, transpose,
/// detune or waveform of the named oscillator, from the first float
/// argument.
pub open spec fn osc_param_event_rel(name: Seq<char>, a1: Seq<char>, a2: Seq<char>, args: Seq<OscArg>, r: Option<ControlEvent>) -> bool {
    &&& (a1 == "PHASE"@ && a2 == "x"@ ==> (match arg_float(args, 0) {
        Some(v) => r matches Some(ControlEvent::Phase { id, phase }) && id@ == name && phase == v,
        None => r is None,
    }))
    &&& (a1 == "TRANSPOSE"@ && a2 == "x"@ ==> (match arg_float(args, 0) {
        Some(v) => r matches Some(ControlEvent::Transpose { id, transpose }) && id@ == name
            && transpose == unit_int_s(v) as i32,
        None => r is None,
    }))
    &&& (a1 == "DETUNE"@ && a2 == "x"@ ==> (match arg_float(args, 0) {
        Some(v) => r matches Some(ControlEvent::Detune { id, detune }) && id@ == name
            && detune == cents_s(v) as i32,
        None => r is None,
    }))
    &&& (a1 == "WAVEFORM"@ && a2 == "selection"@ ==> (match arg_float(args, 0) {
        Some(v) => (match waveform_of_s(unit_int_s(v)) {
            Some(w) => r matches Some(ControlEvent::Waveform { id, waveform }) && id@ == name
                && waveform == w,
            None => r is None,
        }),
        None => r is None,
    }))
}

/// The address words the mapping distinguishes are pairwise different.
proof fn lemma_address_words_distinct()
    ensures
        "KEYS"@ != "OSCILLATORS"@,
        "GRID"@ != "TRANSPOSE"@,
        "FILTER"@ != "MIX"@,
        "FILTER"@ != "FM"@,
        "MIX"@ != "FM"@,
        "FILTERTYPE"@ != "FREQRES"@,
        "x"@ != "y"@,
        "x"@ != "selection"@,
        "y"@ != "selection"@,
        "PAN"@ != "VOLUME"@,
        "ADSR"@ != "PHASE"@,
        "ADSR"@ != "TRANSPOSE"@,
        "ADSR"@ != "DETUNE"@,
        "ADSR"@ != "WAVEFORM"@,
        "PHASE"@ != "TRANSPOSE"@,
        "PHASE"@ != "DETUNE"@,
        "PHASE"@ != "WAVEFORM"@,
        "TRANSPOSE"@ != "DETUNE"@,
        "TRANSPOSE"@ != "WAVEFORM"@,
        "DETUNE"@ != "WAVEFORM"@,
{
    reveal_strlit("KEYS");
    reveal_strlit("OSCILLATORS");
    reveal_strlit("GRID");
    reveal_strlit("TRANSPOSE");
    reveal_strlit("FILTER");
    reveal_strlit("MIX");
    reveal_strlit("FM");
    reveal_strlit("FILTERTYPE");
    reveal_strlit("FREQRES");
    reveal_strlit("x");
    reveal_strlit("y");
    reveal_strlit("selection");
    reveal_strlit("PAN");
    reveal_strlit("VOLUME");
    reveal_strlit("ADSR");
    reveal_strlit("PHASE");
    reveal_strlit("DETUNE");
    reveal_strlit("WAVEFORM");
    assert("KEYS"@ =~= seq!['K', 'E', 'Y', 'S']);
    assert("OSCILLATORS"@ =~= seq!['O', 'S', 'C', 'I', 'L', 'L', 'A', 'T', 'O', 'R', 'S']);
    assert("GRID"@ =~= seq!['G', 'R', 'I', 'D']);
    assert("TRANSPOSE"@ =~= seq!['T', 'R', 'A', 'N', 'S', 'P', 'O', 'S', 'E']);
    assert("FILTER"@ =~= seq!['F', 'I', 'L', 'T', 'E', 'R']);
    assert("MIX"@ =~= seq!['M', 'I', 'X']);
    assert("FM"@ =~= seq!['F', 'M']);
    assert("FILTERTYPE"@ =~= seq!['F', 'I', 'L', 'T', 'E', 'R', 'T', 'Y', 'P', 'E']);
    assert("FREQRES"@ =~= seq!['F', 'R', 'E', 'Q', 'R', 'E', 'S']);
    assert("x"@ =~= seq!['x']);
    assert("y"@ =~= seq!['y']);
    assert("x"@ != "y"@) by {
        assert("x"@[0] == 'x');
        assert("y"@[0] == 'y');
        if "x"@ == "y"@ {
            assert("x"@[0] == "y"@[0]);
        }
    }
    assert("selection"@ =~= seq!['s', 'e', 'l', 'e', 'c', 't', 'i', 'o', 'n']);
    assert("PAN"@ =~= seq!['P', 'A', 'N']);
    assert("VOLUME"@ =~= seq!['V', 'O', 'L', 'U', 'M', 'E']);
    assert("ADSR"@ =~= seq!['A', 'D', 'S', 'R']);
    assert("PHASE"@ =~= seq!['P', 'H', 'A', 'S', 'E']);
    assert("DETUNE"@ =~= seq!['D', 'E', 'T', 'U', 'N', 'E']);
    assert("WAVEFORM"@ =~= seq!['W', 'A', 'V', 'E', 'F', 'O', 'R', 'M']);
}

/// What the oscillator surface maps a message to, for every address the
/// surface knows.
pub open spec fn osc_surface_rel(parts: Seq<String>, args: Seq<OscArg>, r: Option<ControlEvent>) -> bool {
    &&& (parts.len() < 4 ==> r is None)
    &&& (parts.len() >= 4 ==> ({
                let a0 = parts[1]@;
                let a1 = parts[2]@;
                let a2 = parts[3]@;
                if a0 == "FILTER"@ {
                    if a1 == "FILTERTYPE"@ && a2 == "selection"@ {
                        r == match arg_float(args, 0) {
                            Some(v) => Some(ControlEvent::Filter {
                                filter_type: filter_type_of_s(unit_int_s(v)),
                                freq: None,
                                q: None,
                            }),
                            None => None::<ControlEvent>,
                        }
                    } else if a1 == "FREQRES"@ && a2 == "x"@ {
                        r == match arg_float(args, 0) {
                            Some(v) => Some(ControlEvent::Filter {
                                filter_type: None,
                                freq: Some(filter_freq_s(v) as i64),
                                q: None,
                            }),
                            None => None::<ControlEvent>,
                        }
                    } else if a1 == "FREQRES"@ && a2 == "y"@ {
                        r == match arg_float(args, 0) {
                            Some(v) => Some(ControlEvent::Filter {
                                filter_type: None,
                                freq: None,
                                q: Some(filter_q_s(v) as i64),
                            }),
                            None => None::<ControlEvent>,
                        }
                    } else {
                        r is None
                    }
                } else if a0 == "MIX"@ {
                    if a1 == "PAN"@ && a2 == "x"@ {
                        ||| (r matches Some(ControlEvent::Pan(p)) && p@.len() == args.len()
                            && (forall|i: int| 0 <= i < args.len() ==> #[trigger] p@[i] == float_or_zero(args[i])))
                    } else if a1 == "VOLUME"@ && a2 == "x"@ {
                        ||| (r matches Some(ControlEvent::Volume(p)) && p@.len() == args.len()
                            && (forall|i: int| 0 <= i < args.len() ==> #[trigger] p@[i] == vol_db_s(float_or_zero(args[i]))))
                    } else {
                        r is None
                    }
                } else if a0 == "FM"@ {
                    if parts.len() >= 5 && parts[3]@ == "LEVEL"@ && parts[4]@ == "x"@
                        && (parts[2]@ == "OSC1"@ || parts[2]@ == "OSC2"@ || parts[2]@ == "OSC3"@ || parts[2]@ == "OSC4"@) {
                        r matches Some(ControlEvent::FM { id, levels }) && id@ == parts[2]@
                            && levels@.len() == args.len()
                            && (forall|i: int| 0 <= i < args.len() ==> #[trigger] levels@[i] == float_or_zero(args[i]))
                    } else {
                        r is None
                    }
                } else {
                    &&& (a1 == "ADSR"@ && a2 == "x"@ && args.len() >= 4 ==> (r matches Some(
                        ControlEvent::ADSR { id, attack, decay, sustain, release },
                    ) && id@ == "ADSR-"@ + parts[1]@
                        && attack == 10 * env_arg_s(args[0])
                        && decay == 20 * env_arg_s(args[1])
                        && sustain == from_db_s(fmul_s(ONE - clamp_s(env_arg_s(args[2]), 0, ONE as int), -40 * (ONE as int)))
                        && release == 20 * env_arg_s(args[3])))
                    &&& (a1 == "ADSR"@ && a2 == "x"@ && args.len() < 4 ==> r is None)
                    &&& osc_param_event_rel(parts[1]@, a1, a2, args, r)
                    &&& (!((a1 == "ADSR"@ && a2 == "x"@) || (a1 == "PHASE"@ && a2 == "x"@)
                        || (a1 == "TRANSPOSE"@ && a2 == "x"@) || (a1 == "DETUNE"@ && a2 == "x"@)
                        || (a1 == "WAVEFORM"@ && a2 == "selection"@)) ==> r is None)
                }
            }))
}

/// Translates control-surface messages into engine events.
pub struct OscDispatcher {
    /// How far the key grid is shifted up, in semitones.
    pub transpose: u8,
    /// The last velocity seen on each (transposed) pad.
    pub note_grid: Vec<i64>,
}

impl OscDispatcher {
    /// The invariant: a bounded shift and one velocity per reachable pad.
    pub open spec fn wf(&self) -> bool {
        &&& self.transpose <= MAX_TRANSPOSE
        &&& self.note_grid@.len() == GRID_SIZE + 72
        &&& forall|i: int| 0 <= i < self.note_grid@.len() ==> 0 <= #[trigger] self.note_grid@[i] <= ONE
    }

    /// A dispatcher with a silent grid and no shift.
    pub fn new() -> (r: OscDispatcher)
        ensures
            r.wf(),
            r.transpose == 0,
            forall|i: int| 0 <= i < r.note_grid@.len() ==> #[trigger] r.note_grid@[i] == 0,
    {
        let mut note_grid: Vec<i64> = Vec::new();
        let mut i: usize = 0;
        while i < GRID_SIZE + 72
            invariant
                0 <= i <= GRID_SIZE + 72,
                note_grid@.len() == i,
                forall|j: int| 0 <= j < i ==> #[trigger] note_grid@[j] == 0,
            decreases GRID_SIZE + 72 - i,
        {
            note_grid.push(0);
            i = i + 1;
        }
        OscDispatcher { transpose: 0, note_grid }
    }

    /// Maps one whole message: key-surface addresses go through the grid
    /// tracker, oscillator-surface addresses become at most one event.
    pub fn as_control_event(&mut self, parts: &Vec<String>, args: &Vec<OscArg>) -> (r: Vec<ControlEvent>)
        requires
            old(self).wf(),
        ensures
            final(self).wf(),
            parts@.len() > 0 && parts@[0]@ == "KEYS"@ ==> ({
                &&& (parts@.len() >= 3 && parts@[1]@ == "GRID"@ && parts@[2]@ == "x"@ ==> ({
                    let (g, evs) = keys_fold(old(self).note_grid@, old(self).transpose as int, args@, args@.len() as int);
                    &&& final(self).note_grid@ == g
                    &&& final(self).transpose == old(self).transpose
                    &&& r@ == evs
                }))
                &&& (parts@.len() >= 3 && parts@[1]@ == "TRANSPOSE"@ && parts@[2]@ == "x"@ ==> ({
                    &&& final(self).note_grid@ == old(self).note_grid@
                    &&& r@.len() == 0
                    &&& final(self).transpose as int == match arg_float(args@, 0) {
                        Some(v) => transpose_semi_s(v),
                        None => old(self).transpose as int,
                    }
                }))
            }),
            parts@.len() > 0 && parts@[0]@ == "KEYS"@
                && !(parts@.len() >= 3 && (parts@[1]@ == "GRID"@ || parts@[1]@ == "TRANSPOSE"@)
                && parts@[2]@ == "x"@) ==> *final(self) == *old(self) && r@.len() == 0,
            parts@.len() > 0 && parts@[0]@ == "OSCILLATORS"@ ==> ({
                &&& *final(self) == *old(self)
                &&& r@.len() <= 1
                &&& osc_surface_rel(parts@, args@, if r@.len() == 1 { Some(r@[0]) } else { None })
            }),
            parts@.len() > 0 && parts@[0]@ != "KEYS"@ && parts@[0]@ != "OSCILLATORS"@
                ==> *final(self) == *old(self) && r@.len() == 0,
            parts@.len() == 0 ==> *final(self) == *old(self) && r@.len() == 0,
    {
        proof {
            lemma_address_words_distinct();
        }
        let mut events: Vec<ControlEvent> = Vec::new();
        if parts.len() == 0 {
            return events;
        }
        if parts[0].eq(&"KEYS".to_owned()) {
            self.handle_keys(parts, args, &mut events);
        } else if parts[0].eq(&"OSCILLATORS".to_owned()) {
            match Self::handle_oscillators(parts, args) {
                Some(ev) => events.push(ev),
                None => (),
            }
        }
        events
    }

    /// Key-surface messages: grid velocities become note events; the
    /// transpose fader shifts the whole grid by octaves.
    pub fn handle_keys(&mut self, parts: &Vec<String>, args: &Vec<OscArg>, events: &mut Vec<ControlEvent>)
        requires
            old(self).wf(),
        ensures
            final(self).wf(),
            parts@.len() >= 3 && parts@[1]@ == "GRID"@ && parts@[2]@ == "x"@ ==> ({
                let (g, evs) = keys_fold(old(self).note_grid@, old(self).transpose as int, args@, args@.len() as int);
                &&& final(self).note_grid@ == g
                &&& final(self).transpose == old(self).transpose
                &&& final(events)@ == old(events)@ + evs
            }),
            parts@.len() >= 3 && parts@[1]@ == "TRANSPOSE"@ && parts@[2]@ == "x"@ ==> ({
                &&& final(self).note_grid@ == old(self).note_grid@
                &&& final(events)@ == old(events)@
                &&& final(self).transpose as int == match arg_float(args@, 0) {
                    Some(v) => transpose_semi_s(v),
                    None => old(self).transpose as int,
                }
            }),
            !(parts@.len() >= 3 && (parts@[1]@ == "GRID"@ || parts@[1]@ == "TRANSPOSE"@) && parts@[2]@ == "x"@) ==> {
                &&& *final(self) == *old(self)
                &&& final(events)@ == old(events)@
            },
    {
        proof {
            lemma_address_words_distinct();
        }
        if parts.len() < 3 {
            return ;
        }
        if parts[1].eq(&"GRID".to_owned()) && parts[2].eq(&"x".to_owned()) {
            let ghost evs0 = events@;
            let mut idx: usize = 0;
            while idx < args.len()
                invariant
                    0 <= idx <= args@.len(),
                    self.wf(),
                    self.transpose == old(self).transpose,
                    ({
                        let (g, evs) = keys_fold(old(self).note_grid@, old(self).transpose as int, args@, idx as int);
                        self.note_grid@ == g && events@ == evs0 + evs
                    }),
                decreases args@.len() - idx,
            {
                match args[idx] {
                    OscArg::Float(vel) => {
                        if idx < GRID_SIZE {
                            // the grid runs left to right and bottom to
                            // top: the lowest pad is bottom left
                            let rev_idx = 12 * (idx / 12 + 1) - idx % 12;
                            proof {
                                vstd::arithmetic::div_mod::lemma_fundamental_div_mod(idx as int, 12);
                                vstd::arithmetic::div_mod::lemma_remainder_upper(idx as int, 12);
                                vstd::arithmetic::div_mod::lemma_remainder_lower(idx as int, 12);
                                vstd::arithmetic::div_mod::lemma_div_is_ordered(idx as int, 95, 12);
                            }
                            let key = GRID_SIZE - rev_idx + self.transpose as usize;
                            let v = clamp(vel, 0, ONE);
                            let old_v = self.note_grid[key];
                            let diff = v - old_v;
                            if diff >= FEQ || diff <= -FEQ {
                                self.note_grid[key] = v;
                                if v > old_v {
                                    events.push(ControlEvent::NoteOn { key: key as u8, velocity: v });
                                } else {
                                    events.push(ControlEvent::NoteOff { key: key as u8, velocity: v });
                                }
                            }
                        }
                    },
                    OscArg::Other => (),
                }
                idx = idx + 1;
            }
        } else if parts[1].eq(&"TRANSPOSE".to_owned()) && parts[2].eq(&"x".to_owned()) {
            // the shift is applied to every key the grid sends later
            if args.len() > 0 {
                match args[0] {
                    OscArg::Float(scale) => {
                        proof {
                            lemma_tdiv_bound(clamp_s(scale as int, 0, 2 * (ONE as int)) * 6, 12 * (ONE as int), ONE as int);
                            lemma_tdiv_exact(12, ONE as int);
                        }
                        let octaves = clamp((clamp(scale, 0, 2 * ONE) * 6).checked_div(ONE).unwrap(), 0, 6);
                        self.transpose = (12 * octaves) as u8;
                    },
                    OscArg::Other => (),
                }
            }
        }
    }

    /// Oscillator-surface messages: filter, mixer, modulation and
    /// per-oscillator settings, each at most one event, with every fader
    /// rescaled exactly as the spec functions state.
    pub fn handle_oscillators(parts: &Vec<String>, args: &Vec<OscArg>) -> (r: Option<ControlEvent>)
        ensures
            osc_surface_rel(parts@, args@, r),
    {
        proof {
            lemma_address_words_distinct();
        }
        if parts.len() < 4 {
            return None;
        }
        if parts[1].eq(&"FILTER".to_owned()) {
            if parts[2].eq(&"FILTERTYPE".to_owned()) && parts[3].eq(&"selection".to_owned()) {
                if args.len() > 0 {
                    match args[0] {
                        OscArg::Float(selection) => {
                            let s = unit_int(selection);
                            let filter_type = if s == 0 {
                                Some(FilterType::LP)
                            } else if s == 1 {
                                Some(FilterType::HP)
                            } else if s == 2 {
                                Some(FilterType::BP)
                            } else if s == 3 {
                                Some(FilterType::Notch)
                            } else {
                                None
                            };
                            Some(ControlEvent::Filter { filter_type, freq: None, q: None })
                        },
                        OscArg::Other => None,
                    }
                } else {
                    None
                }
            } else if parts[2].eq(&"FREQRES".to_owned()) && parts[3].eq(&"x".to_owned()) {
                if args.len() > 0 {
                    match args[0] {
                        OscArg::Float(freq) => Some(ControlEvent::Filter {
                            filter_type: None,
                            freq: Some(filter_freq(freq)),
                            q: None,
                        }),
                        OscArg::Other => None,
                    }
                } else {
                    None
                }
            } else if parts[2].eq(&"FREQRES".to_owned()) && parts[3].eq(&"y".to_owned()) {
                if args.len() > 0 {
                    match args[0] {
                        OscArg::Float(q) => Some(ControlEvent::Filter {
                            filter_type: None,
                            freq: None,
                            q: Some(filter_q(q)),
                        }),
                        OscArg::Other => None,
                    }
                } else {
                    None
                }
            } else {
                None
            }
        } else if parts[1].eq(&"MIX".to_owned()) {
            if parts[2].eq(&"PAN".to_owned()) && parts[3].eq(&"x".to_owned()) {
                Some(ControlEvent::Pan(floats_of(args)))
            } else if parts[2].eq(&"VOLUME".to_owned()) && parts[3].eq(&"x".to_owned()) {
                let vals = floats_of(args);
                let mut out: Vec<i64> = Vec::new();
                let mut i: usize = 0;
                while i < vals.len()
                    invariant
                        0 <= i <= vals@.len(),
                        out@.len() == i,
                        vals@.len() == args@.len(),
                        forall|j: int| 0 <= j < vals@.len() ==> #[trigger] vals@[j] == float_or_zero(args@[j]),
                        forall|j: int| 0 <= j < i ==> #[trigger] out@[j] == vol_db_s(float_or_zero(args@[j])),
                    decreases vals@.len() - i,
                {
                    out.push(vol_db(vals[i]));
                    i = i + 1;
                }
                Some(ControlEvent::Volume(out))
            } else {
                None
            }
        } else if parts[1].eq(&"FM".to_owned()) {
            Self::fm_event(parts, args)
        } else {
            Self::oscillator_event(parts, args)
        }
    }

    /// A modulation-matrix row update: `FM/<osc>/LEVEL/x`.
    fn fm_event(parts: &Vec<String>, args: &Vec<OscArg>) -> (r: Option<ControlEvent>)
        requires
            parts@.len() >= 4,
        ensures
            if parts@.len() >= 5 && parts@[3]@ == "LEVEL"@ && parts@[4]@ == "x"@
                && (parts@[2]@ == "OSC1"@ || parts@[2]@ == "OSC2"@ || parts@[2]@ == "OSC3"@ || parts@[2]@ == "OSC4"@) {
                r matches Some(ControlEvent::FM { id, levels }) && id@ == parts@[2]@
                    && levels@.len() == args@.len()
                    && (forall|i: int| 0 <= i < args@.len() ==> #[trigger] levels@[i] == float_or_zero(args@[i]))
            } else {
                r is None
            },
    {
        if parts.len() < 5 {
            return None;
        }
        let named = parts[2].eq(&"OSC1".to_owned()) || parts[2].eq(&"OSC2".to_owned())
            || parts[2].eq(&"OSC3".to_owned()) || parts[2].eq(&"OSC4".to_owned());
        if named && parts[3].eq(&"LEVEL".to_owned()) && parts[4].eq(&"x".to_owned()) {
            Some(ControlEvent::FM { id: parts[2].clone(), levels: floats_of(args) })
        } else {
            None
        }
    }


    /// The first argument's float, if there is one.
    fn first_float(args: &Vec<OscArg>) -> (r: Option<i64>)
        ensures
            r == match arg_float(args@, 0) {
                Some(v) => Some(v as i64),
                None => None::<i64>,
            },
    {
        if args.len() > 0 {
            match args[0] {
                OscArg::Float(v) => Some(v),
                OscArg::Other => None,
            }
        } else {
            None
        }
    }

    /// A per-oscillator setting:
    /// `<osc>/ADSR|PHASE|TRANSPOSE|DETUNE|WAVEFORM/...`.
    #[verifier::rlimit(100)]
    fn oscillator_event(parts: &Vec<String>, args: &Vec<OscArg>) -> (r: Option<ControlEvent>)
        requires
            parts@.len() >= 4,
        ensures
            parts@[2]@ == "ADSR"@ && parts@[3]@ == "x"@ && args@.len() >= 4 ==> (r matches Some(
                ControlEvent::ADSR { id, attack, decay, sustain, release },
            ) && id@ == "ADSR-"@ + parts@[1]@
                && attack == 10 * env_arg_s(args@[0])
                && decay == 20 * env_arg_s(args@[1])
                && sustain == from_db_s(fmul_s(ONE - clamp_s(env_arg_s(args@[2]), 0, ONE as int), -40 * (ONE as int)))
                && release == 20 * env_arg_s(args@[3])),
            parts@[2]@ == "ADSR"@ && parts@[3]@ == "x"@ && args@.len() < 4 ==> r is None,
            osc_param_event_rel(parts@[1]@, parts@[2]@, parts@[3]@, args@, r),
            !((parts@[2]@ == "ADSR"@ && parts@[3]@ == "x"@) || (parts@[2]@ == "PHASE"@ && parts@[3]@ == "x"@)
                || (parts@[2]@ == "TRANSPOSE"@ && parts@[3]@ == "x"@) || (parts@[2]@ == "DETUNE"@ && parts@[3]@ == "x"@)
                || (parts@[2]@ == "WAVEFORM"@ && parts@[3]@ == "selection"@)) ==> r is None,
    {
        proof {
            lemma_address_words_distinct();
        }
        if parts[2].eq(&"ADSR".to_owned()) && parts[3].eq(&"x".to_owned()) {
            if args.len() >= 4 {
                let a = env_arg(args[0]);
                let d = env_arg(args[1]);
                let s = env_arg(args[2]);
                let rl = env_arg(args[3]);
                let sc = clamp(s, 0, ONE);
                proof {
                    lemma_abs_mul_bound(ONE - sc as int, -40 * (ONE as int), ONE as int, 40 * (ONE as int));
                    lemma_fmul_bound(ONE - sc as int, -40 * (ONE as int), ONE as int, 40 * (ONE as int));
                    lemma_tdiv_exact(40 * (ONE as int), ONE as int);
                    assert((ONE as int) * (40 * (ONE as int)) == 40 * (ONE as int) * (ONE as int)) by (nonlinear_arith);
                    assert((ONE - sc as int) * (-40 * (ONE as int)) == (-(ONE - sc as int)) * (40 * (ONE as int))) by (nonlinear_arith);
                    crate::fixed::lemma_fmul_nonpos(-(ONE - sc as int), 40 * (ONE as int));
                }
                let sustain = from_db(fmul(ONE - sc, -40 * ONE));
                let mut id = "ADSR-".to_owned();
                id.append(parts[1].as_str());
                Some(ControlEvent::ADSR { id, attack: 10 * a, decay: 20 * d, sustain, release: 20 * rl })
            } else {
                None
            }
        } else {
            Self::osc_param_event(parts, args)
        }
    }

    /// A single-float per-oscillator setting:
    /// `<osc>/PHASE|TRANSPOSE|DETUNE|WAVEFORM/...`.
    #[verifier::rlimit(100)]
    #[verifier::spinoff_prover]
    fn osc_param_event(parts: &Vec<String>, args: &Vec<OscArg>) -> (r: Option<ControlEvent>)
        requires
            parts@.len() >= 4,
        ensures
            osc_param_event_rel(parts@[1]@, parts@[2]@, parts@[3]@, args@, r),
            !((parts@[2]@ == "PHASE"@ && parts@[3]@ == "x"@) || (parts@[2]@ == "TRANSPOSE"@ && parts@[3]@ == "x"@)
                || (parts@[2]@ == "DETUNE"@ && parts@[3]@ == "x"@)
                || (parts@[2]@ == "WAVEFORM"@ && parts@[3]@ == "selection"@)) ==> r is None,
    {
        proof {
            lemma_address_words_distinct();
        }
        if parts[2].eq(&"PHASE".to_owned()) && parts[3].eq(&"x".to_owned()) {
            match Self::first_float(args) {
                Some(phase) => Some(ControlEvent::Phase { id: parts[1].clone(), phase }),
                None => None,
            }
        } else if parts[2].eq(&"TRANSPOSE".to_owned()) && parts[3].eq(&"x".to_owned()) {
            match Self::first_float(args) {
                Some(t) => Some(ControlEvent::Transpose {
                    id: parts[1].clone(),
                    transpose: unit_int(t) as i32,
                }),
                None => None,
            }
        } else if parts[2].eq(&"DETUNE".to_owned()) && parts[3].eq(&"x".to_owned()) {
            match Self::first_float(args) {
                Some(d) => Some(ControlEvent::Detune {
                    id: parts[1].clone(),
                    detune: cents(d) as i32,
                }),
                None => None,
            }
        } else if parts[2].eq(&"WAVEFORM".to_owned()) && parts[3].eq(&"selection".to_owned()) {
            match Self::first_float(args) {
                Some(selection) => {
                    let s = unit_int(selection);
                    let waveform = if s == 0 {
                        Some(Waveform::Sine)
                    } else if s == 1 {
                        Some(Waveform::Saw)
                    } else if s == 2 {
                        Some(Waveform::Square)
                    } else if s == 3 {
                        Some(Waveform::Tri)
                    } else if s == 4 {
                        Some(Waveform::SharpTri)
                    } else if s == 5 {
                        Some(Waveform::Random)
                    } else {
                        None
                    };
                    match waveform {
                        Some(w) => Some(ControlEvent::Waveform { id: parts[1].clone(), waveform: w }),
                        None => None,
                    }
                },
                None => None,
            }
        } else {
            None
        }
    }
}

} // verus!
