//! Control events: the values the control plane hands to the audio plane.
//!
//! Levels, velocities, phases and decibel amounts are Q32 fixed-point
//! numbers; times are Q32 seconds.

use vstd::prelude::*;
use crate::filter::FilterType;
use crate::wavetable::Waveform;

verus! {

/// One decoded control-plane message.
#[derive(Clone, Debug)]
pub enum ControlEvent {
    /// A message the control surface knows but the core does not act on.
    Unsupported,
    /// A key press: key number and velocity in `[0, ONE]`.
    NoteOn { key: u8, velocity: i64 },
    /// A key release.
    NoteOff { key: u8, velocity: i64 },
    /// New envelope times (Q32 seconds) and sustain level for the envelope
    /// whose id matches.
    ADSR { id: String, attack: i64, decay: i64, sustain: i64, release: i64 },
    /// A new waveform for the oscillator whose id matches.
    Waveform { id: String, waveform: Waveform },
    /// Per-oscillator levels in dB (Q32); below -60 dB a level is cut to zero.
    Volume(Vec<i64>),
    /// Per-oscillator pan positions in `[-ONE, ONE]`.
    Pan(Vec<i64>),
    /// A phase offset (Q32 turns) for the oscillator whose id matches.
    Phase { id: String, phase: i64 },
    /// A transposition in octaves for the oscillator whose id matches.
    Transpose { id: String, transpose: i32 },
    /// A detuning in cents for the oscillator whose id matches.
    Detune { id: String, detune: i32 },
    /// One row of the FM matrix: how much each oscillator modulates the
    /// oscillator whose id matches.
    FM { id: String, levels: Vec<i64> },
    /// A partial filter update: type, cutoff (Q32 Hz) and Q, each optional.
    Filter { filter_type: Option<FilterType>, freq: Option<i64>, q: Option<i64> },
}

/// A component that reacts to control events.
pub trait Controllable {
    /// The invariant the component keeps across event handling.
    spec fn inv(&self) -> bool;

    fn handle(&mut self, msg: &ControlEvent)
        requires
            old(self).inv(),
        ensures
            final(self).inv(),
    ;
}

} // verus!
