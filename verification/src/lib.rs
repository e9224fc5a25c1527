//! Core of a polyphonic, additive/FM software synthesizer.
//!
//! All signal values are Q32 fixed-point numbers: an `i64` holding the
//! real value scaled by `2^32`. The modules build from the math primitives
//! (fixed-point arithmetic, trigonometry, decibel conversion) up through
//! wavetable oscillators, envelopes, voices, the voice manager, the biquad
//! filter and the limiters, to the signal flow that fills the frame queue
//! which an audio backend drains.

pub mod db;
pub mod dsp;
pub mod dynamics;
pub mod env_gen;
pub mod errors;
pub mod event;
pub mod filter;
pub mod fixed;
pub mod flow;
pub mod midi;
pub mod osc_map;
pub mod pitch;
pub mod ring;
pub mod router;
pub mod trig;
pub mod types;
pub mod voice;
pub mod wavetable;

use vstd::prelude::*;

verus! {

} // verus!
