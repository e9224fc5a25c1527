//! The error kinds of the engine. The unverified edges map the failures of
//! their device and network libraries into these plain variants.

use vstd::prelude::*;

verus! {

/// What can go wrong around the core.
#[derive(Clone, Debug, PartialEq, Eq, Structural)]
pub enum RunError {
    /// A malformed bind address.
    BadAddress,
    /// A socket or stream failure.
    IoFailure,
    /// A control frame that does not decode.
    ControlDecodeFailure,
    /// A MIDI device failure.
    MidiFailure,
    /// No MIDI input device is present.
    NoMidiDevice,
    /// The audio device could not be opened or started.
    AudioFailure,
}

} // verus!
