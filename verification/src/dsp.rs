//! The signal-graph interfaces: sources produce frames, links transform
//! them, sinks consume them, and a flow drives one chain of all three.

use vstd::prelude::*;
use crate::event::ControlEvent;
use crate::types::Stereo;

verus! {

/// The largest magnitude any frame in the signal path may carry.
pub const SIG_MAX: i64 = 0x2000_0000_0000;

/// Produces one frame per tick.
pub trait SignalSource {
    /// The invariant the source keeps across ticks.
    spec fn inv(&self) -> bool;

    fn tick(&mut self) -> (r: Stereo)
        requires
            old(self).inv(),
        ensures
            final(self).inv(),
    ;
}

/// Transforms one frame per tick.
pub trait SignalLink {
    /// The invariant the link keeps across ticks.
    spec fn inv(&self) -> bool;

    /// The frames the link accepts.
    spec fn accepts(&self, input: Stereo) -> bool;

    fn tick(&mut self, input: Stereo) -> (r: Stereo)
        requires
            old(self).inv(),
            old(self).accepts(input),
        ensures
            final(self).inv(),
    ;
}

/// A link that also reacts to control events.
pub trait ControllableLink {
    /// The invariant the link keeps across ticks and events.
    spec fn inv(&self) -> bool;

    /// The frames the link accepts.
    spec fn accepts(&self, input: Stereo) -> bool;

    fn tick(&mut self, input: Stereo) -> (r: Stereo)
        requires
            old(self).inv(),
            old(self).accepts(input),
        ensures
            final(self).inv(),
    ;

    fn handle(&mut self, msg: &ControlEvent)
        requires
            old(self).inv(),
        ensures
            final(self).inv(),
    ;
}

/// Consumes one frame per tick.
pub trait SignalSink {
    /// The invariant the sink keeps across ticks.
    spec fn inv(&self) -> bool;

    fn tick(&mut self, input: Stereo)
        requires
            old(self).inv(),
        ensures
            final(self).inv(),
    ;
}

/// Drives a whole source-to-sink chain one frame forward.
pub trait SignalFlow {
    /// The invariant the flow keeps across ticks.
    spec fn inv(&self) -> bool;

    fn tick(&mut self)
        requires
            old(self).inv(),
        ensures
            final(self).inv(),
    ;
}

} // verus!
