//! Decoding raw MIDI messages into events: the status byte picks the
//! message family, the two data bytes carry key, velocity, controller or
//! position, with velocities scaled into Q32 fractions of full scale.

use vstd::prelude::*;
use crate::event::ControlEvent;
use crate::fixed::ONE;

verus! {

/// A decoded MIDI message.
#[derive(Clone, Debug, PartialEq, Eq, Structural)]
pub enum MidiEvent {
    Unknown,
    Unsupported,
    NoteOn { key: u8, velocity: i64, channel: u8 },
    NoteOff { key: u8, velocity: i64, channel: u8 },
    PolyphonicKeyPressure { key: u8, velocity: i64, channel: u8 },
    ControlChange { controller: u8, value: i64, channel: u8 },
    ProgramChange { program: u8, channel: u8 },
    ChannelPressure { pressure: u8, channel: u8 },
    PitchBend { pitchbend: u16, channel: u8 },
    SysEx,
    SysExEnd,
    TimeCodeQuarterFrame { msg_type: u8, value: u8 },
    SongPosition(u16),
    SongSelect(u8),
    TuneRequest,
    TimingClock,
    Start,
    Stop,
    Continue,
    ActiveSensing,
    Reset,
}

/// A 7-bit MIDI value as a Q32 fraction of full scale.
pub open spec fn midi_fraction(v: int) -> int {
    (v * ONE) / 127
}

/// The event a raw three-byte MIDI message decodes to.
pub open spec fn midi_decoded_s(status: u8, data1: u8, data2: u8) -> MidiEvent {
    if status == 0xF0 {
        MidiEvent::SysEx
    } else if status == 0xF1 {
        MidiEvent::TimeCodeQuarterFrame {
            msg_type: ((data1 & 0xF0) >> 4) as u8,
            value: (data1 & 0x0F) as u8,
        }
    } else if status == 0xF2 {
        MidiEvent::SongPosition((data1 + ((data2 as u16) << 8)) as u16)
    } else if status == 0xF3 {
        MidiEvent::SongSelect(data1)
    } else if status == 0xF6 {
        MidiEvent::TuneRequest
    } else if status == 0xF7 {
        MidiEvent::SysExEnd
    } else if status == 0xF8 {
        MidiEvent::TimingClock
    } else if status == 0xFA {
        MidiEvent::Start
    } else if status == 0xFB {
        MidiEvent::Continue
    } else if status == 0xFC {
        MidiEvent::Stop
    } else if status == 0xFE {
        MidiEvent::ActiveSensing
    } else if status == 0xFF {
        MidiEvent::Reset
    } else if status == 0xF4 || status == 0xF5 || status == 0xF9 || status == 0xFD {
        MidiEvent::Unknown
    } else {
        let channel = (status & 0x0F) as u8;
        let family = status & 0xF0;
        if family == 0x80 {
            MidiEvent::NoteOff { key: data1, velocity: midi_fraction(data2 as int) as i64, channel }
        } else if family == 0x90 {
            MidiEvent::NoteOn { key: data1, velocity: midi_fraction(data2 as int) as i64, channel }
        } else if family == 0xA0 {
            MidiEvent::PolyphonicKeyPressure {
                key: data1,
                velocity: midi_fraction(data2 as int) as i64,
                channel,
            }
        } else if family == 0xB0 {
            if 120 <= data1 <= 127 {
                MidiEvent::Unsupported
            } else {
                MidiEvent::ControlChange {
                    controller: data1,
                    value: midi_fraction(data2 as int) as i64,
                    channel,
                }
            }
        } else if family == 0xC0 {
            MidiEvent::ProgramChange { program: data1, channel }
        } else if family == 0xD0 {
            MidiEvent::ChannelPressure { pressure: data1, channel }
        } else if family == 0xE0 {
            MidiEvent::PitchBend { pitchbend: (data1 + ((data2 as u16) << 8)) as u16, channel }
        } else {
            MidiEvent::Unknown
        }
    }
}

impl MidiEvent {
    /// Decodes a raw three-byte MIDI message, exactly as `midi_decoded_s`
    /// describes.
    pub fn from_raw(status: u8, data1: u8, data2: u8) -> (r: MidiEvent)
        ensures
            r == midi_decoded_s(status, data1, data2),
    {
        proof {
            lemma_midi_fraction(data2 as int);
            assert((data1 & 0xF0) >> 4 <= 15 && (data1 & 0x0F) <= 15) by (bit_vector);
            assert(((data2 as u16) << 8) <= 0xff00) by (bit_vector);
        }
        match status {
            0xF0 => MidiEvent::SysEx,
            0xF1 => MidiEvent::TimeCodeQuarterFrame {
                msg_type: (data1 & 0xF0) >> 4,
                value: data1 & 0x0F,
            },
            0xF2 => MidiEvent::SongPosition(data1 as u16 + ((data2 as u16) << 8)),
            0xF3 => MidiEvent::SongSelect(data1),
            0xF6 => MidiEvent::TuneRequest,
            0xF7 => MidiEvent::SysExEnd,
            0xF8 => MidiEvent::TimingClock,
            0xFA => MidiEvent::Start,
            0xFB => MidiEvent::Continue,
            0xFC => MidiEvent::Stop,
            0xFE => MidiEvent::ActiveSensing,
            0xFF => MidiEvent::Reset,
            0xF4 | 0xF5 | 0xF9 | 0xFD => MidiEvent::Unknown,
            _ => {
                let channel = status & 0x0F;
                match status & 0xF0 {
                    0x80 => MidiEvent::NoteOff {
                        key: data1,
                        velocity: Self::fraction(data2),
                        channel,
                    },
                    0x90 => MidiEvent::NoteOn {
                        key: data1,
                        velocity: Self::fraction(data2),
                        channel,
                    },
                    0xA0 => MidiEvent::PolyphonicKeyPressure {
                        key: data1,
                        velocity: Self::fraction(data2),
                        channel,
                    },
                    0xB0 => {
                        if data1 >= 120 && data1 <= 127 {
                            MidiEvent::Unsupported
                        } else {
                            MidiEvent::ControlChange {
                                controller: data1,
                                value: Self::fraction(data2),
                                channel,
                            }
                        }
                    },
                    0xC0 => MidiEvent::ProgramChange { program: data1, channel },
                    0xD0 => MidiEvent::ChannelPressure { pressure: data1, channel },
                    0xE0 => MidiEvent::PitchBend {
                        pitchbend: data1 as u16 + ((data2 as u16) << 8),
                        channel,
                    },
                    _ => MidiEvent::Unknown,
                }
            },
        }
    }

    /// A 7-bit value as a Q32 fraction of full scale.
    fn fraction(v: u8) -> (r: i64)
        ensures
            r == midi_fraction(v as int),
            0 <= r,
    {
        proof {
            lemma_midi_fraction(v as int);
        }
        ((v as u64) * (ONE as u64) / 127) as i64
    }

    /// Turns a decoded MIDI message into the control event the core
    /// consumes; only key events reach the synthesizer.
    pub fn to_control_event(&self) -> (r: ControlEvent)
        ensures
            r == match *self {
                MidiEvent::NoteOn { key, velocity, .. } => ControlEvent::NoteOn { key, velocity },
                MidiEvent::NoteOff { key, velocity, .. } => ControlEvent::NoteOff { key, velocity },
                _ => ControlEvent::Unsupported,
            },
    {
        match *self {
            MidiEvent::NoteOn { key, velocity, .. } => ControlEvent::NoteOn { key, velocity },
            MidiEvent::NoteOff { key, velocity, .. } => ControlEvent::NoteOff { key, velocity },
            _ => ControlEvent::Unsupported,
        }
    }
}

/// A 7-bit fraction fits its types and never exceeds `ONE` plus a little.
proof fn lemma_midi_fraction(v: int)
    requires
        0 <= v <= 255,
    ensures
        0 <= midi_fraction(v) <= 9 * ONE,
{
    vstd::arithmetic::div_mod::lemma_div_pos_is_pos(v * ONE, 127);
    vstd::arithmetic::div_mod::lemma_div_is_ordered(v * ONE, 255 * (ONE as int), 127);
    vstd::arithmetic::div_mod::lemma_div_is_ordered(255 * (ONE as int), 9 * (ONE as int) * 127, 127);
    vstd::arithmetic::div_mod::lemma_div_by_multiple(9 * (ONE as int), 127);
    assert(0 <= v * ONE <= 255 * (ONE as int)) by (nonlinear_arith)
        requires
            0 <= v <= 255,
    ;
    assert(255 * (ONE as int) <= 9 * (ONE as int) * 127) by (nonlinear_arith);
}

} // verus!
