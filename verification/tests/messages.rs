use ytterbium::event::ControlEvent;
use ytterbium::filter::FilterType;
use ytterbium::fixed::ONE;
use ytterbium::midi::MidiEvent;
use ytterbium::osc_map::{OscArg, OscDispatcher};
use ytterbium::wavetable::Waveform;

const ONE_F: f64 = 4294967296.0;

fn fx(x: f64) -> i64 {
    (x * ONE_F) as i64
}

fn fl(x: i64) -> f64 {
    x as f64 / ONE_F
}

fn parts(words: &[&str]) -> Vec<String> {
    words.iter().map(|w| w.to_string()).collect()
}

#[test]
fn test_midi_note_decode() {
    // note-on and note-off with the velocity scaled to a fraction
    let on = MidiEvent::from_raw(0x93, 60, 127);
    assert_eq!(on, MidiEvent::NoteOn { key: 60, velocity: ONE, channel: 3 });
    let off = MidiEvent::from_raw(0x85, 61, 0);
    assert_eq!(off, MidiEvent::NoteOff { key: 61, velocity: 0, channel: 5 });
    let half = MidiEvent::from_raw(0x90, 10, 64);
    match half {
        MidiEvent::NoteOn { velocity, .. } => {
            assert!((fl(velocity) - 64.0 / 127.0).abs() < 1e-6);
        },
        _ => panic!("expected a note-on"),
    }
    // channel-mode controllers are not supported
    assert_eq!(MidiEvent::from_raw(0xB2, 121, 5), MidiEvent::Unsupported);
    // system messages decode to their own events
    assert_eq!(MidiEvent::from_raw(0xF8, 0, 0), MidiEvent::TimingClock);
    assert_eq!(MidiEvent::from_raw(0xF4, 0, 0), MidiEvent::Unknown);
}

#[test]
fn test_midi_to_control() {
    let on = MidiEvent::from_raw(0x90, 69, 127).to_control_event();
    match on {
        ControlEvent::NoteOn { key, velocity } => {
            assert_eq!(key, 69);
            assert_eq!(velocity, ONE);
        },
        _ => panic!("expected a note-on event"),
    }
    let clock = MidiEvent::from_raw(0xF8, 0, 0).to_control_event();
    assert!(matches!(clock, ControlEvent::Unsupported));
}

#[test]
fn test_grid_notes() {
    // a pad pressed emits a note-on for the remapped key, released a
    // note-off; an unchanged velocity emits nothing
    let mut d = OscDispatcher::new();
    let addr = parts(&["KEYS", "GRID", "x"]);
    let evs = d.as_control_event(&addr, &vec![OscArg::Float(fx(1.0))]);
    assert_eq!(evs.len(), 1);
    match &evs[0] {
        ControlEvent::NoteOn { key, velocity } => {
            assert_eq!(*key, 84);
            assert_eq!(*velocity, ONE);
        },
        _ => panic!("expected a note-on event"),
    }
    // the same velocity again is no event
    let evs = d.as_control_event(&addr, &vec![OscArg::Float(fx(1.0))]);
    assert_eq!(evs.len(), 0);
    // release
    let evs = d.as_control_event(&addr, &vec![OscArg::Float(fx(0.0))]);
    assert_eq!(evs.len(), 1);
    match &evs[0] {
        ControlEvent::NoteOff { key, .. } => assert_eq!(*key, 84),
        _ => panic!("expected a note-off event"),
    }
}

#[test]
fn test_grid_transpose() {
    // the transpose fader reads as six times its value in whole octaves:
    // half way is three octaves, full scale is six
    let mut d = OscDispatcher::new();
    let evs = d.as_control_event(&parts(&["KEYS", "TRANSPOSE", "x"]), &vec![OscArg::Float(fx(0.5))]);
    assert_eq!(evs.len(), 0);
    assert_eq!(d.transpose, 36);
    let evs = d.as_control_event(&parts(&["KEYS", "GRID", "x"]), &vec![OscArg::Float(fx(1.0))]);
    assert_eq!(evs.len(), 1);
    match &evs[0] {
        ControlEvent::NoteOn { key, .. } => assert_eq!(*key, 120),
        _ => panic!("expected a note-on event"),
    }
    let evs = d.as_control_event(&parts(&["KEYS", "TRANSPOSE", "x"]), &vec![OscArg::Float(fx(1.0))]);
    assert_eq!(evs.len(), 0);
    assert_eq!(d.transpose, 72);
}

#[test]
fn test_filter_messages() {
    let mut d = OscDispatcher::new();
    let evs = d.as_control_event(
        &parts(&["OSCILLATORS", "FILTER", "FILTERTYPE", "selection"]),
        &vec![OscArg::Float(fx(2.0))],
    );
    assert_eq!(evs.len(), 1);
    match &evs[0] {
        ControlEvent::Filter { filter_type, freq, q } => {
            assert_eq!(*filter_type, Some(FilterType::BP));
            assert!(freq.is_none() && q.is_none());
        },
        _ => panic!("expected a filter event"),
    }
    let evs = d.as_control_event(
        &parts(&["OSCILLATORS", "FILTER", "FREQRES", "x"]),
        &vec![OscArg::Float(fx(0.5))],
    );
    match &evs[0] {
        ControlEvent::Filter { freq, .. } => {
            assert!((fl(freq.unwrap()) - (40.0 + 10000.0)).abs() < 0.01);
        },
        _ => panic!("expected a filter event"),
    }
    let evs = d.as_control_event(
        &parts(&["OSCILLATORS", "FILTER", "FREQRES", "y"]),
        &vec![OscArg::Float(fx(0.25))],
    );
    match &evs[0] {
        ControlEvent::Filter { q, .. } => {
            assert_eq!(q.unwrap(), ONE);
        },
        _ => panic!("expected a filter event"),
    }
}

#[test]
fn test_mix_messages() {
    let mut d = OscDispatcher::new();
    // a full fader is 0 dB, a closed one falls below the -60 dB floor
    let evs = d.as_control_event(
        &parts(&["OSCILLATORS", "MIX", "VOLUME", "x"]),
        &vec![OscArg::Float(fx(1.0)), OscArg::Float(fx(0.0))],
    );
    match &evs[0] {
        ControlEvent::Volume(v) => {
            assert_eq!(v[0], 0);
            assert_eq!(v[1], fx(-61.0));
        },
        _ => panic!("expected a volume event"),
    }
    let evs = d.as_control_event(
        &parts(&["OSCILLATORS", "MIX", "PAN", "x"]),
        &vec![OscArg::Float(fx(-0.5)), OscArg::Other],
    );
    match &evs[0] {
        ControlEvent::Pan(p) => {
            assert_eq!(p[0], fx(-0.5));
            assert_eq!(p[1], 0);
        },
        _ => panic!("expected a pan event"),
    }
}

#[test]
fn test_oscillator_messages() {
    let mut d = OscDispatcher::new();
    let evs = d.as_control_event(
        &parts(&["OSCILLATORS", "OSC3", "WAVEFORM", "selection"]),
        &vec![OscArg::Float(fx(1.0))],
    );
    match &evs[0] {
        ControlEvent::Waveform { id, waveform } => {
            assert_eq!(id, "OSC3");
            assert_eq!(*waveform, Waveform::Saw);
        },
        _ => panic!("expected a waveform event"),
    }
    let evs = d.as_control_event(
        &parts(&["OSCILLATORS", "OSC1", "PHASE", "x"]),
        &vec![OscArg::Float(fx(0.25))],
    );
    match &evs[0] {
        ControlEvent::Phase { id, phase } => {
            assert_eq!(id, "OSC1");
            assert_eq!(*phase, fx(0.25));
        },
        _ => panic!("expected a phase event"),
    }
    let evs = d.as_control_event(
        &parts(&["OSCILLATORS", "OSC2", "DETUNE", "x"]),
        &vec![OscArg::Float(fx(0.12))],
    );
    match &evs[0] {
        ControlEvent::Detune { id, detune } => {
            assert_eq!(id, "OSC2");
            assert_eq!(*detune, 11);
        },
        _ => panic!("expected a detune event"),
    }
    let evs = d.as_control_event(
        &parts(&["OSCILLATORS", "OSC4", "ADSR", "x"]),
        &vec![
            OscArg::Float(fx(0.5)),
            OscArg::Float(fx(0.5)),
            OscArg::Float(fx(0.0)),
            OscArg::Float(fx(0.5)),
        ],
    );
    match &evs[0] {
        ControlEvent::ADSR { id, attack, decay, sustain, release } => {
            assert_eq!(id, "ADSR-OSC4");
            // the exponential fader curve: (10^0.5 - 1)/10 of the range
            let curve = (10f64.powf(0.5) - 1.0) / 10.0;
            assert!((fl(*attack) - 10.0 * curve).abs() < 0.01);
            assert!((fl(*decay) - 20.0 * curve).abs() < 0.02);
            assert!((fl(*release) - 20.0 * curve).abs() < 0.02);
            // a closed sustain fader maps to -40 dB
            assert!((fl(*sustain) - 0.01).abs() < 0.001);
        },
        _ => panic!("expected an envelope event"),
    }
    // an FM row addressed to an oscillator
    let evs = d.as_control_event(
        &parts(&["OSCILLATORS", "FM", "OSC2", "LEVEL", "x"]),
        &vec![OscArg::Float(fx(0.5)), OscArg::Float(fx(0.25))],
    );
    match &evs[0] {
        ControlEvent::FM { id, levels } => {
            assert_eq!(id, "OSC2");
            assert_eq!(levels[0], fx(0.5));
            assert_eq!(levels[1], fx(0.25));
        },
        _ => panic!("expected a modulation event"),
    }
}
