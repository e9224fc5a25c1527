use ytterbium::dsp::SignalSource;
use ytterbium::env_gen::ADSRState;
use ytterbium::event::{ControlEvent, Controllable};
use ytterbium::fixed::ONE;
use ytterbium::pitch::PitchConvert;
use ytterbium::types::{Shared, Stereo, MINUS_THREE_DB};
use ytterbium::voice::{Voice, VoiceManager};
use ytterbium::wavetable::generate_wavetables;

const ONE_F: f64 = 4294967296.0;

fn fx(x: f64) -> i64 {
    (x * ONE_F) as i64
}

fn small_voice() -> Voice {
    let tables = Shared::new(generate_wavetables(fx(20.0), 8000));
    let pitch = Shared::new(PitchConvert::default());
    Voice::new(8000, tables, pitch)
}

#[test]
fn test_pan_law() {
    // center sits both channels at -3 dB; the extremes push one channel
    // to full scale and pull the other down by the same quadratic amount
    let mut voice = small_voice();
    voice.handle(&ControlEvent::Pan(vec![fx(0.0), fx(1.0), fx(-1.0), fx(0.5)]));
    assert_eq!(voice.pan[0], Stereo(MINUS_THREE_DB, MINUS_THREE_DB));
    assert_eq!(voice.pan[1], Stereo(2 * MINUS_THREE_DB - ONE, ONE));
    assert_eq!(voice.pan[2], Stereo(ONE, 2 * MINUS_THREE_DB - ONE));
    // |pan| = 1/2 moves each channel a quarter of the way
    let d = (ONE - MINUS_THREE_DB) / 4;
    let l = voice.pan[3].0 - (MINUS_THREE_DB - d);
    let r = voice.pan[3].1 - (MINUS_THREE_DB + d);
    assert!(l.abs() < 8 && r.abs() < 8);
}

#[test]
fn test_volume_floor_silences() {
    // all levels below -60 dB, then any tick is exactly zero
    let mut voice = small_voice();
    voice.handle(&ControlEvent::NoteOn { key: 69, velocity: fx(1.0) });
    voice.handle(&ControlEvent::Volume(vec![fx(-100.0), fx(-61.0), fx(-100.0), fx(-100.0)]));
    for _ in 0..64 {
        assert_eq!(voice.tick(), Stereo(0, 0));
    }
    // the floor also holds through a manager full of voices
    let mut vm = VoiceManager::new(2, 8000);
    vm.handle(&ControlEvent::NoteOn { key: 40, velocity: fx(1.0) });
    vm.handle(&ControlEvent::Volume(vec![fx(-100.0), fx(-100.0), fx(-100.0), fx(-100.0)]));
    for _ in 0..64 {
        assert_eq!(vm.tick(), Stereo(0, 0));
    }
}

#[test]
fn test_voice_runs_and_sounds() {
    let mut voice = small_voice();
    assert!(!voice.running());
    voice.handle(&ControlEvent::NoteOn { key: 69, velocity: fx(1.0) });
    assert!(voice.running());
    let mut peak: i64 = 0;
    for _ in 0..4000 {
        let f = voice.tick();
        if f.0.abs() > peak {
            peak = f.0.abs();
        }
    }
    // -3 dB level times -3 dB pan times the envelope peak
    assert!(peak > fx(0.2));
    assert!(peak <= 4 * ONE);
}

#[test]
fn test_voice_stealing() {
    // seventeen distinct notes into sixteen voices: exactly the first
    // voice is reassigned, and its queued key is the seventeenth
    let mut vm = VoiceManager::new(16, 48_000);
    for key in 1..=17u8 {
        vm.handle(&ControlEvent::NoteOn { key, velocity: fx(1.0) });
    }
    assert_eq!(vm.voices.len(), 16);
    assert_eq!(vm.note_queue.len(), 16);
    assert_eq!(vm.note_queue.back(), Some(&(17u8, 0usize)));
    assert_eq!(vm.note_queue.front(), Some(&(2u8, 1usize)));
    // the reassigned voice now plays the seventeenth key
    assert_eq!(vm.voices[0].osc1.key, 17);
    for idx in 1..16usize {
        assert_eq!(vm.voices[idx].osc1.key, idx as u8 + 1);
    }
    // a note-off reaches the voice queued on that key
    vm.handle(&ControlEvent::NoteOff { key: 9, velocity: fx(0.0) });
    assert_eq!(vm.voices[8].env1.state, ADSRState::Release);
    assert_eq!(vm.voices[7].env1.state, ADSRState::Attack);
}

#[test]
fn test_free_voice_allocation() {
    // the lowest-indexed idle voice is taken first
    let mut vm = VoiceManager::new(4, 8000);
    assert_eq!(vm.free_voice(), Some(0));
    vm.handle(&ControlEvent::NoteOn { key: 60, velocity: fx(1.0) });
    assert_eq!(vm.free_voice(), Some(1));
    vm.handle(&ControlEvent::NoteOn { key: 61, velocity: fx(1.0) });
    assert_eq!(vm.free_voice(), Some(2));
}

#[test]
fn test_fm_matrix_rows() {
    // an FM event fills one row, with the self-feedback entry damped
    let mut voice = small_voice();
    voice.handle(&ControlEvent::FM {
        id: "OSC2".to_string(),
        levels: vec![fx(1.0), fx(2.0), fx(3.0), fx(4.0)],
    });
    assert_eq!(voice.fm_mod[4], fx(1.0));
    assert_eq!(voice.fm_mod[5], fx(2.0) / 10);
    assert_eq!(voice.fm_mod[6], fx(3.0));
    assert_eq!(voice.fm_mod[7], fx(4.0));
    // other rows stay untouched
    for k in 0..4 {
        assert_eq!(voice.fm_mod[k], 0);
    }
    for k in 8..16 {
        assert_eq!(voice.fm_mod[k], 0);
    }
    // an unknown id changes nothing
    voice.handle(&ControlEvent::FM { id: "OSC9".to_string(), levels: vec![fx(1.0)] });
    for k in 0..4 {
        assert_eq!(voice.fm_mod[k], 0);
    }
}
