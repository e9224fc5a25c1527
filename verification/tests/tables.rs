use ytterbium::fixed::ONE;
use ytterbium::pitch::PitchConvert;
use ytterbium::trig::{cos_turn, sin_turn};
use ytterbium::types::Shared;
use ytterbium::wavetable::{generate_wavetables, Waveform, WavetableOsc};

const ONE_F: f64 = 4294967296.0;

fn fx(x: f64) -> i64 {
    (x * ONE_F) as i64
}

fn fl(x: i64) -> f64 {
    x as f64 / ONE_F
}

const SAMPLE_RATE: usize = 48_000;
const LOW_FREQ: f64 = 20.0;

#[test]
fn test_trig_accuracy() {
    let pi2 = std::f64::consts::PI * 2.0;
    let mut x = 0.0;
    while x < 1.0 {
        assert!((fl(sin_turn(fx(x))) - (pi2 * x).sin()).abs() < 1e-4);
        assert!((fl(cos_turn(fx(x))) - (pi2 * x).cos()).abs() < 1e-4);
        x += 0.0137;
    }
    assert_eq!(sin_turn(0), 0);
}

#[test]
fn test_pitch_table() {
    let pitch = PitchConvert::default();
    // concert A and its octaves
    assert!((fl(pitch.key_to_hz(69)) - 440.0).abs() < 0.05);
    assert!((fl(pitch.key_to_hz(81)) - 880.0).abs() < 0.1);
    assert!((fl(pitch.key_to_hz(57)) - 220.0).abs() < 0.05);
    // out-of-range keys clamp to the last entry
    assert_eq!(pitch.key_to_hz(200), pitch.key_to_hz(127));
    // the table grows monotonically
    for k in 0..127u8 {
        assert!(pitch.key_to_hz(k) < pitch.key_to_hz(k + 1));
    }
}

#[test]
fn test_wavetable_invariants() {
    // every sample within one unit, normalization tight, caps strictly
    // increasing from 2·f0/fs
    let tables = generate_wavetables(fx(LOW_FREQ), SAMPLE_RATE);
    let first_cap = (2 * fx(LOW_FREQ)) / SAMPLE_RATE as i64;
    for set in &tables.sets {
        assert!(!set.is_empty());
        assert_eq!(set[0].max_phase_incr, first_cap);
        for w in 0..set.len() {
            if w + 1 < set.len() {
                assert!(set[w].max_phase_incr < set[w + 1].max_phase_incr);
            }
            let table = &set[w].table;
            assert!(!table.is_empty());
            let mut peak: i64 = 0;
            for &s in table.iter() {
                assert!(-ONE <= s && s <= ONE);
                if s.abs() > peak {
                    peak = s.abs();
                }
            }
            assert!(fl(peak) >= 0.99);
        }
    }
}

#[test]
fn test_wavetable_phase() {
    const EPSILON: f64 = 0.0001;
    let wavetables = Shared::new(generate_wavetables(fx(LOW_FREQ), SAMPLE_RATE));
    let pitch_convert = Shared::new(PitchConvert::default());
    let mut osc = WavetableOsc::new(SAMPLE_RATE, wavetables, pitch_convert);
    let pi2 = std::f64::consts::PI * 2.0;

    for &freq in &[1.0f64, 1000.0, ((SAMPLE_RATE >> 1) - 1) as f64] {
        let num_samples = SAMPLE_RATE / freq as usize; // one period
        let phase_incr = pi2 * freq / SAMPLE_RATE as f64; // for the reference

        osc.reset();
        osc.set_freq(fx(freq));
        let mut total_error = 0.0;
        for idx in 0..num_samples {
            let sample = fl(osc.tick());
            let sine = (phase_incr * idx as f64).sin();
            let error = sine - sample;
            total_error += error * error;
        }
        assert!(total_error < EPSILON);

        // +90 degrees turns the sine into a cosine; the first frame after
        // the phase jump carries the anti-click crossfade, so the error is
        // summed from the second frame on
        osc.reset();
        osc.set_phase(fx(0.25));
        total_error = 0.0;
        for idx in 0..num_samples {
            let sample = fl(osc.tick());
            if idx == 0 {
                continue;
            }
            let cosine = (phase_incr * idx as f64).cos();
            let error = cosine - sample;
            total_error += error * error;
        }
        assert!(total_error < EPSILON);

        // 180 degrees
        osc.reset();
        osc.set_phase(fx(0.5));
        total_error = 0.0;
        for idx in 0..num_samples {
            let sample = fl(osc.tick());
            if idx == 0 {
                continue;
            }
            let sine = (phase_incr * idx as f64 + std::f64::consts::PI).sin();
            let error = sine - sample;
            total_error += error * error;
        }
        assert!(total_error < EPSILON);

        // -90 degrees
        osc.reset();
        osc.set_phase(fx(-0.5));
        total_error = 0.0;
        for idx in 0..num_samples {
            let sample = fl(osc.tick());
            if idx == 0 {
                continue;
            }
            let sine = (phase_incr * idx as f64 - std::f64::consts::PI).sin();
            let error = sine - sample;
            total_error += error * error;
        }
        assert!(total_error < EPSILON);
    }
}

#[test]
fn test_waveform_tables_selected_by_rate() {
    // a faster phase increment selects a smaller table
    let tables = generate_wavetables(fx(LOW_FREQ), SAMPLE_RATE);
    let saw = &tables.sets[Waveform::Saw.index()];
    assert!(saw.len() > 1);
    for w in 1..saw.len() {
        assert!(saw[w].table.len() <= saw[w - 1].table.len());
    }
}
