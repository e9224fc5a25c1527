use ytterbium::dsp::{ControllableLink, SignalLink};
use ytterbium::dynamics::{HardLimiter, SoftLimiter};
use ytterbium::env_gen::{ADSRState, ADSR};
use ytterbium::event::{ControlEvent, Controllable};
use ytterbium::fixed::ONE;
use ytterbium::db::from_db;
use ytterbium::ring::RingBuffer;
use ytterbium::types::{Stereo, MINUS_THREE_DB};

const ONE_F: f64 = 4294967296.0;

fn fx(x: f64) -> i64 {
    (x * ONE_F) as i64
}

fn fl(x: i64) -> f64 {
    x as f64 / ONE_F
}

fn db(d: f64) -> f64 {
    10f64.powf(d / 20.0)
}

const TEST_EPSILON: f64 = 0.02; // -34 dB

/// The whole-tick budget a stage time yields, as the envelope counts it.
fn budget(t: f64, fs: i64) -> isize {
    ((fx(t) as i128 * fs as i128) / (ONE as i128)) as isize
}

#[test]
fn test_state_change() {
    let sample_rate = 48_000;
    let mut adsr = ADSR::new(sample_rate);
    assert_eq!(adsr.state(), ADSRState::Off);
    // setup ADSR parameters
    adsr.handle(&ControlEvent::ADSR {
        id: String::new(),
        attack: fx(0.1),
        decay: fx(0.3),
        sustain: fx(db(-16.0)),
        release: fx(2.0),
    });
    // initialize envelope
    adsr.handle(&ControlEvent::NoteOn { key: 0, velocity: fx(1.0) });
    assert_eq!(adsr.state(), ADSRState::Attack);
    // the state change is active in the n+1 tick
    let mut ticks = budget(0.1, sample_rate as i64) + 1;
    while ticks > 0 {
        adsr.tick();
        ticks -= 1;
    }
    assert_eq!(adsr.state(), ADSRState::Decay);
    ticks = budget(0.3, sample_rate as i64) + 1;
    while ticks > 0 {
        adsr.tick();
        ticks -= 1;
    }
    assert_eq!(adsr.state(), ADSRState::Sustain);
    assert!((fl(adsr.tick()) - db(-16.0)).abs() < TEST_EPSILON);
    adsr.handle(&ControlEvent::NoteOff { key: 0, velocity: fx(0.0) });
    ticks = budget(2.0, sample_rate as i64) + 1;
    while ticks > 0 {
        adsr.tick();
        ticks -= 1;
    }
    assert_eq!(adsr.state(), ADSRState::Off);
}

#[test]
fn test_short_envelope() {
    let sample_rate = 48_000;
    let mut adsr = ADSR::new(sample_rate);
    assert_eq!(adsr.state(), ADSRState::Off);
    adsr.handle(&ControlEvent::ADSR {
        id: String::new(),
        attack: fx(0.01),
        decay: fx(0.01),
        sustain: fx(db(-16.0)),
        release: fx(0.01),
    });
    adsr.handle(&ControlEvent::NoteOn { key: 0, velocity: fx(1.0) });
    assert_eq!(adsr.state(), ADSRState::Attack);
    let mut ticks = budget(0.01, sample_rate as i64) + 1;
    let mut level: i64 = 0;
    while ticks > 0 {
        level = adsr.tick();
        ticks -= 1;
    }
    assert_eq!(adsr.state(), ADSRState::Decay);
    assert!((fl(level) - db(-3.0)).abs() < TEST_EPSILON);
    ticks = budget(0.01, sample_rate as i64) + 1;
    while ticks > 0 {
        level = adsr.tick();
        ticks -= 1;
    }
    assert_eq!(adsr.state(), ADSRState::Sustain);
    assert!((fl(level) - db(-16.0)).abs() < TEST_EPSILON);
    adsr.handle(&ControlEvent::NoteOff { key: 0, velocity: fx(0.0) });
    ticks = budget(0.01, sample_rate as i64);
    while ticks > 0 {
        level = adsr.tick();
        assert!(level > 0);
        ticks -= 1;
    }
    assert!(fl(level).abs() < TEST_EPSILON);
    level = adsr.tick();
    assert_eq!(adsr.state(), ADSRState::Off);
    assert_eq!(level, 0);
}

#[test]
fn test_long_envelope() {
    let sample_rate = 48_000;
    let mut adsr = ADSR::new(sample_rate);
    assert_eq!(adsr.state(), ADSRState::Off);
    adsr.handle(&ControlEvent::ADSR {
        id: String::new(),
        attack: fx(10.0),
        decay: fx(20.0),
        sustain: fx(db(-24.0)),
        release: fx(30.0),
    });
    adsr.handle(&ControlEvent::NoteOn { key: 0, velocity: fx(1.0) });
    assert_eq!(adsr.state(), ADSRState::Attack);
    let mut ticks = budget(10.0, sample_rate as i64) + 1;
    let mut level: i64 = 0;
    while ticks > 0 {
        level = adsr.tick();
        ticks -= 1;
    }
    assert_eq!(adsr.state(), ADSRState::Decay);
    assert!((fl(level) - db(-3.0)).abs() < TEST_EPSILON);
    ticks = budget(20.0, sample_rate as i64) + 1;
    while ticks > 0 {
        level = adsr.tick();
        ticks -= 1;
    }
    assert_eq!(adsr.state(), ADSRState::Sustain);
    assert!((fl(level) - db(-24.0)).abs() < TEST_EPSILON);
    adsr.handle(&ControlEvent::NoteOff { key: 0, velocity: fx(0.0) });
    ticks = budget(30.0, sample_rate as i64);
    while ticks > 0 {
        level = adsr.tick();
        assert!(level > 0);
        ticks -= 1;
    }
    assert!(fl(level).abs() < TEST_EPSILON);
    level = adsr.tick();
    assert_eq!(adsr.state(), ADSRState::Off);
    assert_eq!(level, 0);
}

#[test]
fn test_attack_retrigger() {
    // a note-on during the attack re-enters the stage with its full
    // budget, keeping the level for a smooth rise
    let sample_rate = 48_000;
    let mut adsr = ADSR::new(sample_rate);
    adsr.handle(&ControlEvent::ADSR {
        id: String::new(),
        attack: fx(0.1),
        decay: fx(0.3),
        sustain: fx(db(-16.0)),
        release: fx(2.0),
    });
    adsr.handle(&ControlEvent::NoteOn { key: 0, velocity: fx(1.0) });
    let full = budget(0.1, sample_rate as i64);
    let mut level_before: i64 = 0;
    for _ in 0..full / 2 {
        level_before = adsr.tick();
    }
    // retrigger half way up
    adsr.handle(&ControlEvent::NoteOn { key: 0, velocity: fx(1.0) });
    assert_eq!(adsr.state(), ADSRState::Attack);
    // the half-consumed budget alone would have moved on by now
    let mut level_after: i64 = 0;
    for _ in 0..full / 2 + 1 {
        level_after = adsr.tick();
    }
    assert_eq!(adsr.state(), ADSRState::Attack);
    // the level kept rising instead of restarting from silence
    assert!(level_after > level_before);
    // the full budget from the retrigger reaches Decay on schedule
    for _ in 0..full / 2 + 1 {
        adsr.tick();
    }
    assert_eq!(adsr.state(), ADSRState::Decay);
}

#[test]
fn test_adsr_event_idempotent() {
    // sending the same ADSR event twice leaves the same trajectory as once
    let event = ControlEvent::ADSR {
        id: String::new(),
        attack: fx(0.02),
        decay: fx(0.05),
        sustain: fx(db(-12.0)),
        release: fx(0.1),
    };
    let mut once = ADSR::new(48_000);
    once.handle(&event);
    let mut twice = ADSR::new(48_000);
    twice.handle(&event);
    twice.handle(&event);
    once.handle(&ControlEvent::NoteOn { key: 10, velocity: fx(0.8) });
    twice.handle(&ControlEvent::NoteOn { key: 10, velocity: fx(0.8) });
    for _ in 0..8000 {
        assert_eq!(once.tick(), twice.tick());
    }
    once.handle(&ControlEvent::NoteOff { key: 10, velocity: fx(0.0) });
    twice.handle(&ControlEvent::NoteOff { key: 10, velocity: fx(0.0) });
    for _ in 0..8000 {
        assert_eq!(once.tick(), twice.tick());
    }
}

#[test]
fn test_stereo() {
    let (a, b) = (Stereo(fx(1.0), fx(2.0)), Stereo(fx(2.0), fx(4.0)));
    assert_eq!(a.add(b), Stereo(fx(3.0), fx(6.0)));
    assert_eq!(a.sub(b), Stereo(fx(-1.0), fx(-2.0)));
    assert_eq!(b.sub(a), Stereo(fx(1.0), fx(2.0)));
    assert_eq!(a.mul(b), Stereo(fx(2.0), fx(8.0)));
    assert_eq!(a.scale(fx(3.0)), Stereo(fx(3.0), fx(6.0)));
    let mut x = Stereo::default();
    x = x.add(Stereo(fx(5.0), fx(10.0)));
    assert_eq!(x, Stereo(fx(5.0), fx(10.0)));
    x = x.scale(fx(0.5));
    assert_eq!(x, Stereo(fx(2.5), fx(5.0)));
    assert_eq!(x.div(fx(5.0)), Stereo(fx(0.5), fx(1.0)));
}

#[test]
fn test_conversion() {
    // decibel amounts against their linear gains
    assert_eq!(from_db(0), ONE);
    assert!((fl(from_db(fx(-3.0))) - db(-3.0)).abs() < 0.001);
    assert!((fl(from_db(fx(-6.0))) - db(-6.0)).abs() < 0.001);
    assert!((fl(from_db(fx(-16.0))) - db(-16.0)).abs() < 0.001);
    assert!((fl(from_db(fx(-40.0))) - db(-40.0)).abs() < 0.0005);
    assert!((fl(MINUS_THREE_DB) - db(-3.0)).abs() < 0.0001);
}

#[test]
fn test_hard_limiter() {
    // passes anything within one unit, saturates the rest to its sign
    let mut lim = HardLimiter {};
    assert_eq!(lim.tick(Stereo(fx(0.25), fx(-0.75))), Stereo(fx(0.25), fx(-0.75)));
    assert_eq!(lim.tick(Stereo(ONE, -ONE)), Stereo(ONE, -ONE));
    assert_eq!(lim.tick(Stereo(fx(1.5), fx(-2.5))), Stereo(ONE, -ONE));
    assert_eq!(lim.tick(Stereo(fx(7.0), fx(0.5))), Stereo(ONE, fx(0.5)));
}

#[test]
fn test_soft_limiter() {
    let mut lim = SoftLimiter {};
    // continuous at the takeover point: the rational formula already
    // reaches the unit exactly at |x| = 3
    assert_eq!(lim.tick(Stereo(3 * ONE, -3 * ONE)), Stereo(ONE, -ONE));
    assert_eq!(lim.tick(Stereo(3 * ONE + 1, -3 * ONE - 1)), Stereo(ONE, -ONE));
    assert_eq!(lim.tick(Stereo(fx(10.0), fx(-10.0))), Stereo(ONE, -ONE));
    // spot value of the Padé curve: 1·(1+27)/(9+27) = 7/9
    let y = lim.tick(Stereo(ONE, 0));
    assert!((fl(y.0) - 7.0 / 9.0).abs() < 1e-6);
    assert_eq!(y.1, 0);
    // small signals pass nearly unchanged
    let y = lim.tick(Stereo(fx(0.01), fx(-0.01)));
    assert!((fl(y.0) - 0.01).abs() < 1e-4);
    assert!((fl(y.1) + 0.01).abs() < 1e-4);
}

#[test]
fn test_ring_fifo() {
    // frames come out in exactly the order they went in
    let mut rb = RingBuffer::new(4);
    assert!(rb.push(Stereo(1, 10)));
    assert!(rb.push(Stereo(2, 20)));
    assert!(rb.push(Stereo(3, 30)));
    assert!(rb.push(Stereo(4, 40)));
    assert!(!rb.push(Stereo(5, 50)));
    assert_eq!(rb.pop(), Some(Stereo(1, 10)));
    assert_eq!(rb.pop(), Some(Stereo(2, 20)));
    assert!(rb.push(Stereo(6, 60)));
    assert_eq!(rb.pop(), Some(Stereo(3, 30)));
    assert_eq!(rb.pop(), Some(Stereo(4, 40)));
    assert_eq!(rb.pop(), Some(Stereo(6, 60)));
    assert_eq!(rb.pop(), None);
}
