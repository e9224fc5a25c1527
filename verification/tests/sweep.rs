use ytterbium::dsp::ControllableLink;
use ytterbium::event::{ControlEvent, Controllable};
use ytterbium::filter::{Filter, FilterType};
use ytterbium::fixed::ONE;
use ytterbium::flow::{BufferSink, Flow};
use ytterbium::dsp::SignalFlow;
use ytterbium::ring::RingBuffer;
use ytterbium::types::Stereo;
use ytterbium::voice::VoiceManager;

const ONE_F: f64 = 4294967296.0;

fn fx(x: f64) -> i64 {
    (x * ONE_F) as i64
}

fn fl(x: i64) -> f64 {
    x as f64 / ONE_F
}

/// A small deterministic noise source.
struct Lcg(u64);

impl Lcg {
    fn next_unit(&mut self) -> f64 {
        self.0 = self.0.wrapping_mul(6364136223846793005).wrapping_add(1442695040888963407);
        ((self.0 >> 11) as f64 / (1u64 << 53) as f64) * 2.0 - 1.0
    }
}

#[test]
fn test_filter_sweep() {
    // a lowpass swept upward over white noise lets through more and more
    // broadband energy
    const SAMPLE_RATE: usize = 48_000;
    const WINDOW: usize = 2048;
    let seconds = 10;
    let num_samples = SAMPLE_RATE * seconds;
    let (start_freq, end_freq) = (100.0f64, 18_000.0f64);
    let mut filter = Filter::new(SAMPLE_RATE);
    filter.set_freq(fx(start_freq));
    filter.set_q(fx(1.0));
    filter.set_filter_type(FilterType::LP);

    let multiplier = (end_freq.ln() - start_freq.ln()) / num_samples as f64;
    let mut noise = Lcg(7);
    let mut energies: Vec<f64> = Vec::new();
    let mut acc = 0.0f64;
    for idx in 0..num_samples {
        let r = fx(noise.next_unit() * 0.5);
        let out = filter.tick(Stereo(r, r));
        acc += fl(out.0) * fl(out.0);
        if (idx + 1) % WINDOW == 0 {
            energies.push(acc);
            acc = 0.0;
        }
        if idx % 64 == 0 {
            let freq = start_freq * (multiplier * idx as f64).exp();
            filter.set_freq(fx(freq));
        }
    }
    // compare broadband energy over coarse spans of windows so that the
    // randomness of single windows does not mask the trend
    let spans = 8;
    let per = energies.len() / spans;
    let mut last = -1.0f64;
    for s in 0..spans {
        let sum: f64 = energies[s * per..(s + 1) * per].iter().sum();
        assert!(sum > last);
        last = sum;
    }
}

#[test]
fn test_filter_passes_dc_lowpass() {
    // a lowpass wide open passes a constant signal nearly unchanged
    const SAMPLE_RATE: usize = 48_000;
    let mut filter = Filter::new(SAMPLE_RATE);
    filter.set_freq(fx(20_000.0));
    filter.set_q(fx(1.0));
    filter.set_filter_type(FilterType::LP);
    let mut out = Stereo(0, 0);
    for _ in 0..2000 {
        out = filter.tick(Stereo(fx(0.5), fx(0.5)));
    }
    assert!((fl(out.0) - 0.5).abs() < 0.01);
    // and a highpass at the top blocks it
    let mut filter = Filter::new(SAMPLE_RATE);
    filter.set_freq(fx(2_000.0));
    filter.set_q(fx(1.0));
    filter.set_filter_type(FilterType::HP);
    let mut out = Stereo(0, 0);
    for _ in 0..2000 {
        out = filter.tick(Stereo(fx(0.5), fx(0.5)));
    }
    assert!(fl(out.0).abs() < 0.01);
}

#[test]
fn test_flow_fills_chunks() {
    // the flow hands the sink one frame per tick and full chunks reach
    // the frame queue
    let source = VoiceManager::new(2, 8000);
    let sink = BufferSink::new(RingBuffer::new(256), 64);
    let mut flow = Flow::new(source, sink, 8000);
    flow.handle(&ControlEvent::NoteOn { key: 69, velocity: fx(1.0) });
    for _ in 0..63 {
        flow.tick();
    }
    assert!(flow.pop_frame().is_none());
    flow.tick();
    let mut drained = 0;
    while flow.pop_frame().is_some() {
        drained += 1;
    }
    assert_eq!(drained, 64);
    // a silent source keeps the output at exact zero
    let source = VoiceManager::new(1, 8000);
    let sink = BufferSink::new(RingBuffer::new(256), 4);
    let mut flow = Flow::new(source, sink, 8000);
    for _ in 0..4 {
        flow.tick();
    }
    assert_eq!(flow.pop_frame(), Some(Stereo(0, 0)));
}
