use std::sync::{Arc, Mutex};

use voice_input::speech::vad::{VadSlicer, VAD_SAMPLE_RATE};

/// A detector that counts its windows and takes any sound for speech.
struct Detector {
    windows: usize,
}

impl Detector {
    fn predict(&mut self, window: &[f32]) -> f32 {
        self.windows += 1;
        if window.iter().any(|s| *s != 0.0) {
            0.9
        } else {
            0.0
        }
    }
}

type Shared = Arc<Mutex<Detector>>;

fn predict(detector: Shared, window: &[f32]) -> (Shared, u32) {
    let probability = detector.lock().unwrap().predict(window);
    (detector, probability.to_bits())
}

fn make_slicer() -> VadSlicer<f32, Shared> {
    let detector = Arc::new(Mutex::new(Detector { windows: 0 }));
    VadSlicer::new_with_detector(detector)
}

/// Generate a real-ish speech waveform: superimposed harmonics with envelope.
fn fake_speech(duration_ms: usize) -> Vec<f32> {
    let n = duration_ms * VAD_SAMPLE_RATE as usize / 1000;
    (0..n)
        .map(|i| {
            let t = i as f32 / VAD_SAMPLE_RATE as f32;
            let v = (2.0 * std::f32::consts::PI * 200.0 * t).sin() * 0.3
                + (2.0 * std::f32::consts::PI * 800.0 * t).sin() * 0.2
                + (2.0 * std::f32::consts::PI * 2400.0 * t).sin() * 0.1;
            v * (1.0 + 0.1 * (2.0 * std::f32::consts::PI * 5.0 * t).sin())
        })
        .collect()
}

fn silence(duration_ms: usize) -> Vec<f32> {
    vec![0.0; duration_ms * VAD_SAMPLE_RATE as usize / 1000]
}

#[test]
fn long_silence_produces_no_segments() {
    let mut v = make_slicer();
    let segments = v.push(&silence(3000), predict).unwrap();
    assert!(
        segments.is_empty(),
        "silence yielded {} segment(s)",
        segments.len()
    );
    assert_eq!(v.detector().lock().unwrap().windows, 93);
}

#[test]
fn flush_returns_none_after_silence_only() {
    let mut v = make_slicer();
    let _ = v.push(&silence(2000), predict).unwrap();
    assert!(v.flush().is_none());
}

#[test]
fn fake_speech_then_silence_produces_at_least_one_segment_or_flush_yields_one() {
    let mut v = make_slicer();
    let speech = fake_speech(1500);
    let trailing = silence(500);
    let segs1 = v.push(&speech, predict).unwrap();
    let segs2 = v.push(&trailing, predict).unwrap();
    let flushed = v.flush();
    let total = segs1.len() + segs2.len() + flushed.is_some() as usize;
    assert!(total <= 3, "unexpected segment count: {}", total);
    assert_eq!(total, 1);
}
