use std::cell::RefCell;

use voice_input::error::AppError;
use voice_input::speech::vad::{
    is_speech, DetectorSettings, VadSlicer, MAX_SEGMENT_SAMPLES, VAD_SAMPLE_RATE, VAD_WINDOW,
};

/// Generate samples for `duration_ms` of either silence or a 1 kHz sine.
fn samples_for(duration_ms: usize, is_speech: bool) -> Vec<f32> {
    let n = duration_ms * VAD_SAMPLE_RATE as usize / 1000;
    if is_speech {
        (0..n)
            .map(|i| {
                (2.0 * std::f32::consts::PI * 1000.0 * i as f32 / VAD_SAMPLE_RATE as f32).sin()
                    * 0.5
            })
            .collect()
    } else {
        vec![0.0; n]
    }
}

/// A detector that takes any sound for speech.
fn any_sound(detector: (), window: &[f32]) -> ((), u32) {
    let loud = window.iter().any(|s| *s != 0.0);
    (detector, (if loud { 0.9_f32 } else { 0.0_f32 }).to_bits())
}

fn new_slicer() -> Result<VadSlicer<f32, ()>, AppError> {
    VadSlicer::new(|_: DetectorSettings| Ok(()))
}

#[test]
fn instantiates_without_error() {
    let _v = new_slicer().expect("init");
}

#[test]
fn pure_silence_yields_no_segments() {
    let mut v = new_slicer().unwrap();
    let silence = samples_for(2000, false);
    let segments = v.push(&silence, any_sound).unwrap();
    assert!(segments.is_empty(), "silence produced segments");
}

#[test]
fn flush_returns_none_when_idle() {
    let mut v = new_slicer().unwrap();
    assert!(v.flush().is_none());
}

#[test]
fn long_silence_beyond_max_segment_yields_no_segments() {
    let mut v = new_slicer().unwrap();
    let silence = samples_for(35_000, false);
    let segments = v.push(&silence, any_sound).unwrap();
    assert!(
        segments.is_empty(),
        "pure silence over MAX_SEGMENT_SAMPLES should emit no segments, got {}",
        segments.len()
    );
    assert!(
        v.flush().is_none(),
        "flush should also return None after pure silence"
    );
}

#[test]
fn detector_is_built_for_16_khz_windows_of_512() {
    let seen = RefCell::new(None);
    let v: VadSlicer<f32, u8> = VadSlicer::new(|settings: DetectorSettings| {
        *seen.borrow_mut() = Some(settings);
        Ok(5)
    })
    .unwrap();
    assert_eq!(
        *seen.borrow(),
        Some(DetectorSettings { sample_rate: 16_000, chunk_size: 512 })
    );
    assert_eq!(*v.detector(), 5);
}

#[test]
fn failed_detector_is_reported() {
    let r: Result<VadSlicer<f32, ()>, AppError> =
        VadSlicer::new(|_: DetectorSettings| Err("no session".to_string()));
    match r {
        Err(e) => assert_eq!(e, AppError::WhisperFailed("vad init: no session".to_string())),
        Ok(_) => panic!("expected an error"),
    }
}

#[test]
fn speech_starts_above_one_half() {
    assert!(!is_speech(0.5_f32.to_bits()));
    assert!(is_speech(0.500_000_06_f32.to_bits()));
    assert!(is_speech(0.75_f32.to_bits()));
    assert!(is_speech(1.0_f32.to_bits()));
    assert!(is_speech(f32::INFINITY.to_bits()));
    assert!(!is_speech(0.499_999_97_f32.to_bits()));
    assert!(!is_speech(0.0_f32.to_bits()));
    assert!(!is_speech((-0.0_f32).to_bits()));
    assert!(!is_speech((-0.75_f32).to_bits()));
    assert!(!is_speech(f32::NEG_INFINITY.to_bits()));
    assert!(!is_speech(f32::NAN.to_bits()));
    assert!(!is_speech(f32::MIN_POSITIVE.to_bits()));
}

/// Windows of numbered samples; a window is speech where `verdicts` says so.
fn slice_numbers(verdicts: &[bool], batch: usize) -> (Vec<Vec<u32>>, Option<Vec<u32>>) {
    let total = verdicts.len() * VAD_WINDOW;
    let stream: Vec<u32> = (0..total as u32).collect();
    let mut v: VadSlicer<u32, Vec<bool>> = VadSlicer::new_with_detector(verdicts.to_vec());
    let mut segments = Vec::new();
    for samples in stream.chunks(batch) {
        let closed = v
            .push(samples, |verdicts: Vec<bool>, window: &[u32]| {
                assert_eq!(window.len(), VAD_WINDOW);
                let index = window[0] as usize / VAD_WINDOW;
                let probability = if verdicts[index] { 1.0_f32 } else { 0.0_f32 };
                (verdicts, probability.to_bits())
            })
            .unwrap();
        segments.extend(closed);
    }
    let pending = v.flush();
    assert!(v.flush().is_none());
    (segments, pending)
}

fn numbers(from_window: usize, to_window: usize) -> Vec<u32> {
    ((from_window * VAD_WINDOW) as u32..(to_window * VAD_WINDOW) as u32).collect()
}

#[test]
fn a_segment_runs_from_speech_through_five_silent_windows() {
    let mut verdicts = vec![false; 12];
    verdicts[2] = true;
    verdicts[3] = true;
    let (segments, pending) = slice_numbers(&verdicts, 1000);
    assert_eq!(segments, vec![numbers(2, 9)]);
    assert_eq!(pending, None);
}

#[test]
fn a_short_pause_does_not_close_a_segment() {
    let mut verdicts = vec![false; 12];
    verdicts[1] = true;
    verdicts[6] = true;
    let (segments, pending) = slice_numbers(&verdicts, 512);
    assert_eq!(segments, vec![numbers(1, 12)]);
    assert_eq!(pending, None);
}

#[test]
fn an_open_segment_is_flushed() {
    let mut verdicts = vec![false; 8];
    verdicts[4] = true;
    let (segments, pending) = slice_numbers(&verdicts, 700);
    assert!(segments.is_empty());
    assert_eq!(pending, Some(numbers(4, 8)));
}

#[test]
fn unbroken_speech_closes_at_the_greatest_length() {
    let verdicts = vec![true; 940];
    let (segments, pending) = slice_numbers(&verdicts, 4096);
    assert_eq!(segments, vec![numbers(0, 937)]);
    assert!(segments[0].len() <= MAX_SEGMENT_SAMPLES);
    assert!(segments[0].len() + VAD_WINDOW > MAX_SEGMENT_SAMPLES);
    assert_eq!(pending, Some(numbers(937, 940)));
}

#[test]
fn batch_size_does_not_matter() {
    let mut verdicts = vec![false; 30];
    for i in [3, 4, 9, 17, 18, 24, 29] {
        verdicts[i] = true;
    }
    let expected = slice_numbers(&verdicts, 30 * VAD_WINDOW);
    assert_eq!(
        expected,
        (vec![numbers(3, 15), numbers(17, 24)], Some(numbers(24, 30)))
    );
    for batch in [1, 13, 511, 512, 513, 5000] {
        assert_eq!(slice_numbers(&verdicts, batch), expected);
    }
}

#[test]
fn the_detector_sees_each_window_once_and_in_order() {
    let stream = numbers(0, 5);
    let mut v: VadSlicer<u32, Vec<u32>> = VadSlicer::new_with_detector(Vec::new());
    for samples in stream.chunks(700) {
        v.push(samples, |mut seen: Vec<u32>, window: &[u32]| {
            seen.extend_from_slice(window);
            (seen, 0)
        })
        .unwrap();
    }
    assert_eq!(*v.detector(), stream);
}

#[test]
fn judge_window_takes_the_probability() {
    let mut v: VadSlicer<u32, ()> = VadSlicer::new_with_detector(());
    let speech = 0.75_f32.to_bits();
    let silence = 0.1_f32.to_bits();
    assert_eq!(v.judge_window(numbers(0, 1), silence), None);
    assert_eq!(v.judge_window(numbers(1, 2), speech), None);
    for i in 2..6 {
        assert_eq!(v.judge_window(numbers(i, i + 1), silence), None);
    }
    assert_eq!(v.judge_window(numbers(6, 7), silence), Some(numbers(1, 7)));
    assert_eq!(v.flush(), None);
}

#[test]
fn a_probability_of_one_half_is_silence() {
    let mut v: VadSlicer<f32, usize> = VadSlicer::new_with_detector(0);
    let samples = vec![0.1_f32; 3072];
    let segments = v
        .push(&samples, |seen: usize, _: &[f32]| {
            let probability = if seen == 0 { 0.5_f32 } else { 0.0_f32 };
            (seen + 1, probability.to_bits())
        })
        .unwrap();
    assert!(segments.is_empty());
    assert_eq!(*v.detector(), 6);
    assert_eq!(v.flush(), None);
}

#[test]
fn flush_keeps_an_unfinished_window() {
    let mut v: VadSlicer<u32, ()> = VadSlicer::new_with_detector(());
    let speech = |_: (), _: &[u32]| ((), 1.0_f32.to_bits());
    let stream: Vec<u32> = numbers(0, 2);
    assert!(v.push(&stream[..600], speech).unwrap().is_empty());
    assert_eq!(v.flush(), Some(numbers(0, 1)));
    assert!(v.push(&stream[600..], speech).unwrap().is_empty());
    assert_eq!(v.flush(), Some(numbers(1, 2)));
}

#[test]
fn segments_of_pushes_and_flushes_are_pieces_of_the_input_in_order() {
    let mut verdicts = vec![false; 40];
    for i in [1, 2, 4, 12, 20, 21, 23, 38] {
        verdicts[i] = true;
    }
    let stream = numbers(0, 40);
    let mut v: VadSlicer<u32, ()> = VadSlicer::new_with_detector(());
    let mut given: Vec<Vec<u32>> = Vec::new();
    let mut from = 0;
    // Windows 3, 21 and 38 are the last complete ones at the three flushes.
    for to in [4 * 512 + 100, 22 * 512 + 511, 39 * 512 + 1] {
        let closed = v
            .push(&stream[from..to], |_: (), window: &[u32]| {
                let speech = verdicts[window[0] as usize / VAD_WINDOW];
                ((), if speech { 1.0_f32.to_bits() } else { 0 })
            })
            .unwrap();
        given.extend(closed);
        given.extend(v.flush());
        from = to;
    }
    assert_eq!(
        given,
        vec![
            numbers(1, 4),
            numbers(4, 10),
            numbers(12, 18),
            numbers(20, 22),
            numbers(23, 29),
            numbers(38, 39),
        ]
    );
}

/// A detector that takes a window for speech from its sum with the windows before.
fn running_sum(sum: u32, window: &[u32]) -> (u32, u32) {
    let sum = window.iter().fold(sum, |sum, s| sum.wrapping_mul(31).wrapping_add(*s));
    let probability = if sum % 7 < 2 { 0.9_f32 } else { 0.2_f32 };
    (sum, probability.to_bits())
}

#[test]
fn any_cut_of_the_stream_gives_equal_slicers() {
    let stream = numbers(0, 60);
    let later = numbers(60, 75);
    let mut whole: VadSlicer<u32, u32> = VadSlicer::new_with_detector(1);
    let expected = whole.push(&stream, running_sum).unwrap();
    assert!(!expected.is_empty());
    let sum = *whole.detector();
    let expected_later = (whole.push(&later, running_sum).unwrap(), whole.flush());
    for cut in [0, 1, 511, 512, 700, 9_000, 30_719, 30_720] {
        let mut split: VadSlicer<u32, u32> = VadSlicer::new_with_detector(1);
        let mut given = split.push(&stream[..cut], running_sum).unwrap();
        given.extend(split.push(&stream[cut..], running_sum).unwrap());
        assert_eq!(given, expected);
        assert_eq!(*split.detector(), sum);
        assert_eq!((split.push(&later, running_sum).unwrap(), split.flush()), expected_later);
    }
}
