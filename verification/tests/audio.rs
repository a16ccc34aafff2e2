use rubato::{
    Resampler, SincFixedIn, SincInterpolationParameters, SincInterpolationType, WindowFunction,
};
use std::cell::RefCell;

use voice_input::audio::{
    AudioChunk, Capture, CaptureAction, CaptureEvent, FilterWindow, InputConfig, Interpolation,
    OpeningPhase, Resampler16kMono, ResamplerSettings, SampleFormat, StreamFormat,
    RESAMPLER_CHUNK, WHISPER_SAMPLE_RATE,
};
use voice_input::error::AppError;

fn build(settings: ResamplerSettings) -> Result<SincFixedIn<f32>, String> {
    let interpolation = match settings.interpolation {
        Interpolation::Linear => SincInterpolationType::Linear,
    };
    let window = match settings.window {
        FilterWindow::BlackmanHarris2 => WindowFunction::BlackmanHarris2,
    };
    let params = SincInterpolationParameters {
        sinc_len: settings.sinc_len,
        f_cutoff: f32::from_bits(settings.cutoff_bits),
        interpolation,
        oversampling_factor: settings.oversampling_factor,
        window,
    };
    SincFixedIn::<f32>::new(
        settings.output_rate as f64 / settings.input_rate as f64,
        settings.max_relative_ratio as f64,
        params,
        settings.chunk_size,
        settings.channels,
    )
    .map_err(|e| e.to_string())
}

fn average(frame: &[f32]) -> f32 {
    frame.iter().sum::<f32>() / frame.len() as f32
}

fn resample(
    mut resampler: SincFixedIn<f32>,
    chunk: &[f32],
) -> (SincFixedIn<f32>, Result<Vec<f32>, String>) {
    let outcome = resampler
        .process(&[chunk], None)
        .map(|mut channels| channels.swap_remove(0))
        .map_err(|e| e.to_string());
    (resampler, outcome)
}

#[test]
fn resampler_48k_stereo_to_16k_mono_passes_through() {
    let mut r = Resampler16kMono::new(48_000, 2, build).unwrap();
    // 4800 stereo frames = 100ms at 48kHz
    let interleaved: Vec<f32> = (0..4800)
        .flat_map(|i| {
            let s = (i as f32 * 0.01).sin();
            vec![s, s] // identical left & right
        })
        .collect();
    let out = r.process(&interleaved, average, resample).unwrap();
    // Roughly 100ms at 16kHz = ~1600 samples — allow some slack for the resampler's internal buffering
    assert!(
        out.len() > 1000 && out.len() < 2000,
        "expected ~1600 output samples, got {}",
        out.len()
    );
    // Output is mono — values should be similar magnitude to input (sin range)
    let max = out.iter().fold(0.0_f32, |a, &b| a.max(b.abs()));
    assert!(max > 0.5 && max < 1.5, "max amplitude unexpected: {}", max);
}

#[test]
fn resampler_44_1k_mono_at_correct_target_rate() {
    let mut r = Resampler16kMono::new(44_100, 1, build).unwrap();
    let mono: Vec<f32> = (0..22_050).map(|i| (i as f32 * 0.02).sin()).collect(); // ~500ms
    let out = r.process(&mono, average, resample).unwrap();
    // ~500ms at 16kHz = ~8000 samples; allow ±15% for buffering
    assert!(
        out.len() > 6_500 && out.len() < 9_500,
        "expected ~8000 samples, got {}",
        out.len()
    );
}

#[test]
fn resampler_is_built_for_16_khz_mono() {
    let seen = RefCell::new(None);
    let r: Result<Resampler16kMono<i32, ()>, AppError> =
        Resampler16kMono::new(44_100, 2, |settings: ResamplerSettings| {
            *seen.borrow_mut() = Some(settings);
            Ok(())
        });
    assert!(r.is_ok());
    let settings = seen.borrow().unwrap();
    assert_eq!(
        settings,
        ResamplerSettings {
            input_rate: 44_100,
            output_rate: WHISPER_SAMPLE_RATE,
            max_relative_ratio: 2,
            sinc_len: 256,
            cutoff_bits: 0.95_f32.to_bits(),
            interpolation: Interpolation::Linear,
            oversampling_factor: 256,
            window: FilterWindow::BlackmanHarris2,
            chunk_size: 1024,
            channels: 1,
        }
    );
}

#[test]
fn failed_resampler_is_reported() {
    let r: Result<Resampler16kMono<i32, ()>, AppError> =
        Resampler16kMono::new(0, 1, |_: ResamplerSettings| Err("bad ratio".to_string()));
    match r {
        Err(e) => assert_eq!(e, AppError::Config("resampler init: bad ratio".to_string())),
        Ok(_) => panic!("expected an error"),
    }
}

/// A resampler that records its chunks and passes every third sample on.
fn record(mut seen: Vec<i32>, chunk: &[i32]) -> (Vec<i32>, Result<Vec<i32>, String>) {
    assert_eq!(chunk.len(), RESAMPLER_CHUNK);
    seen.extend_from_slice(chunk);
    (seen, Ok(chunk.iter().step_by(3).copied().collect()))
}

fn total(frame: &[i32]) -> i32 {
    frame.iter().sum()
}

fn recorder(channels: u16) -> Resampler16kMono<i32, Vec<i32>> {
    match Resampler16kMono::new(48_000, channels, |_: ResamplerSettings| Ok(Vec::new())) {
        Ok(r) => r,
        Err(e) => panic!("no resampler: {:?}", e),
    }
}

#[test]
fn frames_are_mixed_down_and_a_partial_frame_is_dropped() {
    let mut r = recorder(2);
    // 1024 complete frames of (i, 1000000) and one sample too many.
    let mut interleaved: Vec<i32> = (0..1024).flat_map(|i| vec![i, 1_000_000]).collect();
    interleaved.push(7);
    let out = r.process(&interleaved, total, record).unwrap();
    let expected: Vec<i32> = (0..1024).step_by(3).map(|i| i + 1_000_000).collect();
    assert_eq!(out, expected);
    // The sample that was left over does not turn up in the next call.
    let next: Vec<i32> = (0..2048).map(|_| 1).collect();
    assert_eq!(r.process(&next, total, record).unwrap(), vec![2; 342]);
}

#[test]
fn samples_wait_for_a_complete_chunk() {
    let mut r = recorder(1);
    let stream: Vec<i32> = (0..5000).collect();
    let mut out = Vec::new();
    for samples in stream.chunks(700) {
        out.extend(r.process(samples, total, record).unwrap());
    }
    let mut whole = recorder(1);
    let at_once = whole.process(&stream, total, record).unwrap();
    assert_eq!(out, at_once);
    assert_eq!(out.len(), 4 * 342);
    assert!(r.process(&[], total, record).unwrap().is_empty());
}

#[test]
fn a_failed_chunk_is_dropped_and_the_rest_waits() {
    let mut r = recorder(1);
    let stream: Vec<i32> = (0..3 * 1024 + 10).collect();
    let fail_second = |seen: Vec<i32>, chunk: &[i32]| {
        if chunk[0] == 1024 {
            (seen, Err("overrun".to_string()))
        } else {
            record(seen, chunk)
        }
    };
    assert_eq!(
        r.process(&stream, total, fail_second),
        Err(AppError::Config("resample: overrun".to_string()))
    );
    // The third chunk is converted by the next call.
    let out = r.process(&[], total, record).unwrap();
    assert_eq!(out, (2048..3072).step_by(3).collect::<Vec<i32>>());
}

#[test]
fn several_channels_convert_as_the_mono_stream_of_their_means() {
    let interleaved: Vec<i32> = (0..3 * 5000).map(|i| i % 977).collect();
    let means: Vec<i32> = interleaved.chunks_exact(3).map(total).collect();
    let mut three = recorder(3);
    let mut mono = recorder(1);
    for (buffer, buffer_mono) in interleaved.chunks(3 * 1700).zip(means.chunks(1700)) {
        assert_eq!(
            three.process(buffer, total, record),
            mono.process(buffer_mono, total, record)
        );
    }
    assert_eq!(
        three.process(&[0; 3 * 1024], total, record),
        mono.process(&[0; 1024], total, record)
    );
}

#[test]
fn splitting_the_input_does_not_change_the_conversion() {
    let interleaved: Vec<f32> = (0..2 * 9000).map(|i| (i as f32 * 0.013).sin()).collect();
    let mut whole = Resampler16kMono::new(48_000, 2, build).unwrap();
    let at_once = whole.process(&interleaved, average, resample).unwrap();
    let mut split = Resampler16kMono::new(48_000, 2, build).unwrap();
    let mut out = Vec::new();
    for buffer in interleaved.chunks(2 * 777) {
        out.extend(split.process(buffer, average, resample).unwrap());
    }
    assert!(!at_once.is_empty());
    assert_eq!(out, at_once);
}

#[test]
fn a_failed_call_fails_with_more_input() {
    let fail_second = |seen: Vec<i32>, chunk: &[i32]| {
        if chunk[0] == 1024 {
            (seen, Err("overrun".to_string()))
        } else {
            record(seen, chunk)
        }
    };
    let stream: Vec<i32> = (0..4 * 1024).collect();
    let failure = Err(AppError::Config("resample: overrun".to_string()));
    let mut short = recorder(1);
    assert_eq!(short.process(&stream[..2500], total, fail_second), failure);
    let mut long = recorder(1);
    assert_eq!(long.process(&stream, total, fail_second), failure);
    // The rest of the longer input waits behind the rest of the shorter one.
    assert_eq!(
        long.process(&[], total, record),
        short.process(&stream[2500..], total, record)
    );
}

#[test]
fn an_incomplete_frame_changes_no_later_result() {
    let interleaved: Vec<i32> = (0..3 * 1500 + 2).collect();
    let next: Vec<i32> = (0..3 * 2000).collect();
    let mut with = recorder(3);
    let mut without = recorder(3);
    assert_eq!(
        with.process(&interleaved, total, record),
        without.process(&interleaved[..3 * 1500], total, record)
    );
    assert_eq!(with.process(&next, total, record), without.process(&next, total, record));
}

#[test]
fn chunk_carries_converted_samples_and_level() {
    let data: [u8; 3] = [1, 2, 250];
    let chunk: AudioChunk<i32> = AudioChunk::from_device(
        &data,
        48_000,
        2,
        |s: u8| s as i32 - 128,
        |samples: &[i32]| samples.iter().map(|s| s.abs()).max().unwrap_or(0),
    );
    assert_eq!(chunk.samples, vec![-127, -126, 122]);
    assert_eq!(chunk.sample_rate, 48_000);
    assert_eq!(chunk.channels, 2);
    assert_eq!(chunk.level, 127);
}

fn config(format: SampleFormat) -> InputConfig {
    InputConfig { sample_rate: 44_100, channels: 2, format }
}

fn refusal(action: CaptureAction) -> String {
    match action {
        CaptureAction::Finish(Err(AppError::NoMicrophone(text))) => text,
        other => panic!("expected a refusal, got {:?}", other),
    }
}

#[test]
fn capture_opens_with_the_device_configuration() {
    let formats = [
        (SampleFormat::F32, StreamFormat::F32),
        (SampleFormat::I16, StreamFormat::I16),
        (SampleFormat::U16, StreamFormat::U16),
    ];
    for (device, stream) in formats {
        let (mut opening, first) = Capture::start();
        assert!(matches!(first, CaptureAction::FindDevice));
        assert!(matches!(opening.handle(CaptureEvent::DeviceFound), CaptureAction::ReadConfig));
        let capture = Capture { sample_rate: 44_100, channels: 2 };
        match opening.handle(CaptureEvent::ConfigRead(config(device))) {
            CaptureAction::BuildStream { format, capture: c } => {
                assert_eq!(format, stream);
                assert_eq!(c, capture);
            }
            other => panic!("expected BuildStream, got {:?}", other),
        }
        assert!(matches!(opening.handle(CaptureEvent::StreamBuilt), CaptureAction::StartStream));
        match opening.handle(CaptureEvent::StreamStarted) {
            CaptureAction::Finish(Ok(c)) => assert_eq!(c, capture),
            other => panic!("expected Finish, got {:?}", other),
        }
        assert_eq!(opening.phase(), OpeningPhase::Finished);
    }
}

#[test]
fn missing_device_is_refused() {
    let (mut opening, _) = Capture::start();
    assert_eq!(refusal(opening.handle(CaptureEvent::DeviceMissing)), "no default input device");
}

#[test]
fn unreadable_configuration_is_refused() {
    let (mut opening, _) = Capture::start();
    opening.handle(CaptureEvent::DeviceFound);
    let action = opening.handle(CaptureEvent::ConfigFailed("busy".to_string()));
    assert_eq!(refusal(action), "query default config: busy");
}

#[test]
fn other_sample_formats_are_refused() {
    let (mut opening, _) = Capture::start();
    opening.handle(CaptureEvent::DeviceFound);
    let format = SampleFormat::Other("I64".to_string());
    let action = opening.handle(CaptureEvent::ConfigRead(config(format)));
    assert_eq!(refusal(action), "unsupported sample format: I64");
}

#[test]
fn failed_stream_is_refused() {
    let (mut opening, _) = Capture::start();
    opening.handle(CaptureEvent::DeviceFound);
    opening.handle(CaptureEvent::ConfigRead(config(SampleFormat::F32)));
    let action = opening.handle(CaptureEvent::BuildFailed("gone".to_string()));
    assert_eq!(refusal(action), "build_input_stream: gone");

    let (mut opening, _) = Capture::start();
    opening.handle(CaptureEvent::DeviceFound);
    opening.handle(CaptureEvent::ConfigRead(config(SampleFormat::U16)));
    opening.handle(CaptureEvent::StreamBuilt);
    let action = opening.handle(CaptureEvent::StartFailed("gone".to_string()));
    assert_eq!(refusal(action), "starting stream: gone");
}
