use std::path::PathBuf;

use voice_input::error::AppError;
use voice_input::speech::worker::{
    inference_params, load_whisper_context, spawn, InferenceParams, Phase, Worker, WorkerAction,
    WorkerEvent,
};

#[test]
fn missing_model_path_returns_model_missing_error() {
    let path = PathBuf::from("/nonexistent/ggml-tiny.bin");
    let name = path.to_string_lossy().into_owned();
    match load_whisper_context(&name, path.exists(), |_: &str| Ok(())) {
        Err(AppError::ModelMissing { path: p }) => assert!(p.contains("nonexistent")),
        Err(other) => panic!("expected ModelMissing, got {:?}", other),
        Ok(_) => panic!("expected ModelMissing error, got Ok"),
    }
}

#[test]
fn present_model_is_loaded_from_its_path() {
    let loaded = load_whisper_context("/models/a.bin", true, |path: &str| Ok(path.to_string()));
    assert_eq!(loaded, Ok("/models/a.bin".to_string()));
}

#[test]
fn broken_model_is_reported() {
    let loaded: Result<(), AppError> =
        load_whisper_context("/models/a.bin", true, |_: &str| Err("bad magic".to_string()));
    assert_eq!(
        loaded,
        Err(AppError::WhisperFailed("load model /models/a.bin: bad magic".to_string()))
    );
}

#[test]
fn worker_thread_has_its_name() {
    assert_eq!(spawn(|name: &str| Ok(name.to_string())), Ok("whisper-worker".to_string()));
    let failed: Result<(), AppError> = spawn(|_: &str| Err("no threads".to_string()));
    assert_eq!(
        failed,
        Err(AppError::WhisperFailed("spawn worker thread: no threads".to_string()))
    );
}

#[test]
fn params_carry_the_language_hint() {
    let expected = InferenceParams {
        best_of: 1,
        language: Some("zh".to_string()),
        print_progress: false,
        print_special: false,
        print_realtime: false,
        print_timestamps: false,
    };
    assert_eq!(inference_params("zh"), expected);
    assert_eq!(inference_params(""), InferenceParams { language: None, ..expected });
}

fn started(hint: &str) -> Worker {
    let (mut worker, action) = Worker::new::<i32>(hint.to_string());
    assert!(matches!(action, WorkerAction::CreateState));
    assert_eq!(worker.phase(), Phase::Starting);
    assert!(matches!(
        worker.handle::<i32>(WorkerEvent::StateCreated),
        WorkerAction::Receive
    ));
    worker
}

/// Runs one slice whose text segments are these; `None` cannot be read.
fn transcribe(worker: &mut Worker, texts: &[Option<&str>]) -> Option<String> {
    match worker.handle(WorkerEvent::Slice(vec![1, 2, 3])) {
        WorkerAction::Infer { samples, params } => {
            assert_eq!(samples, vec![1, 2, 3]);
            assert_eq!(params, inference_params("en"));
        }
        other => panic!("expected Infer, got {:?}", other),
    }
    assert!(matches!(
        worker.handle::<i32>(WorkerEvent::InferenceDone),
        WorkerAction::CountSegments
    ));
    let mut action = worker.handle::<i32>(WorkerEvent::SegmentCount(texts.len() as i32));
    for (i, text) in texts.iter().enumerate() {
        match action {
            WorkerAction::ReadSegment(index) => assert_eq!(index, i as i32),
            other => panic!("expected ReadSegment, got {:?}", other),
        }
        action = worker.handle(match text {
            Some(text) => WorkerEvent::SegmentText(text.to_string()),
            None => WorkerEvent::SegmentTextFailed,
        });
    }
    match action {
        WorkerAction::Deliver(text) => Some(text),
        WorkerAction::Receive => None,
        other => panic!("expected the end of the slice, got {:?}", other),
    }
}

#[test]
fn texts_are_trimmed_and_joined_with_spaces() {
    let mut w = started("en");
    let text = transcribe(&mut w, &[Some(" Hello,"), Some(" world. "), Some("\u{3000}Bye\n")]);
    assert_eq!(text, Some("Hello, world. Bye".to_string()));
    assert!(matches!(w.handle::<i32>(WorkerEvent::TextDelivered), WorkerAction::Receive));
}

#[test]
fn unreadable_texts_are_left_out() {
    let mut w = started("en");
    let text = transcribe(&mut w, &[None, Some(" a "), None, Some("b"), None]);
    assert_eq!(text, Some("a b".to_string()));
}

#[test]
fn blank_slices_are_dropped() {
    let mut w = started("en");
    assert_eq!(transcribe(&mut w, &[]), None);
    assert_eq!(transcribe(&mut w, &[Some("  "), None, Some("\t\u{a0}\n")]), None);
    assert_eq!(w.phase(), Phase::Receiving);
}

#[test]
fn a_blank_text_in_the_middle_leaves_its_space() {
    let mut w = started("en");
    let text = transcribe(&mut w, &[Some(" "), Some("a"), Some(" "), Some("b"), Some(" ")]);
    assert_eq!(text, Some("a  b".to_string()));
}

#[test]
fn text_of_one_slice_does_not_reach_the_next() {
    let mut w = started("en");
    assert_eq!(transcribe(&mut w, &[Some("one")]), Some("one".to_string()));
    w.handle::<i32>(WorkerEvent::TextDelivered);
    assert_eq!(transcribe(&mut w, &[Some("two")]), Some("two".to_string()));
}

#[test]
fn a_negative_count_reads_nothing() {
    let mut w = started("en");
    w.handle(WorkerEvent::Slice(vec![0]));
    w.handle::<i32>(WorkerEvent::InferenceDone);
    assert!(matches!(
        w.handle::<i32>(WorkerEvent::SegmentCount(-1)),
        WorkerAction::Receive
    ));
}

#[test]
fn failed_inference_skips_the_slice() {
    let mut w = started("en");
    w.handle(WorkerEvent::Slice(vec![0]));
    assert!(matches!(
        w.handle::<i32>(WorkerEvent::InferenceFailed),
        WorkerAction::Receive
    ));
    w.handle(WorkerEvent::Slice(vec![0]));
    w.handle::<i32>(WorkerEvent::InferenceDone);
    assert!(matches!(
        w.handle::<i32>(WorkerEvent::SegmentCountFailed),
        WorkerAction::Receive
    ));
    assert_eq!(transcribe(&mut w, &[Some("still here")]), Some("still here".to_string()));
}

#[test]
fn worker_exits_when_it_is_cut_off() {
    let (mut w, _) = Worker::new::<i32>(String::new());
    assert!(matches!(w.handle::<i32>(WorkerEvent::StateFailed), WorkerAction::Exit));
    assert_eq!(w.phase(), Phase::Stopped);

    let mut w = started("en");
    assert!(matches!(w.handle::<i32>(WorkerEvent::SlicesClosed), WorkerAction::Exit));

    let mut w = started("en");
    transcribe(&mut w, &[Some("x")]);
    assert!(matches!(w.handle::<i32>(WorkerEvent::TextClosed), WorkerAction::Exit));
}

#[test]
fn white_space_is_what_unicode_says() {
    let white: [u32; 25] = [
        0x9, 0xa, 0xb, 0xc, 0xd, 0x20, 0x85, 0xa0, 0x1680, 0x2000, 0x2001, 0x2002, 0x2003, 0x2004,
        0x2005, 0x2006, 0x2007, 0x2008, 0x2009, 0x200a, 0x2028, 0x2029, 0x202f, 0x205f, 0x3000,
    ];
    let mut w = started("en");
    for code in 0..0x11_0000_u32 {
        let c = match char::from_u32(code) {
            Some(c) => c,
            None => continue,
        };
        let text = format!("{}{}", c, c);
        let expected = if white.contains(&code) { None } else { Some(text.clone()) };
        assert_eq!(transcribe(&mut w, &[Some(text.as_str())]), expected, "U+{:04X}", code);
        if expected.is_some() {
            w.handle::<i32>(WorkerEvent::TextDelivered);
        }
    }
}

#[test]
fn a_session_passes_on_the_transcripts_in_order() {
    let mut w = started("en");
    let mut passed_on = Vec::new();
    for slice in 0..6 {
        let text = match slice {
            0 => transcribe(&mut w, &[Some(" one")]),
            1 => {
                w.handle(WorkerEvent::Slice(vec![slice]));
                assert!(matches!(
                    w.handle::<i32>(WorkerEvent::InferenceFailed),
                    WorkerAction::Receive
                ));
                None
            }
            2 => transcribe(&mut w, &[Some(" "), None]),
            3 => transcribe(&mut w, &[Some("two"), None, Some("three ")]),
            4 => {
                w.handle(WorkerEvent::Slice(vec![slice]));
                w.handle::<i32>(WorkerEvent::InferenceDone);
                assert!(matches!(
                    w.handle::<i32>(WorkerEvent::SegmentCountFailed),
                    WorkerAction::Receive
                ));
                None
            }
            _ => transcribe(&mut w, &[Some("four")]),
        };
        if let Some(text) = text {
            passed_on.push(text);
            assert!(matches!(w.handle::<i32>(WorkerEvent::TextDelivered), WorkerAction::Receive));
        }
    }
    assert_eq!(passed_on, vec!["one", "two three", "four"]);
    assert!(matches!(w.handle::<i32>(WorkerEvent::SlicesClosed), WorkerAction::Exit));
    assert_eq!(w.phase(), Phase::Stopped);
}
