//! Streaming voice-activity slicer.
//!
//! Samples arrive in batches of any size. They are regrouped into windows of
//! [`VAD_WINDOW`] samples, each window is judged by a speech detector, and the
//! judged windows are collected into segments. A segment opens with a speech
//! window and closes after [`SILENCE_WINDOWS_TO_CLOSE`] silent windows in a row,
//! or once another window would take it past [`MAX_SEGMENT_SAMPLES`]. Silence
//! outside a segment is dropped.
//!
//! The slicer moves samples and never looks inside them, so it is generic in
//! the sample type.

use crate::error::{message, AppError, AppErrorView};
use crate::pieces::{lemma_no_piece, lemma_pieces_push, pieces, remainder};
use vstd::prelude::*;

verus! {

/// Sample rate of the audio that the detector judges.
pub const VAD_SAMPLE_RATE: u32 = 16_000;

/// Samples per detector window (32 ms at 16 kHz).
pub const VAD_WINDOW: usize = 512;

/// How many silent windows in a row close a segment (about 150 ms).
pub const SILENCE_WINDOWS_TO_CLOSE: usize = 5;

/// Greatest length of a segment in samples (30 s at 16 kHz, the context window
/// of the speech model).
pub const MAX_SEGMENT_SAMPLES: usize = 480_000;

/// Bits of the single-precision number 0.5: a probability above it counts as
/// speech.
pub const SPEECH_THRESHOLD_BITS: u32 = 0x3F00_0000;

/// Bits of positive infinity: larger patterns without the sign bit are NaN.
pub const INFINITY_BITS: u32 = 0x7F80_0000;

/// What a detector is built for.
#[derive(Debug, Clone, Copy, PartialEq, Eq)]
pub struct DetectorSettings {
    pub sample_rate: u32,
    pub chunk_size: usize,
}

/// The settings of every detector that the slicer asks for.
pub open spec fn detector_settings() -> DetectorSettings {
    DetectorSettings { sample_rate: VAD_SAMPLE_RATE, chunk_size: VAD_WINDOW }
}

/// Whether the IEEE 754 single with these bits is a number above 1/2.
///
/// With the sign bit clear, biased exponent `e` and fraction `f`, the number is
/// `(1 + f / 2^23) * 2^(e - 127)`, so `e = 126` with `f = 0` is 1/2 itself, and
/// what is above it has a greater `e`, or the same `e` and a greater `f`. With
/// `e = 255` the pattern is infinity if `f` is zero and no number otherwise.
pub open spec fn above_half(bits: u32) -> bool {
    let negative = bits >= 0x8000_0000;
    let exponent = (bits / 0x80_0000) % 256;
    let fraction = bits % 0x80_0000;
    &&& !negative
    &&& exponent > 126 || (exponent == 126 && fraction != 0)
    &&& exponent == 255 ==> fraction == 0
}

/// Whether a window with this speech probability counts as speech.
/// The probability is given by the bits of a single-precision number.
pub fn is_speech(probability_bits: u32) -> (speech: bool)
    ensures
        speech == above_half(probability_bits),
{
    SPEECH_THRESHOLD_BITS < probability_bits && probability_bits <= INFINITY_BITS
}

/// The segment that is being collected.
pub struct Collecting<S> {
    /// Samples of the segment so far.
    pub segment: Seq<S>,
    /// Silent windows at its end.
    pub silence: nat,
    /// Whether a segment is open at all.
    pub open: bool,
}

/// No segment is open.
pub open spec fn idle<S>() -> Collecting<S> {
    Collecting { segment: Seq::empty(), silence: 0, open: false }
}

impl<S> Collecting<S> {
    /// What holds between two windows.
    pub open spec fn wf(self) -> bool {
        if self.open {
            &&& 0 < self.segment.len()
            &&& self.segment.len() + VAD_WINDOW <= MAX_SEGMENT_SAMPLES
            &&& self.segment.len() % (VAD_WINDOW as nat) == 0
            &&& self.silence < SILENCE_WINDOWS_TO_CLOSE
            &&& self.silence * VAD_WINDOW < self.segment.len()
        } else {
            self == idle::<S>()
        }
    }
}

/// The state after one judged window, and the segment that it closed, if any.
pub open spec fn judge<S>(
    state: Collecting<S>,
    window: Seq<S>,
    speech: bool,
) -> (Collecting<S>, Option<Seq<S>>) {
    if !state.open && !speech {
        (state, None)
    } else {
        let segment = state.segment + window;
        let silence = if speech {
            0
        } else {
            state.silence + 1
        };
        if silence >= SILENCE_WINDOWS_TO_CLOSE || segment.len() + VAD_WINDOW
            > MAX_SEGMENT_SAMPLES {
            (idle(), Some(segment))
        } else {
            (Collecting { segment, silence, open: true }, None)
        }
    }
}

/// The state after a run of judged windows, and the segments closed on the way.
pub open spec fn judge_all<S>(
    state: Collecting<S>,
    windows: Seq<Seq<S>>,
    speech: Seq<bool>,
) -> (Collecting<S>, Seq<Seq<S>>)
    decreases windows.len(),
{
    if windows.len() == 0 {
        (state, Seq::empty())
    } else {
        let (before, closed) = judge_all(state, windows.drop_last(), speech.drop_last());
        let (after, last) = judge(before, windows.last(), speech.last());
        (
            after,
            match last {
                Some(segment) => closed.push(segment),
                None => closed,
            },
        )
    }
}

/// The complete windows at the start of a stream of samples.
pub open spec fn windows<S>(stream: Seq<S>) -> Seq<Seq<S>> {
    pieces(stream, VAD_WINDOW as nat)
}

/// The samples of a stream that do not fill a window yet.
pub open spec fn unfinished<S>(stream: Seq<S>) -> Seq<S> {
    remainder(stream, VAD_WINDOW as nat)
}

/// The verdict for each probability.
pub open spec fn verdicts(probabilities: Seq<u32>) -> Seq<bool> {
    probabilities.map_values(|bits: u32| above_half(bits))
}

/// The contents of a list of segments.
pub open spec fn contents<S>(segments: Seq<Vec<S>>) -> Seq<Seq<S>> {
    segments.map_values(|segment: Vec<S>| segment@)
}

/// The content of a segment that may be there.
pub open spec fn content<S>(segment: Option<Vec<S>>) -> Option<Seq<S>> {
    match segment {
        Some(samples) => Some(samples@),
        None => None,
    }
}

/// The segment in progress, if one is open.
pub open spec fn pending_segment<S>(state: Collecting<S>) -> Option<Seq<S>> {
    if state.open {
        Some(state.segment)
    } else {
        None
    }
}

/// The observable state of a slicer.
pub struct SlicerView<S> {
    /// Samples waiting for a complete window.
    pub window: Seq<S>,
    /// The segment that is being collected.
    pub collecting: Collecting<S>,
}

/// The state of a slicer that has seen nothing.
pub open spec fn fresh<S>() -> SlicerView<S> {
    SlicerView { window: Seq::empty(), collecting: idle() }
}

/// For a window with these samples, `predict` may give this probability and
/// take the detector from one state to the other.
pub open spec fn may_predict<S, D, P: Fn(D, &[S]) -> (D, u32)>(
    predict: P,
    before: D,
    window: Seq<S>,
    after: D,
    probability: u32,
) -> bool {
    exists|samples: &[S]|
        samples@ == window && #[trigger] call_ensures(
            predict,
            (before, samples),
            (after, probability),
        )
}

/// `predict` may give these probabilities when it is asked once for each window,
/// in order, and take the detector through these states.
pub open spec fn predicted<S, D, P: Fn(D, &[S]) -> (D, u32)>(
    predict: P,
    judged: Seq<Seq<S>>,
    detectors: Seq<D>,
    probabilities: Seq<u32>,
) -> bool {
    &&& probabilities.len() == judged.len()
    &&& detectors.len() == judged.len() + 1
    &&& forall|i: int|
        0 <= i < judged.len() ==> may_predict(
            predict,
            detectors[i],
            judged[i],
            detectors[i + 1],
            #[trigger] probabilities[i],
        )
}

/// Pushing these samples may take the slicer and its detector from `before` to
/// `after` and complete these segments.
pub open spec fn pushed<S, D, P: Fn(D, &[S]) -> (D, u32)>(
    predict: P,
    samples: Seq<S>,
    before: (SlicerView<S>, D),
    after: (SlicerView<S>, D),
    completed: Seq<Seq<S>>,
) -> bool {
    let stream = before.0.window + samples;
    &&& after.0.window == unfinished(stream)
    &&& exists|detectors: Seq<D>, probabilities: Seq<u32>|
        {
            &&& #[trigger] predicted(predict, windows(stream), detectors, probabilities)
            &&& detectors.first() == before.1
            &&& detectors.last() == after.1
            &&& (after.0.collecting, completed) == judge_all(
                before.0.collecting,
                windows(stream),
                verdicts(probabilities),
            )
        }
}

/// Slices a stream of samples into speech segments.
///
/// Feed samples with `push`, which returns the segments that closed during the
/// batch. On shutdown, `flush` gives the segment in progress. The detector is
/// carried for the caller and handed to the prediction of each window.
pub struct VadSlicer<S, D> {
    /// Absent only while a window is being judged.
    detector: Option<D>,
    /// Samples buffered for the next window.
    window_buf: Vec<S>,
    /// Samples of the current segment.
    segment: Vec<S>,
    /// Silent windows at the end of the segment.
    silence_count: usize,
    /// Whether the current segment has seen a speech window.
    in_segment: bool,
}

impl<S, D> View for VadSlicer<S, D> {
    type V = SlicerView<S>;

    closed spec fn view(&self) -> SlicerView<S> {
        SlicerView {
            window: self.window_buf@,
            collecting: Collecting {
                segment: self.segment@,
                silence: self.silence_count as nat,
                open: self.in_segment,
            },
        }
    }
}

impl<S: Copy, D> VadSlicer<S, D> {
    /// What holds between two calls.
    pub open spec fn wf(&self) -> bool {
        &&& self.holds_detector()
        &&& self@.window.len() < VAD_WINDOW
        &&& self@.collecting.wf()
    }

    /// Whether the detector is in its place.
    pub closed spec fn holds_detector(&self) -> bool {
        self.detector is Some
    }

    /// The detector that this slicer carries.
    pub closed spec fn held_detector(&self) -> D {
        self.detector->0
    }

    /// Builds a detector for 16 kHz audio in windows of 512 samples and an idle
    /// slicer that carries it.
    pub fn new<B: FnOnce(DetectorSettings) -> Result<D, String>>(build: B) -> (r: Result<
        Self,
        AppError,
    >)
        requires
            call_requires(build, (detector_settings(),)),
        ensures
            exists|built: Result<D, String>|
                {
                    &&& #[trigger] call_ensures(build, (detector_settings(),), built)
                    &&& match built {
                        Ok(detector) => {
                            &&& r matches Ok(slicer)
                            &&& slicer.wf()
                            &&& slicer.held_detector() == detector
                            &&& slicer@ == fresh::<S>()
                        },
                        Err(cause) => {
                            &&& r matches Err(error)
                            &&& error@ == AppErrorView::WhisperFailed("vad init: "@ + cause@)
                        },
                    }
                },
    {
        let settings = DetectorSettings { sample_rate: VAD_SAMPLE_RATE, chunk_size: VAD_WINDOW };
        match build(settings) {
            Ok(detector) => Ok(Self::new_with_detector(detector)),
            Err(cause) => Err(
                AppError::WhisperFailed(message("vad init: ", cause.as_str())),
            ),
        }
    }

    /// An idle slicer that carries a detector built earlier.
    pub fn new_with_detector(detector: D) -> (slicer: Self)
        ensures
            slicer.wf(),
            slicer.held_detector() == detector,
            slicer@ == fresh::<S>(),
    {
        let slicer = VadSlicer {
            detector: Some(detector),
            window_buf: Vec::with_capacity(VAD_WINDOW),
            segment: Vec::with_capacity(MAX_SEGMENT_SAMPLES),
            silence_count: 0,
            in_segment: false,
        };
        assert(slicer@.window =~= Seq::empty());
        assert(slicer@.collecting.segment =~= Seq::empty());
        slicer
    }

    /// The detector that this slicer carries.
    pub fn detector(&self) -> (detector: &D)
        requires
            self.wf(),
        ensures
            *detector == self.held_detector(),
    {
        self.detector.as_ref().unwrap()
    }

    /// Takes a complete window with its speech probability, given by the bits of
    /// a single-precision number, and returns the segment that it closes, if any.
    pub fn judge_window(&mut self, window: Vec<S>, probability_bits: u32) -> (closed: Option<
        Vec<S>,
    >)
        requires
            old(self).wf(),
            window@.len() == VAD_WINDOW,
        ensures
            final(self).wf(),
            final(self).held_detector() == old(self).held_detector(),
            final(self)@.window == old(self)@.window,
            (final(self)@.collecting, content(closed)) == judge(
                old(self)@.collecting,
                window@,
                above_half(probability_bits),
            ),
    {
        let speech = is_speech(probability_bits);
        let mut window = window;
        if speech {
            self.in_segment = true;
            self.silence_count = 0;
        }
        if self.in_segment {
            self.segment.append(&mut window);
            if !speech {
                self.silence_count += 1;
            }
        }
        let should_close = self.in_segment && (self.silence_count >= SILENCE_WINDOWS_TO_CLOSE
            || self.segment.len() + VAD_WINDOW > MAX_SEGMENT_SAMPLES);
        if should_close {
            let mut closed: Vec<S> = Vec::with_capacity(MAX_SEGMENT_SAMPLES);
            std::mem::swap(&mut self.segment, &mut closed);
            self.silence_count = 0;
            self.in_segment = false;
            assert(self@.collecting.segment =~= Seq::empty());
            Some(closed)
        } else {
            None
        }
    }

    /// Takes a batch of samples and returns the segments that it completes.
    ///
    /// `predict` gives the speech probability of a complete window as the bits
    /// of a single-precision number, and the detector back. It is asked once for
    /// each window, in order.
    pub fn push<P: Fn(D, &[S]) -> (D, u32)>(&mut self, samples: &[S], predict: P) -> (r: Result<
        Vec<Vec<S>>,
        AppError,
    >)
        requires
            old(self).wf(),
            forall|detector: D, window: &[S]|
                window@.len() == VAD_WINDOW ==> #[trigger] call_requires(
                    predict,
                    (detector, window),
                ),
        ensures
            final(self).wf(),
            r matches Ok(completed) && pushed(
                predict,
                samples@,
                (old(self)@, old(self).held_detector()),
                (final(self)@, final(self).held_detector()),
                contents(completed@),
            ),
    {
        let mut completed: Vec<Vec<S>> = Vec::new();
        let ghost held = self@.window;
        let ghost mut detectors: Seq<D> = seq![self.held_detector()];
        let ghost mut probabilities: Seq<u32> = Seq::empty();
        proof {
            assert(held + samples@.take(0) =~= held);
            lemma_no_piece(held, VAD_WINDOW as nat);
            assert(verdicts(probabilities) =~= Seq::empty());
            assert(contents(completed@) =~= Seq::empty());
        }
        let mut next: usize = 0;
        while next < samples.len()
            invariant
                next <= samples@.len(),
                self.wf(),
                held == old(self)@.window,
                forall|detector: D, window: &[S]|
                    window@.len() == VAD_WINDOW ==> #[trigger] call_requires(
                        predict,
                        (detector, window),
                    ),
                self@.window == unfinished(held + samples@.take(next as int)),
                predicted(
                    predict,
                    windows(held + samples@.take(next as int)),
                    detectors,
                    probabilities,
                ),
                detectors.first() == old(self).held_detector(),
                detectors.last() == self.held_detector(),
                (self@.collecting, contents(completed@)) == judge_all(
                    old(self)@.collecting,
                    windows(held + samples@.take(next as int)),
                    verdicts(probabilities),
                ),
            decreases samples.len() - next,
        {
            let ghost stream = held + samples@.take(next as int);
            let ghost closed_before = completed@;
            proof {
                assert(held + samples@.take(next + 1) =~= stream.push(samples@[next as int]));
                lemma_pieces_push(stream, samples@[next as int], VAD_WINDOW as nat);
            }
            self.window_buf.push(samples[next]);
            if self.window_buf.len() >= VAD_WINDOW {
                let mut window: Vec<S> = Vec::with_capacity(VAD_WINDOW);
                std::mem::swap(&mut self.window_buf, &mut window);
                let detector = self.detector.take().unwrap();
                let (detector, probability_bits) = predict(detector, window.as_slice());
                self.detector = Some(detector);
                let ghost judged = window@;
                let closed = self.judge_window(window, probability_bits);
                proof {
                    let grown = probabilities.push(probability_bits);
                    let passed = detectors.push(detector);
                    let all = windows(stream).push(judged);
                    assert(all.drop_last() =~= windows(stream));
                    assert(verdicts(grown).drop_last() =~= verdicts(probabilities));
                    assert(verdicts(grown).last() == above_half(probability_bits));
                    assert(all.last() == judged);
                    assert(windows(stream.push(samples@[next as int])) == all);
                    assert(may_predict(
                        predict,
                        detectors.last(),
                        judged,
                        detector,
                        probability_bits,
                    ));
                    assert forall|i: int| 0 <= i < all.len() implies may_predict(
                        predict,
                        passed[i],
                        all[i],
                        passed[i + 1],
                        #[trigger] grown[i],
                    ) by {
                        if i < probabilities.len() {
                            assert(grown[i] == probabilities[i]);
                            assert(passed[i] == detectors[i]);
                            assert(passed[i + 1] == detectors[i + 1]);
                        }
                    }
                    detectors = passed;
                    probabilities = grown;
                }
                if let Some(segment) = closed {
                    completed.push(segment);
                    assert(contents(completed@) =~= contents(closed_before).push(segment@));
                }
                assert(self@.window =~= Seq::empty());
            }
            next += 1;
        }
        proof {
            assert(samples@.take(next as int) =~= samples@);
            let before = (old(self)@, old(self).held_detector());
            assert(predicted(
                predict,
                windows(before.0.window + samples@),
                detectors,
                probabilities,
            ));
        }
        Ok(completed)
    }

    /// Gives the segment in progress, for instance on shutdown. Samples of an
    /// unfinished window stay buffered.
    pub fn flush(&mut self) -> (pending: Option<Vec<S>>)
        requires
            old(self).wf(),
        ensures
            final(self).wf(),
            final(self).held_detector() == old(self).held_detector(),
            final(self)@ == (SlicerView { collecting: idle(), ..old(self)@ }),
            content(pending) == pending_segment(old(self)@.collecting),
    {
        if self.in_segment && !self.segment.is_empty() {
            let mut pending: Vec<S> = Vec::new();
            std::mem::swap(&mut self.segment, &mut pending);
            self.in_segment = false;
            self.silence_count = 0;
            assert(self@.collecting.segment =~= Seq::empty());
            Some(pending)
        } else {
            None
        }
    }
}

} // verus!
