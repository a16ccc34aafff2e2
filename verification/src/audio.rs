//! Audio capture and conversion to 16 kHz mono.
//!
//! Samples are opaque here: their arithmetic, the device and the resampler are
//! the caller's. This module decides how an input stream is opened, how a
//! captured buffer is published, and which samples reach the resampler when.

use crate::error::{message, AppError, AppErrorView};
use crate::pieces::{lemma_piece, lemma_pieces, pieces};
use vstd::prelude::*;
use vstd::slice::slice_subrange;

verus! {

/// Sample rate that the speech model expects.
pub const WHISPER_SAMPLE_RATE: u32 = 16_000;

/// Mono samples that the resampler takes at a time.
pub const RESAMPLER_CHUNK: usize = 1024;

/// `answer` is what `f` may give for these samples.
pub open spec fn may_give<S, F: Fn(&[S]) -> S>(f: F, samples: Seq<S>, answer: S) -> bool {
    exists|slice: &[S]| slice@ == samples && #[trigger] call_ensures(f, (slice,), answer)
}

/// An audio buffer and its level, as published by the capture callback.
#[derive(Debug)]
pub struct AudioChunk<S> {
    /// Samples in the order of the device, interleaved if there are several
    /// channels.
    pub samples: Vec<S>,
    /// Sample rate of the device.
    pub sample_rate: u32,
    /// Number of channels.
    pub channels: u16,
    /// Level of this buffer.
    pub level: S,
}

impl<S> AudioChunk<S> {
    /// Makes a chunk out of a buffer of the device: each sample goes through
    /// `convert`, and `level` measures the converted samples.
    pub fn from_device<T: Copy, C: Fn(T) -> S, L: Fn(&[S]) -> S>(
        data: &[T],
        sample_rate: u32,
        channels: u16,
        convert: C,
        level: L,
    ) -> (chunk: AudioChunk<S>)
        requires
            forall|i: int| 0 <= i < data@.len() ==> call_requires(convert, (#[trigger] data@[i],)),
            forall|samples: &[S]| #[trigger] call_requires(level, (samples,)),
        ensures
            chunk.sample_rate == sample_rate,
            chunk.channels == channels,
            chunk.samples@.len() == data@.len(),
            forall|i: int|
                0 <= i < data@.len() ==> call_ensures(
                    convert,
                    (data@[i],),
                    #[trigger] chunk.samples@[i],
                ),
            may_give(level, chunk.samples@, chunk.level),
            exists|measured: &[S]|
                measured@ == chunk.samples@ && #[trigger] call_ensures(
                    level,
                    (measured,),
                    chunk.level,
                ),
    {
        let mut samples: Vec<S> = Vec::with_capacity(data.len());
        let mut i: usize = 0;
        while i < data.len()
            invariant
                i <= data@.len(),
                samples@.len() == i,
                forall|i: int|
                    0 <= i < data@.len() ==> call_requires(convert, (#[trigger] data@[i],)),
                forall|j: int|
                    0 <= j < i ==> call_ensures(convert, (data@[j],), #[trigger] samples@[j]),
            decreases data.len() - i,
        {
            samples.push(convert(data[i]));
            i += 1;
        }
        let measured = level(samples.as_slice());
        assert(may_give(level, samples@, measured));
        AudioChunk { samples, sample_rate, channels, level: measured }
    }
}

/// Sample format of an input device. Formats that cannot be captured are known
/// by name only.
#[derive(Debug)]
pub enum SampleFormat {
    F32,
    I16,
    U16,
    Other(String),
}

/// A sample format that can be captured.
#[derive(Debug, Clone, Copy, PartialEq, Eq)]
pub enum StreamFormat {
    F32,
    I16,
    U16,
}

/// Default configuration of an input device.
#[derive(Debug)]
pub struct InputConfig {
    pub sample_rate: u32,
    pub channels: u16,
    pub format: SampleFormat,
}

/// A capture that has started: the rate and the channels of its buffers.
#[derive(Debug, Clone, Copy, PartialEq, Eq)]
pub struct Capture {
    pub sample_rate: u32,
    pub channels: u16,
}

/// What an opening capture is waiting for.
#[derive(Debug, Clone, Copy, PartialEq, Eq)]
pub enum OpeningPhase {
    /// The default input device is being looked up.
    FindingDevice,
    /// The configuration of the device is being read.
    ReadingConfig,
    /// The stream is being built.
    BuildingStream { capture: Capture },
    /// The stream is being started.
    StartingStream { capture: Capture },
    /// The capture has started or failed.
    Finished,
}

/// The outcome of what an opening capture asked for.
#[derive(Debug)]
pub enum CaptureEvent {
    DeviceFound,
    DeviceMissing,
    ConfigRead(InputConfig),
    ConfigFailed(String),
    StreamBuilt,
    BuildFailed(String),
    StreamStarted,
    StartFailed(String),
}

/// What the caller has to do next to open a capture.
#[derive(Debug)]
pub enum CaptureAction {
    /// Look up the default input device.
    FindDevice,
    /// Read the default configuration of the device.
    ReadConfig,
    /// Build an input stream for samples of this format.
    BuildStream { format: StreamFormat, capture: Capture },
    /// Start the stream.
    StartStream,
    /// Report that the capture runs, or why it does not.
    Finish(Result<Capture, AppError>),
}

/// The content of a [`CaptureAction`].
pub enum CaptureActionView {
    FindDevice,
    ReadConfig,
    BuildStream { format: StreamFormat, capture: Capture },
    StartStream,
    Finish(Result<Capture, AppErrorView>),
}

impl View for CaptureAction {
    type V = CaptureActionView;

    open spec fn view(&self) -> CaptureActionView {
        match self {
            CaptureAction::FindDevice => CaptureActionView::FindDevice,
            CaptureAction::ReadConfig => CaptureActionView::ReadConfig,
            CaptureAction::BuildStream { format, capture } => CaptureActionView::BuildStream {
                format: *format,
                capture: *capture,
            },
            CaptureAction::StartStream => CaptureActionView::StartStream,
            CaptureAction::Finish(Ok(capture)) => CaptureActionView::Finish(Ok(*capture)),
            CaptureAction::Finish(Err(error)) => CaptureActionView::Finish(Err(error@)),
        }
    }
}

/// Whether `event` is an outcome of what a capture in `phase` asked for.
pub open spec fn answers(phase: OpeningPhase, event: CaptureEvent) -> bool {
    match phase {
        OpeningPhase::FindingDevice => event is DeviceFound || event is DeviceMissing,
        OpeningPhase::ReadingConfig => event is ConfigRead || event is ConfigFailed,
        OpeningPhase::BuildingStream { capture } => event is StreamBuilt || event is BuildFailed,
        OpeningPhase::StartingStream { capture } => event is StreamStarted || event is StartFailed,
        OpeningPhase::Finished => false,
    }
}

/// The capture ends with an error about the microphone.
pub open spec fn no_microphone(text: Seq<char>) -> (OpeningPhase, CaptureActionView) {
    (
        OpeningPhase::Finished,
        CaptureActionView::Finish(Err(AppErrorView::NoMicrophone(text))),
    )
}

/// The capture goes on to build a stream for this format.
pub open spec fn build(format: StreamFormat, config: InputConfig) -> (
    OpeningPhase,
    CaptureActionView,
) {
    let capture = Capture { sample_rate: config.sample_rate, channels: config.channels };
    (
        OpeningPhase::BuildingStream { capture },
        CaptureActionView::BuildStream { format, capture },
    )
}

/// The step of an opening capture on an event that answers its phase.
pub open spec fn open_step(phase: OpeningPhase, event: CaptureEvent) -> (
    OpeningPhase,
    CaptureActionView,
) {
    match event {
        CaptureEvent::DeviceFound => (OpeningPhase::ReadingConfig, CaptureActionView::ReadConfig),
        CaptureEvent::DeviceMissing => no_microphone("no default input device"@),
        CaptureEvent::ConfigRead(config) => match config.format {
            SampleFormat::F32 => build(StreamFormat::F32, config),
            SampleFormat::I16 => build(StreamFormat::I16, config),
            SampleFormat::U16 => build(StreamFormat::U16, config),
            SampleFormat::Other(name) => no_microphone("unsupported sample format: "@ + name@),
        },
        CaptureEvent::ConfigFailed(cause) => no_microphone("query default config: "@ + cause@),
        CaptureEvent::StreamBuilt => (
            OpeningPhase::StartingStream { capture: phase->BuildingStream_capture },
            CaptureActionView::StartStream,
        ),
        CaptureEvent::BuildFailed(cause) => no_microphone("build_input_stream: "@ + cause@),
        CaptureEvent::StreamStarted => (
            OpeningPhase::Finished,
            CaptureActionView::Finish(Ok(phase->StartingStream_capture)),
        ),
        CaptureEvent::StartFailed(cause) => no_microphone("starting stream: "@ + cause@),
    }
}

/// A capture that is being opened.
pub struct OpeningCapture {
    phase: OpeningPhase,
}

impl View for OpeningCapture {
    type V = OpeningPhase;

    closed spec fn view(&self) -> OpeningPhase {
        self.phase
    }
}

fn failed(context: &str, cause: &str) -> (action: CaptureAction)
    ensures
        action@ == CaptureActionView::Finish(
            Err::<Capture, AppErrorView>(AppErrorView::NoMicrophone(context@ + cause@)),
        ),
{
    CaptureAction::Finish(Err(AppError::NoMicrophone(message(context, cause))))
}

impl Capture {
    /// Starts to open the default input device.
    pub fn start() -> (r: (OpeningCapture, CaptureAction))
        ensures
            r.0@ == OpeningPhase::FindingDevice,
            r.1@ == CaptureActionView::FindDevice,
    {
        (OpeningCapture { phase: OpeningPhase::FindingDevice }, CaptureAction::FindDevice)
    }
}

impl OpeningCapture {
    /// What the capture is waiting for.
    pub fn phase(&self) -> (phase: OpeningPhase)
        ensures
            phase == self@,
    {
        self.phase
    }

    /// Takes the outcome of the last action and gives the next one.
    pub fn handle(&mut self, event: CaptureEvent) -> (action: CaptureAction)
        requires
            answers(old(self)@, event),
        ensures
            (final(self)@, action@) == open_step(old(self)@, event),
    {
        let phase = self.phase;
        self.phase = OpeningPhase::Finished;
        match (phase, event) {
            (OpeningPhase::FindingDevice, CaptureEvent::DeviceFound) => {
                self.phase = OpeningPhase::ReadingConfig;
                CaptureAction::ReadConfig
            },
            (OpeningPhase::ReadingConfig, CaptureEvent::ConfigRead(config)) => {
                let capture = Capture {
                    sample_rate: config.sample_rate,
                    channels: config.channels,
                };
                let format = match config.format {
                    SampleFormat::F32 => StreamFormat::F32,
                    SampleFormat::I16 => StreamFormat::I16,
                    SampleFormat::U16 => StreamFormat::U16,
                    SampleFormat::Other(name) => {
                        return failed("unsupported sample format: ", name.as_str());
                    },
                };
                self.phase = OpeningPhase::BuildingStream { capture };
                CaptureAction::BuildStream { format, capture }
            },
            (OpeningPhase::ReadingConfig, CaptureEvent::ConfigFailed(cause)) => {
                failed("query default config: ", cause.as_str())
            },
            (OpeningPhase::BuildingStream { capture }, CaptureEvent::StreamBuilt) => {
                self.phase = OpeningPhase::StartingStream { capture };
                CaptureAction::StartStream
            },
            (OpeningPhase::BuildingStream { .. }, CaptureEvent::BuildFailed(cause)) => {
                failed("build_input_stream: ", cause.as_str())
            },
            (OpeningPhase::StartingStream { capture }, CaptureEvent::StreamStarted) => {
                CaptureAction::Finish(Ok(capture))
            },
            (OpeningPhase::StartingStream { .. }, CaptureEvent::StartFailed(cause)) => {
                failed("starting stream: ", cause.as_str())
            },
            // What is left is that there is no device.
            (_, _) => {
                CaptureAction::Finish(
                    Err(AppError::NoMicrophone("no default input device".to_owned())),
                )
            },
        }
    }
}

/// Shape of the interpolation between filter points.
#[derive(Debug, Clone, Copy, PartialEq, Eq)]
pub enum Interpolation {
    Linear,
}

/// Window of the resampling filter.
#[derive(Debug, Clone, Copy, PartialEq, Eq)]
pub enum FilterWindow {
    BlackmanHarris2,
}

/// What a sinc resampler is built for.
#[derive(Debug, Clone, Copy, PartialEq, Eq)]
pub struct ResamplerSettings {
    pub input_rate: u32,
    pub output_rate: u32,
    /// Greatest factor by which the rate may change later.
    pub max_relative_ratio: u32,
    pub sinc_len: usize,
    /// Relative cutoff frequency, as the bits of a single-precision number.
    pub cutoff_bits: u32,
    pub interpolation: Interpolation,
    pub oversampling_factor: usize,
    pub window: FilterWindow,
    pub chunk_size: usize,
    pub channels: usize,
}

/// The resampler for a device: from its rate to 16 kHz, mono, in chunks of
/// [`RESAMPLER_CHUNK`] samples, with a cutoff of 0.95.
pub open spec fn resampler_settings(input_rate: u32) -> ResamplerSettings {
    ResamplerSettings {
        input_rate,
        output_rate: WHISPER_SAMPLE_RATE,
        max_relative_ratio: 2,
        sinc_len: 256,
        cutoff_bits: 0x3F73_3333,
        interpolation: Interpolation::Linear,
        oversampling_factor: 256,
        window: FilterWindow::BlackmanHarris2,
        chunk_size: RESAMPLER_CHUNK,
        channels: 1,
    }
}

/// The complete frames of an interleaved buffer: one sample per channel each.
/// Samples past the last complete frame belong to none.
pub open spec fn frames<S>(interleaved: Seq<S>, channels: nat) -> Seq<Seq<S>> {
    pieces(interleaved, channels)
}

/// The complete resampler chunks at the start of a mono stream.
pub open spec fn chunks<S>(mono: Seq<S>) -> Seq<Seq<S>> {
    pieces(mono, RESAMPLER_CHUNK as nat)
}

/// `means` are answers that `average` may give, one for each frame.
pub open spec fn averaged<S, A: Fn(&[S]) -> S>(
    average: A,
    frames: Seq<Seq<S>>,
    means: Seq<S>,
) -> bool {
    &&& means.len() == frames.len()
    &&& forall|i: int|
        0 <= i < frames.len() ==> may_give(average, frames[i], #[trigger] means[i])
}

/// For a chunk with these samples, `resample` may give this outcome and take the
/// resampler from one state to the other.
pub open spec fn may_resample<S, R, F: Fn(R, &[S]) -> (R, Result<Vec<S>, String>)>(
    resample: F,
    before: R,
    chunk: Seq<S>,
    after: R,
    outcome: Result<Vec<S>, String>,
) -> bool {
    exists|samples: &[S]|
        samples@ == chunk && #[trigger] call_ensures(resample, (before, samples), (after, outcome))
}

/// `resample` may give these outcomes when it is asked once for each chunk, in
/// order, until it fails, and take the resampler through these states.
pub open spec fn resampled<S, R, F: Fn(R, &[S]) -> (R, Result<Vec<S>, String>)>(
    resample: F,
    chunks: Seq<Seq<S>>,
    resamplers: Seq<R>,
    outcomes: Seq<Result<Vec<S>, String>>,
) -> bool {
    &&& outcomes.len() <= chunks.len()
    &&& resamplers.len() == outcomes.len() + 1
    &&& forall|i: int|
        0 <= i < outcomes.len() ==> may_resample(
            resample,
            resamplers[i],
            chunks[i],
            resamplers[i + 1],
            #[trigger] outcomes[i],
        )
    &&& forall|i: int| 0 <= i < outcomes.len() - 1 ==> (#[trigger] outcomes[i]) is Ok
    &&& outcomes.len() < chunks.len() ==> outcomes.len() > 0 && outcomes.last() is Err
}

/// The concatenated output of the chunks that could be resampled.
pub open spec fn outputs<S>(outcomes: Seq<Result<Vec<S>, String>>) -> Seq<S>
    decreases outcomes.len(),
{
    if outcomes.len() == 0 {
        Seq::empty()
    } else {
        let before = outputs(outcomes.drop_last());
        match outcomes.last() {
            Ok(output) => before + output@,
            Err(_) => before,
        }
    }
}

/// The content of what a call gives.
pub open spec fn result_content<S>(r: Result<Vec<S>, AppError>) -> Result<Seq<S>, AppErrorView> {
    match r {
        Ok(output) => Ok(output@),
        Err(error) => Err(error@),
    }
}

/// What a call gives, from the outcome of each chunk: all output, or the error of
/// the chunk that failed.
pub open spec fn reported<S>(outcomes: Seq<Result<Vec<S>, String>>) -> Result<
    Seq<S>,
    AppErrorView,
> {
    if outcomes.len() > 0 && outcomes.last() is Err {
        Err(AppErrorView::Config("resample: "@ + outcomes.last()->Err_0@))
    } else {
        Ok(outputs(outcomes))
    }
}

/// What happens during a call.
pub struct Processing<S, R> {
    /// The mono sample of each frame.
    pub means: Seq<S>,
    /// The resampler before the first chunk and after each one.
    pub resamplers: Seq<R>,
    /// The outcome of each chunk that was resampled.
    pub outcomes: Seq<Result<Vec<S>, String>>,
}

impl<S, R> Processing<S, R> {
    /// This takes the waiting samples and the resampler from `before` to `after`
    /// and gives `r`, for a buffer with these frames.
    pub open spec fn explains<
        A: Fn(&[S]) -> S,
        F: Fn(R, &[S]) -> (R, Result<Vec<S>, String>),
    >(
        self,
        average: A,
        resample: F,
        frames: Seq<Seq<S>>,
        before: (Seq<S>, R),
        after: (Seq<S>, R),
        r: Result<Seq<S>, AppErrorView>,
    ) -> bool {
        let mono = before.0 + self.means;
        &&& averaged(average, frames, self.means)
        &&& resampled(resample, chunks(mono), self.resamplers, self.outcomes)
        &&& self.resamplers.first() == before.1
        &&& self.resamplers.last() == after.1
        &&& after.0 == mono.skip(self.outcomes.len() * RESAMPLER_CHUNK)
        &&& r == reported(self.outcomes)
    }
}

/// A call on a buffer with these frames may take the waiting samples and the
/// resampler from `before` to `after` and give `r`.
pub open spec fn processed<
    S,
    R,
    A: Fn(&[S]) -> S,
    F: Fn(R, &[S]) -> (R, Result<Vec<S>, String>),
>(
    average: A,
    resample: F,
    frames: Seq<Seq<S>>,
    before: (Seq<S>, R),
    after: (Seq<S>, R),
    r: Result<Seq<S>, AppErrorView>,
) -> bool {
    exists|p: Processing<S, R>| p.explains(average, resample, frames, before, after, r)
}

/// The state of a converter.
pub struct ResamplerView<S> {
    /// Channels of the input.
    pub channels: nat,
    /// Mono samples that wait for a complete chunk.
    pub pending: Seq<S>,
}

/// Converts interleaved audio to 16 kHz mono.
///
/// Each frame is averaged to one mono sample; mono samples are handed to the
/// resampler in chunks, and what does not fill a chunk waits for the next call.
pub struct Resampler16kMono<S, R> {
    /// Absent only while a chunk is being resampled.
    resampler: Option<R>,
    src_channels: usize,
    /// Mono samples carried over between calls.
    mono_buf: Vec<S>,
}

impl<S, R> View for Resampler16kMono<S, R> {
    type V = ResamplerView<S>;

    closed spec fn view(&self) -> ResamplerView<S> {
        ResamplerView { channels: self.src_channels as nat, pending: self.mono_buf@ }
    }
}

impl<S, R> Resampler16kMono<S, R> {
    /// What holds between two calls.
    pub closed spec fn wf(&self) -> bool {
        self.resampler is Some
    }

    /// The resampler that this converter carries.
    pub closed spec fn held_resampler(&self) -> R {
        self.resampler->0
    }

    /// Builds a resampler for the input rate and a converter that carries it.
    pub fn new<B: FnOnce(ResamplerSettings) -> Result<R, String>>(
        input_rate: u32,
        channels: u16,
        build: B,
    ) -> (r: Result<Self, AppError>)
        requires
            call_requires(build, (resampler_settings(input_rate),)),
        ensures
            exists|built: Result<R, String>|
                {
                    &&& #[trigger] call_ensures(build, (resampler_settings(input_rate),), built)
                    &&& match built {
                        Ok(resampler) => {
                            &&& r matches Ok(converter)
                            &&& converter.wf()
                            &&& converter.held_resampler() == resampler
                            &&& converter@.channels == channels
                            &&& converter@.pending == Seq::<S>::empty()
                        },
                        Err(cause) => {
                            &&& r matches Err(error)
                            &&& error@ == AppErrorView::Config("resampler init: "@ + cause@)
                        },
                    }
                },
    {
        let settings = ResamplerSettings {
            input_rate,
            output_rate: WHISPER_SAMPLE_RATE,
            max_relative_ratio: 2,
            sinc_len: 256,
            cutoff_bits: 0x3F73_3333,
            interpolation: Interpolation::Linear,
            oversampling_factor: 256,
            window: FilterWindow::BlackmanHarris2,
            chunk_size: RESAMPLER_CHUNK,
            channels: 1,
        };
        match build(settings) {
            Ok(resampler) => Ok(
                Resampler16kMono {
                    resampler: Some(resampler),
                    src_channels: channels as usize,
                    mono_buf: Vec::with_capacity(RESAMPLER_CHUNK * 4),
                },
            ),
            Err(cause) => Err(AppError::Config(message("resampler init: ", cause.as_str()))),
        }
    }

    /// Averages the frames of an interleaved buffer, in order, and appends the
    /// mono samples to those that wait.
    fn downmix<A: Fn(&[S]) -> S>(&mut self, interleaved: &[S], average: A)
        requires
            old(self).wf(),
            old(self)@.channels > 0,
            forall|frame: &[S]|
                frame@.len() == old(self)@.channels ==> #[trigger] call_requires(average, (frame,)),
        ensures
            final(self).wf(),
            final(self).held_resampler() == old(self).held_resampler(),
            final(self)@.channels == old(self)@.channels,
            exists|means: Seq<S>|
                #[trigger] averaged(average, frames(interleaved@, old(self)@.channels), means)
                    && final(self)@.pending == old(self)@.pending + means,
    {
        let channels = self.src_channels;
        let total = interleaved.len();
        let count = total / channels;
        let ghost all = frames(interleaved@, channels as nat);
        let ghost held = self.mono_buf@;
        let ghost mut means: Seq<S> = Seq::empty();
        assert(held + means =~= held);
        let mut i: usize = 0;
        let mut start: usize = 0;
        while i < count
            invariant
                i <= count,
                channels > 0,
                total == interleaved@.len(),
                count == interleaved@.len() / (channels as nat),
                start == i * channels,
                all == frames(interleaved@, channels as nat),
                means.len() == i,
                self.resampler == old(self).resampler,
                self.src_channels == old(self).src_channels,
                self.mono_buf@ == held + means,
                forall|j: int|
                    0 <= j < i ==> may_give(average, all[j], #[trigger] means[j]),
                forall|frame: &[S]|
                    frame@.len() == channels ==> #[trigger] call_requires(average, (frame,)),
            decreases count - i,
        {
            proof {
                lemma_piece(interleaved@, channels as nat, i as int);
            }
            let frame = slice_subrange(interleaved, start, start + channels);
            let mean = average(frame);
            self.mono_buf.push(mean);
            proof {
                assert(may_give(average, all[i as int], mean));
                assert(held + means.push(mean) =~= (held + means).push(mean));
                means = means.push(mean);
            }
            start += channels;
            i += 1;
        }
        assert(averaged(average, all, means));
    }

    /// Takes the next complete chunk of waiting samples.
    fn take_chunk(&mut self) -> (chunk: Option<Vec<S>>)
        requires
            old(self).wf(),
        ensures
            final(self).wf(),
            final(self).held_resampler() == old(self).held_resampler(),
            final(self)@.channels == old(self)@.channels,
            match chunk {
                Some(samples) => {
                    &&& old(self)@.pending.len() >= RESAMPLER_CHUNK
                    &&& samples@ == old(self)@.pending.take(RESAMPLER_CHUNK as int)
                    &&& final(self)@.pending == old(self)@.pending.skip(RESAMPLER_CHUNK as int)
                },
                None => {
                    &&& old(self)@.pending.len() < RESAMPLER_CHUNK
                    &&& final(self)@.pending == old(self)@.pending
                },
            },
    {
        if self.mono_buf.len() < RESAMPLER_CHUNK {
            return None;
        }
        let mut rest = self.mono_buf.split_off(RESAMPLER_CHUNK);
        std::mem::swap(&mut self.mono_buf, &mut rest);
        Some(rest)
    }

    /// Takes an interleaved buffer at the input rate and returns the 16 kHz mono
    /// samples that are ready.
    ///
    /// `average` mixes a frame down to one sample and is asked for each complete
    /// frame. `resample` converts a chunk and gives the resampler back; it is
    /// asked once for each complete chunk, in order, until it fails. A chunk that
    /// failed is dropped with the output of this call; the samples after it keep
    /// waiting.
    pub fn process<A: Fn(&[S]) -> S, F: Fn(R, &[S]) -> (R, Result<Vec<S>, String>)>(
        &mut self,
        interleaved: &[S],
        average: A,
        resample: F,
    ) -> (r: Result<Vec<S>, AppError>)
        requires
            old(self).wf(),
            old(self)@.channels > 0,
            forall|frame: &[S]|
                frame@.len() == old(self)@.channels ==> #[trigger] call_requires(average, (frame,)),
            forall|resampler: R, chunk: &[S]|
                chunk@.len() == RESAMPLER_CHUNK ==> #[trigger] call_requires(
                    resample,
                    (resampler, chunk),
                ),
        ensures
            final(self).wf(),
            final(self)@.channels == old(self)@.channels,
            processed(
                average,
                resample,
                frames(interleaved@, old(self)@.channels),
                (old(self)@.pending, old(self).held_resampler()),
                (final(self)@.pending, final(self).held_resampler()),
                result_content(r),
            ),
    {
        self.downmix(interleaved, average);
        let ghost means = choose|means: Seq<S>|
            #[trigger] averaged(average, frames(interleaved@, old(self)@.channels), means)
                && self@.pending == old(self)@.pending + means;
        let ghost all = old(self)@.pending + means;
        let ghost mut resamplers: Seq<R> = seq![self.held_resampler()];
        let ghost mut outcomes: Seq<Result<Vec<S>, String>> = Seq::empty();
        let mut output: Vec<S> = Vec::new();
        proof {
            lemma_pieces(all, RESAMPLER_CHUNK as nat);
            assert(all.skip(0) =~= all);
            assert(output@ =~= Seq::<S>::empty());
        }
        loop
            invariant
                averaged(average, frames(interleaved@, old(self)@.channels), means),
                all == old(self)@.pending + means,
                self.wf(),
                self@.channels == old(self)@.channels,
                forall|resampler: R, chunk: &[S]|
                    chunk@.len() == RESAMPLER_CHUNK ==> #[trigger] call_requires(
                        resample,
                        (resampler, chunk),
                    ),
                outcomes.len() <= chunks(all).len(),
                resamplers.len() == outcomes.len() + 1,
                resamplers.first() == old(self).held_resampler(),
                resamplers.last() == self.held_resampler(),
                chunks(all).len() == all.len() / (RESAMPLER_CHUNK as nat),
                outcomes.len() * RESAMPLER_CHUNK <= all.len(),
                self@.pending == all.skip(outcomes.len() * RESAMPLER_CHUNK),
                forall|i: int|
                    0 <= i < outcomes.len() ==> may_resample(
                        resample,
                        resamplers[i],
                        chunks(all)[i],
                        resamplers[i + 1],
                        #[trigger] outcomes[i],
                    ),
                forall|i: int| 0 <= i < outcomes.len() ==> (#[trigger] outcomes[i]) is Ok,
                output@ == outputs(outcomes),
            ensures
                outcomes.len() == chunks(all).len(),
            decreases self@.pending.len(),
        {
            let ghost count = outcomes.len();
            let chunk = match self.take_chunk() {
                Some(chunk) => chunk,
                None => {
                    assert(outcomes.len() == chunks(all).len());
                    break;
                },
            };
            assert(chunk@ =~= chunks(all)[count as int]);
            assert(self@.pending =~= all.skip((count + 1) * RESAMPLER_CHUNK));
            let resampler = self.resampler.take().unwrap();
            let (resampler, outcome) = resample(resampler, chunk.as_slice());
            self.resampler = Some(resampler);
            let ghost passed = resamplers.push(resampler);
            let ghost grown = outcomes.push(outcome);
            proof {
                assert(may_resample(
                    resample,
                    resamplers.last(),
                    chunks(all)[count as int],
                    resampler,
                    outcome,
                ));
                assert forall|i: int| 0 <= i < grown.len() implies may_resample(
                    resample,
                    passed[i],
                    chunks(all)[i],
                    passed[i + 1],
                    #[trigger] grown[i],
                ) by {
                    if i < count {
                        assert(grown[i] == outcomes[i]);
                        assert(passed[i] == resamplers[i]);
                        assert(passed[i + 1] == resamplers[i + 1]);
                    }
                }
                assert(grown.drop_last() =~= outcomes);
            }
            match outcome {
                Ok(samples) => {
                    let mut samples = samples;
                    output.append(&mut samples);
                    proof {
                        assert forall|i: int| 0 <= i < grown.len() implies
                            (#[trigger] grown[i]) is Ok by {
                            if i < count {
                                assert(grown[i] == outcomes[i]);
                            }
                        }
                        resamplers = passed;
                        outcomes = grown;
                    }
                },
                Err(cause) => {
                    let error = AppError::Config(message("resample: ", cause.as_str()));
                    proof {
                        assert forall|i: int| 0 <= i < grown.len() - 1 implies (
                        #[trigger] grown[i]) is Ok by {
                            assert(grown[i] == outcomes[i]);
                        }
                        let p = Processing { means, resamplers: passed, outcomes: grown };
                        assert(p.explains(
                            average,
                            resample,
                            frames(interleaved@, old(self)@.channels),
                            (old(self)@.pending, old(self).held_resampler()),
                            (self@.pending, self.held_resampler()),
                            Err(error@),
                        ));
                    }
                    return Err(error);
                },
            }
        }
        proof {
            let p = Processing { means, resamplers, outcomes };
            assert(p.explains(
                average,
                resample,
                frames(interleaved@, old(self)@.channels),
                (old(self)@.pending, old(self).held_resampler()),
                (self@.pending, self.held_resampler()),
                Ok(output@),
            ));
        }
        Ok(output)
    }
}

} // verus!
