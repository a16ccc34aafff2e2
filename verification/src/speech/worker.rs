//! Transcription worker.
//!
//! The worker takes audio slices one after the other, has each transcribed and
//! passes the text on. Inference, channels and threads are the caller's; the
//! worker says at each point what to do next and takes the outcome. An error
//! during the inference of a slice skips that slice, and the worker keeps
//! running.

use crate::error::{message, AppError, AppErrorView};
use crate::text::trimmed;
use vstd::prelude::*;

verus! {

/// How a slice is decoded: greedily, and without printing.
#[derive(Debug, PartialEq, Eq)]
pub struct InferenceParams {
    /// Candidates of the greedy decoder.
    pub best_of: i32,
    /// Language of the audio; detected where there is none.
    pub language: Option<String>,
    pub print_progress: bool,
    pub print_special: bool,
    pub print_realtime: bool,
    pub print_timestamps: bool,
}

/// The content of [`InferenceParams`].
pub struct ParamsView {
    pub best_of: int,
    pub language: Option<Seq<char>>,
    pub print_progress: bool,
    pub print_special: bool,
    pub print_realtime: bool,
    pub print_timestamps: bool,
}

impl View for InferenceParams {
    type V = ParamsView;

    open spec fn view(&self) -> ParamsView {
        ParamsView {
            best_of: self.best_of as int,
            language: match self.language {
                Some(language) => Some(language@),
                None => None,
            },
            print_progress: self.print_progress,
            print_special: self.print_special,
            print_realtime: self.print_realtime,
            print_timestamps: self.print_timestamps,
        }
    }
}

/// The parameters for a language hint. An empty hint leaves the language open.
pub open spec fn params_for(language_hint: Seq<char>) -> ParamsView {
    ParamsView {
        best_of: 1,
        language: if language_hint.len() == 0 {
            None
        } else {
            Some(language_hint)
        },
        print_progress: false,
        print_special: false,
        print_realtime: false,
        print_timestamps: false,
    }
}

/// The parameters for a language hint. An empty hint leaves the language open.
pub fn inference_params(language_hint: &str) -> (params: InferenceParams)
    ensures
        params@ == params_for(language_hint@),
{
    let language = if language_hint.is_empty() {
        None
    } else {
        Some(language_hint.to_owned())
    };
    InferenceParams {
        best_of: 1,
        language,
        print_progress: false,
        print_special: false,
        print_realtime: false,
        print_timestamps: false,
    }
}

/// Loads the model at `model_path` with `load` if the file is there.
pub fn load_whisper_context<C, L: FnOnce(&str) -> Result<C, String>>(
    model_path: &str,
    exists: bool,
    load: L,
) -> (r: Result<C, AppError>)
    requires
        exists ==> call_requires(load, (model_path,)),
    ensures
        !exists ==> (r matches Err(error) && error@ == AppErrorView::ModelMissing {
            path: model_path@,
        }),
        exists ==> exists|loaded: Result<C, String>|
            {
                &&& #[trigger] call_ensures(load, (model_path,), loaded)
                &&& match loaded {
                    Ok(context) => r == Ok::<C, AppError>(context),
                    Err(cause) => {
                        &&& r matches Err(error)
                        &&& error@ == AppErrorView::WhisperFailed(
                            "load model "@ + model_path@ + ": "@ + cause@,
                        )
                    },
                }
            },
{
    if !exists {
        return Err(AppError::ModelMissing { path: model_path.to_owned() });
    }
    match load(model_path) {
        Ok(context) => Ok(context),
        Err(cause) => {
            let mut text = message("load model ", model_path);
            text.append(": ");
            text.append(cause.as_str());
            Err(AppError::WhisperFailed(text))
        },
    }
}

/// Starts the worker thread, under its name, with `build`.
pub fn spawn<H, B: FnOnce(&str) -> Result<H, String>>(build: B) -> (r: Result<H, AppError>)
    requires
        call_requires(build, ("whisper-worker",)),
    ensures
        exists|built: Result<H, String>|
            {
                &&& #[trigger] call_ensures(build, ("whisper-worker",), built)
                &&& match built {
                    Ok(handle) => r == Ok::<H, AppError>(handle),
                    Err(cause) => {
                        &&& r matches Err(error)
                        &&& error@ == AppErrorView::WhisperFailed("spawn worker thread: "@ + cause@)
                    },
                }
            },
{
    match build("whisper-worker") {
        Ok(handle) => Ok(handle),
        Err(cause) => Err(
            AppError::WhisperFailed(message("spawn worker thread: ", cause.as_str())),
        ),
    }
}

/// What the worker is waiting for.
#[derive(Debug, Clone, Copy, PartialEq, Eq)]
pub enum Phase {
    /// The inference state is being created.
    Starting,
    /// The next slice is awaited.
    Receiving,
    /// A slice is being transcribed.
    Inferring,
    /// The number of text segments is being asked.
    Counting,
    /// Text segment `next` of `count` is being read.
    Reading { next: i32, count: i32 },
    /// A text is being passed on.
    Delivering,
    /// The worker has exited.
    Stopped,
}

/// The outcome of what the worker asked for.
#[derive(Debug)]
pub enum WorkerEvent<S> {
    StateCreated,
    StateFailed,
    Slice(Vec<S>),
    SlicesClosed,
    InferenceDone,
    InferenceFailed,
    SegmentCount(i32),
    SegmentCountFailed,
    SegmentText(String),
    SegmentTextFailed,
    TextDelivered,
    TextClosed,
}

/// The content of a [`WorkerEvent`].
pub enum EventView<S> {
    StateCreated,
    StateFailed,
    Slice(Seq<S>),
    SlicesClosed,
    InferenceDone,
    InferenceFailed,
    SegmentCount(i32),
    SegmentCountFailed,
    SegmentText(Seq<char>),
    SegmentTextFailed,
    TextDelivered,
    TextClosed,
}

impl<S> View for WorkerEvent<S> {
    type V = EventView<S>;

    open spec fn view(&self) -> EventView<S> {
        match self {
            WorkerEvent::StateCreated => EventView::StateCreated,
            WorkerEvent::StateFailed => EventView::StateFailed,
            WorkerEvent::Slice(samples) => EventView::Slice(samples@),
            WorkerEvent::SlicesClosed => EventView::SlicesClosed,
            WorkerEvent::InferenceDone => EventView::InferenceDone,
            WorkerEvent::InferenceFailed => EventView::InferenceFailed,
            WorkerEvent::SegmentCount(count) => EventView::SegmentCount(*count),
            WorkerEvent::SegmentCountFailed => EventView::SegmentCountFailed,
            WorkerEvent::SegmentText(text) => EventView::SegmentText(text@),
            WorkerEvent::SegmentTextFailed => EventView::SegmentTextFailed,
            WorkerEvent::TextDelivered => EventView::TextDelivered,
            WorkerEvent::TextClosed => EventView::TextClosed,
        }
    }
}

/// What the caller has to do next.
#[derive(Debug)]
pub enum WorkerAction<S> {
    /// Create the inference state.
    CreateState,
    /// Wait for the next slice.
    Receive,
    /// Transcribe these samples.
    Infer { samples: Vec<S>, params: InferenceParams },
    /// Ask how many text segments there are.
    CountSegments,
    /// Read this text segment.
    ReadSegment(i32),
    /// Pass this text on.
    Deliver(String),
    /// End the thread.
    Exit,
}

/// The content of a [`WorkerAction`].
pub enum ActionView<S> {
    CreateState,
    Receive,
    Infer { samples: Seq<S>, params: ParamsView },
    CountSegments,
    ReadSegment(i32),
    Deliver(Seq<char>),
    Exit,
}

impl<S> View for WorkerAction<S> {
    type V = ActionView<S>;

    open spec fn view(&self) -> ActionView<S> {
        match self {
            WorkerAction::CreateState => ActionView::CreateState,
            WorkerAction::Receive => ActionView::Receive,
            WorkerAction::Infer { samples, params } => ActionView::Infer {
                samples: samples@,
                params: params@,
            },
            WorkerAction::CountSegments => ActionView::CountSegments,
            WorkerAction::ReadSegment(index) => ActionView::ReadSegment(*index),
            WorkerAction::Deliver(text) => ActionView::Deliver(text@),
            WorkerAction::Exit => ActionView::Exit,
        }
    }
}

/// The state of a worker.
pub struct WorkerView {
    pub phase: Phase,
    /// Language hint of the session.
    pub language_hint: Seq<char>,
    /// Text of the current slice so far.
    pub combined: Seq<char>,
}

/// Whether `event` is an outcome of what a worker in `phase` asked for.
pub open spec fn answers<S>(phase: Phase, event: EventView<S>) -> bool {
    match phase {
        Phase::Starting => event is StateCreated || event is StateFailed,
        Phase::Receiving => event is Slice || event is SlicesClosed,
        Phase::Inferring => event is InferenceDone || event is InferenceFailed,
        Phase::Counting => event is SegmentCount || event is SegmentCountFailed,
        Phase::Reading { next, count } => event is SegmentText || event is SegmentTextFailed,
        Phase::Delivering => event is TextDelivered || event is TextClosed,
        Phase::Stopped => false,
    }
}

/// The text so far with one more text segment, parted by a space.
pub open spec fn joined_with(combined: Seq<char>, text: Seq<char>) -> Seq<char> {
    if combined.len() == 0 {
        trimmed(text)
    } else {
        combined + seq![' '] + trimmed(text)
    }
}

/// Goes on to text segment `next`, or ends the slice after the last one: a blank
/// text is dropped and any other passed on without outer white space.
pub open spec fn read_or_conclude<S>(worker: WorkerView, next: i32, count: i32) -> (
    WorkerView,
    ActionView<S>,
) {
    if next < count {
        (
            WorkerView { phase: Phase::Reading { next, count }, ..worker },
            ActionView::ReadSegment(next),
        )
    } else if trimmed(worker.combined).len() == 0 {
        (WorkerView { phase: Phase::Receiving, ..worker }, ActionView::Receive)
    } else {
        (
            WorkerView { phase: Phase::Delivering, ..worker },
            ActionView::Deliver(trimmed(worker.combined)),
        )
    }
}

/// The step of a worker on an event that answers its phase.
pub open spec fn step<S>(worker: WorkerView, event: EventView<S>) -> (WorkerView, ActionView<S>) {
    let receive = (WorkerView { phase: Phase::Receiving, ..worker }, ActionView::Receive);
    let exit = (WorkerView { phase: Phase::Stopped, ..worker }, ActionView::Exit);
    match event {
        EventView::StateCreated => receive,
        EventView::StateFailed => exit,
        EventView::Slice(samples) => (
            WorkerView { phase: Phase::Inferring, ..worker },
            ActionView::Infer { samples, params: params_for(worker.language_hint) },
        ),
        EventView::SlicesClosed => exit,
        EventView::InferenceDone => (
            WorkerView { phase: Phase::Counting, ..worker },
            ActionView::CountSegments,
        ),
        EventView::InferenceFailed => receive,
        EventView::SegmentCount(count) => read_or_conclude(
            WorkerView { combined: Seq::empty(), ..worker },
            0,
            count,
        ),
        EventView::SegmentCountFailed => receive,
        EventView::SegmentText(text) => match worker.phase {
            Phase::Reading { next, count } => read_or_conclude(
                WorkerView { combined: joined_with(worker.combined, text), ..worker },
                (next + 1) as i32,
                count,
            ),
            _ => arbitrary(),
        },
        EventView::SegmentTextFailed => match worker.phase {
            Phase::Reading { next, count } => read_or_conclude(worker, (next + 1) as i32, count),
            _ => arbitrary(),
        },
        EventView::TextDelivered => receive,
        EventView::TextClosed => exit,
    }
}

/// A transcription worker.
pub struct Worker {
    phase: Phase,
    language_hint: String,
    combined: String,
}

impl View for Worker {
    type V = WorkerView;

    closed spec fn view(&self) -> WorkerView {
        WorkerView {
            phase: self.phase,
            language_hint: self.language_hint@,
            combined: self.combined@,
        }
    }
}

impl Worker {
    /// What holds between two events.
    pub open spec fn wf(&self) -> bool {
        self@.phase matches Phase::Reading { next, count } ==> 0 <= next < count
    }

    /// A worker that has yet to create its inference state.
    pub fn new<S>(language_hint: String) -> (r: (Worker, WorkerAction<S>))
        ensures
            r.0.wf(),
            r.0@ == (WorkerView {
                phase: Phase::Starting,
                language_hint: language_hint@,
                combined: Seq::empty(),
            }),
            r.1@ == ActionView::<S>::CreateState,
    {
        (
            Worker { phase: Phase::Starting, language_hint, combined: String::new() },
            WorkerAction::CreateState,
        )
    }

    /// What the worker is waiting for.
    pub fn phase(&self) -> (phase: Phase)
        ensures
            phase == self@.phase,
    {
        self.phase
    }

    /// Takes the outcome of the last action and gives the next one.
    pub fn handle<S>(&mut self, event: WorkerEvent<S>) -> (action: WorkerAction<S>)
        requires
            old(self).wf(),
            answers(old(self)@.phase, event@),
        ensures
            final(self).wf(),
            (final(self)@, action@) == step(old(self)@, event@),
    {
        match event {
            WorkerEvent::StateCreated => self.receive(),
            WorkerEvent::StateFailed => self.exit(),
            WorkerEvent::Slice(samples) => {
                self.phase = Phase::Inferring;
                WorkerAction::Infer {
                    samples,
                    params: inference_params(self.language_hint.as_str()),
                }
            },
            WorkerEvent::SlicesClosed => self.exit(),
            WorkerEvent::InferenceDone => {
                self.phase = Phase::Counting;
                WorkerAction::CountSegments
            },
            WorkerEvent::InferenceFailed => self.receive(),
            WorkerEvent::SegmentCount(count) => {
                self.combined = String::new();
                self.read_or_conclude(0, count)
            },
            WorkerEvent::SegmentCountFailed => self.receive(),
            WorkerEvent::SegmentText(text) => {
                if !self.combined.as_str().is_empty() {
                    proof {
                        reveal_strlit(" ");
                        assert(" "@ =~= seq![' ']);
                    }
                    self.combined.append(" ");
                }
                self.combined.append(text.as_str().trim());
                proof {
                    assert(Seq::<char>::empty() + trimmed(text@) =~= trimmed(text@));
                    assert(self@.combined =~= joined_with(old(self)@.combined, text@));
                }
                self.read_next()
            },
            WorkerEvent::SegmentTextFailed => self.read_next(),
            WorkerEvent::TextDelivered => self.receive(),
            WorkerEvent::TextClosed => self.exit(),
        }
    }

    fn receive<S>(&mut self) -> (action: WorkerAction<S>)
        ensures
            final(self)@ == (WorkerView { phase: Phase::Receiving, ..old(self)@ }),
            action@ == ActionView::<S>::Receive,
    {
        self.phase = Phase::Receiving;
        WorkerAction::Receive
    }

    fn exit<S>(&mut self) -> (action: WorkerAction<S>)
        ensures
            final(self)@ == (WorkerView { phase: Phase::Stopped, ..old(self)@ }),
            action@ == ActionView::<S>::Exit,
    {
        self.phase = Phase::Stopped;
        WorkerAction::Exit
    }

    fn read_next<S>(&mut self) -> (action: WorkerAction<S>)
        requires
            old(self).wf(),
            old(self)@.phase is Reading,
        ensures
            final(self).wf(),
            (final(self)@, action@) == read_or_conclude::<S>(
                old(self)@,
                (old(self)@.phase->next + 1) as i32,
                old(self)@.phase->count,
            ),
    {
        match self.phase {
            Phase::Reading { next, count } => self.read_or_conclude(next + 1, count),
            // Ruled out by the contract.
            _ => self.receive(),
        }
    }

    fn read_or_conclude<S>(&mut self, next: i32, count: i32) -> (action: WorkerAction<S>)
        requires
            0 <= next,
        ensures
            final(self).wf(),
            (final(self)@, action@) == read_or_conclude::<S>(old(self)@, next, count),
    {
        if next < count {
            self.phase = Phase::Reading { next, count };
            return WorkerAction::ReadSegment(next);
        }
        let text = self.combined.as_str().trim().to_owned();
        if text.as_str().is_empty() {
            self.receive()
        } else {
            self.phase = Phase::Delivering;
            WorkerAction::Deliver(text)
        }
    }
}

} // verus!
