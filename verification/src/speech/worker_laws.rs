//! What the transcription worker promises of every slice.

use crate::speech::worker::{
    answers, params_for, read_or_conclude, step, ActionView, EventView, InferenceParams, Phase,
    WorkerAction, WorkerEvent, WorkerView,
};
use crate::text::{
    has_no_outer_space, is_blank, is_white_space, law_trimmed, law_trimmed_is_kept, trimmed,
};
use vstd::prelude::*;

verus! {

/// The state of a worker after a run of events.
pub open spec fn after<S>(worker: WorkerView, events: Seq<EventView<S>>) -> WorkerView
    decreases events.len(),
{
    if events.len() == 0 {
        worker
    } else {
        step(after(worker, events.drop_last()), events.last()).0
    }
}

/// Whether each event answers what the worker asked for.
pub open spec fn all_answer<S>(worker: WorkerView, events: Seq<EventView<S>>) -> bool
    decreases events.len(),
{
    events.len() > 0 ==> {
        &&& all_answer(worker, events.drop_last())
        &&& answers(after(worker, events.drop_last()).phase, events.last())
    }
}

/// What the worker asks for after the last event.
pub open spec fn action_after<S>(worker: WorkerView, events: Seq<EventView<S>>) -> ActionView<S>
    recommends
        events.len() > 0,
{
    step(after(worker, events.drop_last()), events.last()).1
}

/// The texts that the worker asks to pass on during a run of events, in order.
pub open spec fn passed_on<S>(worker: WorkerView, events: Seq<EventView<S>>) -> Seq<Seq<char>>
    decreases events.len(),
{
    if events.len() == 0 {
        Seq::empty()
    } else {
        let earlier = passed_on(worker, events.drop_last());
        match action_after(worker, events) {
            ActionView::Deliver(text) => earlier.push(text),
            _ => earlier,
        }
    }
}

/// The event for reading a text segment: its text, or that it could not be read.
pub open spec fn reading<S>(outcome: Option<Seq<char>>) -> EventView<S> {
    match outcome {
        Some(text) => EventView::SegmentText(text),
        None => EventView::SegmentTextFailed,
    }
}

/// The events of a slice that is transcribed into these text segments.
pub open spec fn slice_events<S>(samples: Seq<S>, outcomes: Seq<Option<Seq<char>>>) -> Seq<
    EventView<S>,
> {
    seq![
        EventView::Slice(samples),
        EventView::InferenceDone,
        EventView::SegmentCount(outcomes.len() as i32),
    ] + outcomes.map_values(|outcome: Option<Seq<char>>| reading::<S>(outcome))
}

/// The text segments that could be read, joined in order.
pub open spec fn joined(outcomes: Seq<Option<Seq<char>>>) -> Seq<char>
    decreases outcomes.len(),
{
    if outcomes.len() == 0 {
        Seq::empty()
    } else {
        let before = joined(outcomes.drop_last());
        match outcomes.last() {
            Some(text) => if before.len() == 0 {
                trimmed(text)
            } else {
                before + seq![' '] + trimmed(text)
            },
            None => before,
        }
    }
}

/// The text of a slice.
pub open spec fn transcript(outcomes: Seq<Option<Seq<char>>>) -> Seq<char> {
    trimmed(joined(outcomes))
}

/// Texts without their outer white space, parted by single spaces.
pub open spec fn spaced(texts: Seq<Seq<char>>) -> Seq<char>
    decreases texts.len(),
{
    if texts.len() == 0 {
        Seq::empty()
    } else if texts.len() == 1 {
        trimmed(texts[0])
    } else {
        spaced(texts.drop_last()) + seq![' '] + trimmed(texts.last())
    }
}

/// The worker after the first `count` text segments of a slice.
proof fn lemma_reading<S>(
    worker: WorkerView,
    samples: Seq<S>,
    outcomes: Seq<Option<Seq<char>>>,
    count: nat,
)
    requires
        worker.phase is Receiving,
        outcomes.len() <= i32::MAX,
        count <= outcomes.len(),
    ensures
        ({
            let events = slice_events(samples, outcomes).take(3 + count as int);
            let reached = WorkerView { combined: joined(outcomes.take(count as int)), ..worker };
            let (next, action) = read_or_conclude::<S>(
                reached,
                count as i32,
                outcomes.len() as i32,
            );
            &&& all_answer(worker, events)
            &&& after(worker, events) == next
            &&& action_after(worker, events) == action
            &&& passed_on(worker, events) == match action {
                ActionView::Deliver(text) => seq![text],
                _ => Seq::empty(),
            }
        }),
    decreases count,
{
    let all = slice_events(samples, outcomes);
    let n = outcomes.len() as i32;
    let events = all.take(3 + count as int);
    if count == 0 {
        let first = all.take(1);
        let second = all.take(2);
        assert(first.drop_last() =~= Seq::<EventView<S>>::empty());
        assert(second.drop_last() =~= first);
        assert(events.drop_last() =~= second);
        assert(after(worker, first.drop_last()) == worker);
        assert(after(worker, first).phase is Inferring);
        assert(after(worker, second).phase is Counting);
        assert(all_answer(worker, first.drop_last()));
        assert(all_answer(worker, first));
        assert(all_answer(worker, second));
        assert(outcomes.take(0) =~= Seq::<Option<Seq<char>>>::empty());
        let reached = WorkerView { combined: Seq::empty(), ..worker };
        assert(after(worker, second) == (WorkerView { phase: Phase::Counting, ..worker }));
        assert(passed_on(worker, first.drop_last()) =~= Seq::<Seq<char>>::empty());
        assert(passed_on(worker, first) =~= Seq::<Seq<char>>::empty());
        assert(passed_on(worker, second) =~= Seq::<Seq<char>>::empty());
        assert(passed_on(worker, events) =~= match action_after(worker, events) {
            ActionView::Deliver(text) => seq![text],
            _ => Seq::empty(),
        });
    } else {
        let fewer = (count - 1) as nat;
        lemma_reading(worker, samples, outcomes, fewer);
        assert(events.drop_last() =~= all.take(3 + fewer as int));
        assert(events.last() == reading::<S>(outcomes[fewer as int]));
        assert(outcomes.take(count as int).drop_last() =~= outcomes.take(fewer as int));
        assert(outcomes.take(count as int).last() == outcomes[fewer as int]);
        assert(after(worker, events.drop_last()).phase == Phase::Reading {
            next: fewer as i32,
            count: n,
        });
        assert(passed_on(worker, events) =~= match action_after(worker, events) {
            ActionView::Deliver(text) => seq![text],
            _ => Seq::empty(),
        });
    }
}

/// A slice that is transcribed yields its transcript, if there is one.
///
/// A worker that waits for a slice and gets one, has it transcribed and reads
/// its text segments, then passes on the segments that could be read, trimmed
/// and joined with spaces. Where that leaves nothing, the worker waits for the
/// next slice at once.
pub proof fn law_slice_yields_its_transcript<S>(
    worker: WorkerView,
    samples: Seq<S>,
    outcomes: Seq<Option<Seq<char>>>,
)
    requires
        worker.phase is Receiving,
        outcomes.len() <= i32::MAX,
    ensures
        all_answer(worker, slice_events(samples, outcomes)),
        transcript(outcomes).len() == 0 ==> {
            &&& after(worker, slice_events(samples, outcomes)).phase is Receiving
            &&& action_after(worker, slice_events(samples, outcomes)) == ActionView::<S>::Receive
        },
        transcript(outcomes).len() > 0 ==> {
            &&& after(worker, slice_events(samples, outcomes)).phase is Delivering
            &&& action_after(worker, slice_events(samples, outcomes)) == ActionView::<S>::Deliver(
                transcript(outcomes),
            )
        },
{
    lemma_reading(worker, samples, outcomes, outcomes.len());
    assert(slice_events(samples, outcomes).take(3 + outcomes.len() as int) =~= slice_events(
        samples,
        outcomes,
    ));
    assert(outcomes.take(outcomes.len() as int) =~= outcomes);
}

/// A slice that cannot be transcribed is skipped: the worker waits for the next
/// one.
pub proof fn law_failed_slice_is_skipped<S>(worker: WorkerView, samples: Seq<S>)
    requires
        worker.phase is Receiving,
    ensures
        ({
            let failed = seq![EventView::Slice(samples), EventView::InferenceFailed];
            &&& all_answer(worker, failed)
            &&& after(worker, failed).phase is Receiving
            &&& action_after(worker, failed) == ActionView::<S>::Receive
        }),
        ({
            let failed = seq![
                EventView::Slice(samples),
                EventView::InferenceDone,
                EventView::SegmentCountFailed,
            ];
            &&& all_answer(worker, failed)
            &&& after(worker, failed).phase is Receiving
            &&& action_after(worker, failed) == ActionView::<S>::Receive
        }),
{
    let empty = Seq::<EventView<S>>::empty();
    let taken = seq![EventView::Slice(samples)];
    let inferred = seq![EventView::Slice(samples), EventView::InferenceDone];
    let first = seq![EventView::Slice(samples), EventView::InferenceFailed];
    let second = seq![
        EventView::Slice(samples),
        EventView::InferenceDone,
        EventView::SegmentCountFailed,
    ];
    assert(taken.drop_last() =~= empty);
    assert(first.drop_last() =~= taken);
    assert(inferred.drop_last() =~= taken);
    assert(second.drop_last() =~= inferred);
    assert(all_answer(worker, empty));
    assert(after(worker, empty) == worker);
    assert(all_answer(worker, taken));
    assert(after(worker, taken).phase is Inferring);
    assert(all_answer(worker, inferred));
    assert(after(worker, inferred).phase is Counting);
}

/// How the transcription of a slice goes.
pub enum SliceOutcome {
    /// The model fails.
    InferenceFailed,
    /// The number of text segments cannot be asked.
    CountFailed,
    /// A number that leaves nothing to read.
    NothingToRead(i32),
    /// Each text segment is read, or cannot be.
    Texts(Seq<Option<Seq<char>>>),
}

impl SliceOutcome {
    /// What a model can answer: numbers fit their type.
    pub open spec fn wf(self) -> bool {
        match self {
            SliceOutcome::NothingToRead(count) => count <= 0,
            SliceOutcome::Texts(outcomes) => outcomes.len() <= i32::MAX,
            _ => true,
        }
    }

    /// The text that the slice adds, if it adds one.
    pub open spec fn text(self) -> Option<Seq<char>> {
        match self {
            SliceOutcome::Texts(outcomes) => if transcript(outcomes).len() > 0 {
                Some(transcript(outcomes))
            } else {
                None
            },
            _ => None,
        }
    }

    /// The events from the slice to the wait for the next one.
    pub open spec fn events<S>(self, samples: Seq<S>) -> Seq<EventView<S>> {
        match self {
            SliceOutcome::InferenceFailed => seq![
                EventView::Slice(samples),
                EventView::InferenceFailed,
            ],
            SliceOutcome::CountFailed => seq![
                EventView::Slice(samples),
                EventView::InferenceDone,
                EventView::SegmentCountFailed,
            ],
            SliceOutcome::NothingToRead(count) => seq![
                EventView::Slice(samples),
                EventView::InferenceDone,
                EventView::SegmentCount(count),
            ],
            SliceOutcome::Texts(outcomes) => if self.text() is Some {
                slice_events(samples, outcomes).push(EventView::TextDelivered)
            } else {
                slice_events(samples, outcomes)
            },
        }
    }
}

/// The events of slices, one after the other.
pub open spec fn session_events<S>(slices: Seq<(Seq<S>, SliceOutcome)>) -> Seq<EventView<S>>
    decreases slices.len(),
{
    if slices.len() == 0 {
        Seq::empty()
    } else {
        session_events(slices.drop_last()) + slices.last().1.events(slices.last().0)
    }
}

/// The texts of slices that have one, in order.
pub open spec fn session_texts<S>(slices: Seq<(Seq<S>, SliceOutcome)>) -> Seq<Seq<char>>
    decreases slices.len(),
{
    if slices.len() == 0 {
        Seq::empty()
    } else {
        let earlier = session_texts(slices.drop_last());
        match slices.last().1.text() {
            Some(text) => earlier.push(text),
            None => earlier,
        }
    }
}

/// Events one after the other.
proof fn lemma_events_append<S>(
    worker: WorkerView,
    first: Seq<EventView<S>>,
    second: Seq<EventView<S>>,
)
    ensures
        after(worker, first + second) == after(after(worker, first), second),
        all_answer(worker, first + second) <==> all_answer(worker, first) && all_answer(
            after(worker, first),
            second,
        ),
        passed_on(worker, first + second) == passed_on(worker, first) + passed_on(
            after(worker, first),
            second,
        ),
    decreases second.len(),
{
    if second.len() == 0 {
        assert(first + second =~= first);
        assert(passed_on(worker, first) + Seq::<Seq<char>>::empty() =~= passed_on(worker, first));
    } else {
        lemma_events_append(worker, first, second.drop_last());
        assert((first + second).drop_last() =~= first + second.drop_last());
        assert(passed_on(worker, first + second) =~= passed_on(worker, first) + passed_on(
            after(worker, first),
            second,
        ));
    }
}

/// A slice leads from the wait for it to the wait for the next one and passes on
/// its text.
proof fn lemma_slice<S>(worker: WorkerView, samples: Seq<S>, outcome: SliceOutcome)
    requires
        worker.phase is Receiving,
        outcome.wf(),
    ensures
        all_answer(worker, outcome.events(samples)),
        after(worker, outcome.events(samples)).phase is Receiving,
        passed_on(worker, outcome.events(samples)) == match outcome.text() {
            Some(text) => seq![text],
            None => Seq::empty(),
        },
{
    let none = Seq::<Seq<char>>::empty();
    let events = outcome.events(samples);
    match outcome {
        SliceOutcome::Texts(outcomes) => {
            let read = slice_events(samples, outcomes);
            law_slice_yields_its_transcript(worker, samples, outcomes);
            lemma_reading(worker, samples, outcomes, outcomes.len());
            assert(read.take(3 + outcomes.len() as int) =~= read);
            if outcome.text() is Some {
                assert(events.drop_last() =~= read);
                assert(events.last() == EventView::<S>::TextDelivered);
            }
        },
        _ => {
            let empty = Seq::<EventView<S>>::empty();
            let taken = seq![EventView::Slice(samples)];
            let inferred = seq![EventView::Slice(samples), EventView::InferenceDone];
            assert(taken.drop_last() =~= empty);
            assert(inferred.drop_last() =~= taken);
            assert(all_answer(worker, empty));
            assert(after(worker, empty) == worker);
            assert(passed_on(worker, empty) =~= none);
            assert(all_answer(worker, taken));
            assert(after(worker, taken).phase is Inferring);
            assert(passed_on(worker, taken) =~= none);
            assert(all_answer(worker, inferred));
            assert(after(worker, inferred).phase is Counting);
            assert(passed_on(worker, inferred) =~= none);
            if outcome is InferenceFailed {
                assert(events.drop_last() =~= taken);
            } else {
                assert(events.drop_last() =~= inferred);
                if let SliceOutcome::NothingToRead(count) = outcome {
                    assert(trimmed(Seq::<char>::empty()).len() == 0);
                }
            }
            assert(passed_on(worker, events) =~= none);
        },
    }
}

/// Over slices of any number, the texts passed on are the transcripts that are
/// not empty, in order. A slice that fails adds nothing and keeps no other from
/// being transcribed: after the last one the worker waits for the next.
pub proof fn law_slices_yield_their_transcripts<S>(
    worker: WorkerView,
    slices: Seq<(Seq<S>, SliceOutcome)>,
)
    requires
        worker.phase is Receiving,
        forall|i: int| 0 <= i < slices.len() ==> (#[trigger] slices[i]).1.wf(),
    ensures
        all_answer(worker, session_events(slices)),
        after(worker, session_events(slices)).phase is Receiving,
        passed_on(worker, session_events(slices)) == session_texts(slices),
    decreases slices.len(),
{
    if slices.len() > 0 {
        let earlier = slices.drop_last();
        let (samples, outcome) = slices.last();
        assert forall|i: int| 0 <= i < earlier.len() implies (#[trigger] earlier[i]).1.wf() by {
            assert(earlier[i] == slices[i]);
        }
        law_slices_yield_their_transcripts(worker, earlier);
        let reached = after(worker, session_events(earlier));
        assert(slices[slices.len() - 1].1.wf());
        lemma_slice(reached, samples, outcome);
        lemma_events_append(worker, session_events(earlier), outcome.events(samples));
        assert(passed_on(worker, session_events(slices)) =~= session_texts(slices));
    }
}

/// A whole session: a new worker creates its state, transcribes all slices and
/// exits when there are no more, having passed on the transcripts that are not
/// empty, in order.
pub proof fn law_session<S>(language_hint: Seq<char>, slices: Seq<(Seq<S>, SliceOutcome)>)
    requires
        forall|i: int| 0 <= i < slices.len() ==> (#[trigger] slices[i]).1.wf(),
    ensures
        ({
            let worker = WorkerView {
                phase: Phase::Starting,
                language_hint,
                combined: Seq::empty(),
            };
            let events = seq![EventView::StateCreated] + session_events(slices) + seq![
                EventView::SlicesClosed,
            ];
            &&& all_answer(worker, events)
            &&& after(worker, events).phase is Stopped
            &&& action_after(worker, events) == ActionView::<S>::Exit
            &&& passed_on(worker, events) == session_texts(slices)
        }),
{
    let worker = WorkerView { phase: Phase::Starting, language_hint, combined: Seq::empty() };
    let first = seq![EventView::<S>::StateCreated];
    let middle = session_events(slices);
    let events = first + middle + seq![EventView::SlicesClosed];
    assert(first.drop_last() =~= Seq::<EventView<S>>::empty());
    assert(all_answer(worker, first.drop_last()));
    assert(after(worker, first.drop_last()) == worker);
    assert(passed_on(worker, first.drop_last()) =~= Seq::<Seq<char>>::empty());
    assert(passed_on(worker, first) =~= Seq::<Seq<char>>::empty());
    law_slices_yield_their_transcripts(after(worker, first), slices);
    lemma_events_append(worker, first, middle);
    assert(events.drop_last() =~= first + middle);
    assert(passed_on(worker, events) =~= session_texts(slices));
}

/// The worker exits when its state cannot be created, when there are no more
/// slices or when nobody takes its texts, and for no other reason.
pub proof fn law_worker_exits_only_when_cut_off<S>(worker: WorkerView, event: EventView<S>)
    requires
        answers(worker.phase, event),
    ensures
        step(worker, event).1 is Exit <==> event is StateFailed || event is SlicesClosed
            || event is TextClosed,
        step(worker, event).1 is Exit <==> step(worker, event).0.phase is Stopped,
{
}

/// The language hint lasts for the session, and every slice is transcribed as it
/// came in, with that hint.
pub proof fn law_slices_are_transcribed_with_the_hint<S>(worker: WorkerView, event: EventView<S>)
    requires
        answers(worker.phase, event),
    ensures
        step(worker, event).0.language_hint == worker.language_hint,
        event matches EventView::Slice(samples) ==> step(worker, event).1 == (ActionView::Infer {
            samples,
            params: params_for(worker.language_hint),
        }),
        step(worker, event).1 is Infer ==> event is Slice,
{
}

/// A text that is passed on is not empty and has no white space at its ends.
pub proof fn law_delivered_text_is_trimmed<S>(worker: WorkerView, event: EventView<S>)
    requires
        answers(worker.phase, event),
    ensures
        step(worker, event).1 matches ActionView::Deliver(text) ==> text.len() > 0
            && has_no_outer_space(text),
{
    law_trimmed(step(worker, event).0.combined);
}

/// Joined text is empty or starts with a character that is not white space, and
/// it is empty exactly when every text that could be read is blank.
proof fn lemma_joined(outcomes: Seq<Option<Seq<char>>>)
    ensures
        joined(outcomes).len() > 0 ==> !is_white_space(joined(outcomes)[0]),
        joined(outcomes).len() == 0 <==> (forall|i: int|
            0 <= i < outcomes.len() ==> ((#[trigger] outcomes[i]) matches Some(text) ==> is_blank(
                text,
            ))),
    decreases outcomes.len(),
{
    if outcomes.len() > 0 {
        let before = outcomes.drop_last();
        lemma_joined(before);
        assert(forall|i: int| 0 <= i < before.len() ==> before[i] == outcomes[i]);
        let last = outcomes.last();
        if last is Some {
            law_trimmed(last.unwrap());
        }
        if joined(before).len() == 0 {
            assert forall|i: int| joined(outcomes).len() == 0 && 0 <= i < outcomes.len() implies ((
            #[trigger] outcomes[i]) matches Some(text) ==> is_blank(text)) by {
                if i < before.len() {
                    assert(before[i] == outcomes[i]);
                }
            }
            if joined(outcomes).len() > 0 {
                assert(outcomes[before.len() as int] == last);
            }
        } else {
            let k = choose|k: int|
                0 <= k < before.len() && !((#[trigger] before[k]) matches Some(text) ==> is_blank(
                    text,
                ));
            assert(outcomes[k] == before[k]);
        }
    }
}

/// A slice has no transcript exactly when every text segment that could be read
/// is blank.
pub proof fn law_transcript_of_blank_texts_is_empty(outcomes: Seq<Option<Seq<char>>>)
    ensures
        transcript(outcomes).len() == 0 <==> (forall|i: int|
            0 <= i < outcomes.len() ==> ((#[trigger] outcomes[i]) matches Some(text) ==> is_blank(
                text,
            ))),
{
    lemma_joined(outcomes);
    law_trimmed(joined(outcomes));
    if joined(outcomes).len() > 0 {
        assert(!is_blank(joined(outcomes)));
    }
}

/// Where no text segment is blank, the transcript is the trimmed segments parted
/// by single spaces.
pub proof fn law_transcript_of_spoken_texts(texts: Seq<Seq<char>>)
    requires
        forall|i: int| 0 <= i < texts.len() ==> !is_blank(#[trigger] texts[i]),
    ensures
        transcript(texts.map_values(|text: Seq<char>| Some(text))) == spaced(texts),
{
    lemma_spaced(texts);
    law_trimmed_is_kept(spaced(texts));
}

proof fn lemma_spaced(texts: Seq<Seq<char>>)
    requires
        forall|i: int| 0 <= i < texts.len() ==> !is_blank(#[trigger] texts[i]),
    ensures
        joined(texts.map_values(|text: Seq<char>| Some(text))) == spaced(texts),
        has_no_outer_space(spaced(texts)),
        texts.len() > 0 ==> spaced(texts).len() > 0,
    decreases texts.len(),
{
    let outcomes = texts.map_values(|text: Seq<char>| Some(text));
    if texts.len() > 0 {
        let before = texts.drop_last();
        assert forall|i: int| 0 <= i < before.len() implies !is_blank(#[trigger] before[i]) by {
            assert(before[i] == texts[i]);
        }
        lemma_spaced(before);
        assert(before.map_values(|text: Seq<char>| Some(text)) =~= outcomes.drop_last());
        assert(!is_blank(texts[texts.len() - 1]));
        law_trimmed(texts.last());
    }
}

/// A slice is transcribed as it came in, in the language of the hint where there
/// is a hint and in a language to be detected where there is none; so sessions
/// with different hints are transcribed in different languages. Decoding is
/// greedy and prints nothing.
pub proof fn law_language_is_the_hint<S>(worker: WorkerView, other: WorkerView, samples: Seq<S>)
    ensures
        ({
            let (next, action) = step(worker, EventView::Slice(samples));
            &&& next == (WorkerView { phase: Phase::Inferring, ..worker })
            &&& action matches ActionView::Infer { samples: inferred, params }
            &&& inferred == samples
            &&& worker.language_hint.len() > 0 ==> params.language == Some(worker.language_hint)
            &&& worker.language_hint.len() == 0 ==> params.language is None
            &&& params.best_of == 1
            &&& !params.print_progress && !params.print_special
            &&& !params.print_realtime && !params.print_timestamps
        }),
        step(worker, EventView::Slice(samples)).1 == step(other, EventView::Slice(samples)).1
            <==> worker.language_hint == other.language_hint,
{
    if worker.language_hint != other.language_hint {
        let a = params_for(worker.language_hint).language;
        let b = params_for(other.language_hint).language;
        if worker.language_hint.len() == 0 && other.language_hint.len() == 0 {
            assert(worker.language_hint =~= other.language_hint);
        }
        assert(a != b);
    }
}

/// The parameters for a hint name that language and no other, and none for an
/// empty hint.
pub proof fn law_params_name_the_hint(language_hint: Seq<char>)
    ensures
        ({
            let params = params_for(language_hint);
            &&& language_hint.len() > 0 ==> params.language == Some(language_hint)
            &&& language_hint.len() == 0 ==> params.language is None
            &&& params.best_of == 1
            &&& !params.print_progress && !params.print_special
            &&& !params.print_realtime && !params.print_timestamps
        }),
{
}

/// The content of parameters is their parts as they are.
pub proof fn law_params_content(params: InferenceParams)
    ensures
        params@.best_of == params.best_of,
        params.language is None <==> params@.language is None,
        params.language matches Some(language) ==> params@.language == Some(language@),
        params@.print_progress == params.print_progress,
        params@.print_special == params.print_special,
        params@.print_realtime == params.print_realtime,
        params@.print_timestamps == params.print_timestamps,
{
}

/// What a worker does on an outcome that is not a slice or a text segment.
pub proof fn law_worker_steps<S>(worker: WorkerView, event: EventView<S>)
    requires
        answers(worker.phase, event),
    ensures
        ({
            let (next, action) = step(worker, event);
            let waits = next == (WorkerView { phase: Phase::Receiving, ..worker })
                && action is Receive;
            let exits = next.phase is Stopped && action is Exit;
            &&& event is StateCreated || event is InferenceFailed || event is SegmentCountFailed
                || event is TextDelivered ==> waits
            &&& event is StateFailed || event is SlicesClosed || event is TextClosed ==> exits
            &&& event is InferenceDone ==> next == (WorkerView {
                phase: Phase::Counting,
                ..worker
            }) && action is CountSegments
            &&& event matches EventView::SegmentCount(count) ==> if count > 0 {
                &&& next.phase == (Phase::Reading { next: 0, count })
                &&& next.combined.len() == 0
                &&& action == ActionView::<S>::ReadSegment(0)
            } else {
                &&& next.phase is Receiving
                &&& action is Receive
            }
        }),
{
    law_trimmed(Seq::<char>::empty());
}

/// What a worker does on a text segment. A text that could be read is trimmed and
/// follows the text so far, parted from it by a space; one that could not be read
/// changes nothing. Then the next segment is read, or after the last one the
/// whole text is trimmed and passed on, unless nothing is left of it.
pub proof fn law_worker_reads<S>(worker: WorkerView, outcome: Option<Seq<char>>)
    requires
        worker.phase matches Phase::Reading { next, count } && 0 <= next < count,
    ensures
        ({
            let segment = worker.phase->next;
            let count = worker.phase->count;
            let (next, action) = step(worker, reading::<S>(outcome));
            let combined = match outcome {
                Some(text) => if worker.combined.len() == 0 {
                    trimmed(text)
                } else {
                    worker.combined + seq![' '] + trimmed(text)
                },
                None => worker.combined,
            };
            &&& next.combined == combined
            &&& next.language_hint == worker.language_hint
            &&& if segment + 1 < count {
                &&& next.phase == (Phase::Reading { next: (segment + 1) as i32, count })
                &&& action == ActionView::<S>::ReadSegment((segment + 1) as i32)
            } else if is_blank(combined) {
                &&& next.phase is Receiving
                &&& action is Receive
            } else {
                &&& next.phase is Delivering
                &&& action == ActionView::<S>::Deliver(trimmed(combined))
            }
        }),
{
    let combined = step(worker, reading::<S>(outcome)).0.combined;
    law_trimmed(combined);
}

/// Each action of a worker has two kinds of outcome, and once it has exited there
/// are none.
pub proof fn law_worker_outcomes<S>(phase: Phase, event: EventView<S>)
    ensures
        answers(phase, event) <==> {
            ||| phase is Starting && (event is StateCreated || event is StateFailed)
            ||| phase is Receiving && (event is Slice || event is SlicesClosed)
            ||| phase is Inferring && (event is InferenceDone || event is InferenceFailed)
            ||| phase is Counting && (event is SegmentCount || event is SegmentCountFailed)
            ||| phase is Reading && (event is SegmentText || event is SegmentTextFailed)
            ||| phase is Delivering && (event is TextDelivered || event is TextClosed)
        },
{
}

/// The content of an outcome is its parts as they are.
pub proof fn law_worker_event_content<S>(event: WorkerEvent<S>)
    ensures
        event is StateCreated <==> event@ is StateCreated,
        event is StateFailed <==> event@ is StateFailed,
        event matches WorkerEvent::Slice(samples) ==> event@ == EventView::Slice(samples@),
        event is SlicesClosed <==> event@ is SlicesClosed,
        event is InferenceDone <==> event@ is InferenceDone,
        event is InferenceFailed <==> event@ is InferenceFailed,
        event matches WorkerEvent::SegmentCount(count) ==> event@ == EventView::<S>::SegmentCount(
            count,
        ),
        event is SegmentCountFailed <==> event@ is SegmentCountFailed,
        event matches WorkerEvent::SegmentText(text) ==> event@ == EventView::<S>::SegmentText(
            text@,
        ),
        event is SegmentTextFailed <==> event@ is SegmentTextFailed,
        event is TextDelivered <==> event@ is TextDelivered,
        event is TextClosed <==> event@ is TextClosed,
{
}

/// The content of an action is its parts as they are.
pub proof fn law_worker_action_content<S>(action: WorkerAction<S>)
    ensures
        action is CreateState <==> action@ is CreateState,
        action is Receive <==> action@ is Receive,
        action matches WorkerAction::Infer { samples, params } ==> action@ == (ActionView::Infer {
            samples: samples@,
            params: params@,
        }),
        action is CountSegments <==> action@ is CountSegments,
        action matches WorkerAction::ReadSegment(index) ==> action@
            == ActionView::<S>::ReadSegment(index),
        action matches WorkerAction::Deliver(text) ==> action@ == ActionView::<S>::Deliver(text@),
        action is Exit <==> action@ is Exit,
{
}

} // verus!
