//! What the slicer promises of every stream.
//!
//! The laws speak of the windows of a stream and of one verdict per window, the
//! values over which [`push`](crate::speech::vad::VadSlicer::push) and
//! [`flush`](crate::speech::vad::VadSlicer::flush) are specified.

use crate::pieces::{law_pieces_append, lemma_no_piece, lemma_pieces};
use crate::speech::vad::{
    above_half, content, contents, detector_settings, fresh, idle, judge, judge_all,
    pending_segment, unfinished, verdicts, windows, Collecting, SlicerView, MAX_SEGMENT_SAMPLES,
    SILENCE_WINDOWS_TO_CLOSE, VAD_WINDOW,
};
use vstd::arithmetic::power2::{
    lemma2_to64, lemma_pow2_adds, lemma_pow2_pos, lemma_pow2_strictly_increases, lemma_pow2_unfold,
    pow2,
};
use vstd::prelude::*;

verus! {

/// The greatest number of windows that [`MAX_SEGMENT_SAMPLES`] samples hold.
pub const MAX_SEGMENT_WINDOWS: usize = 937;

/// Windows `start` up to but not including `end`.
pub struct Run {
    pub start: int,
    pub end: int,
}

/// A segment that starts with window `start` may close after window `end - 1`:
/// its last windows are silent, or it has reached its greatest length.
pub open spec fn may_close(speech: Seq<bool>, start: int, end: int) -> bool {
    ||| end - start >= MAX_SEGMENT_WINDOWS
    ||| {
        &&& end - start >= SILENCE_WINDOWS_TO_CLOSE
        &&& forall|i: int| end - SILENCE_WINDOWS_TO_CLOSE <= i < end ==> !#[trigger] speech[i]
    }
}

/// Whether `run` starts with speech and ends where it first may close.
pub open spec fn is_closed_run(speech: Seq<bool>, run: Run) -> bool {
    &&& 0 <= run.start < run.end <= speech.len()
    &&& speech[run.start]
    &&& may_close(speech, run.start, run.end)
    &&& forall|end: int|
        run.start < end < run.end ==> !#[trigger] may_close(speech, run.start, end)
}

/// Whether a run that starts with speech at `start` is still open at the end.
pub open spec fn is_open_run(speech: Seq<bool>, start: int) -> bool {
    &&& 0 <= start < speech.len()
    &&& speech[start]
    &&& forall|end: int|
        start < end <= speech.len() ==> !#[trigger] may_close(speech, start, end)
}

/// Whether `run` starts with speech and was still open when it was flushed.
pub open spec fn is_flushed_run(speech: Seq<bool>, run: Run) -> bool {
    &&& 0 <= run.start < run.end <= speech.len()
    &&& speech[run.start]
    &&& forall|end: int|
        run.start < end <= run.end ==> !#[trigger] may_close(speech, run.start, end)
}

/// Whether window `i` lies in one of `runs`.
pub open spec fn in_some_run(runs: Seq<Run>, i: int) -> bool {
    exists|k: int| 0 <= k < runs.len() && (#[trigger] runs[k]).start <= i < runs[k].end
}

/// The runs of windows that make up the segments: the closed ones in order, and
/// the start of the open one.
pub struct Cut {
    pub closed: Seq<Run>,
    pub open: Option<int>,
}

impl Cut {
    /// A cut that follows the rules: runs do not overlap and come in order, each
    /// closes where it first may, and all speech lies in some run.
    pub open spec fn is_cut_of(self, speech: Seq<bool>) -> bool {
        &&& forall|k: int|
            0 <= k < self.closed.len() ==> is_closed_run(speech, #[trigger] self.closed[k])
        &&& forall|j: int, k: int|
            0 <= j < k < self.closed.len() ==> (#[trigger] self.closed[j]).end <= (
            #[trigger] self.closed[k]).start
        &&& match self.open {
            Some(start) => {
                &&& is_open_run(speech, start)
                &&& forall|k: int|
                    0 <= k < self.closed.len() ==> (#[trigger] self.closed[k]).end <= start
            },
            None => true,
        }
        &&& forall|i: int|
            0 <= i < speech.len() && #[trigger] speech[i] ==> in_some_run(self.closed, i) || (
            self.open matches Some(start) && start <= i)
    }

    /// A cut where flushes gave some of the segments: for each closed run,
    /// `flushed` tells after how many windows a flush closed it, if one did. Runs
    /// do not overlap and come in order; all others close where they first may;
    /// the open run comes last; and all speech lies in some run.
    pub open spec fn is_cut_with_flushes(
        self,
        speech: Seq<bool>,
        flushed: Seq<Option<nat>>,
    ) -> bool {
        &&& self.closed.len() == flushed.len()
        &&& forall|k: int|
            0 <= k < self.closed.len() ==> match flushed[k] {
                Some(count) => {
                    &&& is_flushed_run(speech, #[trigger] self.closed[k])
                    &&& self.closed[k].end == count
                },
                None => is_closed_run(speech, self.closed[k]),
            }
        &&& forall|j: int, k: int|
            0 <= j < k < self.closed.len() ==> (#[trigger] self.closed[j]).end <= (
            #[trigger] self.closed[k]).start
        &&& match self.open {
            Some(start) => {
                &&& is_open_run(speech, start)
                &&& forall|k: int|
                    0 <= k < self.closed.len() ==> (#[trigger] self.closed[k]).end <= start
            },
            None => true,
        }
        &&& forall|i: int|
            0 <= i < speech.len() && #[trigger] speech[i] ==> in_some_run(self.closed, i) || (
            self.open matches Some(start) && start <= i)
    }

    /// The samples of the closed runs.
    pub open spec fn segments<S>(self, stream: Seq<S>) -> Seq<Seq<S>> {
        self.closed.map_values(
            |run: Run| stream.subrange(run.start * VAD_WINDOW, run.end * VAD_WINDOW),
        )
    }

    /// The samples of the open run.
    pub open spec fn pending<S>(self, stream: Seq<S>) -> Option<Seq<S>> {
        match self.open {
            Some(start) => Some(
                stream.subrange(start * VAD_WINDOW, windows(stream).len() * VAD_WINDOW),
            ),
            None => None,
        }
    }
}

/// Number of silent verdicts at the end.
spec fn trailing_silence(speech: Seq<bool>) -> nat
    decreases speech.len(),
{
    if speech.len() == 0 || speech.last() {
        0
    } else {
        trailing_silence(speech.drop_last()) + 1
    }
}

proof fn lemma_trailing_silence(speech: Seq<bool>)
    ensures
        trailing_silence(speech) <= speech.len(),
        forall|i: int|
            speech.len() - trailing_silence(speech) <= i < speech.len() ==> !#[trigger] speech[i],
        trailing_silence(speech) < speech.len() ==> speech[speech.len() - trailing_silence(speech)
            - 1],
    decreases speech.len(),
{
    if speech.len() > 0 && !speech.last() {
        lemma_trailing_silence(speech.drop_last());
        let before = speech.drop_last();
        assert forall|i: int|
            speech.len() - trailing_silence(speech) <= i < speech.len() implies
            !#[trigger] speech[i] by {
            if i < before.len() {
                assert(before[i] == speech[i]);
            }
        }
    }
}

/// The cut that the slicer makes, verdict by verdict.
spec fn cut(speech: Seq<bool>) -> Cut
    decreases speech.len(),
{
    if speech.len() == 0 {
        Cut { closed: Seq::empty(), open: None }
    } else {
        let before = cut(speech.drop_last());
        let end = speech.len() as int;
        if before.open is None && !speech.last() {
            before
        } else {
            let start = match before.open {
                Some(start) => start,
                None => end - 1,
            };
            if trailing_silence(speech) >= SILENCE_WINDOWS_TO_CLOSE || end - start
                >= MAX_SEGMENT_WINDOWS {
                Cut { closed: before.closed.push(Run { start, end }), open: None }
            } else {
                Cut { closed: before.closed, open: Some(start) }
            }
        }
    }
}

/// A longer list of verdicts agrees with a shorter one on where runs close.
proof fn lemma_may_close_prefix(speech: Seq<bool>, start: int, end: int)
    requires
        speech.len() > 0,
        0 <= start < end < speech.len(),
    ensures
        may_close(speech.drop_last(), start, end) == may_close(speech, start, end),
{
    let before = speech.drop_last();
    assert(forall|i: int| 0 <= i < before.len() ==> before[i] == speech[i]);
    if may_close(before, start, end) && end - start < MAX_SEGMENT_WINDOWS {
        assert forall|i: int| end - SILENCE_WINDOWS_TO_CLOSE <= i < end implies
            !#[trigger] speech[i] by {
            assert(!before[i]);
        }
    }
}

proof fn lemma_closed_run_prefix(speech: Seq<bool>, run: Run)
    requires
        speech.len() > 0,
        is_closed_run(speech.drop_last(), run),
    ensures
        is_closed_run(speech, run),
{
    lemma_may_close_prefix(speech, run.start, run.end);
    assert forall|end: int| run.start < end < run.end implies !#[trigger] may_close(
        speech,
        run.start,
        end,
    ) by {
        lemma_may_close_prefix(speech, run.start, end);
    }
}

proof fn lemma_flushed_run_prefix(speech: Seq<bool>, run: Run)
    requires
        speech.len() > 0,
        is_flushed_run(speech.drop_last(), run),
    ensures
        is_flushed_run(speech, run),
{
    assert forall|end: int| run.start < end <= run.end implies !#[trigger] may_close(
        speech,
        run.start,
        end,
    ) by {
        lemma_may_close_prefix(speech, run.start, end);
    }
}

/// With speech at `start`, a run up to the end may close exactly when the
/// silence at its end or its length reaches the limit.
proof fn lemma_may_close_at_end(speech: Seq<bool>, start: int)
    requires
        0 <= start < speech.len(),
        speech[start],
    ensures
        may_close(speech, start, speech.len() as int) <==> (trailing_silence(speech)
            >= SILENCE_WINDOWS_TO_CLOSE || speech.len() - start >= MAX_SEGMENT_WINDOWS),
{
    lemma_trailing_silence(speech);
    let n = speech.len() as int;
    let quiet = trailing_silence(speech) as int;
    if quiet >= SILENCE_WINDOWS_TO_CLOSE {
        assert(!(n - quiet <= start < n)) by {
            if n - quiet <= start {
                assert(!speech[start]);
            }
        }
        assert(may_close(speech, start, n));
    } else if n - start < MAX_SEGMENT_WINDOWS && n - start >= SILENCE_WINDOWS_TO_CLOSE {
        let loud = n - quiet - 1;
        assert(speech[loud]);
        assert(!may_close(speech, start, n));
    }
}

proof fn lemma_cut(speech: Seq<bool>)
    ensures
        cut(speech).is_cut_of(speech),
    decreases speech.len(),
{
    if speech.len() > 0 {
        let prefix = speech.drop_last();
        lemma_cut(prefix);
        let before = cut(prefix);
        let after = cut(speech);
        let end = speech.len() as int;
        assert(forall|i: int| 0 <= i < prefix.len() ==> prefix[i] == speech[i]);
        assert forall|k: int| 0 <= k < before.closed.len() implies is_closed_run(
            speech,
            #[trigger] before.closed[k],
        ) by {
            lemma_closed_run_prefix(speech, before.closed[k]);
        }
        assert forall|i: int| 0 <= i < speech.len() && #[trigger] speech[i] implies in_some_run(
            after.closed,
            i,
        ) || (after.open matches Some(start) && start <= i) by {
            if i < prefix.len() {
                assert(prefix[i]);
                if in_some_run(before.closed, i) {
                    let k = choose|k: int|
                        0 <= k < before.closed.len() && (#[trigger] before.closed[k]).start <= i
                            < before.closed[k].end;
                    assert(after.closed[k] == before.closed[k]);
                }
            }
            if after.closed.len() > before.closed.len() {
                let run = after.closed[before.closed.len() as int];
                assert(run.end == end);
            }
        }
        if !(before.open is None && !speech.last()) {
            let start = match before.open {
                Some(start) => start,
                None => end - 1,
            };
            assert(speech[start]);
            lemma_may_close_at_end(speech, start);
            assert forall|e: int| start < e < end implies
                !#[trigger] may_close(speech, start, e) by {
                lemma_may_close_prefix(speech, start, e);
            }
        }
    }
}

/// The first `count` windows are judged as their cut says.
proof fn lemma_judged_prefix<S>(stream: Seq<S>, speech: Seq<bool>, count: nat)
    requires
        speech.len() == windows(stream).len(),
        count <= speech.len(),
    ensures
        ({
            let verdicts = speech.take(count as int);
            let (state, closed) = judge_all(
                idle::<S>(),
                windows(stream).take(count as int),
                verdicts,
            );
            &&& closed == cut(verdicts).segments(stream)
            &&& match cut(verdicts).open {
                Some(start) => state == (Collecting {
                    segment: stream.subrange(start * VAD_WINDOW, count * VAD_WINDOW),
                    silence: trailing_silence(verdicts),
                    open: true,
                }),
                None => state == idle::<S>(),
            }
        }),
    decreases count,
{
    let verdicts = speech.take(count as int);
    let judged = windows(stream).take(count as int);
    if count == 0 {
        assert(cut(verdicts).segments(stream) =~= Seq::<Seq<S>>::empty());
    } else {
        let fewer = (count - 1) as nat;
        lemma_judged_prefix(stream, speech, fewer);
        let earlier = speech.take(fewer as int);
        assert(verdicts.drop_last() =~= earlier);
        assert(judged.drop_last() =~= windows(stream).take(fewer as int));
        let (before, closed_before) = judge_all(idle::<S>(), judged.drop_last(), earlier);
        let (state, closed) = judge_all(idle::<S>(), judged, verdicts);
        let window = judged.last();
        assert(window == stream.subrange(fewer * VAD_WINDOW, count * VAD_WINDOW));
        lemma_cut(earlier);
        lemma_trailing_silence(earlier);
        let cut_before = cut(earlier);
        let cut_after = cut(verdicts);
        if !(cut_before.open is None && !verdicts.last()) {
            let start = match cut_before.open {
                Some(start) => start,
                None => fewer as int,
            };
            assert(before.segment + window =~= stream.subrange(
                start * VAD_WINDOW,
                count * VAD_WINDOW,
            ));
            if cut_after.open is None {
                let run = Run { start, end: count as int };
                assert(cut_after.closed == cut_before.closed.push(run));
                assert(cut_after.segments(stream) =~= cut_before.segments(stream).push(
                    before.segment + window,
                ));
            }
        }
    }
}

/// Where the first `count` closed runs of a cut end.
spec fn end_of(c: Cut, count: int) -> int {
    if count == 0 {
        0
    } else {
        c.closed[count - 1].end
    }
}

/// Where the run after the first `count` closed ones starts.
spec fn next_start(c: Cut, count: int) -> Option<int> {
    if count < c.closed.len() {
        Some(c.closed[count].start)
    } else {
        c.open
    }
}

/// [`Cut::is_cut_of`] under a name that is not unfolded by itself.
#[verifier::opaque]
spec fn follows_rules(speech: Seq<bool>, c: Cut) -> bool {
    c.is_cut_of(speech)
}

/// A closed run lies among the windows judged and starts with speech.
proof fn lemma_run_place(speech: Seq<bool>, c: Cut, k: int)
    requires
        follows_rules(speech, c),
        0 <= k < c.closed.len(),
    ensures
        0 <= c.closed[k].start < c.closed[k].end <= speech.len(),
        speech[c.closed[k].start],
{
    reveal(follows_rules);
    assert(is_closed_run(speech, c.closed[k]));
}

/// Closed runs come in order.
proof fn lemma_run_order(speech: Seq<bool>, c: Cut, j: int, k: int)
    requires
        follows_rules(speech, c),
        0 <= j < k < c.closed.len(),
    ensures
        c.closed[j].end <= c.closed[k].start,
{
    reveal(follows_rules);
}

/// The open run comes after the closed ones and starts with speech.
proof fn lemma_open_place(speech: Seq<bool>, c: Cut)
    requires
        follows_rules(speech, c),
        c.open is Some,
    ensures
        0 <= c.open.unwrap() < speech.len(),
        speech[c.open.unwrap()],
        forall|k: int|
            0 <= k < c.closed.len() ==> (#[trigger] c.closed[k]).end <= c.open.unwrap(),
{
    reveal(follows_rules);
}

/// Speech lies in some run.
proof fn lemma_speech_is_covered(speech: Seq<bool>, c: Cut, i: int)
    requires
        follows_rules(speech, c),
        0 <= i < speech.len(),
        speech[i],
    ensures
        in_some_run(c.closed, i) || (c.open matches Some(start) && start <= i),
{
    reveal(follows_rules);
}

/// After its first `count` closed runs, a cut goes on no later than at a speech
/// window `i` past them.
proof fn lemma_next_run(speech: Seq<bool>, c: Cut, count: int, i: int)
    requires
        follows_rules(speech, c),
        0 <= count <= c.closed.len(),
        end_of(c, count) <= i < speech.len(),
        speech[i],
    ensures
        next_start(c, count) matches Some(start) && start <= i,
{
    if count > 0 {
        lemma_run_place(speech, c, count - 1);
    }
    lemma_speech_is_covered(speech, c, i);
    if in_some_run(c.closed, i) {
        let k = choose|k: int|
            0 <= k < c.closed.len() && (#[trigger] c.closed[k]).start <= i < c.closed[k].end;
        if k < count - 1 {
            lemma_run_order(speech, c, k, count - 1);
        }
        assert(k >= count);
        if k > count {
            lemma_run_place(speech, c, count);
            lemma_run_order(speech, c, count, k);
        }
    } else if count < c.closed.len() {
        lemma_run_place(speech, c, count);
        lemma_open_place(speech, c);
        assert(c.closed[count].end <= c.open.unwrap());
    }
}

/// The run after the first `count` closed ones starts with speech, no earlier
/// than they end.
proof fn lemma_next_start(speech: Seq<bool>, c: Cut, count: int)
    requires
        follows_rules(speech, c),
        0 <= count <= c.closed.len(),
    ensures
        next_start(c, count) matches Some(start) ==> end_of(c, count) <= start < speech.len()
            && speech[start],
{
    if count < c.closed.len() {
        lemma_run_place(speech, c, count);
        if count > 0 {
            lemma_run_order(speech, c, count - 1, count);
        }
    } else if c.open is Some {
        lemma_open_place(speech, c);
        if count > 0 {
            assert(c.closed[count - 1].end <= c.open.unwrap());
        }
    }
}

/// Cuts that agree up to some point go on at the same window.
proof fn lemma_next_starts_agree(speech: Seq<bool>, a: Cut, b: Cut, count: int)
    requires
        follows_rules(speech, a),
        follows_rules(speech, b),
        0 <= count <= a.closed.len(),
        count <= b.closed.len(),
        end_of(a, count) == end_of(b, count),
    ensures
        next_start(a, count) == next_start(b, count),
{
    lemma_next_start(speech, a, count);
    lemma_next_start(speech, b, count);
    if next_start(a, count) is Some {
        lemma_next_run(speech, b, count, next_start(a, count).unwrap());
    }
    if next_start(b, count) is Some {
        lemma_next_run(speech, a, count, next_start(b, count).unwrap());
    }
}

/// Runs with the same start close at the same window.
proof fn lemma_closed_runs_agree(speech: Seq<bool>, a: Run, b: Run)
    requires
        is_closed_run(speech, a),
        is_closed_run(speech, b),
        a.start == b.start,
    ensures
        a == b,
{
    if a.end < b.end {
        assert(may_close(speech, b.start, a.end));
    } else if b.end < a.end {
        assert(may_close(speech, a.start, b.end));
    }
}

/// The run after the first `count` closed ones is either closed or open.
proof fn lemma_next_kind(speech: Seq<bool>, c: Cut, count: int)
    requires
        follows_rules(speech, c),
        0 <= count <= c.closed.len(),
    ensures
        count < c.closed.len() ==> is_closed_run(speech, c.closed[count]) && !is_open_run(
            speech,
            c.closed[count].start,
        ),
        count == c.closed.len() ==> (c.open matches Some(start) ==> is_open_run(speech, start)),
{
    reveal(follows_rules);
    if count < c.closed.len() {
        let run = c.closed[count];
        assert(is_closed_run(speech, run));
        assert(may_close(speech, run.start, run.end));
    }
}

/// Cuts that agree up to some point have the same next run, or both end there.
proof fn lemma_next_runs_agree(speech: Seq<bool>, a: Cut, b: Cut, count: int)
    requires
        follows_rules(speech, a),
        follows_rules(speech, b),
        0 <= count <= a.closed.len(),
        count <= b.closed.len(),
        end_of(a, count) == end_of(b, count),
    ensures
        count < a.closed.len() <==> count < b.closed.len(),
        count < a.closed.len() ==> a.closed[count] == b.closed[count],
        count == a.closed.len() ==> a.open == b.open,
{
    lemma_next_starts_agree(speech, a, b, count);
    lemma_next_kind(speech, a, count);
    lemma_next_kind(speech, b, count);
    if count < a.closed.len() && count < b.closed.len() {
        lemma_closed_runs_agree(speech, a.closed[count], b.closed[count]);
    }
}

proof fn lemma_cuts_agree(speech: Seq<bool>, a: Cut, b: Cut, count: int)
    requires
        follows_rules(speech, a),
        follows_rules(speech, b),
        0 <= count <= a.closed.len(),
        count <= b.closed.len(),
        a.closed.take(count) == b.closed.take(count),
    ensures
        a.closed == b.closed,
        a.open == b.open,
    decreases a.closed.len() - count,
{
    assert(end_of(a, count) == end_of(b, count)) by {
        if count > 0 {
            assert(a.closed.take(count)[count - 1] == a.closed[count - 1]);
            assert(b.closed.take(count)[count - 1] == b.closed[count - 1]);
        }
    }
    lemma_next_runs_agree(speech, a, b, count);
    if count < a.closed.len() {
        assert(a.closed.take(count + 1) =~= a.closed.take(count).push(a.closed[count]));
        assert(b.closed.take(count + 1) =~= b.closed.take(count).push(b.closed[count]));
        lemma_cuts_agree(speech, a, b, count + 1);
    } else {
        assert(a.closed.take(count) =~= a.closed);
        assert(b.closed.take(count) =~= b.closed);
    }
}

/// For every list of verdicts there is a cut that follows the rules.
pub proof fn law_a_cut_exists(speech: Seq<bool>)
    ensures
        exists|c: Cut| c.is_cut_of(speech),
{
    lemma_cut(speech);
}

/// The rules determine the cut.
pub proof fn law_the_cut_is_unique(speech: Seq<bool>, a: Cut, b: Cut)
    requires
        a.is_cut_of(speech),
        b.is_cut_of(speech),
    ensures
        a == b,
{
    reveal(follows_rules);
    assert(a.closed.take(0) =~= b.closed.take(0));
    lemma_cuts_agree(speech, a, b, 0);
}

/// Segments are the runs of windows that the verdicts mark out.
///
/// The slicer gives exactly the runs of the cut: each completed segment is the
/// piece of the stream that a closed run covers, in order, and the segment in
/// progress is what the open run covers. So no sample is reordered, repeated or
/// altered, no segment starts before its first speech window, and no speech
/// window is left out.
pub proof fn law_segments_are_the_runs_of_the_cut<S>(stream: Seq<S>, speech: Seq<bool>, c: Cut)
    requires
        speech.len() == windows(stream).len(),
        c.is_cut_of(speech),
    ensures
        judge_all(idle::<S>(), windows(stream), speech).1 == c.segments(stream),
        pending_segment(judge_all(idle::<S>(), windows(stream), speech).0) == c.pending(stream),
{
    lemma_judged_prefix(stream, speech, speech.len());
    assert(speech.take(speech.len() as int) =~= speech);
    assert(windows(stream).take(speech.len() as int) =~= windows(stream));
    lemma_cut(speech);
    law_the_cut_is_unique(speech, c, cut(speech));
}

/// Every completed segment consists of whole windows: at least one of speech and
/// the silence that closes it, and at most what [`MAX_SEGMENT_SAMPLES`] hold.
pub proof fn law_segment_lengths<S>(stream: Seq<S>, speech: Seq<bool>, k: int)
    requires
        speech.len() == windows(stream).len(),
        0 <= k < judge_all(idle::<S>(), windows(stream), speech).1.len(),
    ensures
        ({
            let segment = judge_all(idle::<S>(), windows(stream), speech).1[k];
            &&& segment.len() % (VAD_WINDOW as nat) == 0
            &&& (SILENCE_WINDOWS_TO_CLOSE + 1) * VAD_WINDOW <= segment.len()
            &&& segment.len() <= MAX_SEGMENT_SAMPLES
        }),
{
    lemma_cut(speech);
    let c = cut(speech);
    law_segments_are_the_runs_of_the_cut(stream, speech, c);
    let run = c.closed[k];
    assert(is_closed_run(speech, run));
    assert(c.segments(stream)[k] == stream.subrange(run.start * VAD_WINDOW, run.end * VAD_WINDOW));
    law_closed_run_length(speech, run);
}

/// Silence alone never opens a segment: nothing is completed and nothing is
/// pending, however long the stream is.
pub proof fn law_silence_yields_nothing<S>(stream: Seq<S>, speech: Seq<bool>)
    requires
        speech.len() == windows(stream).len(),
        forall|i: int| 0 <= i < speech.len() ==> !#[trigger] speech[i],
    ensures
        judge_all(idle::<S>(), windows(stream), speech) == (idle::<S>(), Seq::<Seq<S>>::empty()),
{
    let c = Cut { closed: Seq::empty(), open: None };
    assert(c.is_cut_of(speech));
    law_segments_are_the_runs_of_the_cut(stream, speech, c);
    assert(c.segments(stream) =~= Seq::<Seq<S>>::empty());
    lemma_judge_all_wf(idle::<S>(), windows(stream), speech);
}

/// Judging windows keeps what holds between two windows.
proof fn lemma_judge_all_wf<S>(state: Collecting<S>, judged: Seq<Seq<S>>, speech: Seq<bool>)
    requires
        state.wf(),
        speech.len() == judged.len(),
        forall|i: int| 0 <= i < judged.len() ==> (#[trigger] judged[i]).len() == VAD_WINDOW,
    ensures
        judge_all(state, judged, speech).0.wf(),
    decreases judged.len(),
{
    if judged.len() > 0 {
        lemma_judge_all_wf(state, judged.drop_last(), speech.drop_last());
        assert(judged.last().len() == VAD_WINDOW);
    }
}

/// Windows judged in two batches give what they give in one.
proof fn lemma_judge_all_append<S>(
    state: Collecting<S>,
    first: Seq<Seq<S>>,
    second: Seq<Seq<S>>,
    speech_first: Seq<bool>,
    speech_second: Seq<bool>,
)
    requires
        speech_first.len() == first.len(),
        speech_second.len() == second.len(),
    ensures
        ({
            let (middle, closed_first) = judge_all(state, first, speech_first);
            let (end, closed_second) = judge_all(middle, second, speech_second);
            judge_all(state, first + second, speech_first + speech_second) == (
                end,
                closed_first + closed_second,
            )
        }),
    decreases second.len(),
{
    let (middle, closed_first) = judge_all(state, first, speech_first);
    if second.len() == 0 {
        assert(first + second =~= first);
        assert(speech_first + speech_second =~= speech_first);
        assert(closed_first + Seq::<Seq<S>>::empty() =~= closed_first);
    } else {
        lemma_judge_all_append(
            state,
            first,
            second.drop_last(),
            speech_first,
            speech_second.drop_last(),
        );
        assert((first + second).drop_last() =~= first + second.drop_last());
        assert((speech_first + speech_second).drop_last() =~= speech_first
            + speech_second.drop_last());
        let (before, closed_before) = judge_all(
            middle,
            second.drop_last(),
            speech_second.drop_last(),
        );
        let (end, closed_second) = judge_all(middle, second, speech_second);
        assert(closed_first + closed_second =~= judge_all(
            state,
            first + second,
            speech_first + speech_second,
        ).1);
    }
}

/// Batch boundaries do not matter: pushing a batch and then another one closes
/// the same segments and leaves the same state as pushing both at once.
pub proof fn law_batches_do_not_matter<S>(
    held: Seq<S>,
    state: Collecting<S>,
    first: Seq<S>,
    second: Seq<S>,
    speech_first: Seq<bool>,
    speech_second: Seq<bool>,
)
    requires
        speech_first.len() == windows(held + first).len(),
        speech_second.len() == windows(unfinished(held + first) + second).len(),
    ensures
        ({
            let (middle, closed_first) = judge_all(state, windows(held + first), speech_first);
            let (end, closed_second) = judge_all(
                middle,
                windows(unfinished(held + first) + second),
                speech_second,
            );
            &&& judge_all(
                state,
                windows(held + (first + second)),
                speech_first + speech_second,
            ) == (end, closed_first + closed_second)
            &&& unfinished(held + (first + second)) == unfinished(
                unfinished(held + first) + second,
            )
        }),
{
    assert(held + (first + second) =~= (held + first) + second);
    law_pieces_append(held + first, second, VAD_WINDOW as nat);
    lemma_judge_all_append(
        state,
        windows(held + first),
        windows(unfinished(held + first) + second),
        speech_first,
        speech_second,
    );
}

/// A segment is pending exactly while one is open; it is never empty, and another
/// window still fits into it. After a flush nothing is pending, so a second flush
/// gives nothing.
pub proof fn law_flush_empties<S>(state: Collecting<S>)
    requires
        state.wf(),
    ensures
        pending_segment(state) is Some <==> state != idle::<S>(),
        pending_segment(state) matches Some(segment) ==> 0 < segment.len() && segment.len()
            + VAD_WINDOW <= MAX_SEGMENT_SAMPLES,
        pending_segment(idle::<S>()) is None,
{
}

/// A call on a slicer: samples that are pushed, with one verdict for each window
/// that they complete, or a flush.
pub enum SlicerCall<S> {
    Push { samples: Seq<S>, speech: Seq<bool> },
    Flush,
}

/// What some calls come to.
pub struct History<S> {
    /// The slicer after the calls.
    pub state: SlicerView<S>,
    /// The segments that the calls gave, in order.
    pub given: Seq<Seq<S>>,
    /// All samples pushed.
    pub input: Seq<S>,
    /// The verdicts for all complete windows.
    pub speech: Seq<bool>,
    /// For each segment given, the number of complete windows at the flush that
    /// gave it, if one did.
    pub flushed: Seq<Option<nat>>,
}

/// What `calls` come to, from a slicer that has seen nothing.
pub open spec fn history<S>(calls: Seq<SlicerCall<S>>) -> History<S>
    decreases calls.len(),
{
    if calls.len() == 0 {
        History {
            state: fresh(),
            given: Seq::empty(),
            input: Seq::empty(),
            speech: Seq::empty(),
            flushed: Seq::empty(),
        }
    } else {
        let before = history(calls.drop_last());
        match calls.last() {
            SlicerCall::Push { samples, speech } => {
                let stream = before.state.window + samples;
                let (collecting, closed) = judge_all(
                    before.state.collecting,
                    windows(stream),
                    speech,
                );
                History {
                    state: SlicerView { window: unfinished(stream), collecting },
                    given: before.given + closed,
                    input: before.input + samples,
                    speech: before.speech + speech,
                    flushed: before.flushed + Seq::new(closed.len(), |i: int| None::<nat>),
                }
            },
            SlicerCall::Flush => {
                let state = SlicerView { collecting: idle(), ..before.state };
                match pending_segment(before.state.collecting) {
                    Some(segment) => History {
                        state,
                        given: before.given.push(segment),
                        flushed: before.flushed.push(Some(before.speech.len())),
                        ..before
                    },
                    None => History { state, ..before },
                }
            },
        }
    }
}

/// Whether each push comes with one verdict for each window that it completes.
pub open spec fn judges_every_window<S>(calls: Seq<SlicerCall<S>>) -> bool
    decreases calls.len(),
{
    calls.len() == 0 || {
        &&& judges_every_window(calls.drop_last())
        &&& match calls.last() {
            SlicerCall::Push { samples, speech } => speech.len() == windows(
                history(calls.drop_last()).state.window + samples,
            ).len(),
            SlicerCall::Flush => true,
        }
    }
}

/// The segments given and the one in progress are the runs of `c`, after the
/// windows of `input` that `speech` judges.
spec fn tracks<S>(
    input: Seq<S>,
    speech: Seq<bool>,
    c: Cut,
    given: Seq<Seq<S>>,
    flushed: Seq<Option<nat>>,
    state: Collecting<S>,
) -> bool {
    &&& speech.len() * VAD_WINDOW <= input.len()
    &&& c.is_cut_with_flushes(speech, flushed)
    &&& given == c.segments(input)
    &&& match c.open {
        Some(start) => state == (Collecting {
            segment: input.subrange(start * VAD_WINDOW, speech.len() * VAD_WINDOW),
            silence: trailing_silence(speech),
            open: true,
        }),
        None => state == idle::<S>(),
    }
}

/// Every run of a cut with flushes lies among the windows judged.
proof fn lemma_run_bounds(speech: Seq<bool>, flushed: Seq<Option<nat>>, c: Cut, k: int)
    requires
        c.is_cut_with_flushes(speech, flushed),
        0 <= k < c.closed.len(),
    ensures
        0 <= c.closed[k].start < c.closed[k].end <= speech.len(),
{
    let run = c.closed[k];
    assert(is_flushed_run(speech, run) || is_closed_run(speech, run));
}

proof fn lemma_tracks_longer_input<S>(
    input: Seq<S>,
    more: Seq<S>,
    speech: Seq<bool>,
    c: Cut,
    given: Seq<Seq<S>>,
    flushed: Seq<Option<nat>>,
    state: Collecting<S>,
)
    requires
        tracks(input, speech, c, given, flushed, state),
    ensures
        tracks(input + more, speech, c, given, flushed, state),
{
    let all = input + more;
    assert forall|k: int| 0 <= k < c.closed.len() implies #[trigger] c.segments(input)[k]
        == c.segments(all)[k] by {
        let run = c.closed[k];
        lemma_run_bounds(speech, flushed, c, k);
        assert(input.subrange(run.start * VAD_WINDOW, run.end * VAD_WINDOW) =~= all.subrange(
            run.start * VAD_WINDOW,
            run.end * VAD_WINDOW,
        ));
    }
    assert(c.segments(input) =~= c.segments(all));
    if c.open is Some {
        let start = c.open.unwrap();
        assert(input.subrange(start * VAD_WINDOW, speech.len() * VAD_WINDOW) =~= all.subrange(
            start * VAD_WINDOW,
            speech.len() * VAD_WINDOW,
        ));
    }
}

/// The cut with one more window.
spec fn extended(speech: Seq<bool>, c: Cut, verdict: bool) -> Cut {
    let longer = speech.push(verdict);
    let end = longer.len() as int;
    let start = match c.open {
        Some(start) => start,
        None => end - 1,
    };
    if c.open is None && !verdict {
        c
    } else if trailing_silence(longer) >= SILENCE_WINDOWS_TO_CLOSE || end - start
        >= MAX_SEGMENT_WINDOWS {
        Cut { closed: c.closed.push(Run { start, end }), open: None }
    } else {
        Cut { closed: c.closed, open: Some(start) }
    }
}

/// Whether one more window closes the open run.
spec fn closes(speech: Seq<bool>, c: Cut, verdict: bool) -> bool {
    extended(speech, c, verdict).closed.len() > c.closed.len()
}

/// One more window closes the open run where it first may, or leaves it open.
proof fn lemma_open_run_grows(speech: Seq<bool>, c: Cut, verdict: bool, start: int)
    requires
        c.open is Some || verdict,
        start == match c.open {
            Some(start) => start,
            None => speech.len() as int,
        },
        c.open matches Some(start) ==> is_open_run(speech, start),
    ensures
        ({
            let longer = speech.push(verdict);
            let end = longer.len() as int;
            if closes(speech, c, verdict) {
                is_closed_run(longer, Run { start, end })
            } else {
                is_open_run(longer, start)
            }
        }),
{
    let longer = speech.push(verdict);
    let end = longer.len() as int;
    assert(longer.drop_last() =~= speech);
    assert(longer[start]) by {
        if c.open is Some {
            assert(speech[start]);
        }
    }
    lemma_may_close_at_end(longer, start);
    assert forall|e: int| start < e < end implies !#[trigger] may_close(longer, start, e) by {
        assert(!may_close(speech, start, e));
        lemma_may_close_prefix(longer, start, e);
    }
}

proof fn lemma_extended(speech: Seq<bool>, flushed: Seq<Option<nat>>, c: Cut, verdict: bool)
    requires
        c.is_cut_with_flushes(speech, flushed),
    ensures
        extended(speech, c, verdict).is_cut_with_flushes(
            speech.push(verdict),
            if closes(speech, c, verdict) {
                flushed.push(None)
            } else {
                flushed
            },
        ),
{
    let longer = speech.push(verdict);
    let after = extended(speech, c, verdict);
    let end = longer.len() as int;
    let start = match c.open {
        Some(start) => start,
        None => end - 1,
    };
    assert(longer.drop_last() =~= speech);
    assert forall|k: int| 0 <= k < c.closed.len() implies match flushed[k] {
        Some(count) => is_flushed_run(longer, #[trigger] c.closed[k]) && c.closed[k].end == count,
        None => is_closed_run(longer, c.closed[k]),
    } by {
        lemma_run_bounds(speech, flushed, c, k);
        if flushed[k] is Some {
            assert(is_flushed_run(speech, c.closed[k]));
            lemma_flushed_run_prefix(longer, c.closed[k]);
        } else {
            assert(is_closed_run(speech, c.closed[k]));
            lemma_closed_run_prefix(longer, c.closed[k]);
        }
    }
    assert forall|k: int| 0 <= k < c.closed.len() implies (#[trigger] c.closed[k]).end
        <= start by {
        lemma_run_bounds(speech, flushed, c, k);
    }
    if c.open is Some || verdict {
        lemma_open_run_grows(speech, c, verdict, start);
    }
    assert forall|i: int| 0 <= i < longer.len() && #[trigger] longer[i] implies in_some_run(
        after.closed,
        i,
    ) || (after.open matches Some(start) && start <= i) by {
        if i < speech.len() {
            assert(speech[i]);
            if in_some_run(c.closed, i) {
                let k = choose|k: int|
                    0 <= k < c.closed.len() && (#[trigger] c.closed[k]).start <= i
                        < c.closed[k].end;
                assert(after.closed[k] == c.closed[k]);
            }
        }
        if after.closed.len() > c.closed.len() {
            assert(after.closed[c.closed.len() as int].end == longer.len());
        }
    }
}

proof fn lemma_tracks_window<S>(
    input: Seq<S>,
    speech: Seq<bool>,
    c: Cut,
    given: Seq<Seq<S>>,
    flushed: Seq<Option<nat>>,
    state: Collecting<S>,
    verdict: bool,
)
    requires
        tracks(input, speech, c, given, flushed, state),
        (speech.len() + 1) * VAD_WINDOW <= input.len(),
    ensures
        ({
            let window = input.subrange(
                speech.len() * VAD_WINDOW,
                (speech.len() + 1) * VAD_WINDOW,
            );
            let (next, closed) = judge(state, window, verdict);
            let after = extended(speech, c, verdict);
            match closed {
                Some(segment) => tracks(
                    input,
                    speech.push(verdict),
                    after,
                    given.push(segment),
                    flushed.push(None),
                    next,
                ),
                None => tracks(input, speech.push(verdict), after, given, flushed, next),
            }
        }),
{
    let end = speech.len() as int;
    let window = input.subrange(end * VAD_WINDOW, (end + 1) * VAD_WINDOW);
    let longer = speech.push(verdict);
    let start = match c.open {
        Some(start) => start,
        None => end,
    };
    let after = extended(speech, c, verdict);
    let (next, closed) = judge(state, window, verdict);
    assert(longer.drop_last() =~= speech);
    assert(state.segment + window =~= input.subrange(start * VAD_WINDOW, (end + 1) * VAD_WINDOW));
    lemma_extended(speech, flushed, c, verdict);
    assert(closed is Some <==> closes(speech, c, verdict));
    if closed is Some {
        assert(after.segments(input) =~= c.segments(input).push(state.segment + window));
    } else {
        assert(after.segments(input) =~= c.segments(input));
    }
}

proof fn lemma_tracks_windows<S>(
    input: Seq<S>,
    speech: Seq<bool>,
    c: Cut,
    given: Seq<Seq<S>>,
    flushed: Seq<Option<nat>>,
    state: Collecting<S>,
    judged: Seq<Seq<S>>,
    verdicts: Seq<bool>,
) -> (after: Cut)
    requires
        tracks(input, speech, c, given, flushed, state),
        verdicts.len() == judged.len(),
        (speech.len() + judged.len()) * VAD_WINDOW <= input.len(),
        forall|i: int|
            0 <= i < judged.len() ==> #[trigger] judged[i] == input.subrange(
                (speech.len() + i) * VAD_WINDOW,
                (speech.len() + i + 1) * VAD_WINDOW,
            ),
    ensures
        ({
            let (next, closed) = judge_all(state, judged, verdicts);
            tracks(
                input,
                speech + verdicts,
                after,
                given + closed,
                flushed + Seq::new(closed.len(), |i: int| None::<nat>),
                next,
            )
        }),
    decreases judged.len(),
{
    if judged.len() == 0 {
        assert(speech + verdicts =~= speech);
        assert(given + Seq::<Seq<S>>::empty() =~= given);
        assert(flushed + Seq::new(0, |i: int| None::<nat>) =~= flushed);
        c
    } else {
        let earlier = verdicts.drop_last();
        let middle = lemma_tracks_windows(
            input,
            speech,
            c,
            given,
            flushed,
            state,
            judged.drop_last(),
            earlier,
        );
        let (before, closed) = judge_all(state, judged.drop_last(), earlier);
        let (next, last) = judge(before, judged.last(), verdicts.last());
        let kept = flushed + Seq::new(closed.len(), |i: int| None::<nat>);
        lemma_tracks_window(
            input,
            speech + earlier,
            middle,
            given + closed,
            kept,
            before,
            verdicts.last(),
        );
        assert(judged.last() == judged[judged.len() - 1]);
        assert((speech + earlier).push(verdicts.last()) =~= speech + verdicts);
        if last is Some {
            assert((given + closed).push(last.unwrap()) =~= given + closed.push(last.unwrap()));
            assert(kept.push(None) =~= flushed + Seq::new(
                closed.push(last.unwrap()).len(),
                |i: int| None::<nat>,
            ));
        }
        extended(speech + earlier, middle, verdicts.last())
    }
}

/// A cut that tracks a history.
proof fn lemma_history<S>(calls: Seq<SlicerCall<S>>) -> (c: Cut)
    requires
        judges_every_window(calls),
    ensures
        history(calls).speech.len() == windows(history(calls).input).len(),
        history(calls).state.window == unfinished(history(calls).input),
        tracks(
            history(calls).input,
            history(calls).speech,
            c,
            history(calls).given,
            history(calls).flushed,
            history(calls).state.collecting,
        ),
    decreases calls.len(),
{
    let after = history(calls);
    if calls.len() == 0 {
        lemma_no_piece(after.input, VAD_WINDOW as nat);
        let c = Cut { closed: Seq::empty(), open: None };
        assert(c.segments(after.input) =~= after.given);
        c
    } else {
        let before = history(calls.drop_last());
        let c = lemma_history(calls.drop_last());
        match calls.last() {
            SlicerCall::Push { samples, speech } => {
                let judged = windows(before.state.window + samples);
                law_pieces_append(before.input, samples, VAD_WINDOW as nat);
                assert(windows(after.input) == windows(before.input) + judged);
                lemma_tracks_longer_input(
                    before.input,
                    samples,
                    before.speech,
                    c,
                    before.given,
                    before.flushed,
                    before.state.collecting,
                );
                lemma_pieces(after.input, VAD_WINDOW as nat);
                let n = before.speech.len();
                assert forall|i: int| 0 <= i < judged.len() implies #[trigger] judged[i]
                    == after.input.subrange((n + i) * VAD_WINDOW, (n + i + 1) * VAD_WINDOW) by {
                    assert(judged[i] == windows(after.input)[n + i]);
                }
                lemma_tracks_windows(
                    after.input,
                    before.speech,
                    c,
                    before.given,
                    before.flushed,
                    before.state.collecting,
                    judged,
                    speech,
                )
            },
            SlicerCall::Flush => {
                if c.open is Some {
                    let run = Run { start: c.open.unwrap(), end: before.speech.len() as int };
                    let flushed = Cut { closed: c.closed.push(run), open: None };
                    lemma_flush(before.speech, before.flushed, c);
                    assert(flushed.segments(before.input) =~= c.segments(before.input).push(
                        before.state.collecting.segment,
                    ));
                    flushed
                } else {
                    c
                }
            },
        }
    }
}

proof fn lemma_flush(speech: Seq<bool>, flushed: Seq<Option<nat>>, c: Cut)
    requires
        c.is_cut_with_flushes(speech, flushed),
        c.open is Some,
    ensures
        ({
            let run = Run { start: c.open.unwrap(), end: speech.len() as int };
            (Cut { closed: c.closed.push(run), open: None }).is_cut_with_flushes(
                speech,
                flushed.push(Some(speech.len())),
            )
        }),
{
    let run = Run { start: c.open.unwrap(), end: speech.len() as int };
    let closed = c.closed.push(run);
    assert(is_flushed_run(speech, run));
    assert forall|k: int| 0 <= k < closed.len() implies match flushed.push(
        Some(speech.len()),
    )[k] {
        Some(count) => is_flushed_run(speech, #[trigger] closed[k]) && closed[k].end == count,
        None => is_closed_run(speech, closed[k]),
    } by {
        if k < c.closed.len() {
            assert(closed[k] == c.closed[k]);
        }
    }
    assert forall|i: int| 0 <= i < speech.len() && #[trigger] speech[i] implies in_some_run(
        closed,
        i,
    ) by {
        if in_some_run(c.closed, i) {
            let k = choose|k: int|
                0 <= k < c.closed.len() && (#[trigger] c.closed[k]).start <= i < c.closed[k].end;
            assert(closed[k] == c.closed[k]);
        } else {
            assert(closed[c.closed.len() as int] == run);
        }
    }
}

/// The segments that all pushes and flushes give are the runs of a cut with those
/// flushes: disjoint pieces of the whole input, in order, each starting with
/// speech. One that a push gives closes where it first may; one that a flush
/// gives reaches to the last window complete by then, and could not close before.
/// Speech that they leave out belongs to the segment in progress, which comes
/// after them and reaches to the last complete window; and the samples after that
/// window wait for it to be completed.
pub proof fn law_segments_are_pieces_of_the_input<S>(calls: Seq<SlicerCall<S>>)
    requires
        judges_every_window(calls),
    ensures
        history(calls).speech.len() == windows(history(calls).input).len(),
        history(calls).state.window == unfinished(history(calls).input),
        exists|c: Cut|
            {
                &&& c.is_cut_with_flushes(history(calls).speech, history(calls).flushed)
                &&& history(calls).given == #[trigger] c.segments(history(calls).input)
                &&& pending_segment(history(calls).state.collecting) == c.pending(
                    history(calls).input,
                )
            },
{
    let c = lemma_history(calls);
    let after = history(calls);
    assert(after.given == c.segments(after.input));
}

/// A run that closes by itself has at least six windows, its speech and the
/// silence that closes it, and at most [`MAX_SEGMENT_WINDOWS`].
pub proof fn law_closed_run_length(speech: Seq<bool>, run: Run)
    requires
        is_closed_run(speech, run),
    ensures
        SILENCE_WINDOWS_TO_CLOSE + 1 <= run.end - run.start <= MAX_SEGMENT_WINDOWS,
{
    if run.end - run.start == SILENCE_WINDOWS_TO_CLOSE {
        assert(!speech[run.start]);
    }
    if run.end - run.start > MAX_SEGMENT_WINDOWS {
        assert(may_close(speech, run.start, run.end - 1));
    }
}

/// A flushed run has room for another window and ends in at most four silent
/// windows: there is speech among its last five.
pub proof fn law_flushed_run_ends_near_speech(speech: Seq<bool>, run: Run)
    requires
        is_flushed_run(speech, run),
    ensures
        0 < run.end - run.start < MAX_SEGMENT_WINDOWS,
        exists|i: int|
            run.start <= i < run.end && run.end - SILENCE_WINDOWS_TO_CLOSE <= i
                && #[trigger] speech[i],
{
    assert(!may_close(speech, run.start, run.end));
    if run.end - run.start < SILENCE_WINDOWS_TO_CLOSE {
        assert(speech[run.start]);
    }
}

/// Every segment consists of whole windows and is at most as long as
/// [`MAX_SEGMENT_SAMPLES`]. One that a push gives has at least six windows; one
/// that a flush gives has at least one and room for another.
pub proof fn law_lengths_of_all_segments<S>(calls: Seq<SlicerCall<S>>, k: int)
    requires
        judges_every_window(calls),
        0 <= k < history(calls).given.len(),
    ensures
        ({
            let length = history(calls).given[k].len();
            &&& history(calls).flushed.len() == history(calls).given.len()
            &&& length % (VAD_WINDOW as nat) == 0
            &&& length <= MAX_SEGMENT_SAMPLES
            &&& if history(calls).flushed[k] is None {
                length >= (SILENCE_WINDOWS_TO_CLOSE + 1) * VAD_WINDOW
            } else {
                VAD_WINDOW <= length && length + VAD_WINDOW <= MAX_SEGMENT_SAMPLES
            }
        }),
{
    let c = lemma_history(calls);
    let after = history(calls);
    let run = c.closed[k];
    lemma_run_bounds(after.speech, after.flushed, c, k);
    assert(after.given[k] == after.input.subrange(run.start * VAD_WINDOW, run.end * VAD_WINDOW));
    if after.flushed[k] is None {
        law_closed_run_length(after.speech, run);
    } else {
        law_flushed_run_ends_near_speech(after.speech, run);
    }
}

/// The number that the bits of a finite, non-negative IEEE 754 single stand for,
/// in units of `2^-149`.
pub open spec fn magnitude(bits: u32) -> nat {
    let exponent = (bits / 0x80_0000) as nat;
    let fraction = (bits % 0x80_0000) as nat;
    if exponent == 0 {
        fraction
    } else {
        (0x80_0000 + fraction) * pow2((exponent - 1) as nat)
    }
}

/// A probability counts as speech exactly when its value is above 1/2, which is
/// `2^148` in units of `2^-149`.
pub proof fn law_speech_above_one_half(bits: u32)
    requires
        bits < 0x7F80_0000,
    ensures
        above_half(bits) <==> magnitude(bits) > pow2(148),
{
    let exponent = (bits / 0x80_0000) as nat;
    let fraction = (bits % 0x80_0000) as nat;
    assert(pow2(23) == 0x80_0000) by {
        lemma2_to64();
    }
    lemma_pow2_adds(23, 125);
    if exponent >= 1 {
        let e = (exponent - 1) as nat;
        lemma_pow2_pos(e);
        if e >= 125 {
            if e > 125 {
                lemma_pow2_strictly_increases(125, e);
            }
            lemma_pow2_pos(125);
            assert((0x80_0000 + fraction) * pow2(e) > 0x80_0000 * pow2(125) <==> (e > 125
                || fraction > 0)) by (nonlinear_arith)
                requires
                    e > 125 ==> pow2(e) > pow2(125),
                    e >= 125,
                    fraction >= 0,
                    pow2(125) > 0,
            ;
        } else {
            lemma_pow2_adds(24, e);
            lemma_pow2_unfold(24);
            if e + 24 < 148 {
                lemma_pow2_strictly_increases(24 + e, 148);
            }
            assert((0x80_0000 + fraction) * pow2(e) < 0x100_0000 * pow2(e)) by (nonlinear_arith)
                requires
                    0 <= fraction < 0x80_0000,
                    pow2(e) > 0,
            ;
        }
    } else {
        lemma_pow2_strictly_increases(23, 148);
    }
}

/// Whether the single with these bits is infinity or a number above 1/2, which is
/// `2^148` in units of `2^-149`.
pub open spec fn sounds_like_speech(bits: u32) -> bool {
    bits == 0x7F80_0000 || (bits < 0x7F80_0000 && magnitude(bits) > pow2(148))
}

/// Which of these probabilities are above 1/2.
pub open spec fn speech_in(probabilities: Seq<u32>) -> Seq<bool> {
    Seq::new(probabilities.len(), |i: int| sounds_like_speech(probabilities[i]))
}

/// A probability counts as speech exactly when it is above 1/2: negative numbers
/// and what is not a number do not count.
pub proof fn law_speech_of_every_probability(bits: u32)
    ensures
        above_half(bits) <==> sounds_like_speech(bits),
{
    if bits < 0x7F80_0000 {
        law_speech_above_one_half(bits);
    }
}

/// Each window is judged by its own probability and by nothing else.
pub proof fn law_verdicts_are_the_probabilities(probabilities: Seq<u32>)
    ensures
        verdicts(probabilities).len() == probabilities.len(),
        forall|i: int|
            0 <= i < probabilities.len() ==> (#[trigger] verdicts(probabilities)[i]
                <==> sounds_like_speech(probabilities[i])),
{
    assert forall|i: int| 0 <= i < probabilities.len() implies (
    #[trigger] verdicts(probabilities)[i] <==> sounds_like_speech(probabilities[i])) by {
        law_speech_of_every_probability(probabilities[i]);
    }
}

/// The detector is for 16 kHz audio in windows of 512 samples; five silent windows
/// close a segment; and a segment has at most 480000 samples, 937 windows.
pub proof fn law_limits()
    ensures
        detector_settings().sample_rate == 16_000,
        detector_settings().chunk_size == 512,
        VAD_WINDOW == 512,
        SILENCE_WINDOWS_TO_CLOSE == 5,
        MAX_SEGMENT_SAMPLES == 480_000,
        MAX_SEGMENT_WINDOWS == 937,
{
}

/// What one window does. Silence outside a segment changes nothing. Any other
/// window is appended to the segment, which it closes if it is the fifth silent
/// one in a row or leaves no room for another; a closed segment is given as it
/// is, and nothing of it stays.
pub proof fn law_what_a_window_does<S>(state: Collecting<S>, window: Seq<S>, speech: bool)
    requires
        state.wf(),
        window.len() == 512,
    ensures
        ({
            let (next, closed) = judge(state, window, speech);
            let belongs = state.open || speech;
            let ends = (!speech && state.silence == 4) || state.segment.len() + 1024 > 480_000;
            &&& closed is Some <==> belongs && ends
            &&& closed matches Some(segment) ==> {
                &&& segment == state.segment + window
                &&& !next.open && next.segment.len() == 0 && next.silence == 0
            }
            &&& belongs && !ends ==> {
                &&& next.open && next.segment == state.segment + window
                &&& speech ==> next.silence == 0
                &&& !speech ==> next.silence == state.silence + 1
            }
            &&& !belongs ==> next == state
        }),
{
}

/// A slicer that has seen nothing holds nothing, and neither does one whose
/// segment has been given; the segment in progress is given as it is.
pub proof fn law_nothing_is_held_at_first<S>(state: Collecting<S>)
    ensures
        fresh::<S>().window.len() == 0,
        fresh::<S>().collecting == idle::<S>(),
        !idle::<S>().open && idle::<S>().segment.len() == 0 && idle::<S>().silence == 0,
        state.open ==> pending_segment(state) == Some(state.segment),
        !state.open ==> pending_segment(state) is None,
{
}

/// The content of a list of segments, or of one that may be there, is their
/// samples as they are.
pub proof fn law_segment_contents<S>(segments: Seq<Vec<S>>, segment: Option<Vec<S>>)
    ensures
        contents(segments).len() == segments.len(),
        forall|i: int| 0 <= i < segments.len() ==> #[trigger] contents(segments)[i] == segments[i]@,
        segment is None <==> content(segment) is None,
        segment matches Some(samples) ==> content(segment) == Some(samples@),
{
}

} // verus!
