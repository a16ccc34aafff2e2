//! What the conversion to 16 kHz mono promises of its calls.
//!
//! Some laws hold whatever the averaging and the resampler answer: they say that
//! what one way of calling may do, another may do too. Where the answers depend
//! on the frame, and on the state and the chunk, alone, the results are equal.

use crate::audio::{
    averaged, chunks, frames, may_give, may_resample, outputs, processed, reported, resampled,
    resampler_settings, result_content, Processing, RESAMPLER_CHUNK,
};
use crate::audio_laws::{
    law_calls_do_not_matter, law_chunks_cover_the_stream, law_frames_of_two_buffers,
};
use crate::error::{AppError, AppErrorView};
use crate::pieces::{lemma_no_piece, lemma_pieces, remainder};
use vstd::arithmetic::div_mod::{lemma_fundamental_div_mod, lemma_mod_multiples_basic};
use vstd::prelude::*;

verus! {

/// Whether the answer of `f` depends on the samples alone.
pub open spec fn answers_by_samples<S, F: Fn(&[S]) -> S>(f: F) -> bool {
    forall|samples: &[S], a: S, b: S|
        #[trigger] call_ensures(f, (samples,), a) && #[trigger] call_ensures(f, (samples,), b)
            ==> a == b
}

/// The content of the outcome of a chunk.
pub open spec fn outcome_content<S>(outcome: Result<Vec<S>, String>) -> Result<Seq<S>, Seq<char>> {
    match outcome {
        Ok(output) => Ok(output@),
        Err(cause) => Err(cause@),
    }
}

/// Whether what `resample` does depends on the resampler and the chunk alone.
pub open spec fn answers_by_state_and_chunk<
    S,
    R,
    F: Fn(R, &[S]) -> (R, Result<Vec<S>, String>),
>(resample: F) -> bool {
    forall|
        resampler: R,
        chunk: &[S],
        a: (R, Result<Vec<S>, String>),
        b: (R, Result<Vec<S>, String>),
    |
        #[trigger] call_ensures(resample, (resampler, chunk), a) && #[trigger] call_ensures(
            resample,
            (resampler, chunk),
            b,
        ) ==> a.0 == b.0 && outcome_content(a.1) == outcome_content(b.1)
}

/// Whether a frame of one sample is mixed down to that sample.
pub open spec fn keeps_single_samples<S, A: Fn(&[S]) -> S>(average: A) -> bool {
    forall|frame: &[S], mean: S|
        frame@.len() == 1 && #[trigger] call_ensures(average, (frame,), mean) ==> mean == frame@[0]
}

proof fn lemma_means_agree<S, A: Fn(&[S]) -> S>(
    average: A,
    frames: Seq<Seq<S>>,
    a: Seq<S>,
    b: Seq<S>,
)
    requires
        answers_by_samples(average),
        averaged(average, frames, a),
        averaged(average, frames, b),
    ensures
        a == b,
{
    assert forall|i: int| 0 <= i < a.len() implies a[i] == b[i] by {
        assert(may_give(average, frames[i], a[i]));
        assert(may_give(average, frames[i], b[i]));
        let x = choose|slice: &[S]|
            slice@ == frames[i] && #[trigger] call_ensures(average, (slice,), a[i]);
        let y = choose|slice: &[S]|
            slice@ == frames[i] && #[trigger] call_ensures(average, (slice,), b[i]);
        assert(x =~= y);
    }
    assert(a =~= b);
}

proof fn lemma_means_append<S, A: Fn(&[S]) -> S>(
    average: A,
    first: Seq<Seq<S>>,
    second: Seq<Seq<S>>,
    means_first: Seq<S>,
    means_second: Seq<S>,
)
    requires
        averaged(average, first, means_first),
        averaged(average, second, means_second),
    ensures
        averaged(average, first + second, means_first + means_second),
{
    let all = first + second;
    let means = means_first + means_second;
    assert forall|i: int| 0 <= i < all.len() implies may_give(
        average,
        all[i],
        #[trigger] means[i],
    ) by {
        if i < first.len() {
            assert(means[i] == means_first[i]);
        } else {
            assert(means[i] == means_second[i - first.len()]);
        }
    }
}

proof fn lemma_means_split<S, A: Fn(&[S]) -> S>(
    average: A,
    first: Seq<Seq<S>>,
    second: Seq<Seq<S>>,
    means: Seq<S>,
)
    requires
        averaged(average, first + second, means),
    ensures
        averaged(average, first, means.take(first.len() as int)),
        averaged(average, second, means.skip(first.len() as int)),
{
    let all = first + second;
    let n = first.len() as int;
    let earlier = means.take(n);
    let later = means.skip(n);
    assert forall|i: int| 0 <= i < first.len() implies may_give(
        average,
        first[i],
        #[trigger] earlier[i],
    ) by {
        assert(earlier[i] == means[i]);
        assert(all[i] == first[i]);
    }
    assert forall|i: int| 0 <= i < second.len() implies may_give(
        average,
        second[i],
        #[trigger] later[i],
    ) by {
        assert(later[i] == means[n + i]);
        assert(all[n + i] == second[i]);
    }
}

proof fn lemma_outcome_agrees<S, R, F: Fn(R, &[S]) -> (R, Result<Vec<S>, String>)>(
    resample: F,
    before: R,
    chunk: Seq<S>,
    a: R,
    outcome_a: Result<Vec<S>, String>,
    b: R,
    outcome_b: Result<Vec<S>, String>,
)
    requires
        answers_by_state_and_chunk(resample),
        may_resample(resample, before, chunk, a, outcome_a),
        may_resample(resample, before, chunk, b, outcome_b),
    ensures
        a == b,
        outcome_content(outcome_a) == outcome_content(outcome_b),
{
    let x = choose|samples: &[S]|
        samples@ == chunk && #[trigger] call_ensures(resample, (before, samples), (a, outcome_a));
    let y = choose|samples: &[S]|
        samples@ == chunk && #[trigger] call_ensures(resample, (before, samples), (b, outcome_b));
    assert(x =~= y);
}

/// Two runs over the same chunks agree as far as both go.
proof fn lemma_runs_agree_up_to<S, R, F: Fn(R, &[S]) -> (R, Result<Vec<S>, String>)>(
    resample: F,
    chunks: Seq<Seq<S>>,
    a: Seq<R>,
    outcomes_a: Seq<Result<Vec<S>, String>>,
    b: Seq<R>,
    outcomes_b: Seq<Result<Vec<S>, String>>,
    count: nat,
)
    requires
        answers_by_state_and_chunk(resample),
        resampled(resample, chunks, a, outcomes_a),
        resampled(resample, chunks, b, outcomes_b),
        a.first() == b.first(),
        count <= outcomes_a.len(),
        count <= outcomes_b.len(),
    ensures
        a[count as int] == b[count as int],
        forall|i: int|
            0 <= i < count ==> outcome_content(#[trigger] outcomes_a[i]) == outcome_content(
                outcomes_b[i],
            ),
    decreases count,
{
    if count > 0 {
        let i = count - 1;
        lemma_runs_agree_up_to(resample, chunks, a, outcomes_a, b, outcomes_b, i as nat);
        assert(may_resample(resample, a[i], chunks[i], a[i + 1], outcomes_a[i]));
        assert(may_resample(resample, b[i], chunks[i], b[i + 1], outcomes_b[i]));
        lemma_outcome_agrees(
            resample,
            a[i],
            chunks[i],
            a[i + 1],
            outcomes_a[i],
            b[i + 1],
            outcomes_b[i],
        );
    }
}

/// Two runs over the same chunks agree.
proof fn lemma_runs_agree<S, R, F: Fn(R, &[S]) -> (R, Result<Vec<S>, String>)>(
    resample: F,
    chunks: Seq<Seq<S>>,
    a: Seq<R>,
    outcomes_a: Seq<Result<Vec<S>, String>>,
    b: Seq<R>,
    outcomes_b: Seq<Result<Vec<S>, String>>,
)
    requires
        answers_by_state_and_chunk(resample),
        resampled(resample, chunks, a, outcomes_a),
        resampled(resample, chunks, b, outcomes_b),
        a.first() == b.first(),
    ensures
        a.last() == b.last(),
        outcomes_a.len() == outcomes_b.len(),
        forall|i: int|
            0 <= i < outcomes_a.len() ==> outcome_content(#[trigger] outcomes_a[i])
                == outcome_content(outcomes_b[i]),
{
    let n = if outcomes_a.len() <= outcomes_b.len() {
        outcomes_a.len()
    } else {
        outcomes_b.len()
    };
    lemma_runs_agree_up_to(resample, chunks, a, outcomes_a, b, outcomes_b, n);
    if outcomes_a.len() < outcomes_b.len() {
        let last = outcomes_a.len() - 1;
        assert(outcomes_a[last] is Err);
        assert(outcomes_b[last] is Ok);
        assert(outcome_content(outcomes_a[last]) == outcome_content(outcomes_b[last]));
    } else if outcomes_b.len() < outcomes_a.len() {
        let last = outcomes_b.len() - 1;
        assert(outcomes_b[last] is Err);
        assert(outcomes_a[last] is Ok);
        assert(outcome_content(outcomes_a[last]) == outcome_content(outcomes_b[last]));
    }
}

proof fn lemma_outputs_agree<S>(
    a: Seq<Result<Vec<S>, String>>,
    b: Seq<Result<Vec<S>, String>>,
)
    requires
        a.len() == b.len(),
        forall|i: int|
            0 <= i < a.len() ==> outcome_content(#[trigger] a[i]) == outcome_content(b[i]),
    ensures
        outputs(a) == outputs(b),
    decreases a.len(),
{
    if a.len() > 0 {
        assert forall|i: int| 0 <= i < a.drop_last().len() implies outcome_content(
            #[trigger] a.drop_last()[i],
        ) == outcome_content(b.drop_last()[i]) by {
            assert(a.drop_last()[i] == a[i]);
        }
        lemma_outputs_agree(a.drop_last(), b.drop_last());
        assert(outcome_content(a[a.len() - 1]) == outcome_content(b[a.len() - 1]));
    }
}

proof fn lemma_outputs_append<S>(
    a: Seq<Result<Vec<S>, String>>,
    b: Seq<Result<Vec<S>, String>>,
)
    ensures
        outputs(a + b) == outputs(a) + outputs(b),
    decreases b.len(),
{
    if b.len() == 0 {
        assert(a + b =~= a);
        assert(outputs(a) + outputs(b) =~= outputs(a));
    } else {
        lemma_outputs_append(a, b.drop_last());
        assert((a + b).drop_last() =~= a + b.drop_last());
        assert((a + b).last() == b.last());
        assert(outputs(a + b) =~= outputs(a) + outputs(b));
    }
}

/// Outcomes with the same content are reported alike.
proof fn lemma_reports_agree<S>(
    a: Seq<Result<Vec<S>, String>>,
    b: Seq<Result<Vec<S>, String>>,
)
    requires
        a.len() == b.len(),
        forall|i: int|
            0 <= i < a.len() ==> outcome_content(#[trigger] a[i]) == outcome_content(b[i]),
    ensures
        reported(a) == reported(b),
{
    lemma_outputs_agree(a, b);
    if a.len() > 0 {
        assert(outcome_content(a[a.len() - 1]) == outcome_content(b[a.len() - 1]));
    }
}

/// What a call gives is determined by its frames and the state before it, for an
/// averaging that depends on the frame and a resampler whose answer depends on
/// its state and the chunk.
pub proof fn law_results_are_determined<
    S,
    R,
    A: Fn(&[S]) -> S,
    F: Fn(R, &[S]) -> (R, Result<Vec<S>, String>),
>(
    average: A,
    resample: F,
    frames: Seq<Seq<S>>,
    before: (Seq<S>, R),
    after_a: (Seq<S>, R),
    a: Result<Seq<S>, AppErrorView>,
    after_b: (Seq<S>, R),
    b: Result<Seq<S>, AppErrorView>,
)
    requires
        answers_by_samples(average),
        answers_by_state_and_chunk(resample),
        processed(average, resample, frames, before, after_a, a),
        processed(average, resample, frames, before, after_b, b),
    ensures
        after_a == after_b,
        a == b,
{
    let run_a = choose|p: Processing<S, R>|
        p.explains(average, resample, frames, before, after_a, a);
    let run_b = choose|p: Processing<S, R>|
        p.explains(average, resample, frames, before, after_b, b);
    lemma_means_agree(average, frames, run_a.means, run_b.means);
    lemma_runs_agree(
        resample,
        chunks(before.0 + run_a.means),
        run_a.resamplers,
        run_a.outcomes,
        run_b.resamplers,
        run_b.outcomes,
    );
    lemma_reports_agree(run_a.outcomes, run_b.outcomes);
}

/// Buffers may take the waiting samples and the resampler through these states
/// and give these results, one for each.
pub open spec fn all_processed<
    S,
    R,
    A: Fn(&[S]) -> S,
    F: Fn(R, &[S]) -> (R, Result<Vec<S>, String>),
>(
    average: A,
    resample: F,
    channels: nat,
    buffers: Seq<Seq<S>>,
    states: Seq<(Seq<S>, R)>,
    results: Seq<Result<Seq<S>, AppErrorView>>,
) -> bool {
    &&& results.len() == buffers.len()
    &&& states.len() == buffers.len() + 1
    &&& forall|i: int|
        0 <= i < buffers.len() ==> processed(
            average,
            resample,
            frames(buffers[i], channels),
            states[i],
            states[i + 1],
            #[trigger] results[i],
        )
}

/// Converters in the same state, resamplers included, answer all later buffers
/// alike, for an averaging that depends on the frame and a resampler whose answer
/// depends on its state and the chunk.
pub proof fn law_equal_converters_answer_alike<
    S,
    R,
    A: Fn(&[S]) -> S,
    F: Fn(R, &[S]) -> (R, Result<Vec<S>, String>),
>(
    average: A,
    resample: F,
    channels: nat,
    buffers: Seq<Seq<S>>,
    a: Seq<(Seq<S>, R)>,
    results_a: Seq<Result<Seq<S>, AppErrorView>>,
    b: Seq<(Seq<S>, R)>,
    results_b: Seq<Result<Seq<S>, AppErrorView>>,
)
    requires
        answers_by_samples(average),
        answers_by_state_and_chunk(resample),
        all_processed(average, resample, channels, buffers, a, results_a),
        all_processed(average, resample, channels, buffers, b, results_b),
        a.first() == b.first(),
    ensures
        a == b,
        results_a == results_b,
{
    assert forall|i: int| 0 <= i < buffers.len() implies a[i + 1] == b[i + 1] && (
    #[trigger] results_a[i]) == results_b[i] by {
        lemma_results_agree(average, resample, channels, buffers, a, results_a, b, results_b, i);
    }
    assert forall|i: int| 0 <= i < a.len() implies a[i] == b[i] by {
        if i > 0 {
            assert(results_a[i - 1] == results_b[i - 1]);
            assert(a[(i - 1) + 1] == b[(i - 1) + 1]);
        }
    }
    assert(a =~= b);
    assert(results_a =~= results_b);
}

/// Converters in the same state agree on buffer `i` and the state after it.
proof fn lemma_results_agree<
    S,
    R,
    A: Fn(&[S]) -> S,
    F: Fn(R, &[S]) -> (R, Result<Vec<S>, String>),
>(
    average: A,
    resample: F,
    channels: nat,
    buffers: Seq<Seq<S>>,
    a: Seq<(Seq<S>, R)>,
    results_a: Seq<Result<Seq<S>, AppErrorView>>,
    b: Seq<(Seq<S>, R)>,
    results_b: Seq<Result<Seq<S>, AppErrorView>>,
    i: int,
)
    requires
        answers_by_samples(average),
        answers_by_state_and_chunk(resample),
        all_processed(average, resample, channels, buffers, a, results_a),
        all_processed(average, resample, channels, buffers, b, results_b),
        a.first() == b.first(),
        0 <= i < buffers.len(),
    ensures
        a[i + 1] == b[i + 1],
        results_a[i] == results_b[i],
    decreases i,
{
    if i > 0 {
        lemma_results_agree(
            average,
            resample,
            channels,
            buffers,
            a,
            results_a,
            b,
            results_b,
            i - 1,
        );
    }
    assert(a[i] == b[i]);
    law_results_are_determined(
        average,
        resample,
        frames(buffers[i], channels),
        a[i],
        a[i + 1],
        results_a[i],
        b[i + 1],
        results_b[i],
    );
}

/// A run over chunks in which all succeed goes on over more chunks.
proof fn lemma_runs_append<S, R, F: Fn(R, &[S]) -> (R, Result<Vec<S>, String>)>(
    resample: F,
    first: Seq<Seq<S>>,
    states_first: Seq<R>,
    outcomes_first: Seq<Result<Vec<S>, String>>,
    second: Seq<Seq<S>>,
    states_second: Seq<R>,
    outcomes_second: Seq<Result<Vec<S>, String>>,
)
    requires
        resampled(resample, first, states_first, outcomes_first),
        outcomes_first.len() > 0 ==> outcomes_first.last() is Ok,
        resampled(resample, second, states_second, outcomes_second),
        states_first.last() == states_second.first(),
    ensures
        outcomes_first.len() == first.len(),
        resampled(
            resample,
            first + second,
            states_first + states_second.drop_first(),
            outcomes_first + outcomes_second,
        ),
        (states_first + states_second.drop_first()).first() == states_first.first(),
        (states_first + states_second.drop_first()).last() == states_second.last(),
{
    let all = first + second;
    let states = states_first + states_second.drop_first();
    let outcomes = outcomes_first + outcomes_second;
    let n = outcomes_first.len() as int;
    assert forall|i: int| 0 <= i < outcomes.len() implies may_resample(
        resample,
        states[i],
        all[i],
        states[i + 1],
        #[trigger] outcomes[i],
    ) by {
        if i < n {
            assert(outcomes[i] == outcomes_first[i]);
            assert(states[i] == states_first[i]);
            assert(states[i + 1] == states_first[i + 1]);
        } else {
            assert(outcomes[i] == outcomes_second[i - n]);
            assert(states[i] == states_second[i - n]);
            assert(states[i + 1] == states_second[i - n + 1]);
        }
    }
    assert forall|i: int| 0 <= i < outcomes.len() - 1 implies (#[trigger] outcomes[i]) is Ok by {
        if i < n {
            assert(outcomes[i] == outcomes_first[i]);
            assert(i < n - 1 || outcomes_first[i] == outcomes_first.last());
        } else {
            assert(outcomes[i] == outcomes_second[i - n]);
        }
    }
    if outcomes_second.len() > 0 {
        assert(outcomes.last() == outcomes_second.last());
    }
}

/// A run over two lists of chunks is a run over the first, followed, unless that
/// fails, by one over the second.
proof fn lemma_runs_split<S, R, F: Fn(R, &[S]) -> (R, Result<Vec<S>, String>)>(
    resample: F,
    first: Seq<Seq<S>>,
    second: Seq<Seq<S>>,
    states: Seq<R>,
    outcomes: Seq<Result<Vec<S>, String>>,
)
    requires
        resampled(resample, first + second, states, outcomes),
    ensures
        outcomes.len() <= first.len() ==> resampled(resample, first, states, outcomes),
        outcomes.len() >= first.len() ==> {
            let n = first.len() as int;
            &&& resampled(resample, first, states.take(n + 1), outcomes.take(n))
            &&& resampled(resample, second, states.skip(n), outcomes.skip(n))
                || n > 0 && outcomes.len() == n && outcomes.last() is Err
            &&& states.take(n + 1).first() == states.first()
            &&& states.take(n + 1).last() == states.skip(n).first()
            &&& states.skip(n).last() == states.last()
            &&& outcomes == outcomes.take(n) + outcomes.skip(n)
        },
{
    let all = first + second;
    let n = first.len() as int;
    if outcomes.len() <= n {
        assert forall|i: int| 0 <= i < outcomes.len() implies may_resample(
            resample,
            states[i],
            first[i],
            states[i + 1],
            #[trigger] outcomes[i],
        ) by {
            assert(all[i] == first[i]);
        }
    }
    if outcomes.len() >= n {
        let earlier = outcomes.take(n);
        let later = outcomes.skip(n);
        assert(outcomes =~= earlier + later);
        assert forall|i: int| 0 <= i < n implies may_resample(
            resample,
            states.take(n + 1)[i],
            first[i],
            states.take(n + 1)[i + 1],
            #[trigger] earlier[i],
        ) by {
            assert(earlier[i] == outcomes[i]);
            assert(all[i] == first[i]);
        }
        assert forall|i: int| 0 <= i < n - 1 implies (#[trigger] earlier[i]) is Ok by {
            assert(earlier[i] == outcomes[i]);
        }
        assert forall|i: int| 0 <= i < later.len() implies may_resample(
            resample,
            states.skip(n)[i],
            second[i],
            states.skip(n)[i + 1],
            #[trigger] later[i],
        ) by {
            assert(later[i] == outcomes[n + i]);
            assert(all[n + i] == second[i]);
        }
        assert forall|i: int| 0 <= i < later.len() - 1 implies (#[trigger] later[i]) is Ok by {
            assert(later[i] == outcomes[n + i]);
        }
    }
}

/// What two calls give together: the output of the second after that of the
/// first, or the error of the second.
pub open spec fn followed_by<S>(output: Seq<S>, next: Result<Seq<S>, AppErrorView>) -> Result<
    Seq<S>,
    AppErrorView,
> {
    match next {
        Ok(rest) => Ok(output + rest),
        Err(error) => Err(error),
    }
}

/// The outcomes of a call that succeeds and of the next one, together.
proof fn lemma_reports_append<S>(
    first: Seq<Result<Vec<S>, String>>,
    second: Seq<Result<Vec<S>, String>>,
)
    requires
        first.len() > 0 ==> first.last() is Ok,
    ensures
        reported(first) == Ok::<Seq<S>, AppErrorView>(outputs(first)),
        reported(first + second) == followed_by(outputs(first), reported(second)),
{
    lemma_outputs_append(first, second);
    if second.len() > 0 {
        assert((first + second).last() == second.last());
    } else {
        assert(first + second =~= first);
        assert(outputs(first) + outputs(second) =~= outputs(first));
    }
}

/// Two buffers one after the other do what both at once may do, whatever the
/// averaging and the resampler, where the first call succeeds: the output of the
/// second call follows that of the first, an error of the second is the error of
/// the whole, and the state afterwards is the same. The first buffer ends with a
/// complete frame.
pub proof fn law_two_calls_are_one<
    S,
    R,
    A: Fn(&[S]) -> S,
    F: Fn(R, &[S]) -> (R, Result<Vec<S>, String>),
>(
    average: A,
    resample: F,
    channels: nat,
    first: Seq<S>,
    second: Seq<S>,
    before: (Seq<S>, R),
    middle: (Seq<S>, R),
    output: Seq<S>,
    after: (Seq<S>, R),
    next: Result<Seq<S>, AppErrorView>,
)
    requires
        channels > 0,
        first.len() % channels == 0,
        processed(average, resample, frames(first, channels), before, middle, Ok(output)),
        processed(average, resample, frames(second, channels), middle, after, next),
    ensures
        processed(
            average,
            resample,
            frames(first + second, channels),
            before,
            after,
            followed_by(output, next),
        ),
{
    let fs = frames(first, channels);
    let gs = frames(second, channels);
    let run_first = choose|p: Processing<S, R>|
        p.explains(average, resample, fs, before, middle, Ok(output));
    let run_second = choose|p: Processing<S, R>|
        p.explains(average, resample, gs, middle, after, next);
    law_frames_of_two_buffers(first, second, channels);
    lemma_means_append(average, fs, gs, run_first.means, run_second.means);
    lemma_runs_append(
        resample,
        chunks(before.0 + run_first.means),
        run_first.resamplers,
        run_first.outcomes,
        chunks(middle.0 + run_second.means),
        run_second.resamplers,
        run_second.outcomes,
    );
    law_calls_do_not_matter(before.0, run_first.means, run_second.means);
    lemma_reports_append(run_first.outcomes, run_second.outcomes);
    let run = Processing {
        means: run_first.means + run_second.means,
        resamplers: run_first.resamplers + run_second.resamplers.drop_first(),
        outcomes: run_first.outcomes + run_second.outcomes,
    };
    assert(before.0 + run.means =~= (before.0 + run_first.means) + run_second.means);
    law_chunks_cover_the_stream(before.0 + run_first.means, run_first.outcomes.len());
    law_chunks_cover_the_stream(middle.0 + run_second.means, run_second.outcomes.len());
    assert(after.0 =~= (before.0 + run.means).skip(run.outcomes.len() * RESAMPLER_CHUNK));
    assert(run.explains(
        average,
        resample,
        frames(first + second, channels),
        before,
        after,
        followed_by(output, next),
    ));
}

/// How the input is cut into calls does not matter for the result: after a call
/// that succeeds, the output of the next one follows its output just as if both
/// buffers had been given at once; an error of the next one is the error of the
/// whole; and the state afterwards is the same. The first buffer ends with a
/// complete frame. The averaging depends on the frame, and the resampler's answer
/// on its state and the chunk.
pub proof fn law_calls_do_not_matter_for_the_result<
    S,
    R,
    A: Fn(&[S]) -> S,
    F: Fn(R, &[S]) -> (R, Result<Vec<S>, String>),
>(
    average: A,
    resample: F,
    channels: nat,
    first: Seq<S>,
    second: Seq<S>,
    before: (Seq<S>, R),
    middle: (Seq<S>, R),
    output: Seq<S>,
    after: (Seq<S>, R),
    next: Result<Seq<S>, AppErrorView>,
    after_whole: (Seq<S>, R),
    whole: Result<Seq<S>, AppErrorView>,
)
    requires
        channels > 0,
        first.len() % channels == 0,
        answers_by_samples(average),
        answers_by_state_and_chunk(resample),
        processed(average, resample, frames(first, channels), before, middle, Ok(output)),
        processed(average, resample, frames(second, channels), middle, after, next),
        processed(
            average,
            resample,
            frames(first + second, channels),
            before,
            after_whole,
            whole,
        ),
    ensures
        after_whole == after,
        whole == followed_by(output, next),
{
    law_two_calls_are_one(
        average,
        resample,
        channels,
        first,
        second,
        before,
        middle,
        output,
        after,
        next,
    );
    law_results_are_determined(
        average,
        resample,
        frames(first + second, channels),
        before,
        after_whole,
        whole,
        after,
        followed_by(output, next),
    );
}

/// Two buffers at once do what one after the other may do, whatever the averaging
/// and the resampler: the first call succeeds and the second gives the rest, or
/// the first call fails with the error of the whole, and the means of the second
/// buffer wait behind what it leaves. The first buffer ends with a complete frame.
pub proof fn law_one_call_is_two<
    S,
    R,
    A: Fn(&[S]) -> S,
    F: Fn(R, &[S]) -> (R, Result<Vec<S>, String>),
>(
    average: A,
    resample: F,
    channels: nat,
    first: Seq<S>,
    second: Seq<S>,
    before: (Seq<S>, R),
    after: (Seq<S>, R),
    whole: Result<Seq<S>, AppErrorView>,
)
    requires
        channels > 0,
        first.len() % channels == 0,
        processed(average, resample, frames(first + second, channels), before, after, whole),
    ensures
        (exists|middle: (Seq<S>, R), output: Seq<S>, next: Result<Seq<S>, AppErrorView>|
            {
                &&& #[trigger] processed(
                    average,
                    resample,
                    frames(first, channels),
                    before,
                    middle,
                    Ok(output),
                )
                &&& #[trigger] processed(
                    average,
                    resample,
                    frames(second, channels),
                    middle,
                    after,
                    next,
                )
                &&& whole == followed_by(output, next)
            }) || (exists|middle: (Seq<S>, R), mono: Seq<S>|
            {
                &&& whole is Err
                &&& #[trigger] processed(
                    average,
                    resample,
                    frames(first, channels),
                    before,
                    middle,
                    whole,
                )
                &&& #[trigger] averaged(average, frames(second, channels), mono)
                &&& after == (middle.0 + mono, middle.1)
            }),
{
    let fs = frames(first, channels);
    let gs = frames(second, channels);
    let run = choose|p: Processing<S, R>|
        p.explains(average, resample, frames(first + second, channels), before, after, whole);
    law_frames_of_two_buffers(first, second, channels);
    let n = fs.len() as int;
    let earlier = run.means.take(n);
    let later = run.means.skip(n);
    lemma_means_split(average, fs, gs, run.means);
    let mono = before.0 + earlier;
    let waiting = mono.skip(chunks(mono).len() * RESAMPLER_CHUNK);
    let all = before.0 + run.means;
    assert(run.means =~= earlier + later);
    law_calls_do_not_matter(before.0, earlier, later);
    let m = chunks(mono).len() as int;
    lemma_runs_split(resample, chunks(mono), chunks(waiting + later), run.resamplers, run.outcomes);
    lemma_pieces(mono, RESAMPLER_CHUNK as nat);
    assert(all =~= mono + later);
    let failed = run.outcomes.len() > 0 && run.outcomes.last() is Err;
    if failed && run.outcomes.len() <= m {
        let middle = (mono.skip(run.outcomes.len() * RESAMPLER_CHUNK), after.1);
        let p = Processing { means: earlier, ..run };
        assert(p.explains(average, resample, fs, before, middle, whole));
        assert(after.0 =~= middle.0 + later);
        assert(processed(average, resample, frames(first, channels), before, middle, whole));
        assert(averaged(average, frames(second, channels), later));
    } else {
        let outcomes_first = run.outcomes.take(m);
        let outcomes_second = run.outcomes.skip(m);
        let states_first = run.resamplers.take(m + 1);
        let states_second = run.resamplers.skip(m);
        assert(outcomes_first.len() > 0 ==> outcomes_first.last() is Ok) by {
            if m > 0 {
                assert(outcomes_first.last() == run.outcomes[m - 1]);
            }
        }
        lemma_reports_append(outcomes_first, outcomes_second);
        let middle = (waiting, states_second.first());
        let output = outputs(outcomes_first);
        let next = reported(outcomes_second);
        let p = Processing { means: earlier, resamplers: states_first, outcomes: outcomes_first };
        let q = Processing { means: later, resamplers: states_second, outcomes: outcomes_second };
        assert(p.explains(average, resample, fs, before, middle, Ok(output)));
        assert(after.0 =~= (waiting + later).skip(outcomes_second.len() * RESAMPLER_CHUNK));
        assert(q.explains(average, resample, gs, middle, after, next));
        assert(processed(average, resample, frames(first, channels), before, middle, Ok(output)));
        assert(processed(average, resample, frames(second, channels), middle, after, next));
    }
}

/// A run that has failed is a run over any more chunks too.
proof fn lemma_failed_run_stops<S, R, F: Fn(R, &[S]) -> (R, Result<Vec<S>, String>)>(
    resample: F,
    first: Seq<Seq<S>>,
    second: Seq<Seq<S>>,
    states: Seq<R>,
    outcomes: Seq<Result<Vec<S>, String>>,
)
    requires
        resampled(resample, first, states, outcomes),
        outcomes.len() > 0,
        outcomes.last() is Err,
    ensures
        resampled(resample, first + second, states, outcomes),
{
    let all = first + second;
    assert forall|i: int| 0 <= i < outcomes.len() implies may_resample(
        resample,
        states[i],
        all[i],
        states[i + 1],
        #[trigger] outcomes[i],
    ) by {
        assert(all[i] == first[i]);
    }
}

/// A call that fails may also fail with more input, whatever the averaging and
/// the resampler, with the same error and the same state of the resampler; what
/// the further input adds waits behind what was waiting.
pub proof fn law_a_failed_call_may_fail_with_more_input<
    S,
    R,
    A: Fn(&[S]) -> S,
    F: Fn(R, &[S]) -> (R, Result<Vec<S>, String>),
>(
    average: A,
    resample: F,
    channels: nat,
    first: Seq<S>,
    second: Seq<S>,
    mono_second: Seq<S>,
    before: (Seq<S>, R),
    after: (Seq<S>, R),
    failure: AppErrorView,
)
    requires
        channels > 0,
        first.len() % channels == 0,
        averaged(average, frames(second, channels), mono_second),
        processed(average, resample, frames(first, channels), before, after, Err(failure)),
    ensures
        processed(
            average,
            resample,
            frames(first + second, channels),
            before,
            (after.0 + mono_second, after.1),
            Err(failure),
        ),
{
    let fs = frames(first, channels);
    let gs = frames(second, channels);
    let run_first = choose|p: Processing<S, R>|
        p.explains(average, resample, fs, before, after, Err(failure));
    law_frames_of_two_buffers(first, second, channels);
    lemma_means_append(average, fs, gs, run_first.means, mono_second);
    law_calls_do_not_matter(before.0, run_first.means, mono_second);
    let run = Processing { means: run_first.means + mono_second, ..run_first };
    let mono = before.0 + run_first.means;
    let all = before.0 + run.means;
    assert(all =~= mono + mono_second);
    lemma_failed_run_stops(
        resample,
        chunks(mono),
        chunks(all).skip(chunks(mono).len() as int),
        run_first.resamplers,
        run_first.outcomes,
    );
    assert(chunks(all) =~= chunks(mono) + chunks(all).skip(chunks(mono).len() as int));
    lemma_pieces(mono, RESAMPLER_CHUNK as nat);
    assert(after.0 + mono_second =~= all.skip(run.outcomes.len() * RESAMPLER_CHUNK));
    assert(run.explains(
        average,
        resample,
        frames(first + second, channels),
        before,
        (after.0 + mono_second, after.1),
        Err(failure),
    ));
}

/// A call that fails also fails with more input, with the same error and the
/// same state of the resampler; what the further input adds waits behind what
/// was waiting. The averaging depends on the frame, and the resampler's answer on
/// its state and the chunk.
pub proof fn law_a_failed_call_fails_with_more_input<
    S,
    R,
    A: Fn(&[S]) -> S,
    F: Fn(R, &[S]) -> (R, Result<Vec<S>, String>),
>(
    average: A,
    resample: F,
    channels: nat,
    first: Seq<S>,
    second: Seq<S>,
    mono_second: Seq<S>,
    before: (Seq<S>, R),
    after: (Seq<S>, R),
    failure: AppErrorView,
    after_whole: (Seq<S>, R),
    whole: Result<Seq<S>, AppErrorView>,
)
    requires
        channels > 0,
        first.len() % channels == 0,
        answers_by_samples(average),
        answers_by_state_and_chunk(resample),
        averaged(average, frames(second, channels), mono_second),
        processed(average, resample, frames(first, channels), before, after, Err(failure)),
        processed(
            average,
            resample,
            frames(first + second, channels),
            before,
            after_whole,
            whole,
        ),
    ensures
        whole == Err::<Seq<S>, AppErrorView>(failure),
        after_whole == (after.0 + mono_second, after.1),
{
    law_a_failed_call_may_fail_with_more_input(
        average,
        resample,
        channels,
        first,
        second,
        mono_second,
        before,
        after,
        failure,
    );
    law_results_are_determined(
        average,
        resample,
        frames(first + second, channels),
        before,
        after_whole,
        whole,
        (after.0 + mono_second, after.1),
        Err(failure),
    );
}

/// A converter of several channels does on a buffer what a mono converter in the
/// same state may do on the means of its frames, and nothing else, whatever the
/// resampler, for an averaging that gives for a frame of one its sample and
/// nothing else.
pub proof fn law_downmix_is_a_mono_stream<
    S,
    R,
    A: Fn(&[S]) -> S,
    F: Fn(R, &[S]) -> (R, Result<Vec<S>, String>),
>(
    average: A,
    resample: F,
    channels: nat,
    interleaved: Seq<S>,
    before: (Seq<S>, R),
    after: (Seq<S>, R),
    r: Result<Seq<S>, AppErrorView>,
)
    requires
        channels > 0,
        keeps_single_samples(average),
        forall|sample: S| may_give(average, seq![sample], sample),
    ensures
        processed(average, resample, frames(interleaved, channels), before, after, r) <==> exists|
            mono: Seq<S>,
        |
            {
                &&& #[trigger] averaged(average, frames(interleaved, channels), mono)
                &&& processed(average, resample, frames(mono, 1), before, after, r)
            },
{
    let fs = frames(interleaved, channels);
    if processed(average, resample, fs, before, after, r) {
        let run = choose|p: Processing<S, R>|
            p.explains(average, resample, fs, before, after, r);
        let mono = run.means;
        let singles = frames(mono, 1);
        lemma_single_frames(mono);
        assert(averaged(average, singles, mono)) by {
            assert forall|i: int| 0 <= i < singles.len() implies may_give(
                average,
                singles[i],
                #[trigger] mono[i],
            ) by {
                assert(singles[i] =~= seq![mono[i]]);
            }
        }
        assert(run.explains(average, resample, singles, before, after, r));
    }
    assert forall|mono: Seq<S>| #[trigger] averaged(average, fs, mono) && processed(
        average,
        resample,
        frames(mono, 1),
        before,
        after,
        r,
    ) implies processed(average, resample, fs, before, after, r) by {
        let run = choose|p: Processing<S, R>|
            p.explains(average, resample, frames(mono, 1), before, after, r);
        lemma_means_of_single_frames(average, mono, run.means);
        assert(run.explains(average, resample, fs, before, after, r));
    }
}

/// Each sample of a mono stream is a frame.
proof fn lemma_single_frames<S>(mono: Seq<S>)
    ensures
        frames(mono, 1).len() == mono.len(),
        forall|i: int| 0 <= i < mono.len() ==> #[trigger] frames(mono, 1)[i] == seq![mono[i]],
{
    lemma_pieces(mono, 1);
    assert forall|i: int| 0 <= i < mono.len() implies #[trigger] frames(mono, 1)[i]
        == seq![mono[i]] by {
        assert(frames(mono, 1)[i] =~= seq![mono[i]]);
    }
}

proof fn lemma_means_of_single_frames<S, A: Fn(&[S]) -> S>(
    average: A,
    mono: Seq<S>,
    means: Seq<S>,
)
    requires
        keeps_single_samples(average),
        averaged(average, frames(mono, 1), means),
    ensures
        means == mono,
{
    let singles = frames(mono, 1);
    lemma_single_frames(mono);
    assert forall|i: int| 0 <= i < mono.len() implies means[i] == mono[i] by {
        assert(may_give(average, singles[i], means[i]));
        assert(singles[i] == seq![mono[i]]);
    }
    assert(means =~= mono);
}

/// A converter of several channels answers a buffer as a mono converter in the
/// same state answers the means of its frames, for an averaging that depends on
/// the frame and gives back the sample of a frame of one, and a resampler whose
/// answer depends on its state and the chunk.
pub proof fn law_downmix_is_the_mono_stream_of_the_means<
    S,
    R,
    A: Fn(&[S]) -> S,
    F: Fn(R, &[S]) -> (R, Result<Vec<S>, String>),
>(
    average: A,
    resample: F,
    channels: nat,
    interleaved: Seq<S>,
    mono: Seq<S>,
    before: (Seq<S>, R),
    after: (Seq<S>, R),
    r: Result<Seq<S>, AppErrorView>,
    after_mono: (Seq<S>, R),
    r_mono: Result<Seq<S>, AppErrorView>,
)
    requires
        channels > 0,
        answers_by_samples(average),
        answers_by_state_and_chunk(resample),
        keeps_single_samples(average),
        averaged(average, frames(interleaved, channels), mono),
        processed(average, resample, frames(interleaved, channels), before, after, r),
        processed(average, resample, frames(mono, 1), before, after_mono, r_mono),
    ensures
        after == after_mono,
        r == r_mono,
{
    let fs = frames(interleaved, channels);
    let run = choose|p: Processing<S, R>|
        p.explains(average, resample, frames(mono, 1), before, after_mono, r_mono);
    lemma_means_of_single_frames(average, mono, run.means);
    assert(run.explains(average, resample, fs, before, after_mono, r_mono));
    law_results_are_determined(average, resample, fs, before, after, r, after_mono, r_mono);
}

/// The samples after the last complete frame are dropped, whatever the averaging
/// and the resampler: a call does with them what it may do without them.
pub proof fn law_incomplete_frame_is_dropped<
    S,
    R,
    A: Fn(&[S]) -> S,
    F: Fn(R, &[S]) -> (R, Result<Vec<S>, String>),
>(
    average: A,
    resample: F,
    channels: nat,
    interleaved: Seq<S>,
    before: (Seq<S>, R),
    after: (Seq<S>, R),
    r: Result<Seq<S>, AppErrorView>,
)
    requires
        channels > 0,
    ensures
        ({
            let complete = interleaved.take(interleaved.len() - interleaved.len() % channels);
            &&& frames(interleaved, channels) == frames(complete, channels)
            &&& processed(average, resample, frames(interleaved, channels), before, after, r)
                <==> processed(average, resample, frames(complete, channels), before, after, r)
        }),
{
    let rest = interleaved.len() % channels;
    let complete = interleaved.take(interleaved.len() - rest);
    let tail = interleaved.skip(interleaved.len() - rest);
    let count = interleaved.len() / channels;
    lemma_pieces(interleaved, channels);
    lemma_fundamental_div_mod(interleaved.len() as int, channels as int);
    lemma_mod_multiples_basic(count as int, channels as int);
    assert(channels * count == count * channels) by (nonlinear_arith);
    assert(rest == remainder(interleaved, channels).len());
    assert(complete.len() == count * channels);
    assert(interleaved =~= complete + tail);
    law_frames_of_two_buffers(complete, tail, channels);
    lemma_no_piece(tail, channels);
    assert(frames(complete, channels) + frames(tail, channels) =~= frames(complete, channels));
}

/// The samples after the last complete frame change neither the result nor the
/// state, and so no later result, for an averaging that depends on the frame and
/// a resampler whose answer depends on its state and the chunk.
pub proof fn law_incomplete_frame_changes_nothing<
    S,
    R,
    A: Fn(&[S]) -> S,
    F: Fn(R, &[S]) -> (R, Result<Vec<S>, String>),
>(
    average: A,
    resample: F,
    channels: nat,
    interleaved: Seq<S>,
    before: (Seq<S>, R),
    after: (Seq<S>, R),
    r: Result<Seq<S>, AppErrorView>,
    after_complete: (Seq<S>, R),
    r_complete: Result<Seq<S>, AppErrorView>,
)
    requires
        channels > 0,
        answers_by_samples(average),
        answers_by_state_and_chunk(resample),
        processed(average, resample, frames(interleaved, channels), before, after, r),
        processed(
            average,
            resample,
            frames(interleaved.take(interleaved.len() - interleaved.len() % channels), channels),
            before,
            after_complete,
            r_complete,
        ),
    ensures
        after == after_complete,
        r == r_complete,
{
    law_incomplete_frame_is_dropped(average, resample, channels, interleaved, before, after, r);
    law_results_are_determined(
        average,
        resample,
        frames(interleaved, channels),
        before,
        after,
        r,
        after_complete,
        r_complete,
    );
}

/// The resampler goes from the rate of the device to 16 kHz, for one channel and
/// chunks of 1024 samples; nothing but the rate depends on the device.
pub proof fn law_resampler_settings(input_rate: u32)
    ensures
        ({
            let settings = resampler_settings(input_rate);
            &&& settings.input_rate == input_rate
            &&& settings.output_rate == 16_000
            &&& settings.max_relative_ratio == 2
            &&& settings.sinc_len == 256
            &&& settings.cutoff_bits == 0x3F73_3333
            &&& settings.interpolation is Linear
            &&& settings.oversampling_factor == 256
            &&& settings.window is BlackmanHarris2
            &&& settings.chunk_size == 1024
            &&& settings.channels == 1
        }),
{
}

/// The content of a result is its samples, or the content of its error.
pub proof fn law_result_content<S>(r: Result<Vec<S>, AppError>)
    ensures
        r matches Ok(output) ==> result_content(r) == Ok::<Seq<S>, AppErrorView>(output@),
        r matches Err(error) ==> result_content(r) == Err::<Seq<S>, AppErrorView>(error@),
{
}

/// `f`, called with these samples, answered so.
pub open spec fn called_with<S, F: Fn(&[S]) -> S>(f: F, samples: Seq<S>, answer: S) -> bool {
    exists|given: &[S]| given@ == samples && #[trigger] call_ensures(f, (given,), answer)
}

/// `f`, called in this state with these samples, answered so.
pub open spec fn called_from<S, R, T, F: Fn(R, &[S]) -> (R, T)>(
    f: F,
    state: R,
    samples: Seq<S>,
    answer: (R, T),
) -> bool {
    exists|given: &[S]| given@ == samples && #[trigger] call_ensures(f, (state, given), answer)
}

/// `means` are what `average` answered, once for each group of `channels` samples
/// of the buffer, in order; an incomplete group at the end is left out.
pub open spec fn mixed_down<S, A: Fn(&[S]) -> S>(
    average: A,
    channels: nat,
    interleaved: Seq<S>,
    means: Seq<S>,
) -> bool {
    &&& means.len() == interleaved.len() / channels
    &&& forall|i: int|
        0 <= i < means.len() ==> called_with(
            average,
            interleaved.subrange(i * channels, (i + 1) * channels),
            #[trigger] means[i],
        )
}

/// `outcomes` are what `resample` answered, once for each group of 1024 samples
/// of the stream, in order, from state to state of the resampler, up to the end
/// of the stream or the first failure.
pub open spec fn resampled_in_order<S, R, F: Fn(R, &[S]) -> (R, Result<Vec<S>, String>)>(
    resample: F,
    mono: Seq<S>,
    resamplers: Seq<R>,
    outcomes: Seq<Result<Vec<S>, String>>,
) -> bool {
    &&& outcomes.len() * 1024 <= mono.len()
    &&& resamplers.len() == outcomes.len() + 1
    &&& forall|i: int|
        0 <= i < outcomes.len() ==> called_from(
            resample,
            resamplers[i],
            mono.subrange(i * 1024, (i + 1) * 1024),
            (resamplers[i + 1], #[trigger] outcomes[i]),
        )
    &&& forall|i: int| 0 <= i < outcomes.len() - 1 ==> (#[trigger] outcomes[i]) is Ok
    &&& mono.len() - outcomes.len() * 1024 < 1024 || (outcomes.len() > 0
        && outcomes.last() is Err)
}

proof fn lemma_outputs_are_concatenated<S>(outcomes: Seq<Result<Vec<S>, String>>)
    requires
        forall|i: int| 0 <= i < outcomes.len() ==> (#[trigger] outcomes[i]) is Ok,
    ensures
        outputs(outcomes) == Seq::new(outcomes.len(), |i: int| outcomes[i]->Ok_0@).flatten(),
    decreases outcomes.len(),
{
    let answers = Seq::new(outcomes.len(), |i: int| outcomes[i]->Ok_0@);
    if outcomes.len() == 0 {
        assert(answers =~= Seq::<Seq<S>>::empty());
    } else {
        let before = outcomes.drop_last();
        assert forall|i: int| 0 <= i < before.len() implies (#[trigger] before[i]) is Ok by {
            assert(before[i] == outcomes[i]);
        }
        lemma_outputs_are_concatenated(before);
        let earlier = Seq::new(before.len(), |i: int| before[i]->Ok_0@);
        let last = outcomes[outcomes.len() - 1]->Ok_0@;
        assert(answers =~= earlier.push(last));
        earlier.lemma_flatten_push(last);
    }
}

/// A call on a buffer goes like this: the frames are mixed down to `means`, which
/// follow the samples that were waiting; the chunks of that stream are resampled
/// with these outcomes; and `r` is their output, chunk after chunk, or the error
/// of the last one.
pub open spec fn went_as<
    S,
    R,
    A: Fn(&[S]) -> S,
    F: Fn(R, &[S]) -> (R, Result<Vec<S>, String>),
>(
    functions: (A, F),
    buffer: (nat, Seq<S>),
    before: (Seq<S>, R),
    after: (Seq<S>, R),
    r: Result<Seq<S>, AppErrorView>,
    means: Seq<S>,
    resamplers: Seq<R>,
    outcomes: Seq<Result<Vec<S>, String>>,
) -> bool {
    let mono = before.0 + means;
    &&& mixed_down(functions.0, buffer.0, buffer.1, means)
    &&& resampled_in_order(functions.1, mono, resamplers, outcomes)
    &&& resamplers.first() == before.1
    &&& resamplers.last() == after.1
    &&& after.0 == mono.skip((outcomes.len() * 1024) as int)
    &&& r == if outcomes.len() > 0 && outcomes.last() is Err {
        Err::<Seq<S>, AppErrorView>(
            AppErrorView::Config("resample: "@ + outcomes.last()->Err_0@),
        )
    } else {
        Ok::<Seq<S>, AppErrorView>(
            Seq::new(outcomes.len(), |i: int| outcomes[i]->Ok_0@).flatten(),
        )
    }
}

/// What a call does. Each complete frame of the buffer is averaged, and the means
/// follow the samples that were waiting. Each complete chunk of that stream is
/// resampled once, in order, until one fails. If none fails, the result is what
/// the resampler answered, chunk after chunk and as it was; otherwise it is the
/// error of the chunk that failed. What comes after the chunks taken keeps
/// waiting.
pub proof fn law_what_a_call_does<
    S,
    R,
    A: Fn(&[S]) -> S,
    F: Fn(R, &[S]) -> (R, Result<Vec<S>, String>),
>(
    average: A,
    resample: F,
    channels: nat,
    interleaved: Seq<S>,
    before: (Seq<S>, R),
    after: (Seq<S>, R),
    r: Result<Seq<S>, AppErrorView>,
)
    requires
        channels > 0,
        processed(average, resample, frames(interleaved, channels), before, after, r),
    ensures
        exists|means: Seq<S>, resamplers: Seq<R>, outcomes: Seq<Result<Vec<S>, String>>|
            went_as(
                (average, resample),
                (channels, interleaved),
                before,
                after,
                r,
                means,
                resamplers,
                outcomes,
            ),
{
    let fs = frames(interleaved, channels);
    let run = choose|p: Processing<S, R>|
        p.explains(average, resample, fs, before, after, r);
    let mono = before.0 + run.means;
    lemma_pieces(interleaved, channels);
    assert forall|i: int| 0 <= i < run.means.len() implies called_with(
        average,
        interleaved.subrange(i * channels, (i + 1) * channels),
        #[trigger] run.means[i],
    ) by {
        assert(may_give(average, fs[i], run.means[i]));
    }
    lemma_pieces(mono, RESAMPLER_CHUNK as nat);
    assert forall|i: int| 0 <= i < run.outcomes.len() implies called_from(
        resample,
        run.resamplers[i],
        mono.subrange(i * 1024, (i + 1) * 1024),
        (run.resamplers[i + 1], #[trigger] run.outcomes[i]),
    ) by {
        assert(may_resample(
            resample,
            run.resamplers[i],
            chunks(mono)[i],
            run.resamplers[i + 1],
            run.outcomes[i],
        ));
    }
    assert(mixed_down(average, channels, interleaved, run.means));
    assert(resampled_in_order(resample, mono, run.resamplers, run.outcomes));
    if !(run.outcomes.len() > 0 && run.outcomes.last() is Err) {
        assert forall|i: int| 0 <= i < run.outcomes.len() implies
            (#[trigger] run.outcomes[i]) is Ok by {
            assert(i < run.outcomes.len() - 1 || run.outcomes[i] == run.outcomes.last());
        }
        lemma_outputs_are_concatenated(run.outcomes);
    }
    assert(went_as(
        (average, resample),
        (channels, interleaved),
        before,
        after,
        r,
        run.means,
        run.resamplers,
        run.outcomes,
    ));
}

/// While less than a chunk has come together, a call gives no sample, leaves the
/// resampler alone, and the means wait behind the samples that were waiting.
pub proof fn law_call_without_a_chunk<
    S,
    R,
    A: Fn(&[S]) -> S,
    F: Fn(R, &[S]) -> (R, Result<Vec<S>, String>),
>(
    average: A,
    resample: F,
    channels: nat,
    interleaved: Seq<S>,
    before: (Seq<S>, R),
    after: (Seq<S>, R),
    r: Result<Seq<S>, AppErrorView>,
)
    requires
        channels > 0,
        before.0.len() + interleaved.len() / channels < 1024,
        processed(average, resample, frames(interleaved, channels), before, after, r),
    ensures
        r == Ok::<Seq<S>, AppErrorView>(Seq::empty()),
        after.1 == before.1,
        after.0.len() == before.0.len() + interleaved.len() / channels,
        after.0.take(before.0.len() as int) == before.0,
{
    law_what_a_call_does(average, resample, channels, interleaved, before, after, r);
    let (means, resamplers, outcomes) = choose|
        means: Seq<S>,
        resamplers: Seq<R>,
        outcomes: Seq<Result<Vec<S>, String>>,
    |
        went_as(
            (average, resample),
            (channels, interleaved),
            before,
            after,
            r,
            means,
            resamplers,
            outcomes,
        );
    assert(outcomes.len() == 0);
    assert(Seq::new(0, |i: int| outcomes[i]->Ok_0@) =~= Seq::<Seq<S>>::empty());
    assert(after.0.take(before.0.len() as int) =~= before.0);
}

/// Where one chunk has come together, a call gives exactly what the resampler
/// answers for it, or its error.
pub proof fn law_call_with_one_chunk<
    S,
    R,
    A: Fn(&[S]) -> S,
    F: Fn(R, &[S]) -> (R, Result<Vec<S>, String>),
>(
    average: A,
    resample: F,
    channels: nat,
    interleaved: Seq<S>,
    before: (Seq<S>, R),
    after: (Seq<S>, R),
    r: Result<Seq<S>, AppErrorView>,
)
    requires
        channels > 0,
        1024 <= before.0.len() + interleaved.len() / channels < 2048,
        processed(average, resample, frames(interleaved, channels), before, after, r),
    ensures
        exists|chunk: &[S], outcome: Result<Vec<S>, String>|
            {
                &&& chunk@.len() == 1024
                &&& forall|i: int|
                    0 <= i < before.0.len() && i < 1024 ==> chunk@[i] == #[trigger] before.0[i]
                &&& #[trigger] call_ensures(resample, (before.1, chunk), (after.1, outcome))
                &&& match outcome {
                    Ok(output) => r == Ok::<Seq<S>, AppErrorView>(output@),
                    Err(cause) => r == Err::<Seq<S>, AppErrorView>(
                        AppErrorView::Config("resample: "@ + cause@),
                    ),
                }
            },
{
    law_what_a_call_does(average, resample, channels, interleaved, before, after, r);
    let (means, resamplers, outcomes) = choose|
        means: Seq<S>,
        resamplers: Seq<R>,
        outcomes: Seq<Result<Vec<S>, String>>,
    |
        went_as(
            (average, resample),
            (channels, interleaved),
            before,
            after,
            r,
            means,
            resamplers,
            outcomes,
        );
    let mono = before.0 + means;
    assert(outcomes.len() == 1);
    let outcome = outcomes[0];
    assert(called_from(
        resample,
        resamplers[0],
        mono.subrange(0, 1024),
        (resamplers[1], outcomes[0]),
    ));
    let chunk = choose|given: &[S]|
        given@ == mono.subrange(0, 1024) && #[trigger] call_ensures(
            resample,
            (resamplers[0], given),
            (resamplers[1], outcome),
        );
    assert(call_ensures(resample, (before.1, chunk), (after.1, outcome)));
    if outcome is Ok {
        let answers = Seq::new(1, |i: int| outcomes[i]->Ok_0@);
        answers.lemma_flatten_one_element();
        assert(answers.flatten() == outcome->Ok_0@);
    }
}

} // verus!
