//! What a slicer promises of its calls, for every detector.
//!
//! A detector is asked once for each window, in order, so how the samples are
//! cut into pushes cannot change what it is asked. Where its answers depend on
//! its state and the window alone, equal slicers give equal segments.

use crate::conversion_laws::called_from;
use crate::pieces::{law_pieces_append, lemma_no_piece};
use crate::speech::vad::{
    fresh, idle, judge_all, may_predict, pending_segment, predicted, pushed, unfinished, verdicts,
    windows, SlicerView, VAD_WINDOW,
};
use crate::speech::vad_laws::{
    history, judges_every_window, law_batches_do_not_matter, law_segments_are_pieces_of_the_input,
    law_verdicts_are_the_probabilities, speech_in, Cut, SlicerCall,
};
use vstd::prelude::*;

verus! {

/// Whether what `predict` answers depends on the detector and the window alone.
pub open spec fn answers_by_detector_and_window<S, D, P: Fn(D, &[S]) -> (D, u32)>(
    predict: P,
) -> bool {
    forall|detector: D, window: &[S], a: (D, u32), b: (D, u32)|
        #[trigger] call_ensures(predict, (detector, window), a) && #[trigger] call_ensures(
            predict,
            (detector, window),
            b,
        ) ==> a == b
}

/// Windows predicted in two batches are predicted as in one.
proof fn lemma_predicted_append<S, D, P: Fn(D, &[S]) -> (D, u32)>(
    predict: P,
    first: Seq<Seq<S>>,
    detectors_first: Seq<D>,
    probabilities_first: Seq<u32>,
    second: Seq<Seq<S>>,
    detectors_second: Seq<D>,
    probabilities_second: Seq<u32>,
)
    requires
        predicted(predict, first, detectors_first, probabilities_first),
        predicted(predict, second, detectors_second, probabilities_second),
        detectors_first.last() == detectors_second.first(),
    ensures
        predicted(
            predict,
            first + second,
            detectors_first + detectors_second.drop_first(),
            probabilities_first + probabilities_second,
        ),
        (detectors_first + detectors_second.drop_first()).first() == detectors_first.first(),
        (detectors_first + detectors_second.drop_first()).last() == detectors_second.last(),
{
    let all = first + second;
    let detectors = detectors_first + detectors_second.drop_first();
    let probabilities = probabilities_first + probabilities_second;
    let n = first.len() as int;
    assert forall|i: int| 0 <= i < all.len() implies may_predict(
        predict,
        detectors[i],
        all[i],
        detectors[i + 1],
        #[trigger] probabilities[i],
    ) by {
        if i < n {
            assert(probabilities[i] == probabilities_first[i]);
            assert(detectors[i] == detectors_first[i]);
            assert(detectors[i + 1] == detectors_first[i + 1]);
        } else {
            assert(probabilities[i] == probabilities_second[i - n]);
            assert(detectors[i] == detectors_second[i - n]);
            assert(detectors[i + 1] == detectors_second[i - n + 1]);
        }
    }
}

/// Windows predicted in one batch are predicted as in two.
proof fn lemma_predicted_split<S, D, P: Fn(D, &[S]) -> (D, u32)>(
    predict: P,
    first: Seq<Seq<S>>,
    second: Seq<Seq<S>>,
    detectors: Seq<D>,
    probabilities: Seq<u32>,
)
    requires
        predicted(predict, first + second, detectors, probabilities),
    ensures
        ({
            let n = first.len() as int;
            &&& predicted(predict, first, detectors.take(n + 1), probabilities.take(n))
            &&& predicted(predict, second, detectors.skip(n), probabilities.skip(n))
            &&& detectors.take(n + 1).first() == detectors.first()
            &&& detectors.take(n + 1).last() == detectors.skip(n).first()
            &&& detectors.skip(n).last() == detectors.last()
        }),
{
    let all = first + second;
    let n = first.len() as int;
    let earlier = probabilities.take(n);
    let later = probabilities.skip(n);
    assert forall|i: int| 0 <= i < first.len() implies may_predict(
        predict,
        detectors.take(n + 1)[i],
        first[i],
        detectors.take(n + 1)[i + 1],
        #[trigger] earlier[i],
    ) by {
        assert(earlier[i] == probabilities[i]);
        assert(all[i] == first[i]);
    }
    assert forall|i: int| 0 <= i < second.len() implies may_predict(
        predict,
        detectors.skip(n)[i],
        second[i],
        detectors.skip(n)[i + 1],
        #[trigger] later[i],
    ) by {
        assert(later[i] == probabilities[n + i]);
        assert(all[n + i] == second[i]);
    }
}

/// A detector that is asked about the same windows from the same state gives the
/// same probabilities and goes through the same states.
pub proof fn law_predictions_are_determined<S, D, P: Fn(D, &[S]) -> (D, u32)>(
    predict: P,
    judged: Seq<Seq<S>>,
    a: Seq<D>,
    probabilities_a: Seq<u32>,
    b: Seq<D>,
    probabilities_b: Seq<u32>,
)
    requires
        answers_by_detector_and_window(predict),
        predicted(predict, judged, a, probabilities_a),
        predicted(predict, judged, b, probabilities_b),
        a.first() == b.first(),
    ensures
        a == b,
        probabilities_a == probabilities_b,
{
    assert forall|i: int| 0 <= i < judged.len() implies a[i + 1] == b[i + 1] && (
    #[trigger] probabilities_a[i]) == probabilities_b[i] by {
        lemma_predictions_agree(predict, judged, a, probabilities_a, b, probabilities_b, i);
    }
    assert forall|i: int| 0 <= i < a.len() implies a[i] == b[i] by {
        if i > 0 {
            assert(probabilities_a[i - 1] == probabilities_b[i - 1]);
            assert(a[(i - 1) + 1] == b[(i - 1) + 1]);
        }
    }
    assert(a =~= b);
    assert(probabilities_a =~= probabilities_b);
}

/// Predictions from the same state agree on window `i` and the state after it.
proof fn lemma_predictions_agree<S, D, P: Fn(D, &[S]) -> (D, u32)>(
    predict: P,
    judged: Seq<Seq<S>>,
    a: Seq<D>,
    probabilities_a: Seq<u32>,
    b: Seq<D>,
    probabilities_b: Seq<u32>,
    i: int,
)
    requires
        answers_by_detector_and_window(predict),
        predicted(predict, judged, a, probabilities_a),
        predicted(predict, judged, b, probabilities_b),
        a.first() == b.first(),
        0 <= i < judged.len(),
    ensures
        a[i + 1] == b[i + 1],
        probabilities_a[i] == probabilities_b[i],
    decreases i,
{
    if i > 0 {
        lemma_predictions_agree(predict, judged, a, probabilities_a, b, probabilities_b, i - 1);
    }
    assert(a[i] == b[i]);
    assert(may_predict(predict, a[i], judged[i], a[i + 1], probabilities_a[i]));
    assert(may_predict(predict, b[i], judged[i], b[i + 1], probabilities_b[i]));
    let x = choose|samples: &[S]|
        samples@ == judged[i] && #[trigger] call_ensures(
            predict,
            (a[i], samples),
            (a[i + 1], probabilities_a[i]),
        );
    let y = choose|samples: &[S]|
        samples@ == judged[i] && #[trigger] call_ensures(
            predict,
            (b[i], samples),
            (b[i + 1], probabilities_b[i]),
        );
    assert(x =~= y);
}

/// How windows are cut into batches does not matter to the verdicts: those of all
/// windows are those of the two batches, one after the other, and the detector
/// ends in the same state. Its answers depend on its state and the window.
pub proof fn law_verdicts_of_two_batches<S, D, P: Fn(D, &[S]) -> (D, u32)>(
    predict: P,
    first: Seq<Seq<S>>,
    detectors_first: Seq<D>,
    probabilities_first: Seq<u32>,
    second: Seq<Seq<S>>,
    detectors_second: Seq<D>,
    probabilities_second: Seq<u32>,
    detectors: Seq<D>,
    probabilities: Seq<u32>,
)
    requires
        answers_by_detector_and_window(predict),
        predicted(predict, first, detectors_first, probabilities_first),
        predicted(predict, second, detectors_second, probabilities_second),
        predicted(predict, first + second, detectors, probabilities),
        detectors_first.last() == detectors_second.first(),
        detectors.first() == detectors_first.first(),
    ensures
        verdicts(probabilities) == verdicts(probabilities_first) + verdicts(probabilities_second),
        detectors.last() == detectors_second.last(),
{
    lemma_predicted_append(
        predict,
        first,
        detectors_first,
        probabilities_first,
        second,
        detectors_second,
        probabilities_second,
    );
    law_predictions_are_determined(
        predict,
        first + second,
        detectors,
        probabilities,
        detectors_first + detectors_second.drop_first(),
        probabilities_first + probabilities_second,
    );
    assert(verdicts(probabilities) =~= verdicts(probabilities_first) + verdicts(
        probabilities_second,
    ));
}

/// Pushing two batches one after the other does what pushing both at once may do.
proof fn lemma_two_pushes_are_one<S, D, P: Fn(D, &[S]) -> (D, u32)>(
    predict: P,
    first: Seq<S>,
    second: Seq<S>,
    before: (SlicerView<S>, D),
    middle: (SlicerView<S>, D),
    completed_first: Seq<Seq<S>>,
    after: (SlicerView<S>, D),
    completed_second: Seq<Seq<S>>,
)
    requires
        pushed(predict, first, before, middle, completed_first),
        pushed(predict, second, middle, after, completed_second),
    ensures
        pushed(predict, first + second, before, after, completed_first + completed_second),
{
    let held = before.0.window;
    let fs = windows(held + first);
    let gs = windows(middle.0.window + second);
    let (detectors_first, probabilities_first) = choose|d: Seq<D>, p: Seq<u32>|
        {
            &&& #[trigger] predicted(predict, windows(before.0.window + first), d, p)
            &&& d.first() == before.1
            &&& d.last() == middle.1
            &&& (middle.0.collecting, completed_first) == judge_all(
                before.0.collecting,
                windows(before.0.window + first),
                verdicts(p),
            )
        };
    let (detectors_second, probabilities_second) = choose|d: Seq<D>, p: Seq<u32>|
        {
            &&& #[trigger] predicted(predict, windows(middle.0.window + second), d, p)
            &&& d.first() == middle.1
            &&& d.last() == after.1
            &&& (after.0.collecting, completed_second) == judge_all(
                middle.0.collecting,
                windows(middle.0.window + second),
                verdicts(p),
            )
        };
    lemma_predicted_append(
        predict,
        fs,
        detectors_first,
        probabilities_first,
        gs,
        detectors_second,
        probabilities_second,
    );
    assert(held + (first + second) =~= (held + first) + second);
    law_pieces_append(held + first, second, VAD_WINDOW as nat);
    law_batches_do_not_matter(
        held,
        before.0.collecting,
        first,
        second,
        verdicts(probabilities_first),
        verdicts(probabilities_second),
    );
    let probabilities = probabilities_first + probabilities_second;
    assert(verdicts(probabilities) =~= verdicts(probabilities_first) + verdicts(
        probabilities_second,
    ));
    assert(predicted(
        predict,
        windows(before.0.window + (first + second)),
        detectors_first + detectors_second.drop_first(),
        probabilities,
    ));
}

/// What pushing two batches at once does, pushing them one after the other may
/// do.
proof fn lemma_one_push_is_two<S, D, P: Fn(D, &[S]) -> (D, u32)>(
    predict: P,
    first: Seq<S>,
    second: Seq<S>,
    before: (SlicerView<S>, D),
    after: (SlicerView<S>, D),
    completed: Seq<Seq<S>>,
) -> (r: ((SlicerView<S>, D), Seq<Seq<S>>, Seq<Seq<S>>))
    requires
        pushed(predict, first + second, before, after, completed),
    ensures
        pushed(predict, first, before, r.0, r.1),
        pushed(predict, second, r.0, after, r.2),
        completed == r.1 + r.2,
{
    let held = before.0.window;
    let fs = windows(held + first);
    let gs = windows(unfinished(held + first) + second);
    let n = fs.len() as int;
    let (detectors, probabilities) = choose|d: Seq<D>, p: Seq<u32>|
        {
            &&& #[trigger] predicted(predict, windows(before.0.window + (first + second)), d, p)
            &&& d.first() == before.1
            &&& d.last() == after.1
            &&& (after.0.collecting, completed) == judge_all(
                before.0.collecting,
                windows(before.0.window + (first + second)),
                verdicts(p),
            )
        };
    assert(held + (first + second) =~= (held + first) + second);
    law_pieces_append(held + first, second, VAD_WINDOW as nat);
    assert(windows(held + (first + second)) == fs + gs);
    lemma_predicted_split(predict, fs, gs, detectors, probabilities);
    let earlier = verdicts(probabilities.take(n));
    let later = verdicts(probabilities.skip(n));
    assert(verdicts(probabilities) =~= earlier + later);
    law_batches_do_not_matter(held, before.0.collecting, first, second, earlier, later);
    let (collecting, completed_first) = judge_all(before.0.collecting, fs, earlier);
    let (end, completed_second) = judge_all(collecting, gs, later);
    let middle = (
        SlicerView { window: unfinished(held + first), collecting },
        detectors.skip(n).first(),
    );
    assert(predicted(
        predict,
        windows(before.0.window + first),
        detectors.take(n + 1),
        probabilities.take(n),
    ));
    assert(predicted(
        predict,
        windows(middle.0.window + second),
        detectors.skip(n),
        probabilities.skip(n),
    ));
    (middle, completed_first, completed_second)
}

/// How a stream is cut into pushes does not matter, whatever the detector: what
/// pushing two batches at once may do is what pushing one after the other may
/// do, with the segments of the second following those of the first.
pub proof fn law_one_push_is_two_pushes<S, D, P: Fn(D, &[S]) -> (D, u32)>(
    predict: P,
    first: Seq<S>,
    second: Seq<S>,
    before: (SlicerView<S>, D),
    after: (SlicerView<S>, D),
    completed: Seq<Seq<S>>,
)
    ensures
        pushed(predict, first + second, before, after, completed) <==> exists|
            middle: (SlicerView<S>, D),
            completed_first: Seq<Seq<S>>,
            completed_second: Seq<Seq<S>>,
        |
            {
                &&& #[trigger] pushed(predict, first, before, middle, completed_first)
                &&& #[trigger] pushed(predict, second, middle, after, completed_second)
                &&& completed == completed_first + completed_second
            },
{
    if pushed(predict, first + second, before, after, completed) {
        let (middle, completed_first, completed_second) = lemma_one_push_is_two(
            predict,
            first,
            second,
            before,
            after,
            completed,
        );
        assert(pushed(predict, first, before, middle, completed_first));
        assert(pushed(predict, second, middle, after, completed_second));
    }
    assert forall|
        middle: (SlicerView<S>, D),
        completed_first: Seq<Seq<S>>,
        completed_second: Seq<Seq<S>>,
    |
        #[trigger] pushed(predict, first, before, middle, completed_first) && #[trigger] pushed(
            predict,
            second,
            middle,
            after,
            completed_second,
        ) && completed == completed_first + completed_second implies pushed(
        predict,
        first + second,
        before,
        after,
        completed,
    ) by {
        lemma_two_pushes_are_one(
            predict,
            first,
            second,
            before,
            middle,
            completed_first,
            after,
            completed_second,
        );
    }
}

/// A push is determined by the slicer, its detector and the samples, where the
/// detector's answers depend on its state and the window.
pub proof fn law_pushes_are_determined<S, D, P: Fn(D, &[S]) -> (D, u32)>(
    predict: P,
    samples: Seq<S>,
    before: (SlicerView<S>, D),
    after_a: (SlicerView<S>, D),
    completed_a: Seq<Seq<S>>,
    after_b: (SlicerView<S>, D),
    completed_b: Seq<Seq<S>>,
)
    requires
        answers_by_detector_and_window(predict),
        pushed(predict, samples, before, after_a, completed_a),
        pushed(predict, samples, before, after_b, completed_b),
    ensures
        after_a == after_b,
        completed_a == completed_b,
{
    let (a, probabilities_a) = choose|d: Seq<D>, p: Seq<u32>|
        {
            &&& #[trigger] predicted(predict, windows(before.0.window + samples), d, p)
            &&& d.first() == before.1
            &&& d.last() == after_a.1
            &&& (after_a.0.collecting, completed_a) == judge_all(
                before.0.collecting,
                windows(before.0.window + samples),
                verdicts(p),
            )
        };
    let (b, probabilities_b) = choose|d: Seq<D>, p: Seq<u32>|
        {
            &&& #[trigger] predicted(predict, windows(before.0.window + samples), d, p)
            &&& d.first() == before.1
            &&& d.last() == after_b.1
            &&& (after_b.0.collecting, completed_b) == judge_all(
                before.0.collecting,
                windows(before.0.window + samples),
                verdicts(p),
            )
        };
    law_predictions_are_determined(
        predict,
        windows(before.0.window + samples),
        a,
        probabilities_a,
        b,
        probabilities_b,
    );
}

/// How a stream is cut into pushes does not matter: two slicers in the same state,
/// detectors included, give the same segments in the same order and end in the
/// same state, whether one gets the samples in two pushes or the other in one.
/// The detector's answers depend on its state and the window.
pub proof fn law_pushes_do_not_matter<S, D, P: Fn(D, &[S]) -> (D, u32)>(
    predict: P,
    first: Seq<S>,
    second: Seq<S>,
    before: (SlicerView<S>, D),
    middle: (SlicerView<S>, D),
    completed_first: Seq<Seq<S>>,
    after: (SlicerView<S>, D),
    completed_second: Seq<Seq<S>>,
    after_whole: (SlicerView<S>, D),
    completed: Seq<Seq<S>>,
)
    requires
        answers_by_detector_and_window(predict),
        pushed(predict, first, before, middle, completed_first),
        pushed(predict, second, middle, after, completed_second),
        pushed(predict, first + second, before, after_whole, completed),
    ensures
        completed == completed_first + completed_second,
        after_whole == after,
{
    lemma_two_pushes_are_one(
        predict,
        first,
        second,
        before,
        middle,
        completed_first,
        after,
        completed_second,
    );
    law_pushes_are_determined(
        predict,
        first + second,
        before,
        after_whole,
        completed,
        after,
        completed_first + completed_second,
    );
}

/// What a slicer is given: samples, or the order to give up the segment in
/// progress.
pub enum Request<S> {
    Push(Seq<S>),
    Flush,
}

/// A request may take the slicer and its detector from `before` to `after` and
/// give these segments.
pub open spec fn answered<S, D, P: Fn(D, &[S]) -> (D, u32)>(
    predict: P,
    request: Request<S>,
    before: (SlicerView<S>, D),
    after: (SlicerView<S>, D),
    given: Seq<Seq<S>>,
) -> bool {
    match request {
        Request::Push(samples) => pushed(predict, samples, before, after, given),
        Request::Flush => {
            &&& after == (SlicerView { collecting: idle(), ..before.0 }, before.1)
            &&& given == match pending_segment(before.0.collecting) {
                Some(segment) => seq![segment],
                None => Seq::empty(),
            }
        },
    }
}

/// Requests may take the slicer and its detector through these states and give
/// these segments, request by request.
pub open spec fn all_answered<S, D, P: Fn(D, &[S]) -> (D, u32)>(
    predict: P,
    requests: Seq<Request<S>>,
    states: Seq<(SlicerView<S>, D)>,
    given: Seq<Seq<Seq<S>>>,
) -> bool {
    &&& given.len() == requests.len()
    &&& states.len() == requests.len() + 1
    &&& forall|i: int|
        0 <= i < requests.len() ==> answered(
            predict,
            requests[i],
            states[i],
            states[i + 1],
            #[trigger] given[i],
        )
}

/// Slicers in the same state, detectors included, answer all later pushes and
/// flushes alike. The detector's answers depend on its state and the window.
pub proof fn law_equal_slicers_answer_alike<S, D, P: Fn(D, &[S]) -> (D, u32)>(
    predict: P,
    requests: Seq<Request<S>>,
    a: Seq<(SlicerView<S>, D)>,
    given_a: Seq<Seq<Seq<S>>>,
    b: Seq<(SlicerView<S>, D)>,
    given_b: Seq<Seq<Seq<S>>>,
)
    requires
        answers_by_detector_and_window(predict),
        all_answered(predict, requests, a, given_a),
        all_answered(predict, requests, b, given_b),
        a.first() == b.first(),
    ensures
        a == b,
        given_a == given_b,
    decreases requests.len(),
{
    if requests.len() > 0 {
        let last = requests.len() - 1;
        assert(all_answered(predict, requests.drop_last(), a.drop_last(), given_a.drop_last()))
            by {
            assert forall|i: int| 0 <= i < last implies answered(
                predict,
                requests.drop_last()[i],
                a.drop_last()[i],
                a.drop_last()[i + 1],
                #[trigger] given_a.drop_last()[i],
            ) by {
                assert(given_a.drop_last()[i] == given_a[i]);
            }
        }
        assert(all_answered(predict, requests.drop_last(), b.drop_last(), given_b.drop_last()))
            by {
            assert forall|i: int| 0 <= i < last implies answered(
                predict,
                requests.drop_last()[i],
                b.drop_last()[i],
                b.drop_last()[i + 1],
                #[trigger] given_b.drop_last()[i],
            ) by {
                assert(given_b.drop_last()[i] == given_b[i]);
            }
        }
        law_equal_slicers_answer_alike(
            predict,
            requests.drop_last(),
            a.drop_last(),
            given_a.drop_last(),
            b.drop_last(),
            given_b.drop_last(),
        );
        assert(a.drop_last()[last] == b.drop_last()[last]);
        assert(answered(predict, requests[last], a[last], a[last + 1], given_a[last]));
        assert(answered(predict, requests[last], b[last], b[last + 1], given_b[last]));
        if let Request::Push(samples) = requests[last] {
            law_pushes_are_determined(
                predict,
                samples,
                a[last],
                a[last + 1],
                given_a[last],
                b[last + 1],
                given_b[last],
            );
        }
        assert(a =~= a.drop_last().push(a[last + 1]));
        assert(b =~= b.drop_last().push(b[last + 1]));
        assert(given_a =~= given_a.drop_last().push(given_a[last]));
        assert(given_b =~= given_b.drop_last().push(given_b[last]));
    } else {
        assert(a =~= b);
        assert(given_a =~= given_b);
    }
}

/// Whether `call` is `request` with verdicts for the windows that it completes.
pub open spec fn judged_request<S>(request: Request<S>, call: SlicerCall<S>) -> bool {
    match request {
        Request::Push(samples) => call matches SlicerCall::Push { samples: pushed, speech }
            && pushed == samples,
        Request::Flush => call is Flush,
    }
}

/// All samples that requests push, one after the other.
pub open spec fn input_of<S>(requests: Seq<Request<S>>) -> Seq<S>
    decreases requests.len(),
{
    if requests.len() == 0 {
        Seq::empty()
    } else {
        match requests.last() {
            Request::Push(samples) => input_of(requests.drop_last()) + samples,
            Request::Flush => input_of(requests.drop_last()),
        }
    }
}

/// Whether one of the requests is a flush that comes after `count` windows.
pub open spec fn flushed_after<S>(requests: Seq<Request<S>>, count: nat) -> bool {
    exists|j: int|
        0 <= j < requests.len() && (#[trigger] requests[j]) is Flush && input_of(
            requests.take(j),
        ).len() / 512 == count
}

/// `predict` was asked once for each group of 512 samples of the stream, in order,
/// took the detector through these states and answered with these probabilities.
pub open spec fn asked_in_order<S, D, P: Fn(D, &[S]) -> (D, u32)>(
    predict: P,
    stream: Seq<S>,
    detectors: Seq<D>,
    probabilities: Seq<u32>,
) -> bool {
    &&& probabilities.len() == stream.len() / 512
    &&& detectors.len() == probabilities.len() + 1
    &&& forall|i: int|
        0 <= i < probabilities.len() ==> called_from(
            predict,
            detectors[i],
            stream.subrange(i * 512, (i + 1) * 512),
            (detectors[i + 1], #[trigger] probabilities[i]),
        )
}

proof fn lemma_asked_in_order<S, D, P: Fn(D, &[S]) -> (D, u32)>(
    predict: P,
    stream: Seq<S>,
    detectors: Seq<D>,
    probabilities: Seq<u32>,
)
    requires
        predicted(predict, windows(stream), detectors, probabilities),
    ensures
        asked_in_order(predict, stream, detectors, probabilities),
{
    assert forall|i: int| 0 <= i < probabilities.len() implies called_from(
        predict,
        detectors[i],
        stream.subrange(i * 512, (i + 1) * 512),
        (detectors[i + 1], #[trigger] probabilities[i]),
    ) by {
        assert(may_predict(
            predict,
            detectors[i],
            windows(stream)[i],
            detectors[i + 1],
            probabilities[i],
        ));
    }
}

/// What a push does. The stream is what was held and then the samples. The
/// detector is asked about each complete window of it, once and in order. The
/// windows are judged one after the other, each as speech exactly when its
/// probability is above 1/2, and what does not fill a window is held.
pub proof fn law_what_a_push_does<S, D, P: Fn(D, &[S]) -> (D, u32)>(
    predict: P,
    samples: Seq<S>,
    before: (SlicerView<S>, D),
    after: (SlicerView<S>, D),
    completed: Seq<Seq<S>>,
)
    requires
        pushed(predict, samples, before, after, completed),
    ensures
        ({
            let stream = before.0.window + samples;
            let count = stream.len() / 512;
            &&& after.0.window == stream.skip((count * 512) as int)
            &&& exists|detectors: Seq<D>, probabilities: Seq<u32>|
                {
                    &&& #[trigger] asked_in_order(predict, stream, detectors, probabilities)
                    &&& detectors.first() == before.1
                    &&& detectors.last() == after.1
                    &&& (after.0.collecting, completed) == judge_all(
                        before.0.collecting,
                        Seq::new(count, |i: int| stream.subrange(i * 512, (i + 1) * 512)),
                        speech_in(probabilities),
                    )
                }
        }),
{
    let stream = before.0.window + samples;
    let count = stream.len() / 512;
    let (detectors, probabilities) = choose|d: Seq<D>, p: Seq<u32>|
        {
            &&& #[trigger] predicted(predict, windows(before.0.window + samples), d, p)
            &&& d.first() == before.1
            &&& d.last() == after.1
            &&& (after.0.collecting, completed) == judge_all(
                before.0.collecting,
                windows(before.0.window + samples),
                verdicts(p),
            )
        };
    lemma_asked_in_order(predict, stream, detectors, probabilities);
    law_verdicts_are_the_probabilities(probabilities);
    assert(windows(stream) =~= Seq::new(
        count,
        |i: int| stream.subrange(i * 512, (i + 1) * 512),
    ));
    assert(verdicts(probabilities) =~= speech_in(probabilities));
}

/// The calls that a list of answers comes from, and what the detector was asked.
proof fn lemma_answers_are_a_history<S, D, P: Fn(D, &[S]) -> (D, u32)>(
    predict: P,
    requests: Seq<Request<S>>,
    states: Seq<(SlicerView<S>, D)>,
    given: Seq<Seq<Seq<S>>>,
) -> (r: (Seq<SlicerCall<S>>, Seq<D>, Seq<u32>))
    requires
        all_answered(predict, requests, states, given),
        states.first().0 == fresh::<S>(),
    ensures
        r.0.len() == requests.len(),
        forall|i: int| 0 <= i < r.0.len() ==> judged_request(requests[i], #[trigger] r.0[i]),
        judges_every_window(r.0),
        history(r.0).state == states.last().0,
        history(r.0).given == given.flatten(),
        history(r.0).input == input_of(requests),
        history(r.0).speech == verdicts(r.2),
        predicted(predict, windows(history(r.0).input), r.1, r.2),
        r.1.first() == states.first().1,
        r.1.last() == states.last().1,
        forall|k: int|
            0 <= k < history(r.0).flushed.len() ==> (
            #[trigger] history(r.0).flushed[k] matches Some(count) ==> flushed_after(
                requests,
                count,
            )),
    decreases requests.len(),
{
    if requests.len() == 0 {
        assert(given =~= Seq::<Seq<Seq<S>>>::empty());
        let calls = Seq::<SlicerCall<S>>::empty();
        lemma_no_piece(history(calls).input, VAD_WINDOW as nat);
        assert(history(calls).speech =~= verdicts(Seq::<u32>::empty()));
        (calls, seq![states.first().1], Seq::empty())
    } else {
        let last = requests.len() - 1;
        let earlier = given.drop_last();
        let fewer = requests.drop_last();
        assert(all_answered(predict, fewer, states.drop_last(), earlier)) by {
            assert forall|i: int| 0 <= i < last implies answered(
                predict,
                fewer[i],
                states.drop_last()[i],
                states.drop_last()[i + 1],
                #[trigger] earlier[i],
            ) by {
                assert(earlier[i] == given[i]);
            }
        }
        let (before, detectors, probabilities) = lemma_answers_are_a_history(
            predict,
            fewer,
            states.drop_last(),
            earlier,
        );
        let past = history(before);
        law_segments_are_pieces_of_the_input(before);
        assert(answered(predict, requests[last], states[last], states[last + 1], given[last]));
        let r = match requests[last] {
            Request::Push(samples) => {
                let (d, p) = choose|d: Seq<D>, p: Seq<u32>|
                    {
                        &&& #[trigger] predicted(
                            predict,
                            windows(states[last].0.window + samples),
                            d,
                            p,
                        )
                        &&& d.first() == states[last].1
                        &&& d.last() == states[last + 1].1
                        &&& (states[last + 1].0.collecting, given[last]) == judge_all(
                            states[last].0.collecting,
                            windows(states[last].0.window + samples),
                            verdicts(p),
                        )
                    };
                let call = SlicerCall::Push { samples, speech: verdicts(p) };
                law_pieces_append(past.input, samples, VAD_WINDOW as nat);
                lemma_predicted_append(
                    predict,
                    windows(past.input),
                    detectors,
                    probabilities,
                    windows(past.state.window + samples),
                    d,
                    p,
                );
                assert(verdicts(probabilities + p) =~= verdicts(probabilities) + verdicts(p));
                (before.push(call), detectors + d.drop_first(), probabilities + p)
            },
            Request::Flush => (before.push(SlicerCall::Flush), detectors, probabilities),
        };
        let calls = r.0;
        assert(calls.drop_last() =~= before);
        assert(given =~= earlier.push(given[last]));
        earlier.lemma_flatten_push(given[last]);
        assert(history(calls).given =~= given.flatten());
        assert forall|i: int| 0 <= i < calls.len() implies judged_request(
            requests[i],
            #[trigger] calls[i],
        ) by {
            if i < last {
                assert(calls[i] == before[i]);
                assert(fewer[i] == requests[i]);
            }
        }
        assert forall|k: int| 0 <= k < history(calls).flushed.len() implies (
        #[trigger] history(calls).flushed[k] matches Some(count) ==> flushed_after(
            requests,
            count,
        )) by {
            if k < past.flushed.len() {
                assert(history(calls).flushed[k] == past.flushed[k]);
                if let Some(count) = past.flushed[k] {
                    let j = choose|j: int|
                        0 <= j < fewer.len() && (#[trigger] fewer[j]) is Flush && input_of(
                            fewer.take(j),
                        ).len() / 512 == count;
                    assert(requests[j] is Flush);
                    assert(requests.take(j) =~= fewer.take(j));
                }
            } else if requests[last] is Flush {
                assert(requests.take(last) =~= fewer);
                assert(requests[last] is Flush);
            }
        }
        r
    }
}

/// Whatever a slicer that has seen nothing answers to pushes and flushes is the
/// history of those calls, with the verdicts that its detector gave: so what
/// holds of every history holds of the segments that the slicer gives.
pub proof fn law_answers_are_a_history<S, D, P: Fn(D, &[S]) -> (D, u32)>(
    predict: P,
    requests: Seq<Request<S>>,
    states: Seq<(SlicerView<S>, D)>,
    given: Seq<Seq<Seq<S>>>,
)
    requires
        all_answered(predict, requests, states, given),
        states.first().0 == fresh::<S>(),
    ensures
        exists|calls: Seq<SlicerCall<S>>|
            {
                &&& calls.len() == requests.len()
                &&& forall|i: int|
                    0 <= i < calls.len() ==> judged_request(requests[i], #[trigger] calls[i])
                &&& #[trigger] judges_every_window(calls)
                &&& history(calls).state == states.last().0
                &&& history(calls).given == given.flatten()
            },
{
    let (calls, detectors, probabilities) = lemma_answers_are_a_history(
        predict,
        requests,
        states,
        given,
    );
    assert(judges_every_window(calls));
}

/// What a slicer gives, from its first request on, however the samples are cut
/// into pushes and whatever the detector: it is asked about each window of the
/// whole input, once and in order. A window is speech exactly when its
/// probability is above 1/2. The segments given are the runs of windows that this
/// and the flushes mark out, as pieces of the input; the run still open is the
/// segment in progress; and what does not fill a window is held.
pub proof fn law_what_a_slicer_gives<S, D, P: Fn(D, &[S]) -> (D, u32)>(
    predict: P,
    requests: Seq<Request<S>>,
    states: Seq<(SlicerView<S>, D)>,
    given: Seq<Seq<Seq<S>>>,
)
    requires
        all_answered(predict, requests, states, given),
        states.first().0.window.len() == 0,
        states.first().0.collecting.segment.len() == 0,
        states.first().0.collecting.silence == 0,
        !states.first().0.collecting.open,
    ensures
        ({
            let input = input_of(requests);
            let count = input.len() / 512;
            let state = states.last().0;
            &&& state.window == input.skip((count * 512) as int)
            &&& exists|
                detectors: Seq<D>,
                probabilities: Seq<u32>,
                c: Cut,
                flushed: Seq<Option<nat>>,
            |
                {
                    &&& #[trigger] asked_in_order(predict, input, detectors, probabilities)
                    &&& detectors.first() == states.first().1
                    &&& detectors.last() == states.last().1
                    &&& #[trigger] c.is_cut_with_flushes(speech_in(probabilities), flushed)
                    &&& forall|k: int|
                        0 <= k < flushed.len() ==> (
                        #[trigger] flushed[k] matches Some(windows) ==> flushed_after(
                            requests,
                            windows,
                        ))
                    &&& given.flatten() == Seq::new(
                        c.closed.len(),
                        |k: int| input.subrange(c.closed[k].start * 512, c.closed[k].end * 512),
                    )
                    &&& match c.open {
                        Some(start) => state.collecting.open && state.collecting.segment
                            == input.subrange(start * 512, (count * 512) as int),
                        None => !state.collecting.open,
                    }
                }
        }),
{
    assert(states.first().0.window =~= Seq::<S>::empty());
    assert(states.first().0.collecting.segment =~= Seq::<S>::empty());
    let (calls, detectors, probabilities) = lemma_answers_are_a_history(
        predict,
        requests,
        states,
        given,
    );
    let past = history(calls);
    let input = input_of(requests);
    let count = input.len() / 512;
    law_segments_are_pieces_of_the_input(calls);
    let c = choose|c: Cut|
        {
            &&& c.is_cut_with_flushes(past.speech, past.flushed)
            &&& past.given == #[trigger] c.segments(past.input)
            &&& pending_segment(past.state.collecting) == c.pending(past.input)
        };
    lemma_asked_in_order(predict, input, detectors, probabilities);
    law_verdicts_are_the_probabilities(probabilities);
    assert(past.speech =~= speech_in(probabilities));
    assert(c.is_cut_with_flushes(speech_in(probabilities), past.flushed));
    assert(given.flatten() =~= Seq::new(
        c.closed.len(),
        |k: int| input.subrange(c.closed[k].start * 512, c.closed[k].end * 512),
    ));
}

} // verus!
