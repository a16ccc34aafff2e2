//! What capture and conversion promise.

use crate::audio::{
    answers, chunks, frames, open_step, Capture, CaptureAction, CaptureActionView, CaptureEvent,
    InputConfig, OpeningPhase, SampleFormat, RESAMPLER_CHUNK,
};
use crate::error::AppErrorView;
use crate::pieces::{law_pieces_append, law_pieces_prefix, lemma_pieces, remainder};
use vstd::arithmetic::div_mod::lemma_fundamental_div_mod;
use vstd::prelude::*;

verus! {

/// A buffer that ends with a complete frame can be split off: the frames of both
/// parts are the frames of the whole.
pub proof fn law_frames_of_two_buffers<S>(first: Seq<S>, second: Seq<S>, channels: nat)
    requires
        channels > 0,
        first.len() % channels == 0,
    ensures
        frames(first + second, channels) == frames(first, channels) + frames(second, channels),
{
    lemma_pieces(first, channels);
    lemma_fundamental_div_mod(first.len() as int, channels as int);
    assert(channels * (first.len() / channels) == (first.len() / channels) * channels)
        by (nonlinear_arith);
    law_pieces_append(first, second, channels);
    assert(remainder(first, channels) + second =~= second);
}

/// How the mono stream is split into calls does not matter: the resampler gets
/// the same chunks in the same order, and the same samples keep waiting.
pub proof fn law_calls_do_not_matter<S>(pending: Seq<S>, first: Seq<S>, second: Seq<S>)
    ensures
        ({
            let waiting = (pending + first).skip(chunks(pending + first).len() * RESAMPLER_CHUNK);
            &&& chunks(pending + (first + second)) == chunks(pending + first) + chunks(
                waiting + second,
            )
            &&& (pending + (first + second)).skip(
                chunks(pending + (first + second)).len() * RESAMPLER_CHUNK,
            ) == (waiting + second).skip(chunks(waiting + second).len() * RESAMPLER_CHUNK)
        }),
{
    assert(pending + (first + second) =~= (pending + first) + second);
    law_pieces_append(pending + first, second, RESAMPLER_CHUNK as nat);
}

/// No mono sample is lost, repeated or reordered on the way to the resampler:
/// after `count` chunks, those chunks and what still waits make up the stream.
pub proof fn law_chunks_cover_the_stream<S>(mono: Seq<S>, count: nat)
    requires
        count <= chunks(mono).len(),
    ensures
        chunks(mono).take(count as int).flatten() + mono.skip(count * RESAMPLER_CHUNK) == mono,
{
    law_pieces_prefix(mono, RESAMPLER_CHUNK as nat, count);
}

/// After all complete chunks are taken, less than a chunk waits.
pub proof fn law_less_than_a_chunk_waits<S>(mono: Seq<S>)
    ensures
        mono.skip(chunks(mono).len() * RESAMPLER_CHUNK).len() < RESAMPLER_CHUNK,
{
    lemma_pieces(mono, RESAMPLER_CHUNK as nat);
}

/// A device with a format that can be captured opens with the rate and the
/// channels of its configuration, if every step succeeds.
pub proof fn law_capture_opens(config: InputConfig)
    requires
        !(config.format is Other),
    ensures
        ({
            let (reading, read) = open_step(
                OpeningPhase::FindingDevice,
                CaptureEvent::DeviceFound,
            );
            let (building, build) = open_step(reading, CaptureEvent::ConfigRead(config));
            let (starting, start) = open_step(building, CaptureEvent::StreamBuilt);
            let (finished, finish) = open_step(starting, CaptureEvent::StreamStarted);
            let capture = Capture {
                sample_rate: config.sample_rate,
                channels: config.channels,
            };
            &&& answers(OpeningPhase::FindingDevice, CaptureEvent::DeviceFound)
            &&& answers(reading, CaptureEvent::ConfigRead(config))
            &&& answers(building, CaptureEvent::StreamBuilt)
            &&& answers(starting, CaptureEvent::StreamStarted)
            &&& build matches CaptureActionView::BuildStream { capture: c, .. } && c == capture
            &&& finish == CaptureActionView::Finish(Ok(capture))
            &&& finished is Finished
        }),
{
}

/// A step that does not succeed ends the opening with an error about the
/// microphone; one that succeeds does not, unless the device has a format that
/// cannot be captured.
pub proof fn law_capture_fails_with_no_microphone(phase: OpeningPhase, event: CaptureEvent)
    requires
        answers(phase, event),
    ensures
        ({
            let (next, action) = open_step(phase, event);
            let refused = event is DeviceMissing || event is ConfigFailed || event is BuildFailed
                || event is StartFailed || (event matches CaptureEvent::ConfigRead(config)
                && config.format is Other);
            &&& refused <==> (action matches CaptureActionView::Finish(Err(error))
                && error is NoMicrophone)
            &&& event is StreamStarted <==> (action matches CaptureActionView::Finish(Ok(_)))
            &&& action is Finish <==> next is Finished
        }),
{
}

/// A stream is built for the format of the device, whatever its rate and its
/// channels, and with that rate and those channels; a format that cannot be
/// captured is refused by its name.
pub proof fn law_stream_has_the_format_of_the_device(config: InputConfig)
    ensures
        ({
            let (next, action) = open_step(
                OpeningPhase::ReadingConfig,
                CaptureEvent::ConfigRead(config),
            );
            &&& config.format is F32 <==> (action matches CaptureActionView::BuildStream {
                format,
                ..
            } && format is F32)
            &&& config.format is I16 <==> (action matches CaptureActionView::BuildStream {
                format,
                ..
            } && format is I16)
            &&& config.format is U16 <==> (action matches CaptureActionView::BuildStream {
                format,
                ..
            } && format is U16)
            &&& action matches CaptureActionView::BuildStream { capture, .. } ==> {
                &&& capture.sample_rate == config.sample_rate
                &&& capture.channels == config.channels
                &&& next == (OpeningPhase::BuildingStream { capture })
            }
            &&& config.format matches SampleFormat::Other(name) ==> {
                &&& next is Finished
                &&& action == CaptureActionView::Finish(
                    Err(AppErrorView::NoMicrophone("unsupported sample format: "@ + name@)),
                )
            }
        }),
{
}

/// The steps of an opening capture other than the choice of the stream: the device
/// is looked up, its configuration read, the stream built and started, and each
/// failure reported with its cause.
pub proof fn law_capture_steps(phase: OpeningPhase, event: CaptureEvent)
    requires
        answers(phase, event),
    ensures
        ({
            let (next, action) = open_step(phase, event);
            let refused = |text: Seq<char>|
                next is Finished && action == CaptureActionView::Finish(
                    Err(AppErrorView::NoMicrophone(text)),
                );
            &&& event is DeviceFound ==> next is ReadingConfig && action is ReadConfig
            &&& event is DeviceMissing ==> refused("no default input device"@)
            &&& event matches CaptureEvent::ConfigFailed(cause) ==> refused(
                "query default config: "@ + cause@,
            )
            &&& event is StreamBuilt ==> {
                &&& phase matches OpeningPhase::BuildingStream { capture }
                &&& next == (OpeningPhase::StartingStream { capture })
                &&& action is StartStream
            }
            &&& event matches CaptureEvent::BuildFailed(cause) ==> refused(
                "build_input_stream: "@ + cause@,
            )
            &&& event is StreamStarted ==> {
                &&& phase matches OpeningPhase::StartingStream { capture }
                &&& next is Finished
                &&& action == CaptureActionView::Finish(Ok(capture))
            }
            &&& event matches CaptureEvent::StartFailed(cause) ==> refused(
                "starting stream: "@ + cause@,
            )
        }),
{
}

/// Each action of an opening capture has two kinds of outcome, and once it has
/// finished there are none.
pub proof fn law_capture_outcomes(phase: OpeningPhase, event: CaptureEvent)
    ensures
        answers(phase, event) <==> {
            ||| phase is FindingDevice && (event is DeviceFound || event is DeviceMissing)
            ||| phase is ReadingConfig && (event is ConfigRead || event is ConfigFailed)
            ||| phase is BuildingStream && (event is StreamBuilt || event is BuildFailed)
            ||| phase is StartingStream && (event is StreamStarted || event is StartFailed)
        },
{
}

/// The content of an action is its parts as they are.
pub proof fn law_capture_action_content(action: CaptureAction)
    ensures
        action is FindDevice <==> action@ is FindDevice,
        action is ReadConfig <==> action@ is ReadConfig,
        action is StartStream <==> action@ is StartStream,
        action matches CaptureAction::BuildStream { format, capture } ==> action@ == (
        CaptureActionView::BuildStream { format, capture }),
        action matches CaptureAction::Finish(Ok(capture)) ==> action@
            == CaptureActionView::Finish(Ok(capture)),
        action matches CaptureAction::Finish(Err(error)) ==> action@
            == CaptureActionView::Finish(Err(error@)),
{
}

} // verus!
