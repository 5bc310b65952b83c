//! What a fragmented MP4 remembers, and what a run does at each step.

use super::boxes::{lemma_big_endian, number_at};
use super::samples::since;
use crate::error::{Error, ErrorView};
use crate::fidelity::watched;
use crate::fragment_course::{first_dts, fragments_size, longest_ms, SegmentCourse};
use crate::fragment_run::{
    after_conversion, after_demux, after_durations, after_fragment, after_header, after_index,
    demux_outcome, durations_outcome, failed, proceeding, run_invariant, size_outcome,
    tracks_decided, FragmentPhase, FragmentRun, FragmentStep, FragmentStepView, RunView,
};
use crate::fragments::{
    base_of, close_error, fresh_session, index_views, observed, reached_ms, samples_by_track,
    started, with_fragment, FragmentSession, SessionView,
};
use crate::samples::{conversion_error, timed, track_samples};
use crate::tracks::{first_tracks, first_video_parameters, layout_of};
use crate::types::{
    report_outcome, sample_views, track_views, DemuxOutput, DemuxView, Mp4Sample, PacketView,
    SampleView, TfraEntry, TrackView, TransmuxReport, VideoParameters,
};
use vstd::prelude::*;

verus! {

/// The value of a session has all of it.
pub proof fn lemma_session_value(session: FragmentSession)
    ensures
        session@.base_dts_90k == session.base_dts_90k,
        session.tracks is None <==> session@.tracks is None,
        session.tracks matches Some(tracks) ==> session@.tracks == Some(track_views(tracks@)),
        session@.layout == session.layout,
        session@.tfra.len() == session.tfra@.len(),
        forall|t: int|
            0 <= t < session.tfra@.len() ==> #[trigger] session@.tfra[t] == session.tfra@[t]@,
        session@.max_duration_ms == session.max_duration_ms,
        session@.bytes_written == session.bytes_written,
{
}

/// Lists of entries and of samples stand where the tracks stand.
pub proof fn lemma_lists_by_track(tfra: Seq<Vec<TfraEntry>>, samples: Seq<Vec<Mp4Sample>>)
    ensures
        index_views(tfra).len() == tfra.len(),
        forall|t: int| 0 <= t < tfra.len() ==> #[trigger] index_views(tfra)[t] == tfra[t]@,
        samples_by_track(samples).len() == samples.len(),
        forall|t: int|
            0 <= t < samples.len() ==> #[trigger] samples_by_track(samples)[t] == sample_views(
                samples[t]@,
            ),
{
}

/// The value of a run has all of it.
pub proof fn lemma_run_value(run: FragmentRun)
    ensures
        run@.session == run.session@,
        run@.segment_count == run.segment_count,
        run@.current == run.current,
        run@.phase == run.phase,
        run.demuxed is None <==> run@.demuxed is None,
        run.demuxed matches Some(demuxed) ==> run@.demuxed == Some(demuxed@),
        run.tracks is None <==> run@.tracks is None,
        run.tracks matches Some(tracks) ==> run@.tracks == Some(track_views(tracks@)),
        run@.samples == samples_by_track(run.samples@),
        run@.fidelity == run.fidelity@,
{
}

/// The value of a step says which step it is and what it is about.
pub proof fn lemma_step_value(
    index: usize,
    parameters: VideoParameters,
    result: Result<TransmuxReport, Error>,
)
    ensures
        FragmentStep::ReadSegment(index)@ == FragmentStepView::ReadSegment(index),
        FragmentStep::CheckParameters(parameters)@ == FragmentStepView::CheckParameters(
            parameters@,
        ),
        FragmentStep::WriteHeader@ == FragmentStepView::WriteHeader,
        FragmentStep::ConvertPackets@ == FragmentStepView::ConvertPackets,
        FragmentStep::FindDurations(index)@ == FragmentStepView::FindDurations(index),
        FragmentStep::WriteFragment@ == FragmentStepView::WriteFragment,
        FragmentStep::WriteIndex@ == FragmentStepView::WriteIndex,
        FragmentStep::Finished(result)@ == FragmentStepView::Finished(report_outcome(result)),
{
}

/// What is handed in as an outcome is what counts.
pub proof fn lemma_outcomes(
    size: usize,
    durations: Vec<u32>,
    demuxed: DemuxOutput,
    error: Error,
)
    ensures
        size_outcome(Ok(size)) == Ok::<usize, ErrorView>(size),
        size_outcome(Err(error)) == Err::<usize, ErrorView>(error@),
        durations_outcome(Ok(durations)) == Ok::<Seq<u32>, ErrorView>(durations@),
        durations_outcome(Err(error)) == Err::<Seq<u32>, ErrorView>(error@),
        demux_outcome(Ok(demuxed)) == Ok::<DemuxView, ErrorView>(demuxed@),
        demux_outcome(Err(error)) == Err::<DemuxView, ErrorView>(error@),
{
}

/// A session begins with nothing written.
pub proof fn lemma_session_begins_empty()
    ensures
        fresh_session().base_dts_90k is None,
        fresh_session().tracks is None,
        fresh_session().layout.video_index is None,
        fresh_session().layout.audio_index is None,
        fresh_session().layout.audio_timescale == 0,
        fresh_session().tfra.len() == 0,
        fresh_session().max_duration_ms == 0,
        fresh_session().bytes_written == 0,
{
}

/// The timeline starts at the first packet that is ever seen; without one at zero.
/// Seeing packets changes nothing else.
pub proof fn lemma_timeline_starts(session: SessionView, packets: Seq<PacketView>)
    ensures
        ({
            let after = observed(session, packets);
            &&& session.base_dts_90k matches Some(base) ==> base_of(after) == base
            &&& session.base_dts_90k is None && packets.len() > 0 ==> base_of(after)
                == packets[0].dts_90k
            &&& session.base_dts_90k is None && packets.len() == 0 ==> base_of(after) == 0
            &&& after.base_dts_90k is Some <==> session.base_dts_90k is Some || packets.len() > 0
            &&& after.tracks == session.tracks
            &&& after.layout == session.layout
            &&& after.tfra == session.tfra
            &&& after.max_duration_ms == session.max_duration_ms
            &&& after.bytes_written == session.bytes_written
        }),
{
}

/// The header fixes the tracks, gives each an empty index, and counts its bytes.
pub proof fn lemma_header_is_counted(session: SessionView, tracks: Seq<TrackView>, size: nat)
    requires
        session.bytes_written + size <= u64::MAX,
    ensures
        ({
            let after = started(session, tracks, size);
            &&& after.tracks == Some(tracks)
            &&& after.layout == layout_of(tracks)
            &&& after.tfra.len() == tracks.len()
            &&& forall|t: int| 0 <= t < tracks.len() ==> (#[trigger] after.tfra[t]).len() == 0
            &&& after.bytes_written == session.bytes_written + size
            &&& after.base_dts_90k == session.base_dts_90k
            &&& after.max_duration_ms == session.max_duration_ms
        }),
{
}

/// A fragment adds one entry to the index of each track that has samples in it: the
/// time of the first of them, and the place of the `moof` box, which stands behind the
/// `styp` box that the fragment begins with. Other tracks get none, and older entries
/// stay.
pub proof fn lemma_fragment_is_indexed(
    session: SessionView,
    samples: Seq<Seq<SampleView>>,
    fragment: Seq<u8>,
    packets: Seq<PacketView>,
    track: int,
)
    requires
        0 <= track < session.tfra.len(),
        session.bytes_written + number_at(fragment, 0, 4) <= u64::MAX,
    ensures
        ({
            let before = session.tfra[track];
            let after = with_fragment(session, samples, fragment, packets).tfra;
            let has_samples = track < samples.len() && samples[track].len() > 0;
            &&& after.len() == session.tfra.len()
            &&& after[track].len() == before.len() + (if has_samples {
                1int
            } else {
                0
            })
            &&& forall|k: int| 0 <= k < before.len() ==> #[trigger] after[track][k] == before[k]
            &&& has_samples ==> {
                let entry = after[track].last();
                &&& entry.time == samples[track][0].dts
                &&& entry.moof_offset == session.bytes_written + number_at(fragment, 0, 4)
                &&& entry.traf_number == 1
                &&& entry.trun_number == 1
                &&& entry.sample_number == 1
            }
        }),
{
    lemma_big_endian(fragment, 0);
    reveal_with_fuel(number_at, 5);
}

/// The time that a segment reaches is that of its last packet from the start of the
/// timeline on, in milliseconds, rounded down.
pub proof fn lemma_reached_time(packets: Seq<PacketView>, start: u64)
    ensures
        packets.len() == 0 ==> reached_ms(packets, start) == 0,
        packets.len() > 0 ==> {
            let ms = reached_ms(packets, start);
            let time = since(packets[packets.len() - 1].dts_90k, start) * 1000;
            let ticks = if time <= u64::MAX {
                time
            } else {
                u64::MAX as int
            };
            ms * 90_000 <= ticks < (ms + 1) * 90_000
        },
{
}

/// A fragment counts with all of its bytes, and the duration is the longest time that
/// was reached. The tracks and the timeline stay.
pub proof fn lemma_fragment_is_counted(
    session: SessionView,
    samples: Seq<Seq<SampleView>>,
    fragment: Seq<u8>,
    packets: Seq<PacketView>,
)
    requires
        session.bytes_written + fragment.len() <= u64::MAX,
    ensures
        ({
            let after = with_fragment(session, samples, fragment, packets);
            let reached = reached_ms(packets, base_of(session));
            &&& after.bytes_written == session.bytes_written + fragment.len()
            &&& after.max_duration_ms >= session.max_duration_ms
            &&& after.max_duration_ms >= reached
            &&& after.max_duration_ms == session.max_duration_ms || after.max_duration_ms
                == reached
            &&& after.tracks == session.tracks
            &&& after.layout == session.layout
            &&& after.base_dts_90k == session.base_dts_90k
        }),
{
}

/// A file is closed exactly where a header was written for at least one track.
pub proof fn lemma_close(session: SessionView)
    ensures
        close_error(session) is None <==> session.tracks is Some && session.tfra.len() > 0,
        session.tracks is None ==> close_error(session) == Some(
            ErrorView::InvalidInput("no segments were processed"@),
        ),
        session.tracks is Some && session.tfra.len() == 0 ==> close_error(session) == Some(
            ErrorView::InvalidInput("no fragments were generated"@),
        ),
{
}

/// A run that fails ends with that error, and remembers what it did.
pub proof fn lemma_failing_ends(run: RunView, error: ErrorView)
    ensures
        failed(run, error).1 == FragmentStepView::Finished(Err(error)),
        failed(run, error).0.phase == FragmentPhase::Done,
        failed(run, error).0.session == run.session,
        failed(run, error).0.fidelity == run.fidelity,
{
}

/// Whatever step fails, the run ends with the error of that step.
pub proof fn lemma_failed_step_ends(run: RunView, error: ErrorView)
    ensures
        after_demux(run, Err(error)).1 == FragmentStepView::Finished(Err(error)),
        after_demux(run, Err(error)).0.phase == FragmentPhase::Done,
        after_header(run, Err(error)).1 == FragmentStepView::Finished(Err(error)),
        after_header(run, Err(error)).0.phase == FragmentPhase::Done,
        after_durations(run, Err(error)).1 == FragmentStepView::Finished(Err(error)),
        after_durations(run, Err(error)).0.phase == FragmentPhase::Done,
        after_fragment(run, Err(error)).1 == FragmentStepView::Finished(Err(error)),
        after_fragment(run, Err(error)).0.phase == FragmentPhase::Done,
        after_index(run, Err(error)).1 == FragmentStepView::Finished(Err(error)),
        after_index(run, Err(error)).0.phase == FragmentPhase::Done,
{
}

/// A run reads the segment it is at; behind the last one it writes the index, or fails
/// where there is nothing to index.
pub proof fn lemma_run_proceeds(run: RunView)
    ensures
        run.current < run.segment_count ==> {
            &&& proceeding(run).1 == FragmentStepView::ReadSegment(run.current)
            &&& proceeding(run).0 == (RunView { phase: FragmentPhase::Reading, ..run })
        },
        run.current >= run.segment_count && run.session.tracks is Some && run.session.tfra.len() > 0
            ==> {
            &&& proceeding(run).1 == FragmentStepView::WriteIndex
            &&& proceeding(run).0 == (RunView { phase: FragmentPhase::Indexing, ..run })
        },
        run.current >= run.segment_count && run.session.tracks is None ==> proceeding(run).1
            == FragmentStepView::Finished(
            Err(ErrorView::InvalidInput("no segments were processed"@)),
        ),
        run.current >= run.segment_count && run.session.tracks is Some && run.session.tfra.len()
            == 0 ==> proceeding(run).1 == FragmentStepView::Finished(
            Err(ErrorView::InvalidInput("no fragments were generated"@)),
        ),
{
}

/// A demuxed segment is kept, and its packets are seen. Once the header is written, its
/// packets are converted next.
pub proof fn lemma_segment_is_seen(run: RunView, found: DemuxView)
    ensures
        ({
            let (after, step) = after_demux(run, Ok(found));
            &&& after.demuxed == Some(found)
            &&& after.session == observed(run.session, found.packets)
            &&& after.fidelity == watched(run.fidelity, found)
            &&& after.current == run.current
            &&& after.segment_count == run.segment_count
            &&& run.session.tracks is Some ==> {
                &&& step == FragmentStepView::ConvertPackets
                &&& after.phase == FragmentPhase::Converting
            }
        }),
{
}

/// The first segment determines the tracks. Its parameter sets are checked first, if it
/// shows video; what is missing ends the run.
pub proof fn lemma_first_segment_decides(run: RunView, found: DemuxView)
    requires
        run.session.tracks is None,
    ensures
        ({
            let (after, step) = after_demux(run, Ok(found));
            &&& found.saw_video && found.sps is Some && found.pps is Some ==> {
                &&& after.phase == FragmentPhase::Checking
                &&& step matches FragmentStepView::CheckParameters(parameters)
                &&& first_video_parameters(found) matches Ok(Some(own))
                &&& parameters == own
            }
            &&& found.saw_video && (found.sps is None || found.pps is None) ==> {
                &&& after.phase == FragmentPhase::Done
                &&& step matches FragmentStepView::Finished(Err(error))
                &&& error is Bitstream
                &&& first_video_parameters(found) matches Err(missing)
                &&& error == missing
            }
            &&& !found.saw_video ==> match first_tracks(found, Ok(())) {
                Ok(tracks) => {
                    &&& step == FragmentStepView::WriteHeader
                    &&& after.phase == FragmentPhase::Heading
                    &&& after.tracks == Some(tracks)
                },
                Err(error) => step == FragmentStepView::Finished(Err(error)),
            }
        }),
{
}

/// After the check the header is written for the tracks of the segment, or the run ends
/// with why there are none.
pub proof fn lemma_check_decides(run: RunView, found: DemuxView, accepted: Result<(), ErrorView>)
    ensures
        match first_tracks(found, accepted) {
            Ok(tracks) => tracks_decided(run, found, accepted) == (
                RunView { phase: FragmentPhase::Heading, tracks: Some(tracks), ..run },
                FragmentStepView::WriteHeader,
            ),
            Err(error) => {
                &&& tracks_decided(run, found, accepted).1 == FragmentStepView::Finished(Err(error))
                &&& tracks_decided(run, found, accepted).0.phase == FragmentPhase::Done
            },
        },
{
}

/// A written header starts the session with the tracks of the run; the packets are
/// converted next.
pub proof fn lemma_header_starts(run: RunView, tracks: Seq<TrackView>, size: usize)
    requires
        run.tracks == Some(tracks),
    ensures
        ({
            let (after, step) = after_header(run, Ok(size));
            &&& step == FragmentStepView::ConvertPackets
            &&& after.phase == FragmentPhase::Converting
            &&& after.session == started(run.session, tracks, size as nat)
            &&& after.demuxed == run.demuxed
            &&& after.current == run.current
            &&& after.segment_count == run.segment_count
            &&& after.fidelity == run.fidelity
        }),
{
}

/// Converted packets become the samples of each track on the timeline of the session.
/// Durations are found next where the video track has samples, and otherwise the
/// fragment is written. A conversion that failed ends the run.
pub proof fn lemma_conversion_groups(
    run: RunView,
    found: DemuxView,
    converted: Seq<Result<Seq<u8>, ErrorView>>,
    t: int,
)
    requires
        run_invariant(run),
        run.phase == FragmentPhase::Converting,
        run.demuxed == Some(found),
        0 <= t < run.session.layout.tracks(),
    ensures
        ({
            let (after, step) = after_conversion(run, converted);
            match conversion_error(found.packets, converted) {
                Some(error) => step == FragmentStepView::Finished(Err(error)),
                None => {
                    &&& after.samples.len() == run.session.layout.tracks()
                    &&& after.samples[t] == track_samples(
                        found.packets,
                        converted,
                        run.session.layout,
                        base_of(run.session),
                        t,
                    )
                    &&& after.session == run.session
                    &&& after.demuxed == run.demuxed
                    &&& after.fidelity == run.fidelity
                    &&& after.current == run.current
                    &&& after.segment_count == run.segment_count
                    &&& run.session.layout.video_index == Some(t as usize) && after.samples[t].len()
                        > 0 ==> {
                        &&& step == FragmentStepView::FindDurations(t as usize)
                        &&& after.phase == FragmentPhase::Timing
                    }
                    &&& run.session.layout.video_index == Some(t as usize) && after.samples[t].len()
                        == 0 || run.session.layout.video_index is None ==> {
                        &&& step == FragmentStepView::WriteFragment
                        &&& after.phase == FragmentPhase::Writing
                    }
                },
            }
        }),
{
}

/// Durations go to the samples of the video track, and the samples of other tracks
/// stay; the fragment is written next.
pub proof fn lemma_durations_go_to_video(run: RunView, durations: Seq<u32>, v: usize)
    requires
        run.session.layout.video_index == Some(v),
        v < run.samples.len(),
    ensures
        ({
            let (after, step) = after_durations(run, Ok(durations));
            &&& step == FragmentStepView::WriteFragment
            &&& after.phase == FragmentPhase::Writing
            &&& after.samples.len() == run.samples.len()
            &&& after.samples[v as int] == timed(run.samples[v as int], durations)
            &&& forall|t: int|
                0 <= t < run.samples.len() && t != v ==> #[trigger] after.samples[t]
                    == run.samples[t]
            &&& after.session == run.session
            &&& after.demuxed == run.demuxed
            &&& after.fidelity == run.fidelity
            &&& after.current == run.current
            &&& after.segment_count == run.segment_count
        }),
{
}

/// A written fragment is counted with its samples and packets, and the run goes on with
/// the next segment.
pub proof fn lemma_fragment_goes_on(run: RunView, found: DemuxView, fragment: Seq<u8>)
    requires
        run.demuxed == Some(found),
        run.current < run.segment_count,
    ensures
        ({
            let (after, step) = after_fragment(run, Ok(fragment));
            &&& after.session == with_fragment(
                run.session,
                run.samples,
                fragment,
                found.packets,
            )
            &&& after.current == run.current + 1
            &&& after.segment_count == run.segment_count
            &&& after.fidelity == run.fidelity
            &&& run.current + 1 < run.segment_count ==> step == FragmentStepView::ReadSegment(
                (run.current + 1) as usize,
            )
        }),
{
}

/// The report of a run counts its segments and all bytes, with the index, and gives the
/// longest time in milliseconds.
pub proof fn lemma_run_reports(run: RunView, size: usize)
    requires
        run.session.bytes_written + size <= u64::MAX,
    ensures
        after_index(run, Ok(size)).1 matches FragmentStepView::Finished(Ok(report)) && {
            &&& report.segment_count == run.segment_count
            &&& report.tracks.len() == 0
            &&& report.duration == run.session.max_duration_ms
            &&& report.duration_timescale == 1000
            &&& report.bytes_written == run.session.bytes_written + size
        },
        after_index(run, Ok(size)).0.phase == FragmentPhase::Done,
{
}

/// The timeline of some segments starts at the first packet of the first one that has
/// any.
pub proof fn lemma_timeline_of_segments(segments: Seq<SegmentCourse>, k: int)
    requires
        0 <= k < segments.len(),
        forall|s: int| 0 <= s < k ==> (#[trigger] segments[s]).demuxed.packets.len() == 0,
        segments[k].demuxed.packets.len() > 0,
    ensures
        first_dts(segments) == Some(segments[k].demuxed.packets[0].dts_90k),
    decreases segments.len(),
{
    let before = segments.drop_last();
    if k < before.len() {
        lemma_timeline_of_segments(before, k);
    } else {
        lemma_no_timeline(before);
    }
}

/// Segments without packets have no timeline.
pub proof fn lemma_no_timeline(segments: Seq<SegmentCourse>)
    requires
        forall|s: int|
            0 <= s < segments.len() ==> (#[trigger] segments[s]).demuxed.packets.len() == 0,
    ensures
        first_dts(segments) is None,
    decreases segments.len(),
{
    if segments.len() > 0 {
        assert(segments[segments.len() - 1] == segments.last());
        lemma_no_timeline(segments.drop_last());
    }
}

/// The longest time is that of a segment, no segment reaches further, and without
/// segments it is zero.
pub proof fn lemma_longest_time(segments: Seq<SegmentCourse>, start: u64)
    ensures
        longest_ms(segments, start) == 0 || exists|s: int|
            0 <= s < segments.len() && reached_ms(
                (#[trigger] segments[s]).demuxed.packets,
                start,
            ) == longest_ms(segments, start),
        forall|s: int|
            0 <= s < segments.len() ==> reached_ms((#[trigger] segments[s]).demuxed.packets, start)
                <= longest_ms(segments, start),
    decreases segments.len(),
{
    if segments.len() > 0 {
        let before = segments.drop_last();
        lemma_longest_time(before, start);
        assert(forall|s: int| 0 <= s < before.len() ==> #[trigger] before[s] == segments[s]);
        assert forall|s: int| 0 <= s < segments.len() implies reached_ms(
            (#[trigger] segments[s]).demuxed.packets,
            start,
        ) <= longest_ms(segments, start) by {
            if s < before.len() {
                assert(before[s] == segments[s]);
            }
        }
        assert(segments[segments.len() - 1] == segments.last());
    }
}

/// The fragments of some segments are as large as all of them together.
pub proof fn lemma_fragments_add_up(segments: Seq<SegmentCourse>, next: SegmentCourse)
    ensures
        fragments_size(segments.push(next)) == fragments_size(segments) + next.fragment.len(),
        fragments_size(Seq::empty()) == 0,
{
    assert(segments.push(next).drop_last() =~= segments);
}

} // verus!
