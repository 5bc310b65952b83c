//! What a whole run over the segments of a playlist comes to, when every step of
//! it works.

use crate::error::ErrorView;
use crate::fidelity::fresh_fidelity;
use crate::fragment_run::{
    after_conversion, after_demux, after_durations, after_fragment, after_header, after_index,
    proceeding, run_invariant, tracks_decided, FragmentPhase, FragmentStepView, RunView,
};
use crate::fragments::{base_of, fresh_session, reached_ms};
use crate::samples::conversion_error;
use crate::tracks::{first_tracks, layout_of, lemma_first_tracks_layout};
use crate::types::{DemuxView, ReportView};
use vstd::prelude::*;

verus! {

/// What the steps of one segment give. The size of the header counts only for the
/// first segment, and the durations only where there are video samples.
pub struct SegmentCourse {
    pub demuxed: DemuxView,
    pub header_size: usize,
    pub converted: Seq<Result<Seq<u8>, ErrorView>>,
    pub durations: Seq<u32>,
    pub fragment: Seq<u8>,
}

/// A run, and the step it is at, before the fragment of a segment is written.
pub open spec fn before_fragment(run: RunView, segment: SegmentCourse) -> (
    RunView,
    FragmentStepView,
) {
    let demuxed = after_demux(run, Ok(segment.demuxed));
    let decided = if demuxed.1 is CheckParameters {
        tracks_decided(demuxed.0, segment.demuxed, Ok(()))
    } else {
        demuxed
    };
    let headed = if decided.1 is WriteHeader {
        after_header(decided.0, Ok(segment.header_size))
    } else {
        decided
    };
    let grouped = if headed.1 is ConvertPackets {
        after_conversion(headed.0, segment.converted)
    } else {
        headed
    };
    if grouped.1 is FindDurations {
        after_durations(grouped.0, Ok(segment.durations))
    } else {
        grouped
    }
}

/// A run, and the step it is at, after the steps of one segment.
pub open spec fn after_segment(run: RunView, segment: SegmentCourse) -> (RunView, FragmentStepView) {
    let ready = before_fragment(run, segment);
    if ready.1 is WriteFragment {
        after_fragment(ready.0, Ok(segment.fragment))
    } else {
        ready
    }
}

/// A run over this many segments that has just begun, and its first step.
pub open spec fn begun(segment_count: usize) -> (RunView, FragmentStepView) {
    proceeding(
        RunView {
            session: fresh_session(),
            segment_count,
            current: 0,
            phase: FragmentPhase::Reading,
            demuxed: None,
            tracks: None,
            samples: Seq::empty(),
            fidelity: fresh_fidelity(),
        },
    )
}

/// The run and its step after the first segments.
pub open spec fn after_segments(segment_count: usize, segments: Seq<SegmentCourse>) -> (
    RunView,
    FragmentStepView,
)
    decreases segments.len(),
{
    if segments.len() == 0 {
        begun(segment_count)
    } else {
        after_segment(after_segments(segment_count, segments.drop_last()).0, segments.last())
    }
}

/// Whether every conversion of a segment that is needed works.
pub open spec fn converts(segment: SegmentCourse) -> bool {
    conversion_error(segment.demuxed.packets, segment.converted) is None
}

/// Where the timeline of some segments starts: at their very first packet.
pub open spec fn first_dts(segments: Seq<SegmentCourse>) -> Option<u64>
    decreases segments.len(),
{
    if segments.len() == 0 {
        None
    } else {
        match first_dts(segments.drop_last()) {
            Some(dts) => Some(dts),
            None => if segments.last().demuxed.packets.len() > 0 {
                Some(segments.last().demuxed.packets[0].dts_90k)
            } else {
                None
            },
        }
    }
}

/// The longest time that the last packet of a segment reaches, in milliseconds
/// from the start of the timeline.
pub open spec fn longest_ms(segments: Seq<SegmentCourse>, base: u64) -> u64
    decreases segments.len(),
{
    if segments.len() == 0 {
        0
    } else {
        let before = longest_ms(segments.drop_last(), base);
        let reached = reached_ms(segments.last().demuxed.packets, base);
        if reached > before {
            reached
        } else {
            before
        }
    }
}

/// The size of the fragments of some segments.
pub open spec fn fragments_size(segments: Seq<SegmentCourse>) -> nat
    decreases segments.len(),
{
    if segments.len() == 0 {
        0
    } else {
        fragments_size(segments.drop_last()) + segments.last().fragment.len()
    }
}

/// What holds of the run after the first segments.
pub open spec fn on_course(run: RunView, segment_count: usize, segments: Seq<SegmentCourse>) -> bool {
    &&& run_invariant(run)
    &&& run.segment_count == segment_count
    &&& run.current == segments.len()
    &&& run.session.tracks is Some
    &&& run.session.tfra.len() > 0
    &&& run.session.layout == layout_of(first_tracks(segments[0].demuxed, Ok(()))->Ok_0)
    &&& run.session.base_dts_90k == first_dts(segments)
    &&& run.session.max_duration_ms == longest_ms(segments, base_of(run.session))
    &&& run.session.bytes_written == segments[0].header_size + fragments_size(segments)
}

/// Fragments are written one after the other: a later end is not before an earlier
/// one.
proof fn lemma_fragments_size_grows(segments: Seq<SegmentCourse>, k: int)
    requires
        0 <= k <= segments.len(),
    ensures
        fragments_size(segments.take(k)) <= fragments_size(segments),
    decreases segments.len(),
{
    if k < segments.len() {
        assert(segments.drop_last().take(k) =~= segments.take(k));
        lemma_fragments_size_grows(segments.drop_last(), k);
    } else {
        assert(segments.take(k) =~= segments);
    }
}

/// Without packets the start of the timeline does not matter.
proof fn lemma_no_packets_no_time(segments: Seq<SegmentCourse>, base: u64)
    requires
        first_dts(segments) is None,
    ensures
        longest_ms(segments, base) == 0,
    decreases segments.len(),
{
    if segments.len() > 0 {
        lemma_no_packets_no_time(segments.drop_last(), base);
    }
}

/// The steps of one segment keep the run on course.
proof fn lemma_course_step(
    run: RunView,
    segment_count: usize,
    before: Seq<SegmentCourse>,
    segment: SegmentCourse,
)
    requires
        before.len() < segment_count,
        converts(segment),
        if before.len() == 0 {
            &&& run == begun(segment_count).0
            &&& first_tracks(segment.demuxed, Ok(())) is Ok
            &&& segment.header_size + segment.fragment.len() <= u64::MAX
        } else {
            &&& on_course(run, segment_count, before)
            &&& before[0].header_size + fragments_size(before) + segment.fragment.len()
                <= u64::MAX
        },
    ensures
        on_course(after_segment(run, segment).0, segment_count, before.push(segment)),
        after_segment(run, segment).1 == (if before.len() + 1 < segment_count {
            FragmentStepView::ReadSegment((before.len() + 1) as usize)
        } else {
            FragmentStepView::WriteIndex
        }),
{
    let after = before.push(segment);
    assert(after.drop_last() =~= before);
    if first_dts(before) is None {
        lemma_no_packets_no_time(before, base_of(run.session));
        lemma_no_packets_no_time(before, base_of(after_segment(run, segment).0.session));
    }
    if before.len() == 0 {
        lemma_first_tracks_layout(segment.demuxed, Ok(()));
        assert(before =~= Seq::empty());
        reveal_with_fuel(fragments_size, 2);
    } else {
        assert(after[0] == before[0]);
    }
}

/// A run over a playlist that is not empty and whose every step works reads every
/// segment once and in order. It then writes the index and ends with a report on
/// all segments. The report counts the header, every fragment and the index, and
/// its duration is the longest time that a segment reaches from the very first
/// packet on.
pub proof fn lemma_whole_run(
    segment_count: usize,
    segments: Seq<SegmentCourse>,
    index_size: usize,
)
    requires
        0 < segments.len() == segment_count,
        first_tracks(segments[0].demuxed, Ok(())) is Ok,
        forall|k: int| 0 <= k < segments.len() ==> converts(#[trigger] segments[k]),
        segments[0].header_size + fragments_size(segments) + index_size <= u64::MAX,
    ensures
        forall|k: int|
            0 <= k < segments.len() ==> (#[trigger] after_segments(
                segment_count,
                segments.take(k),
            )).1 == FragmentStepView::ReadSegment(k as usize),
        after_segments(segment_count, segments).1 == FragmentStepView::WriteIndex,
        after_index(after_segments(segment_count, segments).0, Ok(index_size)).1
            == FragmentStepView::Finished(
            Ok(
                ReportView {
                    segment_count,
                    tracks: Seq::empty(),
                    duration: longest_ms(
                        segments,
                        match first_dts(segments) {
                            Some(dts) => dts,
                            None => 0,
                        },
                    ),
                    duration_timescale: 1000,
                    bytes_written: (segments[0].header_size + fragments_size(segments)
                        + index_size) as u64,
                },
            ),
        ),
{
    assert forall|k: int| 0 <= k < segments.len() implies (#[trigger] after_segments(
        segment_count,
        segments.take(k),
    )).1 == FragmentStepView::ReadSegment(k as usize) by {
        lemma_course(segment_count, segments, k);
    }
    lemma_course(segment_count, segments, segments.len() as int);
    assert(segments.take(segments.len() as int) =~= segments);
}

/// After the first segments the run is on course, and about to read the next one or
/// to write the index.
pub proof fn lemma_course(segment_count: usize, segments: Seq<SegmentCourse>, k: int)
    requires
        0 <= k <= segments.len(),
        0 < segments.len() == segment_count,
        first_tracks(segments[0].demuxed, Ok(())) is Ok,
        forall|k: int| 0 <= k < segments.len() ==> converts(#[trigger] segments[k]),
        segments[0].header_size + fragments_size(segments) <= u64::MAX,
    ensures
        k > 0 ==> on_course(
            after_segments(segment_count, segments.take(k)).0,
            segment_count,
            segments.take(k),
        ),
        after_segments(segment_count, segments.take(k)).1 == (if k < segment_count {
            FragmentStepView::ReadSegment(k as usize)
        } else {
            FragmentStepView::WriteIndex
        }),
    decreases k,
{
    if k > 0 {
        lemma_course(segment_count, segments, k - 1);
        let before = segments.take(k - 1);
        let segment = segments[k - 1];
        assert(segments.take(k) =~= before.push(segment));
        assert(segments.take(k).drop_last() =~= before);
        lemma_fragments_size_grows(segments, k);
        if k == 1 {
            assert(before =~= Seq::empty());
            reveal_with_fuel(fragments_size, 2);
        } else {
            assert(before[0] == segments[0]);
        }
        lemma_course_step(
            after_segments(segment_count, before).0,
            segment_count,
            before,
            segment,
        );
    }
}

} // verus!
