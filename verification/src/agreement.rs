//! The two ways to a standard MP4 agree: all segments at once, and segment by segment
//! through a fragmented file.

use crate::collect::{
    all_taken, collected_from, earliest_dts, empty_collector, first_packet_error,
    lemma_all_packets_collected, lemma_earliest_dts, lemma_fragments_agree_with_plan,
    lemma_no_packet_error, lemma_plan_starts_at_zero, mux_error, mux_plan, packet_error, pushed,
    usual_frames, CollectorView, MuxPlanView,
};
use crate::error::ErrorView;
use crate::fidelity::{
    batch_accepts, differs, fidelity_of, frames_fit, lowest_dts, lowest_pts, without_packets,
};
use crate::fragment_course::{
    after_segments, before_fragment, begun, converts, first_dts, fragments_size, lemma_course,
    SegmentCourse,
};
use crate::fragment_run::{grouped_samples, RunView};
use crate::fragments::{base_of, observed};
use crate::options::{FinalizeBackend, OutputFormat};
use crate::pipeline::{first_step_of, next_step_of, EventView, PipelineView};
use crate::samples::{
    all_conversions, all_packets, audio_sample, audio_samples, conversion_error,
    lemma_no_conversion_error, rescaled, samples_by_segment, timed, track_samples, unprefixed,
    video_sample, video_samples, SegmentPackets, TrackLayout, AAC_FRAME_TICKS,
};
use crate::tracks::{first_tracks, layout_of, lemma_first_tracks_layout};
use crate::types::{DemuxView, PacketView, ReportView, SampleView};
use vstd::prelude::*;

verus! {

/// Samples without their durations.
pub open spec fn untimed(samples: Seq<SampleView>) -> Seq<SampleView> {
    Seq::new(samples.len(), |k: int| SampleView { duration: 0, ..samples[k] })
}

/// The samples of one track that a run writes in the fragments of some segments,
/// one after the other.
pub open spec fn written_samples(
    segment_count: usize,
    segments: Seq<SegmentCourse>,
    track: int,
) -> Seq<SampleView>
    decreases segments.len(),
{
    if segments.len() == 0 {
        Seq::empty()
    } else {
        let before = segments.drop_last();
        written_samples(segment_count, before, track) + before_fragment(
            after_segments(segment_count, before).0,
            segments.last(),
        ).0.samples[track]
    }
}

/// What demuxing some segments gave.
pub open spec fn demuxed_of(segments: Seq<SegmentCourse>) -> Seq<DemuxView> {
    Seq::new(segments.len(), |s: int| segments[s].demuxed)
}

/// The packets of some segments, with what their conversions gave.
pub open spec fn packets_of(segments: Seq<SegmentCourse>) -> Seq<SegmentPackets> {
    Seq::new(
        segments.len(),
        |s: int|
            SegmentPackets {
                packets: segments[s].demuxed.packets,
                converted: segments[s].converted,
            },
    )
}

/// The layout of the tracks that a first segment determines.
pub open spec fn layout_from(first: DemuxView) -> TrackLayout {
    layout_of(first_tracks(first, Ok(()))->Ok_0)
}

/// Video samples have no durations of their own.
proof fn lemma_video_untimed(
    packets: Seq<PacketView>,
    converted: Seq<Result<Seq<u8>, ErrorView>>,
    base: u64,
)
    ensures
        untimed(video_samples(packets, converted, base)) == video_samples(packets, converted, base),
    decreases packets.len(),
{
    if packets.len() > 0 {
        let before = video_samples(packets.drop_last(), converted, base);
        lemma_video_untimed(packets.drop_last(), converted, base);
        assert forall|k: int| 0 <= k < before.len() implies (#[trigger] before[k]).duration == 0 by {
            assert(untimed(before)[k] == before[k]);
        }
    }
    assert(untimed(video_samples(packets, converted, base)) =~= video_samples(
        packets,
        converted,
        base,
    ));
}

/// Once a packet was seen, the start of the timeline is fixed.
proof fn lemma_first_dts_stays(segments: Seq<SegmentCourse>, k: int)
    requires
        0 <= k <= segments.len(),
    ensures
        first_dts(segments.take(k)) is Some ==> first_dts(segments) == first_dts(segments.take(k)),
    decreases segments.len(),
{
    if k < segments.len() {
        assert(segments.drop_last().take(k) =~= segments.take(k));
        lemma_first_dts_stays(segments.drop_last(), k);
    } else {
        assert(segments.take(k) =~= segments);
    }
}

/// What a run writes of one segment: its packets grouped on the timeline of all
/// segments, with durations for the video samples.
proof fn lemma_fragment_samples(
    segment_count: usize,
    segments: Seq<SegmentCourse>,
    k: int,
    base: u64,
    track: int,
)
    requires
        0 < segments.len() == segment_count,
        0 <= k < segments.len(),
        first_tracks(segments[0].demuxed, Ok(())) is Ok,
        forall|k: int| 0 <= k < segments.len() ==> converts(#[trigger] segments[k]),
        segments[0].header_size + fragments_size(segments) <= u64::MAX,
        first_dts(segments) is Some ==> first_dts(segments) == Some(base),
        0 <= track < layout_from(segments[0].demuxed).tracks(),
    ensures
        ({
            let layout = layout_from(segments[0].demuxed);
            let run = after_segments(segment_count, segments.take(k)).0;
            let written = before_fragment(run, segments[k]).0.samples[track];
            let grouped = track_samples(
                segments[k].demuxed.packets,
                segments[k].converted,
                layout,
                base,
                track,
            );
            &&& layout.video_index == Some(track as usize) ==> untimed(written) == grouped
            &&& layout.audio_index == Some(track as usize) ==> written == grouped
        }),
{
    let layout = layout_from(segments[0].demuxed);
    let segment = segments[k];
    let packets = segment.demuxed.packets;
    let run = after_segments(segment_count, segments.take(k)).0;
    let own = base_of(observed(run.session, packets));
    lemma_first_tracks_layout(segments[0].demuxed, Ok(()));
    lemma_course(segment_count, segments, k);
    if k == 0 {
        assert(segments.take(0) =~= Seq::empty());
        assert(run == begun(segment_count).0);
    } else {
        assert(segments.take(k)[0] == segments[0]);
    }
    assert(run.session.base_dts_90k == first_dts(segments.take(k)));
    let longer = segments.take(k + 1);
    assert(longer.drop_last() =~= segments.take(k));
    assert(longer.last() == segment);
    lemma_first_dts_stays(segments, k + 1);
    assert(packets.len() > 0 ==> own == base);
    let grouped = grouped_samples(packets, segment.converted, layout, own);
    assert(grouped[track] == track_samples(packets, segment.converted, layout, own, track));
    assert(track_samples(packets, segment.converted, layout, own, track) == track_samples(
        packets,
        segment.converted,
        layout,
        base,
        track,
    ));
    lemma_ready_samples(run, segment, layout, own);
    if layout.video_index == Some(track as usize) {
        lemma_video_untimed(packets, segment.converted, base);
        let written = before_fragment(run, segment).0.samples[track];
        assert(untimed(written) =~= untimed(grouped[track]));
    }
}

/// What is ready to be written of a segment: its packets grouped, with durations for
/// the video samples if there are any.
proof fn lemma_ready_samples(
    run: RunView,
    segment: SegmentCourse,
    layout: TrackLayout,
    base: u64,
)
    requires
        converts(segment),
        if run.session.tracks is Some {
            run.session.layout == layout
        } else {
            &&& first_tracks(segment.demuxed, Ok(())) is Ok
            &&& layout == layout_from(segment.demuxed)
        },
        base == base_of(observed(run.session, segment.demuxed.packets)),
    ensures
        ({
            let grouped = grouped_samples(
                segment.demuxed.packets,
                segment.converted,
                layout,
                base,
            );
            before_fragment(run, segment).0.samples == (match layout.video_index {
                Some(v) => if grouped[v as int].len() > 0 {
                    grouped.update(v as int, timed(grouped[v as int], segment.durations))
                } else {
                    grouped
                },
                None => grouped,
            })
        }),
{
}

/// What a run writes of one track in all fragments is what grouping the segments one
/// by one gives.
proof fn lemma_written_by_segment(
    segment_count: usize,
    segments: Seq<SegmentCourse>,
    base: u64,
    k: int,
)
    requires
        0 < segments.len() == segment_count,
        0 <= k <= segments.len(),
        first_tracks(segments[0].demuxed, Ok(())) is Ok,
        segments[0].demuxed.saw_video,
        segments[0].demuxed.saw_audio,
        forall|k: int| 0 <= k < segments.len() ==> converts(#[trigger] segments[k]),
        segments[0].header_size + fragments_size(segments) <= u64::MAX,
        first_dts(segments) == Some(base),
    ensures
        ({
            let layout = layout_from(segments[0].demuxed);
            let first = segments.take(k);
            &&& untimed(written_samples(segment_count, first, layout.video_index->0 as int))
                == samples_by_segment(
                packets_of(first),
                layout,
                base,
                layout.video_index->0 as int,
            )
            &&& written_samples(segment_count, first, layout.audio_index->0 as int)
                == samples_by_segment(
                packets_of(first),
                layout,
                base,
                layout.audio_index->0 as int,
            )
        }),
    decreases k,
{
    let layout = layout_from(segments[0].demuxed);
    let v = layout.video_index->0 as int;
    let a = layout.audio_index->0 as int;
    lemma_first_tracks_layout(segments[0].demuxed, Ok(()));
    let first = segments.take(k);
    if k == 0 {
        assert(untimed(written_samples(segment_count, first, v)) =~= Seq::empty());
    } else {
        let before = segments.take(k - 1);
        assert(first.drop_last() =~= before);
        assert(first.last() == segments[k - 1]);
        assert(packets_of(first).drop_last() =~= packets_of(before));
        assert(packets_of(first).last() == packets_of(first)[k - 1]);
        lemma_written_by_segment(segment_count, segments, base, k - 1);
        lemma_fragment_samples(segment_count, segments, k - 1, base, v);
        lemma_fragment_samples(segment_count, segments, k - 1, base, a);
        let last = before_fragment(
            after_segments(segment_count, before).0,
            segments[k - 1],
        ).0.samples[v];
        assert(untimed(written_samples(segment_count, before, v) + last) =~= untimed(
            written_samples(segment_count, before, v),
        ) + untimed(last));
    }
}

/// The sample rate of the first segment stays.
proof fn lemma_sample_rate_stays(found: Seq<DemuxView>)
    requires
        found.len() > 0,
        found[0].sample_rate is Some,
        all_taken(found),
    ensures
        collected_from(found).sample_rate == found[0].sample_rate,
    decreases found.len(),
{
    if found.len() > 1 {
        assert(found.drop_last()[0] == found[0]);
        lemma_sample_rate_stays(found.drop_last());
    } else {
        assert(found.drop_last() =~= Seq::empty());
        assert(found.last() == found[0]);
    }
}

/// What has to hold of a run for its samples to be those of the standard MP4: every
/// step works both ways, the first segment shows both streams at a sample rate above
/// zero, and the very first packet is the earliest one.
pub open spec fn comparable(segment_count: usize, segments: Seq<SegmentCourse>) -> bool {
    let collected = collected_from(demuxed_of(segments));
    &&& 0 < segments.len() == segment_count
    &&& first_tracks(segments[0].demuxed, Ok(())) is Ok
    &&& segments[0].demuxed.saw_video
    &&& segments[0].demuxed.saw_audio
    &&& segments[0].demuxed.sample_rate != Some(0u32)
    &&& segments[0].header_size + fragments_size(segments) <= u64::MAX
    &&& all_convert(segments)
    &&& all_taken(demuxed_of(segments))
    &&& mux_error(collected, all_conversions(packets_of(segments))) is None
    &&& first_dts(segments) == Some(earliest_dts(collected.packets))
}

/// The plan of the standard MP4 that the same segments give all at once.
pub open spec fn batch_plan(segments: Seq<SegmentCourse>) -> MuxPlanView {
    mux_plan(
        collected_from(demuxed_of(segments)),
        all_conversions(packets_of(segments)),
    )
}

/// The fragments that a run writes hold the samples of the standard MP4: the video
/// samples but for their durations, which a standard MP4 gets when it is written,
/// and the audio samples but for theirs. With AAC-LC frames of the usual length the
/// audio samples are the same.
pub proof fn lemma_run_writes_plan(segment_count: usize, segments: Seq<SegmentCourse>)
    requires
        comparable(segment_count, segments),
    ensures
        ({
            let layout = layout_from(segments[0].demuxed);
            let plan = batch_plan(segments);
            let video = written_samples(segment_count, segments, layout.video_index->0 as int);
            let audio = written_samples(segment_count, segments, layout.audio_index->0 as int);
            &&& untimed(video) == plan.video_samples
            &&& audio.len() == plan.audio_samples.len()
            &&& forall|k: int|
                0 <= k < audio.len() ==> #[trigger] audio[k] == (SampleView {
                    duration: AAC_FRAME_TICKS,
                    ..plan.audio_samples[k]
                })
            &&& usual_frames(collected_from(demuxed_of(segments)).packets) ==> audio
                == plan.audio_samples
        }),
{
    let layout = layout_from(segments[0].demuxed);
    let base = first_dts(segments)->0;
    let found = demuxed_of(segments);
    let packets = packets_of(segments);
    lemma_first_tracks_layout(segments[0].demuxed, Ok(()));
    assert(segments.take(segments.len() as int) =~= segments);
    lemma_written_by_segment(segment_count, segments, base, segments.len() as int);
    assert(found[0] == segments[0].demuxed);
    lemma_sample_rate_stays(found);
    assert forall|s: int| 0 <= s < found.len() implies (#[trigger] packets[s]).packets
        == found[s].packets && packets[s].converted.len() == found[s].packets.len() by {
        assert(converts(segments[s]));
    }
    lemma_fragments_agree_with_plan(found, packets, layout, base);
}

/// The video packets among some packets.
pub open spec fn video_packets(packets: Seq<PacketView>) -> Seq<PacketView>
    decreases packets.len(),
{
    if packets.len() == 0 {
        Seq::empty()
    } else if packets.last().kind.is_video() {
        video_packets(packets.drop_last()).push(packets.last())
    } else {
        video_packets(packets.drop_last())
    }
}

/// The audio packets among some packets.
pub open spec fn audio_packets(packets: Seq<PacketView>) -> Seq<PacketView>
    decreases packets.len(),
{
    if packets.len() == 0 {
        Seq::empty()
    } else if packets.last().kind.is_video() {
        audio_packets(packets.drop_last())
    } else {
        audio_packets(packets.drop_last()).push(packets.last())
    }
}

/// Whether packets give samples back: the video packets carry the data and the times
/// of the video samples, and the audio packets those of the audio samples, by the
/// clock of each.
pub open spec fn give_back(
    packets: Seq<PacketView>,
    video: Seq<SampleView>,
    audio: Seq<SampleView>,
    sample_rate: u32,
) -> bool {
    &&& video_packets(packets).len() == video.len()
    &&& forall|k: int|
        0 <= k < video.len() ==> {
            let packet = #[trigger] video_packets(packets)[k];
            &&& packet.is_length_prefixed
            &&& packet.data == video[k].data
            &&& packet.dts_90k == video[k].dts
            &&& packet.pts_90k == video[k].pts
            &&& packet.is_key == video[k].is_key
        }
    &&& audio_packets(packets).len() == audio.len()
    &&& forall|k: int|
        0 <= k < audio.len() ==> {
            let packet = #[trigger] audio_packets(packets)[k];
            &&& packet.data == audio[k].data
            &&& rescaled(packet.dts_90k, sample_rate) == audio[k].dts
            &&& rescaled(packet.pts_90k, sample_rate) == audio[k].pts
            &&& packet.duration == audio[k].duration
        }
}

/// Each video packet gives the video sample at its place among them.
proof fn lemma_video_packets(
    packets: Seq<PacketView>,
    converted: Seq<Result<Seq<u8>, ErrorView>>,
    base: u64,
)
    ensures
        ({
            let samples = video_samples(packets, converted, base);
            let own = video_packets(packets);
            &&& samples.len() == own.len()
            &&& forall|k: int|
                0 <= k < own.len() && own[k].is_length_prefixed ==> #[trigger] samples[k]
                    == video_sample(own[k], Ok(Seq::empty()), base)
            &&& forall|k: int| 0 <= k < own.len() ==> (#[trigger] own[k]).kind.is_video()
        }),
    decreases packets.len(),
{
    if packets.len() > 0 {
        lemma_video_packets(packets.drop_last(), converted, base);
    }
}

/// Each audio packet gives the audio sample at its place among them.
proof fn lemma_audio_packets(packets: Seq<PacketView>, base: u64, rate: u32)
    ensures
        ({
            let samples = audio_samples(packets, base, rate, None);
            let own = audio_packets(packets);
            &&& samples.len() == own.len()
            &&& forall|k: int|
                0 <= k < own.len() ==> #[trigger] samples[k] == audio_sample(
                    own[k],
                    base,
                    rate,
                    own[k].duration as u32,
                )
        }),
    decreases packets.len(),
{
    if packets.len() > 0 {
        lemma_audio_packets(packets.drop_last(), base, rate);
    }
}

/// Every packet is among the video packets or among the audio packets.
proof fn lemma_packets_of_either_kind(packets: Seq<PacketView>, i: int)
    requires
        0 <= i < packets.len(),
    ensures
        packets[i].kind.is_video() ==> exists|k: int|
            0 <= k < video_packets(packets).len() && #[trigger] video_packets(packets)[k]
                == packets[i],
        !packets[i].kind.is_video() ==> exists|k: int|
            0 <= k < audio_packets(packets).len() && #[trigger] audio_packets(packets)[k]
                == packets[i],
    decreases packets.len(),
{
    let before = packets.drop_last();
    if i < before.len() {
        lemma_packets_of_either_kind(before, i);
        assert(before[i] == packets[i]);
        if packets[i].kind.is_video() {
            let k = choose|k: int|
                0 <= k < video_packets(before).len() && #[trigger] video_packets(before)[k]
                    == packets[i];
            assert(video_packets(packets)[k] == packets[i]);
        } else {
            let k = choose|k: int|
                0 <= k < audio_packets(before).len() && #[trigger] audio_packets(before)[k]
                    == packets[i];
            assert(audio_packets(packets)[k] == packets[i]);
        }
    } else if packets[i].kind.is_video() {
        assert(video_packets(packets)[video_packets(before).len() as int] == packets[i]);
    } else {
        assert(audio_packets(packets)[audio_packets(before).len() as int] == packets[i]);
    }
}

/// Packets that give the samples of a plan back, on a timeline that starts at zero
/// and with the same codec parameters, make up the same plan.
pub proof fn lemma_given_back_plans_the_same(
    collected: CollectorView,
    converted: Seq<Result<Seq<u8>, ErrorView>>,
    back: CollectorView,
    back_converted: Seq<Result<Seq<u8>, ErrorView>>,
)
    requires
        mux_error(collected, converted) is None,
        back == (CollectorView { packets: back.packets, ..collected }),
        give_back(
            back.packets,
            mux_plan(collected, converted).video_samples,
            mux_plan(collected, converted).audio_samples,
            collected.sample_rate->0,
        ),
        earliest_dts(back.packets) == 0,
    ensures
        mux_error(back, back_converted) is None,
        mux_plan(back, back_converted) == mux_plan(collected, converted),
{
    let plan = mux_plan(collected, converted);
    let again = mux_plan(back, back_converted);
    let rate = collected.sample_rate->0;
    lemma_plan_starts_at_zero(collected, converted);
    lemma_video_packets(back.packets, back_converted, 0);
    lemma_audio_packets(back.packets, 0, rate);
    lemma_video_packets(collected.packets, converted, earliest_dts(collected.packets));
    lemma_video_untimed(collected.packets, converted, earliest_dts(collected.packets));
    lemma_offsets(collected.packets, converted, earliest_dts(collected.packets), rate);
    assert(back.packets.len() > 0) by {
        if back.packets.len() == 0 {
            assert(plan.video_samples.len() == 0 && plan.audio_samples.len() == 0);
        }
    }
    assert forall|i: int| 0 <= i < back.packets.len() implies packet_error(
        #[trigger] back.packets[i],
        back_converted[i],
        0,
    ) is None by {
        lemma_packets_of_either_kind(back.packets, i);
    }
    lemma_no_packet_error(back.packets, back_converted, 0);
    assert(first_packet_error(back.packets, back_converted, 0) is None);
    assert forall|k: int| 0 <= k < plan.video_samples.len() implies again.video_samples[k]
        == #[trigger] plan.video_samples[k] by {
        assert(untimed(plan.video_samples)[k] == plan.video_samples[k]);
        assert(video_packets(back.packets)[k].is_length_prefixed);
    }
    assert(again.video_samples =~= plan.video_samples);
    assert forall|k: int| 0 <= k < plan.audio_samples.len() implies again.audio_samples[k]
        == #[trigger] plan.audio_samples[k] by {
        let packet = audio_packets(back.packets)[k];
        assert(packet.data == plan.audio_samples[k].data);
    }
    assert(again.audio_samples =~= plan.audio_samples);
}

/// Samples have no place in the file yet, and every audio sample can be decoded on
/// its own.
proof fn lemma_offsets(
    packets: Seq<PacketView>,
    converted: Seq<Result<Seq<u8>, ErrorView>>,
    base: u64,
    rate: u32,
)
    ensures
        forall|k: int|
            0 <= k < video_samples(packets, converted, base).len() ==> (#[trigger] video_samples(
                packets,
                converted,
                base,
            )[k]).offset == 0,
        forall|k: int|
            0 <= k < audio_samples(packets, base, rate, None).len() ==> {
                let sample = #[trigger] audio_samples(packets, base, rate, None)[k];
                sample.offset == 0 && sample.is_key
            },
    decreases packets.len(),
{
    if packets.len() > 0 {
        let before = packets.drop_last();
        lemma_offsets(before, converted, base, rate);
        let video = video_samples(packets, converted, base);
        assert forall|k: int| 0 <= k < video.len() implies (#[trigger] video[k]).offset == 0 by {
            if k < video_samples(before, converted, base).len() {
                assert(video[k] == video_samples(before, converted, base)[k]);
            }
        }
        let audio = audio_samples(packets, base, rate, None);
        assert forall|k: int| 0 <= k < audio.len() implies (#[trigger] audio[k]).offset == 0
            && audio[k].is_key by {
            if k < audio_samples(before, base, rate, None).len() {
                assert(audio[k] == audio_samples(before, base, rate, None)[k]);
            }
        }
    }
}

/// Both ways plan the same standard MP4: where demuxing the temporary file gives the
/// samples back that a run has written into it, with the codec parameters of the
/// segments and on a timeline that starts at zero, and AAC-LC frames have the usual
/// length, finalizing lays out exactly the tracks that writing all segments at once
/// lays out.
pub proof fn lemma_streaming_plans_the_same(
    segment_count: usize,
    segments: Seq<SegmentCourse>,
    back: CollectorView,
    back_converted: Seq<Result<Seq<u8>, ErrorView>>,
)
    requires
        comparable(segment_count, segments),
        usual_frames(collected_from(demuxed_of(segments)).packets),
        back == (CollectorView {
            packets: back.packets,
            ..collected_from(demuxed_of(segments))
        }),
        give_back(
            back.packets,
            written_samples(
                segment_count,
                segments,
                layout_from(segments[0].demuxed).video_index->0 as int,
            ),
            written_samples(
                segment_count,
                segments,
                layout_from(segments[0].demuxed).audio_index->0 as int,
            ),
            collected_from(demuxed_of(segments)).sample_rate->0,
        ),
        earliest_dts(back.packets) == 0,
    ensures
        mux_error(back, back_converted) is None,
        mux_plan(back, back_converted) == batch_plan(segments),
{
    let plan = batch_plan(segments);
    let written = written_samples(
        segment_count,
        segments,
        layout_from(segments[0].demuxed).video_index->0 as int,
    );
    lemma_run_writes_plan(segment_count, segments);
    assert forall|k: int| 0 <= k < plan.video_samples.len() implies {
        let packet = #[trigger] video_packets(back.packets)[k];
        &&& packet.is_length_prefixed
        &&& packet.data == plan.video_samples[k].data
        &&& packet.dts_90k == plan.video_samples[k].dts
        &&& packet.pts_90k == plan.video_samples[k].pts
        &&& packet.is_key == plan.video_samples[k].is_key
    } by {
        assert(untimed(written)[k] == plan.video_samples[k]);
    }
    lemma_given_back_plans_the_same(
        collected_from(demuxed_of(segments)),
        all_conversions(packets_of(segments)),
        back,
        back_converted,
    );
}

/// What a run knows of its segments is what they make known one after the other.
proof fn lemma_run_fidelity(segment_count: usize, segments: Seq<SegmentCourse>)
    ensures
        after_segments(segment_count, segments).0.fidelity == fidelity_of(demuxed_of(segments)),
    decreases segments.len(),
{
    let found = demuxed_of(segments);
    if segments.len() > 0 {
        assert(found.drop_last() =~= demuxed_of(segments.drop_last()));
        assert(found.last() == segments.last().demuxed);
        lemma_run_fidelity(segment_count, segments.drop_last());
    } else {
        assert(found =~= Seq::empty());
    }
}

/// As long as every segment is taken, the codec parameters at hand are those that
/// are collected.
proof fn lemma_held_is_collected(found: Seq<DemuxView>)
    ensures
        fidelity_of(found).taken == all_taken(found),
        all_taken(found) ==> fidelity_of(found).held == (CollectorView {
            packets: Seq::empty(),
            ..collected_from(found)
        }),
    decreases found.len(),
{
    if found.len() > 0 {
        lemma_held_is_collected(found.drop_last());
        assert(Seq::<PacketView>::empty() + Seq::<PacketView>::empty() =~= Seq::<
            PacketView,
        >::empty());
    }
}

/// What is known of the first segment stays.
proof fn lemma_first_is_kept(found: Seq<DemuxView>)
    requires
        found.len() > 0,
    ensures
        fidelity_of(found).begun,
        fidelity_of(found).both_streams == (found[0].saw_video && found[0].saw_audio
            && found[0].sample_rate != Some(0u32)),
        fidelity_of(found).first == pushed(empty_collector(), without_packets(found[0])),
    decreases found.len(),
{
    if found.len() > 1 {
        assert(found.drop_last()[0] == found[0]);
        lemma_first_is_kept(found.drop_last());
    } else {
        reveal_with_fuel(fidelity_of, 2);
        assert(found.last() == found[0]);
    }
}

proof fn lemma_lowest_append(first: Seq<PacketView>, second: Seq<PacketView>, limit: u64)
    ensures
        lowest_dts(first + second, limit) == lowest_dts(second, lowest_dts(first, limit)),
        lowest_pts(first + second, limit) == lowest_pts(second, lowest_pts(first, limit)),
    decreases second.len(),
{
    if second.len() == 0 {
        assert(first + second =~= first);
    } else {
        assert((first + second).drop_last() =~= first + second.drop_last());
        lemma_lowest_append(first, second.drop_last(), limit);
    }
}

proof fn lemma_frames_append(first: Seq<PacketView>, second: Seq<PacketView>)
    ensures
        frames_fit(first + second) <==> frames_fit(first) && frames_fit(second),
        usual_frames(first + second) <==> usual_frames(first) && usual_frames(second),
{
    let both = first + second;
    assert(forall|i: int| 0 <= i < first.len() ==> #[trigger] first[i] == both[i]);
    assert(forall|i: int| 0 <= i < second.len() ==> #[trigger] second[i] == both[first.len() + i]);
    assert(forall|i: int|
        0 <= i < both.len() ==> #[trigger] both[i] == (if i < first.len() {
            first[i]
        } else {
            second[i - first.len()]
        }));
}

/// What is known of the packets of some segments is what holds of all of them
/// together.
proof fn lemma_known_packets(segments: Seq<SegmentCourse>)
    ensures
        ({
            let known = fidelity_of(demuxed_of(segments));
            let packets = all_packets(packets_of(segments));
            &&& known.first_dts == first_dts(segments)
            &&& known.first_dts == (if packets.len() > 0 {
                Some(packets[0].dts_90k)
            } else {
                None
            })
            &&& known.lowest_dts == lowest_dts(packets, u64::MAX)
            &&& known.lowest_pts == lowest_pts(packets, u64::MAX)
            &&& known.fitting_frames == frames_fit(packets)
            &&& known.usual_frames == usual_frames(packets)
        }),
    decreases segments.len(),
{
    let found = demuxed_of(segments);
    let parts = packets_of(segments);
    if segments.len() > 0 {
        let before = segments.drop_last();
        assert(found.drop_last() =~= demuxed_of(before));
        assert(parts.drop_last() =~= packets_of(before));
        assert(parts.last() == parts[parts.len() - 1]);
        lemma_known_packets(before);
        lemma_lowest_append(
            all_packets(packets_of(before)),
            segments.last().demuxed.packets,
            u64::MAX,
        );
        lemma_frames_append(all_packets(packets_of(before)), segments.last().demuxed.packets);
    } else {
        assert(found =~= Seq::empty());
        assert(parts =~= Seq::empty());
    }
}

/// The lowest DTS of some packets is the earliest one.
proof fn lemma_lowest_is_earliest(packets: Seq<PacketView>)
    requires
        packets.len() > 0,
    ensures
        lowest_dts(packets, u64::MAX) == earliest_dts(packets),
    decreases packets.len(),
{
    if packets.len() > 1 {
        lemma_lowest_is_earliest(packets.drop_last());
    } else {
        reveal_with_fuel(lowest_dts, 2);
        assert(packets.last() == packets[0]);
    }
}

/// A time is not above the lowest PTS exactly where no packet is presented before
/// it.
proof fn lemma_lowest_pts(packets: Seq<PacketView>, time: u64)
    ensures
        time <= lowest_pts(packets, u64::MAX) <==> forall|i: int|
            0 <= i < packets.len() ==> time <= (#[trigger] packets[i]).pts_90k,
    decreases packets.len(),
{
    if packets.len() > 0 {
        let before = packets.drop_last();
        lemma_lowest_pts(before, time);
        assert(forall|i: int| 0 <= i < before.len() ==> #[trigger] before[i] == packets[i]);
        assert(forall|i: int|
            0 <= i < packets.len() - 1 ==> #[trigger] packets[i] == before[i]);
        assert(packets[packets.len() - 1] == packets.last());
    }
}

/// Whether every segment gives one conversion for each packet, and those that are
/// needed work.
pub open spec fn all_convert(segments: Seq<SegmentCourse>) -> bool {
    forall|s: int|
        0 <= s < segments.len() ==> {
            &&& converts(#[trigger] segments[s])
            &&& segments[s].converted.len() == segments[s].demuxed.packets.len()
        }
}

/// Where every segment converts, so do all packets together.
proof fn lemma_all_convert(segments: Seq<SegmentCourse>)
    requires
        all_convert(segments),
    ensures
        all_packets(packets_of(segments)).len() == all_conversions(packets_of(segments)).len(),
        conversion_error(
            all_packets(packets_of(segments)),
            all_conversions(packets_of(segments)),
        ) is None,
    decreases segments.len(),
{
    let parts = packets_of(segments);
    let packets = all_packets(parts);
    let converted = all_conversions(parts);
    if segments.len() > 0 {
        let before = segments.drop_last();
        let last = segments.last();
        assert(segments[segments.len() - 1] == last);
        assert forall|s: int| 0 <= s < before.len() implies converts(#[trigger] before[s])
            && before[s].converted.len() == before[s].demuxed.packets.len() by {
            assert(before[s] == segments[s]);
        }
        assert(parts.drop_last() =~= packets_of(before));
        assert(parts.last() == parts[parts.len() - 1]);
        lemma_all_convert(before);
        let early = all_packets(packets_of(before));
        let early_converted = all_conversions(packets_of(before));
        lemma_no_conversion_error(early, early_converted);
        lemma_no_conversion_error(last.demuxed.packets, last.converted);
        assert forall|i: int| 0 <= i < packets.len() && unprefixed(
            #[trigger] packets[i],
        ) implies converted[i] is Ok by {
            if i < early.len() {
                assert(unprefixed(early[i]));
            } else {
                assert(unprefixed(last.demuxed.packets[i - early.len()]));
            }
        }
    } else {
        assert(parts =~= Seq::empty());
    }
    lemma_no_conversion_error(packets, converted);
}

/// A run knows whether its segments can be laid out as a standard MP4 all at once.
pub proof fn lemma_batch_accepts(segments: Seq<SegmentCourse>)
    requires
        all_convert(segments),
    ensures
        batch_accepts(fidelity_of(demuxed_of(segments))) <==> all_taken(demuxed_of(segments))
            && mux_error(
            collected_from(demuxed_of(segments)),
            all_conversions(packets_of(segments)),
        ) is None,
{
    let found = demuxed_of(segments);
    let parts = packets_of(segments);
    let packets = all_packets(parts);
    let converted = all_conversions(parts);
    lemma_held_is_collected(found);
    lemma_known_packets(segments);
    if all_taken(found) && packets.len() > 0 {
        let base = earliest_dts(packets);
        lemma_all_packets_collected(found, parts);
        lemma_all_convert(segments);
        lemma_no_conversion_error(packets, converted);
        lemma_earliest_dts(packets);
        lemma_lowest_is_earliest(packets);
        lemma_lowest_pts(packets, base);
        lemma_no_packet_error(packets, converted, base);
        if base <= lowest_pts(packets, u64::MAX) && frames_fit(packets) {
            assert forall|i: int| 0 <= i < packets.len() implies packet_error(
                #[trigger] packets[i],
                converted[i],
                base,
            ) is None by {}
        } else if first_packet_error(packets, converted, base) is None {
            assert forall|i: int| 0 <= i < packets.len() implies base <= (
            #[trigger] packets[i]).pts_90k by {
                assert(packet_error(packets[i], converted[i], base) is None);
            }
            assert forall|i: int| 0 <= i < packets.len() && !(
            #[trigger] packets[i]).kind.is_video() implies packets[i].duration <= u32::MAX by {
                assert(packet_error(packets[i], converted[i], base) is None);
            }
        }
    } else if all_taken(found) {
        lemma_all_packets_collected(found, parts);
    }
}

/// The collector that a segment by itself gives.
pub open spec fn first_parameters(first: DemuxView) -> CollectorView {
    pushed(empty_collector(), without_packets(first))
}

/// A streaming run gives the output of a batch run: where the segments can be laid
/// out as a standard MP4 all at once, then either finalizing lays out exactly those
/// tracks, or all segments are written at once.
///
/// What finalizing lays out rests on what demuxing the temporary file gives: the
/// samples that the run has written into it, on a timeline that starts at zero, and
/// the codec parameters of the first segment, which its header was written with.
pub proof fn lemma_streaming_is_batch(
    segments: Seq<SegmentCourse>,
    back: CollectorView,
    back_converted: Seq<Result<Seq<u8>, ErrorView>>,
    pipeline: PipelineView,
    report: ReportView,
)
    requires
        0 < segments.len() == pipeline.segment_count,
        pipeline.format == OutputFormat::StreamingMp4,
        pipeline.backend == FinalizeBackend::Native,
        pipeline.state is Writing,
        first_tracks(segments[0].demuxed, Ok(())) is Ok,
        segments[0].header_size + fragments_size(segments) <= u64::MAX,
        all_convert(segments),
        all_taken(demuxed_of(segments)),
        mux_error(
            collected_from(demuxed_of(segments)),
            all_conversions(packets_of(segments)),
        ) is None,
        !differs(after_segments(pipeline.segment_count, segments).0.fidelity) ==> {
            &&& back == (CollectorView {
                packets: back.packets,
                ..first_parameters(segments[0].demuxed)
            })
            &&& give_back(
                back.packets,
                written_samples(
                    pipeline.segment_count,
                    segments,
                    layout_from(segments[0].demuxed).video_index->0 as int,
                ),
                written_samples(
                    pipeline.segment_count,
                    segments,
                    layout_from(segments[0].demuxed).audio_index->0 as int,
                ),
                back.sample_rate->0,
            )
            &&& earliest_dts(back.packets) == 0
        },
    ensures
        ({
            let run = after_segments(pipeline.segment_count, segments).0;
            let event = EventView::Fragmented(Ok(report), differs(run.fidelity));
            let step = next_step_of(pipeline, event);
            if differs(run.fidelity) {
                step == first_step_of(PipelineView { format: OutputFormat::Mp4, ..pipeline })
            } else {
                &&& step is Finalize
                &&& mux_error(back, back_converted) is None
                &&& mux_plan(back, back_converted) == batch_plan(segments)
            }
        }),
{
    let segment_count = pipeline.segment_count;
    let found = demuxed_of(segments);
    let packets = all_packets(packets_of(segments));
    lemma_run_fidelity(segment_count, segments);
    lemma_batch_accepts(segments);
    if !differs(fidelity_of(found)) {
        assert(found[0] == segments[0].demuxed);
        lemma_first_is_kept(found);
        lemma_held_is_collected(found);
        lemma_known_packets(segments);
        lemma_all_packets_collected(found, packets_of(segments));
        lemma_lowest_is_earliest(packets);
        assert(comparable(segment_count, segments));
        lemma_streaming_plans_the_same(segment_count, segments, back, back_converted);
    }
}

} // verus!
