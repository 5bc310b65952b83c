//! What a standard MP4 is made of, and how long it lasts.

use super::samples::{
    audio_count, is_audio_sample_of, is_video_sample_of, lemma_audio_samples_hold_packets,
    lemma_video_samples_hold_packets, video_count,
};
use crate::collect::{
    conflict_error, earliest_dts, empty_collector, first_conflict, first_packet_error,
    lemma_earliest_dts, lemma_longest_milliseconds, lemma_no_packet_error, longest_milliseconds,
    mux_error, mux_plan, packet_error, pushed, track_milliseconds, CollectorView,
};
use crate::error::ErrorView;
use crate::types::{DemuxView, PacketView, StreamKind, TrackInfo, VideoParametersView};
use vstd::prelude::*;

verus! {

/// Whether a parameter is not set to two values.
pub open spec fn compatible<T>(held: Option<T>, found: Option<T>) -> bool {
    match (held, found) {
        (Some(h), Some(f)) => h == f,
        _ => true,
    }
}

/// Whether a segment sets no parameter to another value than the one held.
pub open spec fn all_compatible(held: CollectorView, found: DemuxView) -> bool {
    &&& compatible(held.vps, found.vps)
    &&& compatible(held.sps, found.sps)
    &&& compatible(held.pps, found.pps)
    &&& compatible(held.audio_specific_config, found.audio_specific_config)
    &&& compatible(held.sample_rate, found.sample_rate)
    &&& compatible(held.channel_count, found.channel_count)
}

/// Whether `after` is the value held, or the one found where none was held.
pub open spec fn taken_over<T>(held: Option<T>, found: Option<T>, after: Option<T>) -> bool {
    match held {
        Some(h) => after == Some(h),
        None => after == found,
    }
}

/// A collector begins with nothing.
pub proof fn lemma_collector_begins_empty()
    ensures
        empty_collector().packets.len() == 0,
        empty_collector().vps is None,
        empty_collector().sps is None,
        empty_collector().pps is None,
        empty_collector().audio_specific_config is None,
        empty_collector().sample_rate is None,
        empty_collector().channel_count is None,
{
}

/// A segment is taken exactly where it sets no parameter to another value. Then its
/// packets follow those that were there, and it sets the parameters that were not set.
pub proof fn lemma_segment_is_taken(held: CollectorView, found: DemuxView)
    ensures
        first_conflict(held, found) == 6 <==> all_compatible(held, found),
        all_compatible(held, found) ==> {
            let after = pushed(held, found);
            &&& after.packets.len() == held.packets.len() + found.packets.len()
            &&& forall|i: int|
                0 <= i < held.packets.len() ==> #[trigger] after.packets[i] == held.packets[i]
            &&& forall|i: int|
                0 <= i < found.packets.len() ==> after.packets[held.packets.len() + i]
                    == #[trigger] found.packets[i]
            &&& taken_over(held.vps, found.vps, after.vps)
            &&& taken_over(held.sps, found.sps, after.sps)
            &&& taken_over(held.pps, found.pps, after.pps)
            &&& taken_over(
                held.audio_specific_config,
                found.audio_specific_config,
                after.audio_specific_config,
            )
            &&& taken_over(held.sample_rate, found.sample_rate, after.sample_rate)
            &&& taken_over(held.channel_count, found.channel_count, after.channel_count)
        },
{
}

/// A refused segment adds no packet and changes no parameter that is set, and those
/// that it sets are its own.
pub proof fn lemma_segment_is_refused(held: CollectorView, found: DemuxView)
    requires
        !all_compatible(held, found),
    ensures
        ({
            let after = pushed(held, found);
            &&& after.packets == held.packets
            &&& after.vps == held.vps || taken_over(held.vps, found.vps, after.vps)
            &&& after.sps == held.sps || taken_over(held.sps, found.sps, after.sps)
            &&& after.pps == held.pps || taken_over(held.pps, found.pps, after.pps)
            &&& after.audio_specific_config == held.audio_specific_config || taken_over(
                held.audio_specific_config,
                found.audio_specific_config,
                after.audio_specific_config,
            )
            &&& after.sample_rate == held.sample_rate || taken_over(
                held.sample_rate,
                found.sample_rate,
                after.sample_rate,
            )
            &&& after.channel_count == held.channel_count
        }),
{
}

/// A refused segment sets the parameters that come before the first one it would change,
/// and none behind it.
pub proof fn lemma_refused_in_order(held: CollectorView, found: DemuxView)
    requires
        !all_compatible(held, found),
    ensures
        ({
            let after = pushed(held, found);
            let vps_fits = compatible(held.vps, found.vps);
            let sps_fits = vps_fits && compatible(held.sps, found.sps);
            let pps_fits = sps_fits && compatible(held.pps, found.pps);
            let config_fits = pps_fits && compatible(
                held.audio_specific_config,
                found.audio_specific_config,
            );
            let rate_fits = config_fits && compatible(held.sample_rate, found.sample_rate);
            &&& taken_over(held.vps, found.vps, after.vps)
            &&& vps_fits ==> taken_over(held.sps, found.sps, after.sps)
            &&& sps_fits ==> taken_over(held.pps, found.pps, after.pps)
            &&& pps_fits ==> taken_over(
                held.audio_specific_config,
                found.audio_specific_config,
                after.audio_specific_config,
            )
            &&& config_fits ==> taken_over(held.sample_rate, found.sample_rate, after.sample_rate)
            &&& !vps_fits ==> after.sps == held.sps
            &&& !sps_fits ==> after.pps == held.pps
            &&& !pps_fits ==> after.audio_specific_config == held.audio_specific_config
            &&& !config_fits ==> after.sample_rate == held.sample_rate
            &&& after.channel_count == held.channel_count || rate_fits
        }),
{
}

/// The error on a refused segment names the first parameter that it would change.
pub proof fn lemma_refusal_names_parameter(held: CollectorView, found: DemuxView)
    requires
        !all_compatible(held, found),
    ensures
        ({
            let error = conflict_error(first_conflict(held, found));
            if !compatible(held.vps, found.vps) {
                error == ErrorView::Unsupported(
                    "mid-stream HEVC VPS changes are out of Phase 3 scope"@,
                )
            } else if !compatible(held.sps, found.sps) {
                error == ErrorView::Unsupported("mid-stream SPS changes are out of Phase 3 scope"@)
            } else if !compatible(held.pps, found.pps) {
                error == ErrorView::Unsupported("mid-stream PPS changes are out of Phase 3 scope"@)
            } else if !compatible(held.audio_specific_config, found.audio_specific_config) {
                error == ErrorView::Unsupported(
                    "mid-stream AAC config changes are out of Phase 3 scope"@,
                )
            } else if !compatible(held.sample_rate, found.sample_rate) {
                error == ErrorView::Unsupported(
                    "mid-stream AAC sample rate changes are out of Phase 3 scope"@,
                )
            } else {
                error == ErrorView::Unsupported(
                    "mid-stream AAC channel count changes are out of Phase 3 scope"@,
                )
            }
        }),
{
}

/// Whether a packet can be a sample of a standard MP4: it is not presented before the
/// first packet is decoded, its conversion works if it needs one, and its duration
/// fits into 32 bits if it is audio.
pub open spec fn can_be_sample(
    packets: Seq<PacketView>,
    converted: Seq<Result<Seq<u8>, ErrorView>>,
    i: int,
) -> bool {
    let packet = packets[i];
    &&& exists|j: int| 0 <= j < packets.len() && (#[trigger] packets[j]).dts_90k <= packet.pts_90k
    &&& packet.kind == StreamKind::Aac ==> packet.duration <= u32::MAX
    &&& packet.kind != StreamKind::Aac && !packet.is_length_prefixed ==> converted[i] is Ok
}

/// A packet that cannot be a sample is reported for a reason that it gives.
pub proof fn lemma_packet_error_reasons(
    packet: PacketView,
    converted: Result<Seq<u8>, ErrorView>,
    base: u64,
)
    ensures
        ({
            let early = packet.dts_90k < base || packet.pts_90k < base;
            let failed = packet.kind != StreamKind::Aac && !packet.is_length_prefixed
                && converted is Err;
            let long = packet.kind == StreamKind::Aac && packet.duration > u32::MAX;
            &&& packet_error(packet, converted, base) is None <==> !early && !failed && !long
            &&& early ==> packet_error(packet, converted, base) == Some(
                ErrorView::Muxing("packet timestamps precede the normalization base"@),
            )
            &&& !early && failed ==> packet_error(packet, converted, base) == Some(
                converted->Err_0,
            )
            &&& !early && long ==> packet_error(packet, converted, base) == Some(
                ErrorView::Muxing("AAC packet duration exceeds u32"@),
            )
        }),
{
}

/// Collected packets make up a standard MP4 exactly where there are some, the codec
/// parameters of both streams are known, and every packet can be a sample.
pub proof fn lemma_standard_is_possible(
    collected: CollectorView,
    converted: Seq<Result<Seq<u8>, ErrorView>>,
)
    ensures
        mux_error(collected, converted) is None <==> {
            &&& collected.packets.len() > 0
            &&& collected.sample_rate is Some
            &&& collected.channel_count is Some
            &&& collected.audio_specific_config is Some
            &&& collected.sps is Some
            &&& collected.pps is Some
            &&& forall|i: int|
                0 <= i < collected.packets.len() ==> #[trigger] can_be_sample(
                    collected.packets,
                    converted,
                    i,
                )
        },
{
    let packets = collected.packets;
    if packets.len() > 0 {
        let base = earliest_dts(packets);
        lemma_earliest_dts(packets);
        lemma_no_packet_error(packets, converted, base);
        let e = choose|e: int| 0 <= e < packets.len() && (#[trigger] packets[e]).dts_90k == base;
        assert forall|i: int| 0 <= i < packets.len() implies (#[trigger] can_be_sample(
            packets,
            converted,
            i,
        ) <==> packet_error(packets[i], converted[i], base) is None) by {
            lemma_packet_error_reasons(packets[i], converted[i], base);
            assert(packets[e].dts_90k == base);
            if packet_error(packets[i], converted[i], base) is None {
                assert(packets[e].dts_90k <= packets[i].pts_90k);
            }
        }
        if forall|i: int|
            0 <= i < packets.len() ==> #[trigger] can_be_sample(packets, converted, i) {
            assert forall|i: int| 0 <= i < packets.len() implies packet_error(
                #[trigger] packets[i],
                converted[i],
                base,
            ) is None by {
                assert(can_be_sample(packets, converted, i));
            }
        }
    }
}

/// Where packets cannot be samples, the first of them is reported.
pub proof fn lemma_first_bad_packet_is_reported(
    collected: CollectorView,
    converted: Seq<Result<Seq<u8>, ErrorView>>,
    start: u64,
    i: int,
)
    requires
        collected.sample_rate is Some,
        collected.channel_count is Some,
        exists|e: int| 0 <= e < collected.packets.len() && (#[trigger] collected.packets[e]).dts_90k
            == start,
        forall|k: int|
            0 <= k < collected.packets.len() ==> (#[trigger] collected.packets[k]).dts_90k >= start,
        0 <= i < collected.packets.len(),
        packet_error(collected.packets[i], converted[i], start) is Some,
        forall|k: int|
            0 <= k < i ==> packet_error(#[trigger] collected.packets[k], converted[k], start) is None,
    ensures
        mux_error(collected, converted) == packet_error(collected.packets[i], converted[i], start),
{
    let packets = collected.packets;
    lemma_earliest_dts(packets);
    let e = choose|e: int| 0 <= e < packets.len() && (#[trigger] packets[e]).dts_90k == start;
    assert(packets[e].dts_90k >= earliest_dts(packets));
    assert(earliest_dts(packets) == start);
    lemma_first_bad_packet(packets, converted, start, i);
}

proof fn lemma_first_bad_packet(
    packets: Seq<PacketView>,
    converted: Seq<Result<Seq<u8>, ErrorView>>,
    start: u64,
    i: int,
)
    requires
        0 <= i < packets.len(),
        packet_error(packets[i], converted[i], start) is Some,
        forall|k: int| 0 <= k < i ==> packet_error(#[trigger] packets[k], converted[k], start) is None,
    ensures
        first_packet_error(packets, converted, start) == packet_error(
            packets[i],
            converted[i],
            start,
        ),
    decreases packets.len(),
{
    let before = packets.drop_last();
    if i < before.len() {
        lemma_first_bad_packet(before, converted, start, i);
    } else {
        lemma_no_packet_error(before, converted, start);
        assert(forall|k: int| 0 <= k < before.len() ==> #[trigger] before[k] == packets[k]);
    }
}

/// What is missing of a standard MP4 is what is reported.
pub proof fn lemma_missing_is_reported(
    collected: CollectorView,
    converted: Seq<Result<Seq<u8>, ErrorView>>,
)
    ensures
        collected.packets.len() == 0 ==> mux_error(collected, converted) == Some(
            ErrorView::InvalidInput("HLS playlist did not produce any encoded packets"@),
        ),
        collected.packets.len() > 0 && (collected.sample_rate is None || collected.channel_count
            is None) ==> mux_error(collected, converted) == Some(
            ErrorView::Unsupported("AAC audio is required for non-fragmented MP4"@),
        ),
        mux_error(
            CollectorView { audio_specific_config: Some(Seq::empty()), ..collected },
            converted,
        ) is None && collected.audio_specific_config is None ==> mux_error(collected, converted)
            == Some(ErrorView::Bitstream("AAC AudioSpecificConfig was not found"@)),
        mux_error(CollectorView { sps: Some(Seq::empty()), ..collected }, converted) is None
            && collected.sps is None ==> mux_error(collected, converted) == Some(
            ErrorView::Bitstream(
                if collected.vps is Some {
                    "HEVC SPS was not found"@
                } else {
                    "H.264 SPS was not found"@
                },
            ),
        ),
        mux_error(CollectorView { pps: Some(Seq::empty()), ..collected }, converted) is None
            && collected.pps is None ==> mux_error(collected, converted) == Some(
            ErrorView::Bitstream(
                if collected.vps is Some {
                    "HEVC PPS was not found"@
                } else {
                    "H.264 PPS was not found"@
                },
            ),
        ),
{
}

/// A plan holds every packet: each video packet as the video sample at its place among
/// the video packets, and each audio packet as the audio sample at its place among the
/// audio packets, with all of its data, its own duration and its times from the
/// earliest packet on.
pub proof fn lemma_plan_holds_packets(
    collected: CollectorView,
    converted: Seq<Result<Seq<u8>, ErrorView>>,
    start: u64,
)
    requires
        mux_error(collected, converted) is None,
        exists|e: int| 0 <= e < collected.packets.len() && (#[trigger] collected.packets[e]).dts_90k
            == start,
        forall|i: int|
            0 <= i < collected.packets.len() ==> (#[trigger] collected.packets[i]).dts_90k >= start,
    ensures
        ({
            let packets = collected.packets;
            let plan = mux_plan(collected, converted);
            &&& plan.video_samples.len() == video_count(packets, packets.len() as int)
            &&& plan.audio_samples.len() == audio_count(packets, packets.len() as int)
            &&& forall|i: int|
                #![trigger packets[i]]
                0 <= i < packets.len() && packets[i].kind != StreamKind::Aac ==> {
                    &&& 0 <= video_count(packets, i) < plan.video_samples.len()
                    &&& is_video_sample_of(
                        plan.video_samples[video_count(packets, i)],
                        packets[i],
                        converted[i],
                        start,
                    )
                }
            &&& forall|i: int|
                #![trigger packets[i]]
                0 <= i < packets.len() && packets[i].kind == StreamKind::Aac ==> {
                    &&& 0 <= audio_count(packets, i) < plan.audio_samples.len()
                    &&& is_audio_sample_of(
                        plan.audio_samples[audio_count(packets, i)],
                        packets[i],
                        start,
                        collected.sample_rate->0,
                        packets[i].duration as int,
                    )
                }
        }),
{
    let packets = collected.packets;
    let base = earliest_dts(packets);
    lemma_earliest_dts(packets);
    let e = choose|e: int| 0 <= e < packets.len() && (#[trigger] packets[e]).dts_90k == start;
    assert(packets[e].dts_90k >= base);
    assert(base == start);
    lemma_standard_is_possible(collected, converted);
    lemma_video_samples_hold_packets(packets, converted, base);
    lemma_audio_samples_hold_packets(packets, base, collected.sample_rate->0, None);
    assert forall|i: int|
        #![trigger packets[i]]
        0 <= i < packets.len() && packets[i].kind == StreamKind::Aac implies packets[i].duration
        <= u32::MAX by {
        assert(can_be_sample(packets, converted, i));
    }
}

/// A plan has the codec parameters that were collected, and is HEVC exactly where there
/// is a VPS.
pub proof fn lemma_plan_has_parameters(
    collected: CollectorView,
    converted: Seq<Result<Seq<u8>, ErrorView>>,
)
    requires
        mux_error(collected, converted) is None,
    ensures
        ({
            let plan = mux_plan(collected, converted);
            &&& collected.sample_rate == Some(plan.sample_rate)
            &&& collected.channel_count == Some(plan.channel_count)
            &&& collected.audio_specific_config == Some(plan.audio_specific_config)
            &&& match plan.video {
                VideoParametersView::Avc { sps, pps } => {
                    &&& collected.vps is None
                    &&& collected.sps == Some(sps)
                    &&& collected.pps == Some(pps)
                },
                VideoParametersView::Hevc { vps, sps, pps } => {
                    &&& collected.vps == Some(vps)
                    &&& collected.sps == Some(sps)
                    &&& collected.pps == Some(pps)
                },
            }
        }),
{
}

/// The milliseconds of a track are its duration in seconds times 1000, rounded down,
/// whatever the track carries. Where the product is past 64 bits, it counts as the
/// most that it can be.
pub proof fn lemma_track_duration(track: TrackInfo)
    requires
        track.timescale > 0,
    ensures
        ({
            let ms = track_milliseconds(track);
            let ticks = if track.duration * 1000 <= u64::MAX {
                track.duration * 1000
            } else {
                u64::MAX as int
            };
            ms * track.timescale <= ticks < (ms + 1) * track.timescale
        }),
{
    let product = track.duration * 1000;
    let ticks = if product > u64::MAX {
        u64::MAX as int
    } else {
        product
    };
    let scale = track.timescale as int;
    let ms = ticks / scale;
    assert(0 <= ms <= ticks && ms * scale <= ticks < (ms + 1) * scale) by (nonlinear_arith)
        requires
            ms == ticks / scale,
            scale > 0,
            ticks >= 0,
    ;
}

/// The duration of a file is that of a track, no track lasts longer, and without
/// tracks it is zero. Two tracks of the same length in seconds count alike.
pub proof fn lemma_file_duration(tracks: Seq<TrackInfo>)
    requires
        forall|i: int| 0 <= i < tracks.len() ==> (#[trigger] tracks[i]).timescale > 0,
        forall|i: int| 0 <= i < tracks.len() ==> (#[trigger] tracks[i]).duration * 1000 <= u64::MAX,
    ensures
        ({
            let ms = longest_milliseconds(tracks);
            &&& tracks.len() == 0 ==> ms == 0
            &&& tracks.len() > 0 ==> exists|i: int|
                0 <= i < tracks.len() && ms * (#[trigger] tracks[i]).timescale <= tracks[i].duration
                    * 1000
            &&& forall|i: int|
                0 <= i < tracks.len() ==> (#[trigger] tracks[i]).duration * 1000 < (ms + 1)
                    * tracks[i].timescale
        }),
{
    lemma_longest_milliseconds(tracks);
    let ms = longest_milliseconds(tracks);
    if tracks.len() > 0 {
        let i = choose|i: int| 0 <= i < tracks.len() && track_milliseconds(#[trigger] tracks[i]) == ms;
        lemma_track_duration(tracks[i]);
        assert(ms * tracks[i].timescale <= tracks[i].duration * 1000);
    }
    assert forall|i: int| 0 <= i < tracks.len() implies (#[trigger] tracks[i]).duration * 1000 < (ms
        + 1) * tracks[i].timescale by {
        lemma_track_duration(tracks[i]);
        let own = track_milliseconds(tracks[i]);
        let scale = tracks[i].timescale as int;
        assert((own + 1) * scale <= (ms + 1) * scale) by (nonlinear_arith)
            requires
                own <= ms,
                scale > 0,
        ;
    }
}

} // verus!
