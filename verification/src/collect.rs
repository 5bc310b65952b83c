//! Collecting the packets of all segments for a standard MP4.

use crate::error::{Error, ErrorView};
use crate::laws::collecting::lemma_track_duration;
use crate::samples::{
    all_conversions, all_packets, audio_samples, conversions, lemma_audio_sample_of_packet,
    lemma_audio_samples_step, lemma_sample_views_push, lemma_segments_group_as_whole,
    lemma_video_sample_of_packet, lemma_video_samples_step, rescale_90k, samples_by_segment,
    track_samples, unprefixed, video_sample, video_samples, SegmentPackets, TrackLayout,
    AAC_FRAME_TICKS,
};
use crate::text::{bytes_view, same_bytes};
use crate::types::{
    packet_views, sample_views, DemuxOutput, DemuxView, EncodedPacket, Mp4Sample, PacketView,
    ReportView, SampleView, StreamKind, TrackInfo, TransmuxReport, VideoParameters,
    VideoParametersView,
};
use vstd::prelude::*;

verus! {

/// The packets and the codec parameters of the segments seen so far. A parameter
/// that one segment has set may not change in a later one.
#[derive(Debug)]
pub struct PacketCollector {
    pub packets: Vec<EncodedPacket>,
    pub vps: Option<Vec<u8>>,
    pub sps: Option<Vec<u8>>,
    pub pps: Option<Vec<u8>>,
    pub audio_specific_config: Option<Vec<u8>>,
    pub sample_rate: Option<u32>,
    pub channel_count: Option<u8>,
}

/// The value of a [`PacketCollector`] in contracts.
pub struct CollectorView {
    pub packets: Seq<PacketView>,
    pub vps: Option<Seq<u8>>,
    pub sps: Option<Seq<u8>>,
    pub pps: Option<Seq<u8>>,
    pub audio_specific_config: Option<Seq<u8>>,
    pub sample_rate: Option<u32>,
    pub channel_count: Option<u8>,
}

impl View for PacketCollector {
    type V = CollectorView;

    open spec fn view(&self) -> CollectorView {
        CollectorView {
            packets: packet_views(self.packets@),
            vps: bytes_view(self.vps),
            sps: bytes_view(self.sps),
            pps: bytes_view(self.pps),
            audio_specific_config: bytes_view(self.audio_specific_config),
            sample_rate: self.sample_rate,
            channel_count: self.channel_count,
        }
    }
}

/// A collector that has seen no segment.
pub open spec fn empty_collector() -> CollectorView {
    CollectorView {
        packets: Seq::empty(),
        vps: None,
        sps: None,
        pps: None,
        audio_specific_config: None,
        sample_rate: None,
        channel_count: None,
    }
}

/// Whether a segment sets a parameter to another value than the one held.
pub open spec fn disagrees<T>(held: Option<T>, found: Option<T>) -> bool {
    held is Some && found is Some && held != found
}

/// The value held of a parameter after a segment that does not disagree.
pub open spec fn kept<T>(held: Option<T>, found: Option<T>) -> Option<T> {
    if held is Some {
        held
    } else {
        found
    }
}

/// The first parameter, in the order in which they are looked at, on which a
/// segment disagrees with the collector: 0 for the VPS, then SPS, PPS, AAC
/// configuration, sample rate and channel count. 6 where there is none.
pub open spec fn first_conflict(held: CollectorView, found: DemuxView) -> int {
    if disagrees(held.vps, found.vps) {
        0
    } else if disagrees(held.sps, found.sps) {
        1
    } else if disagrees(held.pps, found.pps) {
        2
    } else if disagrees(held.audio_specific_config, found.audio_specific_config) {
        3
    } else if disagrees(held.sample_rate, found.sample_rate) {
        4
    } else if disagrees(held.channel_count, found.channel_count) {
        5
    } else {
        6
    }
}

/// The collector after a segment was pushed. Parameters before the first
/// conflict are taken over; the packets only where there is no conflict.
pub open spec fn pushed(held: CollectorView, found: DemuxView) -> CollectorView {
    let conflict = first_conflict(held, found);
    CollectorView {
        packets: if conflict == 6 {
            held.packets + found.packets
        } else {
            held.packets
        },
        vps: kept(held.vps, found.vps),
        sps: if conflict > 0 {
            kept(held.sps, found.sps)
        } else {
            held.sps
        },
        pps: if conflict > 1 {
            kept(held.pps, found.pps)
        } else {
            held.pps
        },
        audio_specific_config: if conflict > 2 {
            kept(held.audio_specific_config, found.audio_specific_config)
        } else {
            held.audio_specific_config
        },
        sample_rate: if conflict > 3 {
            kept(held.sample_rate, found.sample_rate)
        } else {
            held.sample_rate
        },
        channel_count: if conflict > 4 {
            kept(held.channel_count, found.channel_count)
        } else {
            held.channel_count
        },
    }
}

/// What a conflict is reported as.
pub open spec fn conflict_error(conflict: int) -> ErrorView {
    ErrorView::Unsupported(
        if conflict == 0 {
            "mid-stream HEVC VPS changes are out of Phase 3 scope"@
        } else if conflict == 1 {
            "mid-stream SPS changes are out of Phase 3 scope"@
        } else if conflict == 2 {
            "mid-stream PPS changes are out of Phase 3 scope"@
        } else if conflict == 3 {
            "mid-stream AAC config changes are out of Phase 3 scope"@
        } else if conflict == 4 {
            "mid-stream AAC sample rate changes are out of Phase 3 scope"@
        } else {
            "mid-stream AAC channel count changes are out of Phase 3 scope"@
        },
    )
}

/// Sets a parameter, or checks that it keeps the value it has. A slot that holds
/// another value is left as it is.
pub fn update_param(slot: &mut Option<Vec<u8>>, new_value: Vec<u8>, conflict_msg: &str) -> (result:
    Result<(), Error>)
    ensures
        result is Err <==> disagrees(bytes_view(*old(slot)), Some(new_value@)),
        result matches Err(error) ==> error@ == ErrorView::Unsupported(conflict_msg@),
        bytes_view(*final(slot)) == kept(bytes_view(*old(slot)), Some(new_value@)),
{
    let same: Option<bool> = match &*slot {
        Some(existing) => Some(same_bytes(existing.as_slice(), new_value.as_slice())),
        None => None,
    };
    match same {
        Some(true) => Ok(()),
        Some(false) => Err(Error::unsupported(conflict_msg)),
        None => {
            *slot = Some(new_value);
            Ok(())
        },
    }
}

impl PacketCollector {
    /// A collector that has seen no segment.
    pub fn new() -> (collector: PacketCollector)
        ensures
            collector@ == empty_collector(),
    {
        let collector = PacketCollector {
            packets: Vec::new(),
            vps: None,
            sps: None,
            pps: None,
            audio_specific_config: None,
            sample_rate: None,
            channel_count: None,
        };
        assert(collector@.packets =~= Seq::empty());
        collector
    }

    /// Adds what demuxing one segment gave. Fails where the segment changes a
    /// codec parameter.
    pub fn push_demuxed(&mut self, demuxed: DemuxOutput) -> (result: Result<(), Error>)
        ensures
            final(self)@ == pushed(old(self)@, demuxed@),
            result is Ok <==> first_conflict(old(self)@, demuxed@) == 6,
            result matches Err(error) ==> error@ == conflict_error(
                first_conflict(old(self)@, demuxed@),
            ),
    {
        let DemuxOutput {
            packets,
            vps,
            sps,
            pps,
            audio_specific_config,
            sample_rate,
            channel_count,
            saw_video: _,
            saw_audio: _,
        } = demuxed;
        if let Some(found) = vps {
            match update_param(
                &mut self.vps,
                found,
                "mid-stream HEVC VPS changes are out of Phase 3 scope",
            ) {
                Ok(_) => {},
                Err(error) => {
                    return Err(error);
                },
            }
        }
        if let Some(found) = sps {
            match update_param(
                &mut self.sps,
                found,
                "mid-stream SPS changes are out of Phase 3 scope",
            ) {
                Ok(_) => {},
                Err(error) => {
                    return Err(error);
                },
            }
        }
        if let Some(found) = pps {
            match update_param(
                &mut self.pps,
                found,
                "mid-stream PPS changes are out of Phase 3 scope",
            ) {
                Ok(_) => {},
                Err(error) => {
                    return Err(error);
                },
            }
        }
        if let Some(found) = audio_specific_config {
            match update_param(
                &mut self.audio_specific_config,
                found,
                "mid-stream AAC config changes are out of Phase 3 scope",
            ) {
                Ok(_) => {},
                Err(error) => {
                    return Err(error);
                },
            }
        }
        if let Some(found) = sample_rate {
            if let Some(existing) = self.sample_rate {
                if existing != found {
                    return Err(
                        Error::unsupported(
                            "mid-stream AAC sample rate changes are out of Phase 3 scope",
                        ),
                    );
                }
            }
            self.sample_rate = Some(found);
        }
        if let Some(found) = channel_count {
            if let Some(existing) = self.channel_count {
                if existing != found {
                    return Err(
                        Error::unsupported(
                            "mid-stream AAC channel count changes are out of Phase 3 scope",
                        ),
                    );
                }
            }
            self.channel_count = Some(found);
        }
        let mut added: Vec<EncodedPacket> = packets;
        self.packets.append(&mut added);
        assert(self@.packets =~= old(self)@.packets + demuxed@.packets);
        Ok(())
    }
}

/// The earliest DTS among the packets.
pub open spec fn earliest_dts(packets: Seq<PacketView>) -> u64
    decreases packets.len(),
{
    if packets.len() <= 1 {
        packets[0].dts_90k
    } else {
        let before = earliest_dts(packets.drop_last());
        if packets.last().dts_90k < before {
            packets.last().dts_90k
        } else {
            before
        }
    }
}

/// Why a packet cannot become a sample, if it cannot.
pub open spec fn packet_error(
    packet: PacketView,
    converted: Result<Seq<u8>, ErrorView>,
    base: u64,
) -> Option<ErrorView> {
    if packet.dts_90k < base || packet.pts_90k < base {
        Some(ErrorView::Muxing("packet timestamps precede the normalization base"@))
    } else if unprefixed(packet) && converted is Err {
        Some(converted->Err_0)
    } else if !packet.kind.is_video() && packet.duration > u32::MAX {
        Some(ErrorView::Muxing("AAC packet duration exceeds u32"@))
    } else {
        None
    }
}

/// The error of the first packet that cannot become a sample, if there is one.
pub open spec fn first_packet_error(
    packets: Seq<PacketView>,
    converted: Seq<Result<Seq<u8>, ErrorView>>,
    base: u64,
) -> Option<ErrorView>
    decreases packets.len(),
{
    if packets.len() == 0 {
        None
    } else {
        let before = first_packet_error(packets.drop_last(), converted, base);
        if before is Some {
            before
        } else {
            packet_error(packets.last(), converted[packets.len() - 1], base)
        }
    }
}

/// Why the collected packets cannot be muxed, if they cannot. The reasons are
/// looked for in this order.
pub open spec fn mux_error(
    collected: CollectorView,
    converted: Seq<Result<Seq<u8>, ErrorView>>,
) -> Option<ErrorView> {
    let base = earliest_dts(collected.packets);
    if collected.packets.len() == 0 {
        Some(ErrorView::InvalidInput("HLS playlist did not produce any encoded packets"@))
    } else if collected.sample_rate is None || collected.channel_count is None {
        Some(ErrorView::Unsupported("AAC audio is required for non-fragmented MP4"@))
    } else if first_packet_error(collected.packets, converted, base) is Some {
        first_packet_error(collected.packets, converted, base)
    } else if collected.audio_specific_config is None {
        Some(ErrorView::Bitstream("AAC AudioSpecificConfig was not found"@))
    } else if collected.sps is None {
        Some(
            ErrorView::Bitstream(
                if collected.vps is Some {
                    "HEVC SPS was not found"@
                } else {
                    "H.264 SPS was not found"@
                },
            ),
        )
    } else if collected.pps is None {
        Some(
            ErrorView::Bitstream(
                if collected.vps is Some {
                    "HEVC PPS was not found"@
                } else {
                    "H.264 PPS was not found"@
                },
            ),
        )
    } else {
        None
    }
}

/// The two tracks of a standard MP4, ready to be written: video in ticks of the
/// 90 kHz clock, audio in ticks of its sample rate.
#[derive(Debug, PartialEq, Eq)]
pub struct MuxPlan {
    pub video: VideoParameters,
    pub video_samples: Vec<Mp4Sample>,
    pub audio_samples: Vec<Mp4Sample>,
    pub sample_rate: u32,
    pub channel_count: u8,
    pub audio_specific_config: Vec<u8>,
}

/// The value of a [`MuxPlan`] in contracts.
pub struct MuxPlanView {
    pub video: VideoParametersView,
    pub video_samples: Seq<SampleView>,
    pub audio_samples: Seq<SampleView>,
    pub sample_rate: u32,
    pub channel_count: u8,
    pub audio_specific_config: Seq<u8>,
}

impl View for MuxPlan {
    type V = MuxPlanView;

    open spec fn view(&self) -> MuxPlanView {
        MuxPlanView {
            video: self.video@,
            video_samples: sample_views(self.video_samples@),
            audio_samples: sample_views(self.audio_samples@),
            sample_rate: self.sample_rate,
            channel_count: self.channel_count,
            audio_specific_config: self.audio_specific_config@,
        }
    }
}

/// The tracks that the collected packets make up. Their timeline starts at the
/// earliest DTS. A stream with a VPS is HEVC.
pub open spec fn mux_plan(
    collected: CollectorView,
    converted: Seq<Result<Seq<u8>, ErrorView>>,
) -> MuxPlanView {
    let base = earliest_dts(collected.packets);
    MuxPlanView {
        video: match collected.vps {
            Some(vps) => VideoParametersView::Hevc {
                vps,
                sps: collected.sps->0,
                pps: collected.pps->0,
            },
            None => VideoParametersView::Avc { sps: collected.sps->0, pps: collected.pps->0 },
        },
        video_samples: video_samples(collected.packets, converted, base),
        audio_samples: audio_samples(collected.packets, base, collected.sample_rate->0, None),
        sample_rate: collected.sample_rate->0,
        channel_count: collected.channel_count->0,
        audio_specific_config: collected.audio_specific_config->0,
    }
}

/// Lays out the collected packets as the two tracks of a standard MP4, on a
/// timeline that starts at the earliest DTS.
///
/// `converted[i]` is what converting the data of packet `i` to length prefixes
/// gave. It is looked at only where the packet needs a conversion.
pub fn mux_collected_packets(
    collector: PacketCollector,
    converted: &Vec<Result<Vec<u8>, Error>>,
) -> (planned: Result<MuxPlan, Error>)
    requires
        converted@.len() == collector.packets@.len(),
    ensures
        planned is Ok <==> mux_error(collector@, conversions(converted@)) is None,
        planned matches Err(error) ==> Some(error@) == mux_error(
            collector@,
            conversions(converted@),
        ),
        planned matches Ok(plan) ==> plan@ == mux_plan(collector@, conversions(converted@)),
{
    let PacketCollector {
        packets,
        vps,
        sps,
        pps,
        audio_specific_config,
        sample_rate,
        channel_count,
    } = collector;
    let ghost views = packet_views(packets@);
    let ghost outcomes = conversions(converted@);

    if packets.len() == 0 {
        return Err(Error::invalid("HLS playlist did not produce any encoded packets"));
    }
    let mut base: u64 = packets[0].dts_90k;
    let mut k: usize = 1;
    while k < packets.len()
        invariant
            1 <= k <= packets@.len(),
            views == packet_views(packets@),
            base == earliest_dts(views.take(k as int)),
        decreases packets@.len() - k,
    {
        assert(views.take(k + 1).drop_last() =~= views.take(k as int));
        if packets[k].dts_90k < base {
            base = packets[k].dts_90k;
        }
        k = k + 1;
    }
    assert(views.take(views.len() as int) =~= views);

    let sample_rate: u32 = match sample_rate {
        Some(rate) => rate,
        None => {
            return Err(Error::unsupported("AAC audio is required for non-fragmented MP4"));
        },
    };
    let channel_count: u8 = match channel_count {
        Some(count) => count,
        None => {
            return Err(Error::unsupported("AAC audio is required for non-fragmented MP4"));
        },
    };

    let mut video: Vec<Mp4Sample> = Vec::new();
    let mut audio: Vec<Mp4Sample> = Vec::new();
    assert(sample_views(video@) =~= video_samples(views.take(0), outcomes, base));
    assert(sample_views(audio@) =~= audio_samples(views.take(0), base, sample_rate, None));
    let mut i: usize = 0;
    while i < packets.len()
        invariant
            i <= packets@.len(),
            converted@.len() == packets@.len(),
            views == packet_views(packets@),
            outcomes == conversions(converted@),
            collector@.packets == views,
            collector@.sample_rate is Some,
            collector@.channel_count is Some,
            base == earliest_dts(views),
            first_packet_error(views.take(i as int), outcomes, base) is None,
            sample_views(video@) == video_samples(views.take(i as int), outcomes, base),
            sample_views(audio@) == audio_samples(views.take(i as int), base, sample_rate, None),
        decreases packets@.len() - i,
    {
        let packet: &EncodedPacket = &packets[i];
        proof {
            lemma_video_samples_step(views, outcomes, base, i as int);
            lemma_audio_samples_step(views, base, sample_rate, None, i as int);
            assert(views.take(i + 1).drop_last() =~= views.take(i as int));
            lemma_first_packet_error(views, outcomes, base, i + 1);
        }
        if packet.dts_90k < base || packet.pts_90k < base {
            return Err(Error::muxing("packet timestamps precede the normalization base"));
        }
        let dts: u64 = packet.dts_90k - base;
        let pts: u64 = packet.pts_90k - base;
        if packet.kind == StreamKind::Aac {
            if packet.duration > u32::MAX as u64 {
                return Err(Error::muxing("AAC packet duration exceeds u32"));
            }
            let sample = Mp4Sample {
                data: packet.data.clone(),
                dts: rescale_90k(dts, sample_rate),
                pts: rescale_90k(pts, sample_rate),
                duration: packet.duration as u32,
                is_key: true,
                offset: 0,
            };
            proof {
                lemma_sample_views_push(audio@, sample);
                assert(sample.data@ =~= packet.data@);
            }
            audio.push(sample);
        } else {
            let data: Vec<u8> = if packet.is_length_prefixed {
                packet.data.clone()
            } else {
                match &converted[i] {
                    Ok(bytes) => bytes.clone(),
                    Err(error) => {
                        return Err(error.clone());
                    },
                }
            };
            let sample = Mp4Sample {
                data,
                dts,
                pts,
                duration: 0,
                is_key: packet.is_key,
                offset: 0,
            };
            proof {
                lemma_sample_views_push(video@, sample);
                assert(sample.data@ =~= video_sample(
                    views[i as int],
                    outcomes[i as int],
                    base,
                ).data);
            }
            video.push(sample);
        }
        i = i + 1;
    }

    let audio_specific_config: Vec<u8> = match audio_specific_config {
        Some(config) => config,
        None => {
            return Err(Error::bitstream("AAC AudioSpecificConfig was not found"));
        },
    };
    let parameters: VideoParameters = match vps {
        Some(vps) => match sps {
            None => {
                return Err(Error::bitstream("HEVC SPS was not found"));
            },
            Some(sps) => match pps {
                None => {
                    return Err(Error::bitstream("HEVC PPS was not found"));
                },
                Some(pps) => VideoParameters::Hevc { vps, sps, pps },
            },
        },
        None => match sps {
            None => {
                return Err(Error::bitstream("H.264 SPS was not found"));
            },
            Some(sps) => match pps {
                None => {
                    return Err(Error::bitstream("H.264 PPS was not found"));
                },
                Some(pps) => VideoParameters::Avc { sps, pps },
            },
        },
    };
    Ok(
        MuxPlan {
            video: parameters,
            video_samples: video,
            audio_samples: audio,
            sample_rate,
            channel_count,
            audio_specific_config,
        },
    )
}

/// An error among the first packets stays the first error.
proof fn lemma_first_packet_error(
    packets: Seq<PacketView>,
    converted: Seq<Result<Seq<u8>, ErrorView>>,
    base: u64,
    i: int,
)
    requires
        0 <= i <= packets.len(),
    ensures
        first_packet_error(packets.take(i), converted, base) is Some ==> first_packet_error(
            packets,
            converted,
            base,
        ) == first_packet_error(packets.take(i), converted, base),
    decreases packets.len(),
{
    if i == packets.len() {
        assert(packets.take(i) =~= packets);
    } else {
        assert(packets.drop_last().take(i) =~= packets.take(i));
        lemma_first_packet_error(packets.drop_last(), converted, base, i);
    }
}

/// Duration of a track in milliseconds, rounded down. The product saturates at
/// the largest `u64`.
pub open spec fn track_milliseconds(track: TrackInfo) -> u64 {
    let product = track.duration * 1000;
    ((if product > u64::MAX { u64::MAX as int } else { product }) / (track.timescale as int)) as u64
}

/// Duration of the longest track in milliseconds; zero without tracks.
pub open spec fn longest_milliseconds(tracks: Seq<TrackInfo>) -> u64
    decreases tracks.len(),
{
    if tracks.len() == 0 {
        0
    } else {
        let before = longest_milliseconds(tracks.drop_last());
        if track_milliseconds(tracks.last()) > before {
            track_milliseconds(tracks.last())
        } else {
            before
        }
    }
}

/// Reports on a standard MP4 of `bytes_written` bytes, given what writing it
/// said of its tracks. The duration is that of the longest track.
pub fn mux_report(segment_count: usize, tracks: Vec<TrackInfo>, bytes_written: u64) -> (report:
    TransmuxReport)
    requires
        forall|i: int| 0 <= i < tracks@.len() ==> (#[trigger] tracks@[i]).timescale != 0,
    ensures
        report@ == (ReportView {
            segment_count,
            tracks: tracks@,
            duration: longest_milliseconds(tracks@),
            duration_timescale: 1000,
            bytes_written,
        }),
        forall|i: int|
            0 <= i < tracks@.len() && (#[trigger] tracks@[i]).duration * 1000 <= u64::MAX
                ==> tracks@[i].duration * 1000 < (report.duration + 1) * tracks@[i].timescale,
{
    let mut duration: u64 = 0;
    let mut i: usize = 0;
    assert(tracks@.take(0) =~= Seq::empty());
    while i < tracks.len()
        invariant
            i <= tracks@.len(),
            forall|k: int| 0 <= k < tracks@.len() ==> (#[trigger] tracks@[k]).timescale != 0,
            duration == longest_milliseconds(tracks@.take(i as int)),
        decreases tracks@.len() - i,
    {
        assert(tracks@.take(i + 1).drop_last() =~= tracks@.take(i as int));
        let track: &TrackInfo = &tracks[i];
        let product: u64 = match track.duration.checked_mul(1000) {
            Some(product) => product,
            None => u64::MAX,
        };
        let timescale: u64 = track.timescale as u64;
        assert(track.timescale != 0);
        let milliseconds: u64 = product / timescale;
        if milliseconds > duration {
            duration = milliseconds;
        }
        i = i + 1;
    }
    assert(tracks@.take(tracks@.len() as int) =~= tracks@);
    proof {
        lemma_longest_milliseconds(tracks@);
        assert forall|i: int| 0 <= i < tracks@.len() && (#[trigger] tracks@[i]).duration * 1000
            <= u64::MAX implies tracks@[i].duration * 1000 < (duration + 1) * tracks@[i].timescale by {
            lemma_track_duration(tracks@[i]);
            let own = track_milliseconds(tracks@[i]);
            let scale = tracks@[i].timescale as int;
            assert((own + 1) * scale <= (duration + 1) * scale) by (nonlinear_arith)
                requires
                    own <= duration,
                    scale > 0,
            ;
        }
    }
    TransmuxReport { segment_count, tracks, duration, duration_timescale: 1000, bytes_written }
}

/// The earliest DTS is that of some packet, and no packet comes before it.
pub proof fn lemma_earliest_dts(packets: Seq<PacketView>)
    requires
        packets.len() > 0,
    ensures
        exists|i: int| 0 <= i < packets.len() && (#[trigger] packets[i]).dts_90k == earliest_dts(
            packets,
        ),
        forall|i: int| 0 <= i < packets.len() ==> (#[trigger] packets[i]).dts_90k >= earliest_dts(
            packets,
        ),
    decreases packets.len(),
{
    if packets.len() > 1 {
        let before = packets.drop_last();
        lemma_earliest_dts(before);
        let i = choose|i: int|
            0 <= i < before.len() && (#[trigger] before[i]).dts_90k == earliest_dts(before);
        assert(packets[i] == before[i]);
        assert(packets[packets.len() - 1] == packets.last());
        assert forall|k: int| 0 <= k < packets.len() implies (#[trigger] packets[k]).dts_90k
            >= earliest_dts(packets) by {
            if k < before.len() {
                assert(before[k] == packets[k]);
            }
        }
    } else {
        assert(packets[0].dts_90k == earliest_dts(packets));
    }
}

/// There is no first error exactly where no packet has one.
pub proof fn lemma_no_packet_error(
    packets: Seq<PacketView>,
    converted: Seq<Result<Seq<u8>, ErrorView>>,
    base: u64,
)
    ensures
        first_packet_error(packets, converted, base) is None <==> forall|i: int|
            0 <= i < packets.len() ==> packet_error(
                #[trigger] packets[i],
                converted[i],
                base,
            ) is None,
    decreases packets.len(),
{
    if packets.len() > 0 {
        let before = packets.drop_last();
        lemma_no_packet_error(before, converted, base);
        assert(packets[packets.len() - 1] == packets.last());
        if first_packet_error(packets, converted, base) is None {
            assert forall|i: int| 0 <= i < packets.len() implies packet_error(
                #[trigger] packets[i],
                converted[i],
                base,
            ) is None by {
                if i < before.len() {
                    assert(before[i] == packets[i]);
                }
            }
        } else if forall|i: int|
            0 <= i < packets.len() ==> packet_error(
                #[trigger] packets[i],
                converted[i],
                base,
            ) is None {
            assert forall|i: int| 0 <= i < before.len() implies packet_error(
                #[trigger] before[i],
                converted[i],
                base,
            ) is None by {
                assert(before[i] == packets[i]);
            }
        }
    }
}

/// The output starts at zero: the earliest packet becomes a sample with DTS 0.
pub proof fn lemma_plan_starts_at_zero(
    collected: CollectorView,
    converted: Seq<Result<Seq<u8>, ErrorView>>,
)
    requires
        mux_error(collected, converted) is None,
    ensures
        ({
            let plan = mux_plan(collected, converted);
            ||| exists|k: int|
                0 <= k < plan.video_samples.len() && (#[trigger] plan.video_samples[k]).dts == 0
            ||| exists|k: int|
                0 <= k < plan.audio_samples.len() && (#[trigger] plan.audio_samples[k]).dts == 0
        }),
{
    let packets = collected.packets;
    let base = earliest_dts(packets);
    let plan = mux_plan(collected, converted);
    lemma_earliest_dts(packets);
    let i = choose|i: int| 0 <= i < packets.len() && (#[trigger] packets[i]).dts_90k == base;
    if packets[i].kind.is_video() {
        lemma_video_sample_of_packet(packets, converted, base, i);
        let k = video_samples(packets.take(i), converted, base).len() as int;
        assert(plan.video_samples[k].dts == 0);
    } else {
        let rate = collected.sample_rate->0;
        lemma_audio_sample_of_packet(packets, base, rate, None, i);
        let k = audio_samples(packets.take(i), base, rate, None).len() as int;
        assert(0u64 * rate == 0) by (nonlinear_arith);
        assert(plan.audio_samples[k].dts == 0);
    }
}

/// Each video packet of a plan gives the sample that its place among the video
/// packets says, with its own times relative to the earliest DTS.
pub proof fn lemma_plan_keeps_packets(
    collected: CollectorView,
    converted: Seq<Result<Seq<u8>, ErrorView>>,
    i: int,
)
    requires
        mux_error(collected, converted) is None,
        0 <= i < collected.packets.len(),
        collected.packets[i].kind.is_video(),
    ensures
        ({
            let packets = collected.packets;
            let base = earliest_dts(packets);
            let k = video_samples(packets.take(i), converted, base).len() as int;
            let samples = mux_plan(collected, converted).video_samples;
            &&& k < samples.len()
            &&& base + samples[k].dts == packets[i].dts_90k
            &&& base + samples[k].pts == packets[i].pts_90k
            &&& samples[k].is_key == packets[i].is_key
            &&& packets[i].is_length_prefixed ==> samples[k].data == packets[i].data
            &&& !packets[i].is_length_prefixed ==> converted[i] == Ok::<Seq<u8>, ErrorView>(
                samples[k].data,
            )
        }),
{
    let base = earliest_dts(collected.packets);
    lemma_video_sample_of_packet(collected.packets, converted, base, i);
    lemma_no_packet_error(collected.packets, converted, base);
    assert(packet_error(collected.packets[i], converted[i], base) is None);
}

/// A segment never changes a parameter that is set, nor the packets that are
/// collected, whether it is taken or refused. A refused segment adds no packet.
pub proof fn lemma_push_keeps(held: CollectorView, found: DemuxView)
    ensures
        ({
            let after = pushed(held, found);
            &&& held.vps is Some ==> after.vps == held.vps
            &&& held.sps is Some ==> after.sps == held.sps
            &&& held.pps is Some ==> after.pps == held.pps
            &&& held.audio_specific_config is Some ==> after.audio_specific_config
                == held.audio_specific_config
            &&& held.sample_rate is Some ==> after.sample_rate == held.sample_rate
            &&& held.channel_count is Some ==> after.channel_count == held.channel_count
            &&& after.packets.take(held.packets.len() as int) == held.packets
            &&& first_conflict(held, found) < 6 ==> after.packets == held.packets
        }),
{
    assert(pushed(held, found).packets.take(held.packets.len() as int) =~= held.packets);
}

/// A segment that was taken is never refused when it comes again.
pub proof fn lemma_push_again(held: CollectorView, found: DemuxView)
    requires
        first_conflict(held, found) == 6,
    ensures
        first_conflict(pushed(held, found), found) == 6,
{
}

/// Whether every audio packet lasts as long as an AAC-LC frame usually does.
pub open spec fn usual_frames(packets: Seq<PacketView>) -> bool {
    forall|i: int|
        0 <= i < packets.len() && !(#[trigger] packets[i]).kind.is_video() ==> packets[i].duration
            == AAC_FRAME_TICKS
}

/// Both ways of writing agree: grouped on a timeline that starts at the earliest
/// DTS, the packets give the video samples of the standard MP4, and its audio
/// samples too but for their durations. With AAC-LC frames of the usual length
/// the audio samples are the same.
pub proof fn lemma_grouping_agrees_with_plan(
    collected: CollectorView,
    converted: Seq<Result<Seq<u8>, ErrorView>>,
    layout: TrackLayout,
)
    requires
        mux_error(collected, converted) is None,
        layout.video_index is Some,
        layout.audio_index is Some,
        layout.video_index != layout.audio_index,
        layout.timescale() == collected.sample_rate->0,
    ensures
        ({
            let base = earliest_dts(collected.packets);
            let plan = mux_plan(collected, converted);
            let video = track_samples(
                collected.packets,
                converted,
                layout,
                base,
                layout.video_index->0 as int,
            );
            let audio = track_samples(
                collected.packets,
                converted,
                layout,
                base,
                layout.audio_index->0 as int,
            );
            &&& video == plan.video_samples
            &&& audio.len() == plan.audio_samples.len()
            &&& forall|k: int|
                0 <= k < audio.len() ==> #[trigger] audio[k] == (SampleView {
                    duration: AAC_FRAME_TICKS,
                    ..plan.audio_samples[k]
                })
            &&& usual_frames(collected.packets) ==> audio == plan.audio_samples
        }),
{
    let base = earliest_dts(collected.packets);
    lemma_audio_durations(collected.packets, base, layout.timescale());
}

/// The collector after these segments were pushed, one after the other.
pub open spec fn collected_from(found: Seq<DemuxView>) -> CollectorView
    decreases found.len(),
{
    if found.len() == 0 {
        empty_collector()
    } else {
        pushed(collected_from(found.drop_last()), found.last())
    }
}

/// Whether every one of these segments is taken.
pub open spec fn all_taken(found: Seq<DemuxView>) -> bool
    decreases found.len(),
{
    found.len() == 0 || {
        &&& all_taken(found.drop_last())
        &&& first_conflict(collected_from(found.drop_last()), found.last()) == 6
    }
}

/// Segments that are all taken are collected whole and in order.
pub proof fn lemma_all_packets_collected(found: Seq<DemuxView>, segments: Seq<SegmentPackets>)
    requires
        all_taken(found),
        segments.len() == found.len(),
        forall|s: int|
            0 <= s < found.len() ==> (#[trigger] segments[s]).packets == found[s].packets,
    ensures
        collected_from(found).packets == all_packets(segments),
    decreases found.len(),
{
    if found.len() > 0 {
        let before = segments.drop_last();
        assert forall|s: int| 0 <= s < before.len() implies (#[trigger] before[s]).packets
            == found.drop_last()[s].packets by {
            assert(before[s] == segments[s]);
        }
        lemma_all_packets_collected(found.drop_last(), before);
        assert(segments[segments.len() - 1].packets == found.last().packets);
    }
}

/// Writing segment by segment and writing all at once agree: on a timeline that
/// starts at the earliest packet, the fragments together hold the video samples of
/// the standard MP4, and its audio samples too but for their durations. With AAC-LC
/// frames of the usual length the audio samples are the same.
pub proof fn lemma_fragments_agree_with_plan(
    found: Seq<DemuxView>,
    segments: Seq<SegmentPackets>,
    layout: TrackLayout,
    base: u64,
)
    requires
        all_taken(found),
        segments.len() == found.len(),
        forall|s: int|
            0 <= s < found.len() ==> {
                &&& (#[trigger] segments[s]).packets == found[s].packets
                &&& segments[s].converted.len() == found[s].packets.len()
            },
        mux_error(collected_from(found), all_conversions(segments)) is None,
        base == earliest_dts(collected_from(found).packets),
        layout.video_index is Some,
        layout.audio_index is Some,
        layout.video_index != layout.audio_index,
        layout.timescale() == collected_from(found).sample_rate->0,
    ensures
        ({
            let plan = mux_plan(collected_from(found), all_conversions(segments));
            let video = samples_by_segment(
                segments,
                layout,
                base,
                layout.video_index->0 as int,
            );
            let audio = samples_by_segment(
                segments,
                layout,
                base,
                layout.audio_index->0 as int,
            );
            &&& video == plan.video_samples
            &&& audio.len() == plan.audio_samples.len()
            &&& forall|k: int|
                0 <= k < audio.len() ==> #[trigger] audio[k] == (SampleView {
                    duration: AAC_FRAME_TICKS,
                    ..plan.audio_samples[k]
                })
            &&& usual_frames(collected_from(found).packets) ==> audio == plan.audio_samples
        }),
{
    lemma_all_packets_collected(found, segments);
    lemma_segments_group_as_whole(segments, layout, base, layout.video_index->0 as int);
    lemma_segments_group_as_whole(segments, layout, base, layout.audio_index->0 as int);
    lemma_grouping_agrees_with_plan(
        collected_from(found),
        all_conversions(segments),
        layout,
    );
}

/// Audio samples of either kind of duration differ in the duration alone.
proof fn lemma_audio_durations(packets: Seq<PacketView>, base: u64, timescale: u32)
    ensures
        ({
            let fixed = audio_samples(packets, base, timescale, Some(AAC_FRAME_TICKS));
            let own = audio_samples(packets, base, timescale, None);
            &&& fixed.len() == own.len()
            &&& forall|k: int|
                0 <= k < fixed.len() ==> #[trigger] fixed[k] == (SampleView {
                    duration: AAC_FRAME_TICKS,
                    ..own[k]
                })
            &&& usual_frames(packets) ==> fixed == own
        }),
    decreases packets.len(),
{
    if packets.len() > 0 {
        let before = packets.drop_last();
        lemma_audio_durations(before, base, timescale);
        assert(packets[packets.len() - 1] == packets.last());
        if usual_frames(packets) {
            assert forall|i: int| 0 <= i < before.len() && !(
            #[trigger] before[i]).kind.is_video() implies before[i].duration == AAC_FRAME_TICKS by {
                assert(before[i] == packets[i]);
            }
        }
    }
}

/// The reported duration is reached by some track and exceeded by none.
pub proof fn lemma_longest_milliseconds(tracks: Seq<TrackInfo>)
    ensures
        forall|i: int|
            0 <= i < tracks.len() ==> track_milliseconds(#[trigger] tracks[i])
                <= longest_milliseconds(tracks),
        tracks.len() > 0 ==> exists|i: int|
            0 <= i < tracks.len() && track_milliseconds(#[trigger] tracks[i])
                == longest_milliseconds(tracks),
    decreases tracks.len(),
{
    if tracks.len() > 0 {
        let before = tracks.drop_last();
        lemma_longest_milliseconds(before);
        assert(tracks[tracks.len() - 1] == tracks.last());
        assert forall|i: int| 0 <= i < tracks.len() implies track_milliseconds(
            #[trigger] tracks[i],
        ) <= longest_milliseconds(tracks) by {
            if i < before.len() {
                assert(before[i] == tracks[i]);
            }
        }
        if before.len() > 0 {
            let i = choose|i: int|
                0 <= i < before.len() && track_milliseconds(#[trigger] before[i])
                    == longest_milliseconds(before);
            assert(tracks[i] == before[i]);
        }
    }
}

} // verus!
