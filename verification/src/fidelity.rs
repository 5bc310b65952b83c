//! Whether a fragmented MP4 of some segments holds the samples that a standard MP4
//! of them has, kept track of segment by segment.

use crate::collect::{
    empty_collector, first_conflict, pushed, usual_frames, CollectorView, PacketCollector,
};
use crate::samples::AAC_FRAME_TICKS;
use crate::text::{copy_optional, same_optional};
use crate::types::{packet_views, DemuxOutput, DemuxView, EncodedPacket, PacketView, StreamKind};
use vstd::prelude::*;

verus! {

/// The lowest DTS among some packets, or `limit` where that is lower.
pub open spec fn lowest_dts(packets: Seq<PacketView>, limit: u64) -> u64
    decreases packets.len(),
{
    if packets.len() == 0 {
        limit
    } else {
        let before = lowest_dts(packets.drop_last(), limit);
        if packets.last().dts_90k < before {
            packets.last().dts_90k
        } else {
            before
        }
    }
}

/// The lowest PTS among some packets, or `limit` where that is lower.
pub open spec fn lowest_pts(packets: Seq<PacketView>, limit: u64) -> u64
    decreases packets.len(),
{
    if packets.len() == 0 {
        limit
    } else {
        let before = lowest_pts(packets.drop_last(), limit);
        if packets.last().pts_90k < before {
            packets.last().pts_90k
        } else {
            before
        }
    }
}

/// Whether the duration of every audio packet fits into a sample.
pub open spec fn frames_fit(packets: Seq<PacketView>) -> bool {
    forall|i: int|
        0 <= i < packets.len() && !(#[trigger] packets[i]).kind.is_video() ==> packets[i].duration
            <= u32::MAX
}

/// What is known of the segments seen so far.
#[derive(Debug)]
pub struct Fidelity {
    /// Whether a segment was seen.
    pub begun: bool,
    /// Whether the first segment shows video and audio at a sample rate above zero.
    pub both_streams: bool,
    /// The codec parameters of the first segment.
    pub first: PacketCollector,
    /// The codec parameters of all segments, as far as they agree.
    pub held: PacketCollector,
    /// Whether they all agree.
    pub taken: bool,
    /// The DTS of the very first packet.
    pub first_dts: Option<u64>,
    /// The lowest DTS and PTS of all packets.
    pub lowest_dts: u64,
    pub lowest_pts: u64,
    /// Whether every audio packet has a duration that fits into a sample.
    pub fitting_frames: bool,
    /// Whether every audio packet has the usual duration.
    pub usual_frames: bool,
}

/// The value of a [`Fidelity`] in contracts.
pub struct FidelityView {
    pub begun: bool,
    pub both_streams: bool,
    pub first: CollectorView,
    pub held: CollectorView,
    pub taken: bool,
    pub first_dts: Option<u64>,
    pub lowest_dts: u64,
    pub lowest_pts: u64,
    pub fitting_frames: bool,
    pub usual_frames: bool,
}

impl View for Fidelity {
    type V = FidelityView;

    open spec fn view(&self) -> FidelityView {
        FidelityView {
            begun: self.begun,
            both_streams: self.both_streams,
            first: self.first@,
            held: self.held@,
            taken: self.taken,
            first_dts: self.first_dts,
            lowest_dts: self.lowest_dts,
            lowest_pts: self.lowest_pts,
            fitting_frames: self.fitting_frames,
            usual_frames: self.usual_frames,
        }
    }
}

/// What is known before the first segment.
pub open spec fn fresh_fidelity() -> FidelityView {
    FidelityView {
        begun: false,
        both_streams: false,
        first: empty_collector(),
        held: empty_collector(),
        taken: true,
        first_dts: None,
        lowest_dts: u64::MAX,
        lowest_pts: u64::MAX,
        fitting_frames: true,
        usual_frames: true,
    }
}

/// What demuxing a segment gave, without its packets.
pub open spec fn without_packets(found: DemuxView) -> DemuxView {
    DemuxView { packets: Seq::empty(), ..found }
}

/// What is known after one more segment.
pub open spec fn watched(known: FidelityView, found: DemuxView) -> FidelityView {
    FidelityView {
        begun: true,
        both_streams: if known.begun {
            known.both_streams
        } else {
            found.saw_video && found.saw_audio && found.sample_rate != Some(0u32)
        },
        first: if known.begun {
            known.first
        } else {
            pushed(empty_collector(), without_packets(found))
        },
        held: pushed(known.held, without_packets(found)),
        taken: known.taken && first_conflict(known.held, found) == 6,
        first_dts: if known.first_dts is None && found.packets.len() > 0 {
            Some(found.packets[0].dts_90k)
        } else {
            known.first_dts
        },
        lowest_dts: lowest_dts(found.packets, known.lowest_dts),
        lowest_pts: lowest_pts(found.packets, known.lowest_pts),
        fitting_frames: known.fitting_frames && frames_fit(found.packets),
        usual_frames: known.usual_frames && usual_frames(found.packets),
    }
}

/// Whether the segments can be laid out as a standard MP4 all at once.
pub open spec fn batch_accepts(known: FidelityView) -> bool {
    &&& known.taken
    &&& known.first_dts is Some
    &&& known.held.sample_rate is Some
    &&& known.held.channel_count is Some
    &&& known.lowest_dts <= known.lowest_pts
    &&& known.fitting_frames
    &&& known.held.audio_specific_config is Some
    &&& known.held.sps is Some
    &&& known.held.pps is Some
}

/// Whether two collectors hold the same codec parameters.
pub open spec fn same_but_packets(left: CollectorView, right: CollectorView) -> bool {
    CollectorView { packets: right.packets, ..left } == right
}

/// Whether the fragments hold the samples and the codec parameters of that layout:
/// there are both tracks, with the parameters of all segments, the timeline starts
/// at the earliest packet, and every audio sample has the usual duration.
pub open spec fn alike(known: FidelityView) -> bool {
    &&& known.both_streams
    &&& same_but_packets(known.first, known.held)
    &&& known.first_dts == Some(known.lowest_dts)
    &&& known.usual_frames
}

/// Whether the segments can be laid out as a standard MP4 all at once, and the
/// fragments do not hold its samples.
pub open spec fn differs(known: FidelityView) -> bool {
    batch_accepts(known) && !alike(known)
}

/// What is known after some segments.
pub open spec fn fidelity_of(found: Seq<DemuxView>) -> FidelityView
    decreases found.len(),
{
    if found.len() == 0 {
        fresh_fidelity()
    } else {
        watched(fidelity_of(found.drop_last()), found.last())
    }
}

/// Copies the codec parameters of a segment.
fn copy_parameters(found: &DemuxOutput) -> (copy: DemuxOutput)
    ensures
        copy@ == without_packets(found@),
{
    let copy = DemuxOutput {
        packets: Vec::new(),
        vps: copy_optional(&found.vps),
        sps: copy_optional(&found.sps),
        pps: copy_optional(&found.pps),
        audio_specific_config: copy_optional(&found.audio_specific_config),
        sample_rate: found.sample_rate,
        channel_count: found.channel_count,
        saw_video: found.saw_video,
        saw_audio: found.saw_audio,
    };
    assert(copy@.packets =~= Seq::empty());
    copy
}

/// Tests whether two collectors hold the same codec parameters.
fn same_parameters(left: &PacketCollector, right: &PacketCollector) -> (same: bool)
    ensures
        same == same_but_packets(left@, right@),
{
    same_optional(&left.vps, &right.vps) && same_optional(&left.sps, &right.sps)
        && same_optional(&left.pps, &right.pps) && same_optional(
        &left.audio_specific_config,
        &right.audio_specific_config,
    ) && left.sample_rate == right.sample_rate && left.channel_count == right.channel_count
}

impl Fidelity {
    /// No segment was seen.
    pub fn new() -> (known: Fidelity)
        ensures
            known@ == fresh_fidelity(),
    {
        Fidelity {
            begun: false,
            both_streams: false,
            first: PacketCollector::new(),
            held: PacketCollector::new(),
            taken: true,
            first_dts: None,
            lowest_dts: u64::MAX,
            lowest_pts: u64::MAX,
            fitting_frames: true,
            usual_frames: true,
        }
    }

    /// Takes note of one more segment.
    pub fn watch(&mut self, found: &DemuxOutput)
        ensures
            final(self)@ == watched(old(self)@, found@),
    {
        if !self.begun {
            self.begun = true;
            self.both_streams = found.saw_video && found.saw_audio && match found.sample_rate {
                Some(rate) => rate != 0,
                None => true,
            };
            let mut first: PacketCollector = PacketCollector::new();
            let _taken: bool = first.push_demuxed(copy_parameters(found)).is_ok();
            self.first = first;
        }
        let taken: bool = self.held.push_demuxed(copy_parameters(found)).is_ok();
        self.taken = self.taken && taken;
        if self.first_dts.is_none() && found.packets.len() > 0 {
            self.first_dts = Some(found.packets[0].dts_90k);
        }
        self.watch_packets(&found.packets);
    }

    fn watch_packets(&mut self, packets: &Vec<EncodedPacket>)
        ensures
            final(self)@ == (FidelityView {
                lowest_dts: lowest_dts(packet_views(packets@), old(self)@.lowest_dts),
                lowest_pts: lowest_pts(packet_views(packets@), old(self)@.lowest_pts),
                fitting_frames: old(self)@.fitting_frames && frames_fit(packet_views(packets@)),
                usual_frames: old(self)@.usual_frames && usual_frames(packet_views(packets@)),
                ..old(self)@
            }),
    {
        let ghost views = packet_views(packets@);
        let ghost before = self@;
        let mut i: usize = 0;
        assert(views.take(0) =~= Seq::empty());
        while i < packets.len()
            invariant
                i <= packets@.len(),
                views == packet_views(packets@),
                self@ == (FidelityView {
                    lowest_dts: lowest_dts(views.take(i as int), before.lowest_dts),
                    lowest_pts: lowest_pts(views.take(i as int), before.lowest_pts),
                    fitting_frames: before.fitting_frames && frames_fit(views.take(i as int)),
                    usual_frames: before.usual_frames && usual_frames(views.take(i as int)),
                    ..before
                }),
            decreases packets@.len() - i,
        {
            let packet: &EncodedPacket = &packets[i];
            proof {
                lemma_frames_step(views, i as int);
                assert(views.take(i + 1).drop_last() =~= views.take(i as int));
            }
            if packet.dts_90k < self.lowest_dts {
                self.lowest_dts = packet.dts_90k;
            }
            if packet.pts_90k < self.lowest_pts {
                self.lowest_pts = packet.pts_90k;
            }
            if packet.kind == StreamKind::Aac {
                if packet.duration > u32::MAX as u64 {
                    self.fitting_frames = false;
                }
                if packet.duration != AAC_FRAME_TICKS as u64 {
                    self.usual_frames = false;
                }
            }
            i = i + 1;
        }
        assert(views.take(views.len() as int) =~= views);
    }

    /// Tests whether the segments can be laid out as a standard MP4 all at once, and
    /// the fragments do not hold its samples.
    pub fn differs(&self) -> (yes: bool)
        ensures
            yes == differs(self@),
    {
        let accepted: bool = self.taken && self.first_dts.is_some()
            && self.held.sample_rate.is_some() && self.held.channel_count.is_some()
            && self.lowest_dts <= self.lowest_pts && self.fitting_frames
            && self.held.audio_specific_config.is_some() && self.held.sps.is_some()
            && self.held.pps.is_some();
        let earliest_first: bool = match self.first_dts {
            Some(dts) => dts == self.lowest_dts,
            None => false,
        };
        accepted && !(self.both_streams && same_parameters(&self.first, &self.held)
            && earliest_first && self.usual_frames)
    }
}

/// The next packet decides for itself whether its frame fits and is usual.
proof fn lemma_frames_step(packets: Seq<PacketView>, i: int)
    requires
        0 <= i < packets.len(),
    ensures
        frames_fit(packets.take(i + 1)) <==> frames_fit(packets.take(i)) && (
        packets[i].kind.is_video() || packets[i].duration <= u32::MAX),
        usual_frames(packets.take(i + 1)) <==> usual_frames(packets.take(i)) && (
        packets[i].kind.is_video() || packets[i].duration == AAC_FRAME_TICKS),
{
    let shorter = packets.take(i);
    let longer = packets.take(i + 1);
    assert(longer[i] == packets[i]);
    assert(forall|k: int| 0 <= k < i ==> #[trigger] shorter[k] == longer[k]);
    assert(forall|k: int| 0 <= k < i ==> #[trigger] longer[k] == shorter[k]);
}

} // verus!
