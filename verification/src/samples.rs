//! From demuxed packets to the samples of MP4 tracks.

use crate::error::{Error, ErrorView};
use crate::text::outcome_view;
use crate::types::{
    packet_views, sample_views, EncodedPacket, Mp4Sample, PacketView, SampleView, StreamKind,
};
use vstd::prelude::*;

verus! {

/// Ticks per second of the clock that demuxed timestamps count in.
pub const CLOCK_90K: u64 = 90_000;

/// Duration of an AAC-LC frame in ticks of its sample rate.
pub const AAC_FRAME_TICKS: u32 = 1024;

/// A time of the 90 kHz clock in ticks of another timescale, rounded down. The
/// product saturates at the largest `u64`.
pub open spec fn rescaled(value: u64, to_timescale: u32) -> u64 {
    let product = value * to_timescale;
    ((if product > u64::MAX { u64::MAX as int } else { product }) / 90_000) as u64
}

/// Converts a time of the 90 kHz clock to ticks of `to_timescale`.
pub fn rescale_90k(value: u64, to_timescale: u32) -> (ticks: u64)
    ensures
        ticks == rescaled(value, to_timescale),
{
    match value.checked_mul(to_timescale as u64) {
        Some(product) => product / CLOCK_90K,
        None => u64::MAX / CLOCK_90K,
    }
}

/// A time on a timeline that starts at `base`. Times before the start are moved
/// to it.
pub open spec fn shifted(time: u64, base: u64) -> u64 {
    if time >= base {
        (time - base) as u64
    } else {
        0
    }
}

/// Whether a packet's data has to be converted from Annex B start codes to
/// length prefixes before it can be a sample.
pub open spec fn unprefixed(packet: PacketView) -> bool {
    packet.kind.is_video() && !packet.is_length_prefixed
}

/// Tests whether a packet's data has to be converted from Annex B start codes
/// to length prefixes before it can be a sample.
pub fn needs_conversion(packet: &EncodedPacket) -> (needed: bool)
    ensures
        needed == unprefixed(packet@),
{
    match packet.kind {
        StreamKind::Avc => !packet.is_length_prefixed,
        StreamKind::Hevc => !packet.is_length_prefixed,
        StreamKind::Aac => false,
    }
}

/// What the conversions of a run of packets gave, packet by packet.
pub open spec fn conversions(converted: Seq<Result<Vec<u8>, Error>>) -> Seq<
    Result<Seq<u8>, ErrorView>,
> {
    Seq::new(converted.len(), |i: int| outcome_view(converted[i]))
}

/// The error of the first conversion that was needed and failed, if there is one.
pub open spec fn conversion_error(
    packets: Seq<PacketView>,
    converted: Seq<Result<Seq<u8>, ErrorView>>,
) -> Option<ErrorView>
    decreases packets.len(),
{
    if packets.len() == 0 {
        None
    } else {
        let before = conversion_error(packets.drop_last(), converted);
        if before is Some {
            before
        } else if unprefixed(packets.last()) && converted[packets.len() - 1] is Err {
            Some(converted[packets.len() - 1]->Err_0)
        } else {
            None
        }
    }
}

/// An error among the first packets stays the first error.
proof fn lemma_conversion_error_prefix(
    packets: Seq<PacketView>,
    converted: Seq<Result<Seq<u8>, ErrorView>>,
    i: int,
)
    requires
        0 <= i <= packets.len(),
    ensures
        conversion_error(packets.take(i), converted) is Some ==> conversion_error(
            packets,
            converted,
        ) == conversion_error(packets.take(i), converted),
    decreases packets.len(),
{
    if i == packets.len() {
        assert(packets.take(i) =~= packets);
    } else {
        assert(packets.drop_last().take(i) =~= packets.take(i));
        lemma_conversion_error_prefix(packets.drop_last(), converted, i);
    }
}

/// There is no conversion error exactly where every conversion that was needed
/// worked.
pub proof fn lemma_no_conversion_error(
    packets: Seq<PacketView>,
    converted: Seq<Result<Seq<u8>, ErrorView>>,
)
    ensures
        conversion_error(packets, converted) is None <==> forall|i: int|
            0 <= i < packets.len() && unprefixed(#[trigger] packets[i]) ==> converted[i] is Ok,
    decreases packets.len(),
{
    if packets.len() > 0 {
        let before = packets.drop_last();
        lemma_no_conversion_error(before, converted);
        assert(packets[packets.len() - 1] == packets.last());
        assert(forall|i: int| 0 <= i < before.len() ==> #[trigger] before[i] == packets[i]);
        if conversion_error(packets, converted) is None {
            assert forall|i: int| 0 <= i < packets.len() && unprefixed(
                #[trigger] packets[i],
            ) implies converted[i] is Ok by {
                if i < before.len() {
                    assert(before[i] == packets[i]);
                }
            }
        }
    }
}

/// The video sample of a packet, given what converting its data gave.
pub open spec fn video_sample(
    packet: PacketView,
    converted: Result<Seq<u8>, ErrorView>,
    base: u64,
) -> SampleView {
    SampleView {
        data: if packet.is_length_prefixed {
            packet.data
        } else {
            converted->Ok_0
        },
        dts: shifted(packet.dts_90k, base),
        pts: shifted(packet.pts_90k, base),
        duration: 0,
        is_key: packet.is_key,
        offset: 0,
    }
}

/// The audio sample of a packet. Every AAC frame can be decoded on its own.
pub open spec fn audio_sample(
    packet: PacketView,
    base: u64,
    timescale: u32,
    duration: u32,
) -> SampleView {
    SampleView {
        data: packet.data,
        dts: rescaled(shifted(packet.dts_90k, base), timescale),
        pts: rescaled(shifted(packet.pts_90k, base), timescale),
        duration,
        is_key: true,
        offset: 0,
    }
}

/// The samples of the video packets, in order.
pub open spec fn video_samples(
    packets: Seq<PacketView>,
    converted: Seq<Result<Seq<u8>, ErrorView>>,
    base: u64,
) -> Seq<SampleView>
    decreases packets.len(),
{
    if packets.len() == 0 {
        Seq::empty()
    } else {
        let before = video_samples(packets.drop_last(), converted, base);
        if packets.last().kind.is_video() {
            before.push(video_sample(packets.last(), converted[packets.len() - 1], base))
        } else {
            before
        }
    }
}

/// The samples of the audio packets, in order. Each lasts `frame_ticks`, or as
/// long as its packet says where that is `None`.
pub open spec fn audio_samples(
    packets: Seq<PacketView>,
    base: u64,
    timescale: u32,
    frame_ticks: Option<u32>,
) -> Seq<SampleView>
    decreases packets.len(),
{
    if packets.len() == 0 {
        Seq::empty()
    } else {
        let before = audio_samples(packets.drop_last(), base, timescale, frame_ticks);
        let last = packets.last();
        if last.kind.is_video() {
            before
        } else {
            let duration = match frame_ticks {
                Some(ticks) => ticks,
                None => last.duration as u32,
            };
            before.push(audio_sample(last, base, timescale, duration))
        }
    }
}

/// The next packet adds at most its own sample to the video samples.
pub proof fn lemma_video_samples_step(
    packets: Seq<PacketView>,
    converted: Seq<Result<Seq<u8>, ErrorView>>,
    base: u64,
    i: int,
)
    requires
        0 <= i < packets.len(),
    ensures
        video_samples(packets.take(i + 1), converted, base) == (if packets[i].kind.is_video() {
            video_samples(packets.take(i), converted, base).push(
                video_sample(packets[i], converted[i], base),
            )
        } else {
            video_samples(packets.take(i), converted, base)
        }),
{
    assert(packets.take(i + 1).drop_last() =~= packets.take(i));
}

/// The next packet adds at most its own sample to the audio samples.
pub proof fn lemma_audio_samples_step(
    packets: Seq<PacketView>,
    base: u64,
    timescale: u32,
    frame_ticks: Option<u32>,
    i: int,
)
    requires
        0 <= i < packets.len(),
    ensures
        audio_samples(packets.take(i + 1), base, timescale, frame_ticks) == (
        if packets[i].kind.is_video() {
            audio_samples(packets.take(i), base, timescale, frame_ticks)
        } else {
            audio_samples(packets.take(i), base, timescale, frame_ticks).push(
                audio_sample(
                    packets[i],
                    base,
                    timescale,
                    match frame_ticks {
                        Some(ticks) => ticks,
                        None => packets[i].duration as u32,
                    },
                ),
            )
        }),
{
    assert(packets.take(i + 1).drop_last() =~= packets.take(i));
}

/// Appending a sample appends its value.
pub proof fn lemma_sample_views_push(samples: Seq<Mp4Sample>, sample: Mp4Sample)
    ensures
        sample_views(samples.push(sample)) == sample_views(samples).push(sample@),
{
    assert(sample_views(samples.push(sample)) =~= sample_views(samples).push(sample@));
}

/// Where the tracks of the output stand, and the audio track's timescale.
#[derive(Debug, Clone, Copy, Default, PartialEq, Eq)]
pub struct TrackLayout {
    /// Index of the video track, if there is one.
    pub video_index: Option<usize>,
    /// Index of the audio track, if there is one.
    pub audio_index: Option<usize>,
    /// Timescale of the audio track. Zero stands for the 90 kHz clock.
    pub audio_timescale: u32,
}

impl TrackLayout {
    /// How many kinds of tracks the layout has.
    pub open spec fn tracks(self) -> int {
        (if self.video_index is Some { 1int } else { 0 }) + (if self.audio_index is Some {
            1int
        } else {
            0
        })
    }

    /// Both indices stand below the number of tracks.
    pub open spec fn in_bounds(self) -> bool {
        &&& self.video_index matches Some(v) ==> v < self.tracks()
        &&& self.audio_index matches Some(a) ==> a < self.tracks()
    }

    /// The timescale that audio times are given in.
    pub open spec fn timescale(self) -> u32 {
        if self.audio_timescale > 0 {
            self.audio_timescale
        } else {
            90_000
        }
    }

    /// Counts the tracks of the layout: at most one video and one audio track.
    pub fn track_count(&self) -> (count: usize)
        ensures
            count == self.tracks(),
    {
        let video: usize = if self.video_index.is_some() { 1 } else { 0 };
        let audio: usize = if self.audio_index.is_some() { 1 } else { 0 };
        video + audio
    }
}

/// The samples of track `index` among the packets of one segment.
pub open spec fn track_samples(
    packets: Seq<PacketView>,
    converted: Seq<Result<Seq<u8>, ErrorView>>,
    layout: TrackLayout,
    base: u64,
    index: int,
) -> Seq<SampleView> {
    if layout.audio_index matches Some(a) && a == index {
        audio_samples(packets, base, layout.timescale(), Some(AAC_FRAME_TICKS))
    } else if layout.video_index matches Some(v) && v == index {
        video_samples(packets, converted, base)
    } else {
        Seq::empty()
    }
}

/// Groups the packets of one segment into the samples of each track, on a
/// timeline that starts at `base_dts_90k`. A track without packets gets no
/// samples. Video samples have no duration yet: it is the distance to the next
/// sample, which is known once the samples stand side by side.
///
/// `converted[i]` is what converting the data of packet `i` to length prefixes
/// gave. It is looked at only where [`needs_conversion`] holds, and the first
/// failure is returned.
pub fn group_samples_per_track(
    packets: &Vec<EncodedPacket>,
    converted: &Vec<Result<Vec<u8>, Error>>,
    layout: &TrackLayout,
    base_dts_90k: u64,
) -> (grouped: Result<Vec<Vec<Mp4Sample>>, Error>)
    requires
        converted@.len() == packets@.len(),
        layout.in_bounds(),
    ensures
        grouped is Ok <==> conversion_error(
            packet_views(packets@),
            conversions(converted@),
        ) is None,
        grouped matches Err(error) ==> Some(error@) == conversion_error(
            packet_views(packets@),
            conversions(converted@),
        ),
        grouped matches Ok(tracks) ==> {
            &&& tracks@.len() == layout.tracks()
            &&& forall|t: int|
                0 <= t < tracks@.len() ==> sample_views(#[trigger] tracks@[t]@) == track_samples(
                    packet_views(packets@),
                    conversions(converted@),
                    *layout,
                    base_dts_90k,
                    t,
                )
        },
{
    let mut video: Vec<Mp4Sample> = Vec::new();
    let mut audio: Vec<Mp4Sample> = Vec::new();
    let audio_timescale: u32 = if layout.audio_timescale > 0 {
        layout.audio_timescale
    } else {
        90_000
    };
    let ghost views = packet_views(packets@);
    let ghost outcomes = conversions(converted@);

    let mut i: usize = 0;
    assert(sample_views(video@) =~= video_samples(views.take(0), outcomes, base_dts_90k));
    assert(sample_views(audio@) =~= audio_samples(
        views.take(0),
        base_dts_90k,
        audio_timescale,
        Some(AAC_FRAME_TICKS),
    ));
    while i < packets.len()
        invariant
            i <= packets@.len(),
            converted@.len() == packets@.len(),
            views == packet_views(packets@),
            outcomes == conversions(converted@),
            conversion_error(views.take(i as int), outcomes) is None,
            sample_views(video@) == video_samples(views.take(i as int), outcomes, base_dts_90k),
            sample_views(audio@) == audio_samples(
                views.take(i as int),
                base_dts_90k,
                audio_timescale,
                Some(AAC_FRAME_TICKS),
            ),
        decreases packets@.len() - i,
    {
        let packet: &EncodedPacket = &packets[i];
        proof {
            assert(views.take(i + 1).drop_last() =~= views.take(i as int));
            lemma_conversion_error_prefix(views, outcomes, i + 1);
            lemma_video_samples_step(views, outcomes, base_dts_90k, i as int);
            lemma_audio_samples_step(
                views,
                base_dts_90k,
                audio_timescale,
                Some(AAC_FRAME_TICKS),
                i as int,
            );
        }
        let dts: u64 = packet.dts_90k.saturating_sub(base_dts_90k);
        let pts: u64 = packet.pts_90k.saturating_sub(base_dts_90k);
        if packet.kind == StreamKind::Aac {
            let sample = Mp4Sample {
                data: packet.data.clone(),
                dts: rescale_90k(dts, audio_timescale),
                pts: rescale_90k(pts, audio_timescale),
                duration: AAC_FRAME_TICKS,
                is_key: true,
                offset: 0,
            };
            proof {
                lemma_sample_views_push(audio@, sample);
                assert(sample.data@ =~= packet.data@);
            }
            audio.push(sample);
        } else {
            let data: Vec<u8> = if packet.is_length_prefixed {
                packet.data.clone()
            } else {
                match &converted[i] {
                    Ok(bytes) => bytes.clone(),
                    Err(error) => {
                        return Err(error.clone());
                    },
                }
            };
            let sample = Mp4Sample {
                data,
                dts,
                pts,
                duration: 0,
                is_key: packet.is_key,
                offset: 0,
            };
            proof {
                lemma_sample_views_push(video@, sample);
                assert(sample.data@ =~= video_sample(
                    views[i as int],
                    outcomes[i as int],
                    base_dts_90k,
                ).data);
            }
            video.push(sample);
        }
        i = i + 1;
    }
    assert(views.take(views.len() as int) =~= views);

    let count: usize = layout.track_count();
    let mut tracks: Vec<Vec<Mp4Sample>> = Vec::new();
    while tracks.len() < count
        invariant
            tracks@.len() <= count,
            forall|t: int| 0 <= t < tracks@.len() ==> (#[trigger] tracks@[t])@.len() == 0,
        decreases count - tracks.len(),
    {
        tracks.push(Vec::new());
    }
    match layout.video_index {
        Some(index) => tracks[index] = video,
        None => {},
    }
    match layout.audio_index {
        Some(index) => tracks[index] = audio,
        None => {},
    }
    assert forall|t: int| 0 <= t < tracks@.len() implies sample_views(#[trigger] tracks@[t]@)
        == track_samples(views, outcomes, *layout, base_dts_90k, t) by {
        assert(sample_views(tracks@[t]@) =~= track_samples(
            views,
            outcomes,
            *layout,
            base_dts_90k,
            t,
        ));
    }
    Ok(tracks)
}

/// Samples that were given durations, one for each.
pub open spec fn timed(samples: Seq<SampleView>, durations: Seq<u32>) -> Seq<SampleView> {
    Seq::new(samples.len(), |k: int| SampleView { duration: durations[k], ..samples[k] })
}

/// Gives each sample its duration.
pub fn set_durations(samples: &mut Vec<Mp4Sample>, durations: &Vec<u32>)
    requires
        durations@.len() == old(samples)@.len(),
    ensures
        sample_views(final(samples)@) == timed(sample_views(old(samples)@), durations@),
{
    let ghost before = samples@;
    let ghost wanted = timed(sample_views(before), durations@);
    let mut k: usize = 0;
    while k < samples.len()
        invariant
            k <= samples@.len(),
            samples@.len() == before.len(),
            durations@.len() == before.len(),
            wanted == timed(sample_views(before), durations@),
            forall|n: int| 0 <= n < k ==> (#[trigger] samples@[n])@ == wanted[n],
            forall|n: int| k <= n < before.len() ==> #[trigger] samples@[n] == before[n],
        decreases samples@.len() - k,
    {
        samples[k].duration = durations[k];
        k = k + 1;
    }
    assert(sample_views(samples@) =~= wanted);
}

/// Rescaling keeps the order of times.
pub proof fn lemma_rescale_monotone(earlier: u64, later: u64, to_timescale: u32)
    requires
        earlier <= later,
    ensures
        rescaled(earlier, to_timescale) <= rescaled(later, to_timescale),
{
    assert(earlier * to_timescale <= later * to_timescale) by (nonlinear_arith)
        requires
            earlier <= later,
    ;
}

/// Whole seconds of the 90 kHz clock become exactly that many seconds of the
/// other timescale, as long as the product fits.
pub proof fn lemma_rescale_whole_seconds(seconds: u64, to_timescale: u32)
    requires
        seconds * 90_000 * to_timescale <= u64::MAX,
        seconds * 90_000 <= u64::MAX,
    ensures
        rescaled((seconds * 90_000) as u64, to_timescale) == seconds * to_timescale,
{
    let value = (seconds * 90_000) as u64;
    assert(value * to_timescale == (seconds * to_timescale) * 90_000) by (nonlinear_arith)
        requires
            value == seconds * 90_000,
    ;
    assert(value * to_timescale == seconds * 90_000 * to_timescale) by (nonlinear_arith)
        requires
            value == seconds * 90_000,
    ;
}

/// Every packet becomes exactly one sample, of the video or of the audio track.
pub proof fn lemma_every_packet_one_sample(
    packets: Seq<PacketView>,
    converted: Seq<Result<Seq<u8>, ErrorView>>,
    base: u64,
    timescale: u32,
    frame_ticks: Option<u32>,
)
    ensures
        video_samples(packets, converted, base).len() + audio_samples(
            packets,
            base,
            timescale,
            frame_ticks,
        ).len() == packets.len(),
    decreases packets.len(),
{
    if packets.len() > 0 {
        lemma_every_packet_one_sample(
            packets.drop_last(),
            converted,
            base,
            timescale,
            frame_ticks,
        );
    }
}

/// The sample of each video packet is among the video samples, at the place that
/// counts the video packets before it.
pub proof fn lemma_video_sample_of_packet(
    packets: Seq<PacketView>,
    converted: Seq<Result<Seq<u8>, ErrorView>>,
    base: u64,
    i: int,
)
    requires
        0 <= i < packets.len(),
        packets[i].kind.is_video(),
    ensures
        ({
            let place = video_samples(packets.take(i), converted, base).len() as int;
            let samples = video_samples(packets, converted, base);
            &&& place < samples.len()
            &&& samples[place] == video_sample(packets[i], converted[i], base)
        }),
    decreases packets.len(),
{
    if i == packets.len() - 1 {
        assert(packets.take(i) =~= packets.drop_last());
    } else {
        lemma_video_sample_of_packet(packets.drop_last(), converted, base, i);
        assert(packets.drop_last().take(i) =~= packets.take(i));
    }
}

/// The sample of each audio packet is among the audio samples, at the place that
/// counts the audio packets before it.
pub proof fn lemma_audio_sample_of_packet(
    packets: Seq<PacketView>,
    base: u64,
    timescale: u32,
    frame_ticks: Option<u32>,
    i: int,
)
    requires
        0 <= i < packets.len(),
        !packets[i].kind.is_video(),
    ensures
        ({
            let place = audio_samples(packets.take(i), base, timescale, frame_ticks).len() as int;
            let samples = audio_samples(packets, base, timescale, frame_ticks);
            let duration = match frame_ticks {
                Some(ticks) => ticks,
                None => packets[i].duration as u32,
            };
            &&& place < samples.len()
            &&& samples[place] == audio_sample(packets[i], base, timescale, duration)
        }),
    decreases packets.len(),
{
    if i == packets.len() - 1 {
        assert(packets.take(i) =~= packets.drop_last());
    } else {
        lemma_audio_sample_of_packet(packets.drop_last(), base, timescale, frame_ticks, i);
        assert(packets.drop_last().take(i) =~= packets.take(i));
    }
}

/// A video packet from the start of the timeline on keeps its time and the
/// distance between its presentation and its decoding.
pub proof fn lemma_video_sample_keeps_times(
    packet: PacketView,
    converted: Result<Seq<u8>, ErrorView>,
    base: u64,
)
    requires
        packet.dts_90k >= base,
        packet.pts_90k >= base,
    ensures
        ({
            let sample = video_sample(packet, converted, base);
            &&& base + sample.dts == packet.dts_90k
            &&& base + sample.pts == packet.pts_90k
            &&& sample.pts - sample.dts == packet.pts_90k - packet.dts_90k
        }),
{
}

/// The packets of one segment, with what their conversions gave.
pub struct SegmentPackets {
    pub packets: Seq<PacketView>,
    pub converted: Seq<Result<Seq<u8>, ErrorView>>,
}

/// The packets of all segments, in order.
pub open spec fn all_packets(segments: Seq<SegmentPackets>) -> Seq<PacketView>
    decreases segments.len(),
{
    if segments.len() == 0 {
        Seq::empty()
    } else {
        all_packets(segments.drop_last()) + segments.last().packets
    }
}

/// The conversions of all segments, in order.
pub open spec fn all_conversions(segments: Seq<SegmentPackets>) -> Seq<Result<Seq<u8>, ErrorView>>
    decreases segments.len(),
{
    if segments.len() == 0 {
        Seq::empty()
    } else {
        all_conversions(segments.drop_last()) + segments.last().converted
    }
}

/// The samples of one track when each segment is grouped by itself, one segment
/// after the other.
pub open spec fn samples_by_segment(
    segments: Seq<SegmentPackets>,
    layout: TrackLayout,
    base: u64,
    index: int,
) -> Seq<SampleView>
    decreases segments.len(),
{
    if segments.len() == 0 {
        Seq::empty()
    } else {
        samples_by_segment(segments.drop_last(), layout, base, index) + track_samples(
            segments.last().packets,
            segments.last().converted,
            layout,
            base,
            index,
        )
    }
}

/// Video samples of packets that follow one another follow one another.
proof fn lemma_video_samples_append(
    first: Seq<PacketView>,
    first_converted: Seq<Result<Seq<u8>, ErrorView>>,
    second: Seq<PacketView>,
    second_converted: Seq<Result<Seq<u8>, ErrorView>>,
    base: u64,
)
    requires
        first.len() == first_converted.len(),
        second.len() <= second_converted.len(),
    ensures
        video_samples(first + second, first_converted + second_converted, base) == video_samples(
            first,
            first_converted,
            base,
        ) + video_samples(second, second_converted, base),
    decreases second.len(),
{
    let converted = first_converted + second_converted;
    if second.len() == 0 {
        assert(first + second =~= first);
        lemma_video_samples_prefix(first, first_converted, converted, base);
        assert(video_samples(first, first_converted, base) + video_samples(
            second,
            second_converted,
            base,
        ) =~= video_samples(first, first_converted, base));
    } else {
        assert((first + second).drop_last() =~= first + second.drop_last());
        lemma_video_samples_append(
            first,
            first_converted,
            second.drop_last(),
            second_converted,
            base,
        );
        assert(video_samples(first + second, converted, base) =~= video_samples(
            first,
            first_converted,
            base,
        ) + video_samples(second, second_converted, base));
    }
}

/// Only the conversions of the packets themselves matter.
proof fn lemma_video_samples_prefix(
    packets: Seq<PacketView>,
    converted: Seq<Result<Seq<u8>, ErrorView>>,
    longer: Seq<Result<Seq<u8>, ErrorView>>,
    base: u64,
)
    requires
        packets.len() <= converted.len() <= longer.len(),
        forall|i: int| 0 <= i < converted.len() ==> longer[i] == converted[i],
    ensures
        video_samples(packets, longer, base) == video_samples(packets, converted, base),
    decreases packets.len(),
{
    if packets.len() > 0 {
        lemma_video_samples_prefix(packets.drop_last(), converted, longer, base);
    }
}

/// Audio samples of packets that follow one another follow one another.
proof fn lemma_audio_samples_append(
    first: Seq<PacketView>,
    second: Seq<PacketView>,
    base: u64,
    timescale: u32,
    frame_ticks: Option<u32>,
)
    ensures
        audio_samples(first + second, base, timescale, frame_ticks) == audio_samples(
            first,
            base,
            timescale,
            frame_ticks,
        ) + audio_samples(second, base, timescale, frame_ticks),
    decreases second.len(),
{
    if second.len() == 0 {
        assert(first + second =~= first);
        assert(audio_samples(first, base, timescale, frame_ticks) + audio_samples(
            second,
            base,
            timescale,
            frame_ticks,
        ) =~= audio_samples(first, base, timescale, frame_ticks));
    } else {
        assert((first + second).drop_last() =~= first + second.drop_last());
        lemma_audio_samples_append(first, second.drop_last(), base, timescale, frame_ticks);
        assert(audio_samples(first + second, base, timescale, frame_ticks) =~= audio_samples(
            first,
            base,
            timescale,
            frame_ticks,
        ) + audio_samples(second, base, timescale, frame_ticks));
    }
}

/// Grouping segment by segment on one timeline gives each track the samples that
/// grouping all packets at once gives: nothing is lost, repeated or reordered at
/// the border of two segments.
pub proof fn lemma_segments_group_as_whole(
    segments: Seq<SegmentPackets>,
    layout: TrackLayout,
    base: u64,
    index: int,
)
    requires
        forall|s: int|
            0 <= s < segments.len() ==> (#[trigger] segments[s]).packets.len()
                == segments[s].converted.len(),
    ensures
        samples_by_segment(segments, layout, base, index) == track_samples(
            all_packets(segments),
            all_conversions(segments),
            layout,
            base,
            index,
        ),
        all_packets(segments).len() == all_conversions(segments).len(),
    decreases segments.len(),
{
    if segments.len() > 0 {
        let before = segments.drop_last();
        let last = segments.last();
        assert(segments[segments.len() - 1] == last);
        assert forall|s: int| 0 <= s < before.len() implies (#[trigger] before[s]).packets.len()
            == before[s].converted.len() by {
            assert(before[s] == segments[s]);
        }
        lemma_segments_group_as_whole(before, layout, base, index);
        lemma_video_samples_append(
            all_packets(before),
            all_conversions(before),
            last.packets,
            last.converted,
            base,
        );
        lemma_audio_samples_append(
            all_packets(before),
            last.packets,
            base,
            layout.timescale(),
            Some(AAC_FRAME_TICKS),
        );
        assert(Seq::<SampleView>::empty() + Seq::<SampleView>::empty() =~= Seq::<
            SampleView,
        >::empty());
    }
}

} // verus!
