//! What becomes of every single packet.

use crate::error::{Error, ErrorView};
use crate::samples::{
    audio_samples, conversion_error, conversions, lemma_audio_sample_of_packet,
    lemma_audio_samples_step, lemma_no_conversion_error, lemma_video_sample_of_packet,
    lemma_video_samples_step, rescaled, shifted, timed, track_samples, unprefixed, video_samples,
    TrackLayout,
};
use crate::types::{PacketView, SampleView, StreamKind};
use vstd::prelude::*;

verus! {

/// How many of the first `count` packets are H.264 or H.265.
pub open spec fn video_count(packets: Seq<PacketView>, count: int) -> int
    decreases count,
{
    if count <= 0 {
        0
    } else {
        video_count(packets, count - 1) + (if packets[count - 1].kind == StreamKind::Avc
            || packets[count - 1].kind == StreamKind::Hevc {
            1int
        } else {
            0
        })
    }
}

/// How many of the first `count` packets are AAC.
pub open spec fn audio_count(packets: Seq<PacketView>, count: int) -> int
    decreases count,
{
    if count <= 0 {
        0
    } else {
        audio_count(packets, count - 1) + (if packets[count - 1].kind == StreamKind::Aac {
            1int
        } else {
            0
        })
    }
}

/// Whether `ticks` of a timescale are the time that `time` of the 90 kHz clock is,
/// rounded down. Where the product is past 64 bits, it is the most that it can be.
pub open spec fn is_rescaled(ticks: u64, time: int, timescale: u32) -> bool {
    if time * timescale <= u64::MAX {
        ticks * 90_000 <= time * timescale < (ticks + 1) * 90_000
    } else {
        ticks * 90_000 <= u64::MAX < (ticks + 1) * 90_000
    }
}

/// A time relative to a start; times before the start are at it.
pub open spec fn since(time: u64, start: u64) -> int {
    if time < start {
        0
    } else {
        time - start
    }
}

/// Rescaling gives the same time, rounded down to a whole tick.
pub proof fn lemma_rescaling(time: u64, timescale: u32)
    ensures
        is_rescaled(rescaled(time, timescale), time as int, timescale),
{
    let product = time * timescale;
    assert(product >= 0) by (nonlinear_arith)
        requires
            product == time * timescale,
    ;
}

/// Moving a time to another start keeps how far it is behind the start.
pub proof fn lemma_shifting(time: u64, start: u64)
    ensures
        time >= start ==> start + shifted(time, start) == time,
        time <= start ==> shifted(time, start) == 0,
{
}

/// Exactly the video packets without length prefixes have to be converted.
pub proof fn lemma_unprefixed(packet: PacketView)
    ensures
        unprefixed(packet) <==> !packet.is_length_prefixed && packet.kind != StreamKind::Aac,
{
}

/// The conversion error is that of a packet that needed a conversion, and no needed
/// conversion before it failed.
pub proof fn lemma_first_conversion_error(
    packets: Seq<PacketView>,
    converted: Seq<Result<Seq<u8>, ErrorView>>,
)
    ensures
        conversion_error(packets, converted) matches Some(error) ==> exists|i: int|
            #![trigger packets[i]]
            0 <= i < packets.len() && packets[i].kind != StreamKind::Aac
                && !packets[i].is_length_prefixed && converted[i] == Err::<Seq<u8>, ErrorView>(
                error,
            ) && forall|j: int|
                #![trigger packets[j]]
                0 <= j < i && packets[j].kind != StreamKind::Aac && !packets[j].is_length_prefixed
                    ==> converted[j] is Ok,
        conversion_error(packets, converted) is None ==> forall|j: int|
            #![trigger packets[j]]
            0 <= j < packets.len() && packets[j].kind != StreamKind::Aac
                && !packets[j].is_length_prefixed ==> converted[j] is Ok,
    decreases packets.len(),
{
    lemma_no_conversion_error(packets, converted);
    if conversion_error(packets, converted) is None {
        assert forall|j: int|
            #![trigger packets[j]]
            0 <= j < packets.len() && packets[j].kind != StreamKind::Aac
                && !packets[j].is_length_prefixed implies converted[j] is Ok by {
            assert(unprefixed(packets[j]));
        }
    } else {
        let before = packets.drop_last();
        let error = conversion_error(packets, converted)->0;
        lemma_first_conversion_error(before, converted);
        lemma_no_conversion_error(before, converted);
        if conversion_error(before, converted) is Some {
            let i = choose|i: int|
                #![trigger before[i]]
                0 <= i < before.len() && before[i].kind != StreamKind::Aac
                    && !before[i].is_length_prefixed && converted[i] == Err::<
                    Seq<u8>,
                    ErrorView,
                >(error) && forall|j: int|
                    #![trigger before[j]]
                    0 <= j < i && before[j].kind != StreamKind::Aac
                        && !before[j].is_length_prefixed ==> converted[j] is Ok;
            assert(packets[i] == before[i]);
            assert forall|j: int|
                #![trigger packets[j]]
                0 <= j < i && packets[j].kind != StreamKind::Aac
                    && !packets[j].is_length_prefixed implies converted[j] is Ok by {
                assert(before[j] == packets[j]);
            }
        } else {
            let i = packets.len() - 1;
            assert(packets[i] == packets.last());
            assert forall|j: int|
                #![trigger packets[j]]
                0 <= j < i && packets[j].kind != StreamKind::Aac
                    && !packets[j].is_length_prefixed implies converted[j] is Ok by {
                assert(before[j] == packets[j]);
            }
        }
    }
}

/// There are as many video samples as video packets.
pub proof fn lemma_video_places(
    packets: Seq<PacketView>,
    converted: Seq<Result<Seq<u8>, ErrorView>>,
    base: u64,
    count: int,
)
    requires
        0 <= count <= packets.len(),
    ensures
        video_samples(packets.take(count), converted, base).len() == video_count(packets, count),
    decreases count,
{
    if count > 0 {
        lemma_video_places(packets, converted, base, count - 1);
        lemma_video_samples_step(packets, converted, base, count - 1);
    }
}

/// There are as many audio samples as audio packets.
pub proof fn lemma_audio_places(
    packets: Seq<PacketView>,
    base: u64,
    timescale: u32,
    frame_ticks: Option<u32>,
    count: int,
)
    requires
        0 <= count <= packets.len(),
    ensures
        audio_samples(packets.take(count), base, timescale, frame_ticks).len() == audio_count(
            packets,
            count,
        ),
    decreases count,
{
    if count > 0 {
        lemma_audio_places(packets, base, timescale, frame_ticks, count - 1);
        lemma_audio_samples_step(packets, base, timescale, frame_ticks, count - 1);
    }
}

/// Whether a sample is what a video packet becomes on a timeline that starts at
/// `start`: its data, or what converting them gave, its key flag and its times. It
/// has no duration and no place in the file yet.
pub open spec fn is_video_sample_of(
    sample: SampleView,
    packet: PacketView,
    converted: Result<Seq<u8>, ErrorView>,
    start: u64,
) -> bool {
    &&& packet.is_length_prefixed ==> sample.data == packet.data
    &&& !packet.is_length_prefixed && converted is Ok ==> sample.data == converted->Ok_0
    &&& sample.dts == since(packet.dts_90k, start)
    &&& sample.pts == since(packet.pts_90k, start)
    &&& sample.is_key == packet.is_key
    &&& sample.duration == 0
    &&& sample.offset == 0
}

/// Whether a sample is what an audio packet becomes on a timeline that starts at
/// `start`: all of its data, and its times in the timescale. It can be decoded on its
/// own and has no place in the file yet.
pub open spec fn is_audio_sample_of(
    sample: SampleView,
    packet: PacketView,
    start: u64,
    timescale: u32,
    duration: int,
) -> bool {
    &&& sample.data == packet.data
    &&& is_rescaled(sample.dts, since(packet.dts_90k, start), timescale)
    &&& is_rescaled(sample.pts, since(packet.pts_90k, start), timescale)
    &&& sample.duration == duration
    &&& sample.is_key
    &&& sample.offset == 0
}

/// The video track has one sample for each video packet, in order, and each is what
/// its packet becomes, whether or not there is an audio track.
pub proof fn lemma_video_track_holds_packets(
    packets: Seq<PacketView>,
    converted: Seq<Result<Seq<u8>, ErrorView>>,
    layout: TrackLayout,
    base: u64,
    track: usize,
)
    requires
        layout.video_index == Some(track),
        layout.audio_index != Some(track),
    ensures
        ({
            let samples = track_samples(packets, converted, layout, base, track as int);
            &&& samples.len() == video_count(packets, packets.len() as int)
            &&& forall|i: int|
                #![trigger packets[i]]
                0 <= i < packets.len() && packets[i].kind != StreamKind::Aac ==> {
                    &&& 0 <= video_count(packets, i) < samples.len()
                    &&& is_video_sample_of(
                        samples[video_count(packets, i)],
                        packets[i],
                        converted[i],
                        base,
                    )
                }
        }),
{
    lemma_video_samples_hold_packets(packets, converted, base);
}

/// Video samples are what the video packets become, one by one.
pub proof fn lemma_video_samples_hold_packets(
    packets: Seq<PacketView>,
    converted: Seq<Result<Seq<u8>, ErrorView>>,
    base: u64,
)
    ensures
        ({
            let samples = video_samples(packets, converted, base);
            &&& samples.len() == video_count(packets, packets.len() as int)
            &&& forall|i: int|
                #![trigger packets[i]]
                0 <= i < packets.len() && packets[i].kind != StreamKind::Aac ==> {
                    &&& 0 <= video_count(packets, i) < samples.len()
                    &&& is_video_sample_of(
                        samples[video_count(packets, i)],
                        packets[i],
                        converted[i],
                        base,
                    )
                }
        }),
{
    let samples = video_samples(packets, converted, base);
    assert(packets.take(packets.len() as int) =~= packets);
    lemma_video_places(packets, converted, base, packets.len() as int);
    assert forall|i: int|
        #![trigger packets[i]]
        0 <= i < packets.len() && packets[i].kind != StreamKind::Aac implies {
        &&& 0 <= video_count(packets, i) < samples.len()
        &&& is_video_sample_of(
            samples[video_count(packets, i)],
            packets[i],
            converted[i],
            base,
        )
    } by {
        lemma_video_places(packets, converted, base, i);
        lemma_video_sample_of_packet(packets, converted, base, i);
    }
}

/// The audio track has one sample for each audio packet, in order, and each is what
/// its packet becomes, whether or not there is a video track. Each lasts 1024 ticks
/// of the sample rate; without a sample rate times are those of the 90 kHz clock.
pub proof fn lemma_audio_track_holds_packets(
    packets: Seq<PacketView>,
    converted: Seq<Result<Seq<u8>, ErrorView>>,
    layout: TrackLayout,
    base: u64,
    track: usize,
)
    requires
        layout.audio_index == Some(track),
    ensures
        ({
            let samples = track_samples(packets, converted, layout, base, track as int);
            let timescale = if layout.audio_timescale == 0 {
                90_000
            } else {
                layout.audio_timescale
            };
            &&& samples.len() == audio_count(packets, packets.len() as int)
            &&& forall|i: int|
                #![trigger packets[i]]
                0 <= i < packets.len() && packets[i].kind == StreamKind::Aac ==> {
                    &&& 0 <= audio_count(packets, i) < samples.len()
                    &&& is_audio_sample_of(
                        samples[audio_count(packets, i)],
                        packets[i],
                        base,
                        timescale,
                        1024,
                    )
                }
        }),
{
    lemma_audio_samples_hold_packets(packets, base, layout.timescale(), Some(1024));
}

/// Audio samples are what the audio packets become, one by one. Each lasts as long as
/// is said, or as its packet says.
pub proof fn lemma_audio_samples_hold_packets(
    packets: Seq<PacketView>,
    base: u64,
    timescale: u32,
    frame_ticks: Option<u32>,
)
    ensures
        ({
            let samples = audio_samples(packets, base, timescale, frame_ticks);
            &&& samples.len() == audio_count(packets, packets.len() as int)
            &&& forall|i: int|
                #![trigger packets[i]]
                0 <= i < packets.len() && packets[i].kind == StreamKind::Aac ==> {
                    &&& 0 <= audio_count(packets, i) < samples.len()
                    &&& (frame_ticks is Some || packets[i].duration <= u32::MAX
                        ==> is_audio_sample_of(
                        samples[audio_count(packets, i)],
                        packets[i],
                        base,
                        timescale,
                        match frame_ticks {
                            Some(ticks) => ticks as int,
                            None => packets[i].duration as int,
                        },
                    ))
                }
        }),
{
    let samples = audio_samples(packets, base, timescale, frame_ticks);
    assert(packets.take(packets.len() as int) =~= packets);
    lemma_audio_places(packets, base, timescale, frame_ticks, packets.len() as int);
    assert forall|i: int|
        #![trigger packets[i]]
        0 <= i < packets.len() && packets[i].kind == StreamKind::Aac implies {
        &&& 0 <= audio_count(packets, i) < samples.len()
        &&& (frame_ticks is Some || packets[i].duration <= u32::MAX ==> is_audio_sample_of(
            samples[audio_count(packets, i)],
            packets[i],
            base,
            timescale,
            match frame_ticks {
                Some(ticks) => ticks as int,
                None => packets[i].duration as int,
            },
        ))
    } by {
        lemma_audio_places(packets, base, timescale, frame_ticks, i);
        lemma_audio_sample_of_packet(packets, base, timescale, frame_ticks, i);
        lemma_rescaling(shifted(packets[i].dts_90k, base), timescale);
        lemma_rescaling(shifted(packets[i].pts_90k, base), timescale);
    }
}

/// A track that the layout names as neither has no samples.
pub proof fn lemma_other_track_is_empty(
    packets: Seq<PacketView>,
    converted: Seq<Result<Seq<u8>, ErrorView>>,
    layout: TrackLayout,
    base: u64,
    track: usize,
)
    requires
        layout.video_index != Some(track),
        layout.audio_index != Some(track),
    ensures
        track_samples(packets, converted, layout, base, track as int).len() == 0,
{
}

/// Samples that are given durations have those, and keep everything else.
pub proof fn lemma_durations_are_given(samples: Seq<SampleView>, durations: Seq<u32>)
    ensures
        timed(samples, durations).len() == samples.len(),
        forall|k: int|
            #![trigger timed(samples, durations)[k]]
            0 <= k < samples.len() ==> {
                let sample = timed(samples, durations)[k];
                &&& sample.duration == durations[k]
                &&& sample.data == samples[k].data
                &&& sample.dts == samples[k].dts
                &&& sample.pts == samples[k].pts
                &&& sample.is_key == samples[k].is_key
                &&& sample.offset == samples[k].offset
            },
{
}

/// A layout has as many tracks as it has indices, and they point at tracks where they
/// are below that number. Without a sample rate audio counts in the 90 kHz clock.
pub proof fn lemma_layout_counts(layout: TrackLayout)
    ensures
        layout.tracks() == 0 <==> layout.video_index is None && layout.audio_index is None,
        layout.tracks() == 2 <==> layout.video_index is Some && layout.audio_index is Some,
        0 <= layout.tracks() <= 2,
        layout.in_bounds() <==> (layout.video_index is Some ==> layout.video_index->0
            < layout.tracks()) && (layout.audio_index is Some ==> layout.audio_index->0
            < layout.tracks()),
        layout.timescale() == (if layout.audio_timescale == 0 {
            90_000
        } else {
            layout.audio_timescale
        }),
{
}

/// What conversions gave stands where the conversions stand: the bytes, or the error.
pub proof fn lemma_conversion_values(converted: Seq<Result<Vec<u8>, Error>>, i: int)
    requires
        0 <= i < converted.len(),
    ensures
        conversions(converted).len() == converted.len(),
        match converted[i] {
            Ok(bytes) => conversions(converted)[i] == Ok::<Seq<u8>, ErrorView>(bytes@),
            Err(error) => conversions(converted)[i] == Err::<Seq<u8>, ErrorView>(error@),
        },
{
}

} // verus!
