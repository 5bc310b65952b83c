//! Values in contracts leave nothing out, and numbers are written so that they can be
//! read again.

use crate::collect::{MuxPlan, PacketCollector};
use crate::error::{error_message, Error, ErrorView};
use crate::location::{location_outcome, LocationView, SourceLocation};
use crate::outside::{text_outcome, text_view};
use crate::segment::{
    init_outcome, request_outcome, InitCache, InitStep, InitStepView, ReadRequest, RequestView,
};
use crate::text::{begins_with, bytes_view, decimal, digit_char, outcome_view};
use crate::tracks::{acceptance, parameters_outcome, tracks_outcome};
use crate::types::{
    packet_views, report_outcome, sample_views, track_views, DemuxOutput, EncodedPacket,
    FragmentedTrack, FragmentedTrackKind, Mp4Sample, StreamKind, TrackKindView, TransmuxReport,
    VideoParameters, VideoParametersView,
};
use vstd::prelude::*;

verus! {

/// H.264 and H.265 are video, AAC is not.
pub proof fn lemma_video_kinds()
    ensures
        StreamKind::Avc.is_video(),
        StreamKind::Hevc.is_video(),
        !StreamKind::Aac.is_video(),
{
}

/// The value of a packet has all of the packet.
pub proof fn lemma_packet_value(packet: EncodedPacket)
    ensures
        packet@.kind == packet.kind,
        packet@.data == packet.data@,
        packet@.dts_90k == packet.dts_90k,
        packet@.pts_90k == packet.pts_90k,
        packet@.duration == packet.duration,
        packet@.is_key == packet.is_key,
        packet@.is_length_prefixed == packet.is_length_prefixed,
{
}

/// The values of packets stand where the packets stand.
pub proof fn lemma_packet_values(packets: Seq<EncodedPacket>)
    ensures
        packet_views(packets).len() == packets.len(),
        forall|i: int|
            0 <= i < packets.len() ==> #[trigger] packet_views(packets)[i] == packets[i]@,
{
}

/// The value of a sample has all of the sample.
pub proof fn lemma_sample_value(sample: Mp4Sample)
    ensures
        sample@.data == sample.data@,
        sample@.dts == sample.dts,
        sample@.pts == sample.pts,
        sample@.duration == sample.duration,
        sample@.is_key == sample.is_key,
        sample@.offset == sample.offset,
{
}

/// The values of samples stand where the samples stand.
pub proof fn lemma_sample_values(samples: Seq<Mp4Sample>)
    ensures
        sample_views(samples).len() == samples.len(),
        forall|i: int|
            0 <= i < samples.len() ==> #[trigger] sample_views(samples)[i] == samples[i]@,
{
}

/// The value of a demuxed segment has all of it.
pub proof fn lemma_demuxed_value(found: DemuxOutput)
    ensures
        found@.packets == packet_views(found.packets@),
        found@.vps == bytes_view(found.vps),
        found@.sps == bytes_view(found.sps),
        found@.pps == bytes_view(found.pps),
        found@.audio_specific_config == bytes_view(found.audio_specific_config),
        found@.sample_rate == found.sample_rate,
        found@.channel_count == found.channel_count,
        found@.saw_video == found.saw_video,
        found@.saw_audio == found.saw_audio,
{
}

/// The value of a collector has all of it.
pub proof fn lemma_collector_value(collector: PacketCollector)
    ensures
        collector@.packets == packet_views(collector.packets@),
        collector@.vps == bytes_view(collector.vps),
        collector@.sps == bytes_view(collector.sps),
        collector@.pps == bytes_view(collector.pps),
        collector@.audio_specific_config == bytes_view(collector.audio_specific_config),
        collector@.sample_rate == collector.sample_rate,
        collector@.channel_count == collector.channel_count,
{
}

/// The value of a plan has all of it.
pub proof fn lemma_plan_value(plan: MuxPlan)
    ensures
        plan@.video == plan.video@,
        plan@.video_samples == sample_views(plan.video_samples@),
        plan@.audio_samples == sample_views(plan.audio_samples@),
        plan@.sample_rate == plan.sample_rate,
        plan@.channel_count == plan.channel_count,
        plan@.audio_specific_config == plan.audio_specific_config@,
{
}

/// The value of parameter sets has all of them.
pub proof fn lemma_parameters_value(parameters: VideoParameters)
    ensures
        match parameters {
            VideoParameters::Avc { sps, pps } => {
                &&& parameters@ matches VideoParametersView::Avc { sps: s, pps: p }
                &&& s == sps@
                &&& p == pps@
            },
            VideoParameters::Hevc { vps, sps, pps } => {
                &&& parameters@ matches VideoParametersView::Hevc { vps: v, sps: s, pps: p }
                &&& v == vps@
                &&& s == sps@
                &&& p == pps@
            },
        },
{
}

/// The value of a track has all of it.
pub proof fn lemma_track_value(track: FragmentedTrack)
    ensures
        track@.track_id == track.track_id,
        match track.kind {
            FragmentedTrackKind::Video { parameters } => {
                &&& track@.kind matches TrackKindView::Video { parameters: p }
                &&& p == parameters@
            },
            FragmentedTrackKind::Audio { sample_rate, channel_count, audio_specific_config } => {
                &&& track@.kind matches TrackKindView::Audio {
                    sample_rate: r,
                    channel_count: c,
                    audio_specific_config: a,
                }
                &&& r == sample_rate
                &&& c == channel_count
                &&& a == audio_specific_config@
            },
        },
{
}

/// The values of tracks stand where the tracks stand.
pub proof fn lemma_track_values(tracks: Seq<FragmentedTrack>)
    ensures
        track_views(tracks).len() == tracks.len(),
        forall|i: int| 0 <= i < tracks.len() ==> #[trigger] track_views(tracks)[i] == tracks[i]@,
{
}

/// The value of a report has all of it.
pub proof fn lemma_report_value(report: TransmuxReport)
    ensures
        report@.segment_count == report.segment_count,
        report@.tracks == report.tracks@,
        report@.duration == report.duration,
        report@.duration_timescale == report.duration_timescale,
        report@.bytes_written == report.bytes_written,
{
}

/// The value of an error has its kind and its message, and the message is what it
/// carries.
pub proof fn lemma_error_value(message: String)
    ensures
        Error::Io(message)@ == ErrorView::Io(message@),
        Error::Http(message)@ == ErrorView::Http(message@),
        Error::InvalidInput(message)@ == ErrorView::InvalidInput(message@),
        Error::Unsupported(message)@ == ErrorView::Unsupported(message@),
        Error::Bitstream(message)@ == ErrorView::Bitstream(message@),
        Error::Muxing(message)@ == ErrorView::Muxing(message@),
{
}

/// The message of an error is what it carries, whatever its kind.
pub proof fn lemma_error_message(message: Seq<char>)
    ensures
        error_message(ErrorView::Io(message)) == message,
        error_message(ErrorView::Http(message)) == message,
        error_message(ErrorView::InvalidInput(message)) == message,
        error_message(ErrorView::Unsupported(message)) == message,
        error_message(ErrorView::Bitstream(message)) == message,
        error_message(ErrorView::Muxing(message)) == message,
{
}

/// The value of a location has its kind and its text.
pub proof fn lemma_location_value(text: String)
    ensures
        SourceLocation::File(text)@ == LocationView::File(text@),
        SourceLocation::Url(text)@ == LocationView::Url(text@),
{
}

/// Optional and fallible values are there exactly where what they stand for is.
pub proof fn lemma_outcome_values(
    bytes: Vec<u8>,
    text: String,
    error: Error,
    location: SourceLocation,
    report: TransmuxReport,
)
    ensures
        bytes_view(Some(bytes)) == Some(bytes@),
        bytes_view(None) is None,
        text_view(Some(text)) == Some(text@),
        text_view(None) is None,
        outcome_view(Ok(bytes)) == Ok::<Seq<u8>, ErrorView>(bytes@),
        outcome_view(Err(error)) == Err::<Seq<u8>, ErrorView>(error@),
        text_outcome(Ok(text)) == Ok::<Seq<char>, Seq<char>>(text@),
        text_outcome(Err(text)) == Err::<Seq<char>, Seq<char>>(text@),
        location_outcome(Ok(location)) == Ok::<LocationView, ErrorView>(location@),
        location_outcome(Err(error)) == Err::<LocationView, ErrorView>(error@),
        report_outcome(Ok(report)) matches Ok(value) && value == report@,
        report_outcome(Err(error)) matches Err(value) && value == error@,
        acceptance(Ok(())) is Ok,
        acceptance(Err(error)) == Err::<(), ErrorView>(error@),
{
}

/// The values of reads and of what they need keep the place, the range and the bytes.
pub proof fn lemma_request_values(
    request: ReadRequest,
    bytes: Vec<u8>,
    error: Error,
    cache: InitCache,
)
    ensures
        request@.location == request.location@,
        request@.range == request.range,
        request_outcome(Ok(request)) == Ok::<RequestView, ErrorView>(request@),
        request_outcome(Err(error)) == Err::<RequestView, ErrorView>(error@),
        InitStep::MpegTs@ == InitStepView::MpegTs,
        InitStep::Cached(bytes)@ == InitStepView::Cached(bytes@),
        InitStep::Read(request)@ == InitStepView::Read(request@),
        init_outcome(Ok(InitStep::MpegTs)) == Ok::<InitStepView, ErrorView>(InitStepView::MpegTs),
        init_outcome(Ok(InitStep::Cached(bytes))) == Ok::<InitStepView, ErrorView>(
            InitStepView::Cached(bytes@),
        ),
        init_outcome(Ok(InitStep::Read(request))) == Ok::<InitStepView, ErrorView>(
            InitStepView::Read(request@),
        ),
        init_outcome(Err(error)) == Err::<InitStepView, ErrorView>(error@),
        cache.entry is None <==> cache@ is None,
        cache.entry matches Some(entry) ==> cache@ == Some((entry.0@, entry.1, entry.2@)),
{
}

/// The values of tracks and parameter sets, where there are any.
pub proof fn lemma_track_outcomes(
    tracks: Vec<FragmentedTrack>,
    parameters: VideoParameters,
    error: Error,
)
    ensures
        tracks_outcome(Ok(tracks)) matches Ok(value) && value == track_views(tracks@),
        tracks_outcome(Err(error)) matches Err(value) && value == error@,
        parameters_outcome(Ok(Some(parameters))) matches Ok(Some(value)) && value == parameters@,
        parameters_outcome(Ok(None)) matches Ok(None),
        parameters_outcome(Err(error)) matches Err(value) && value == error@,
{
}

/// The number that decimal digits stand for.
pub open spec fn number_of(digits: Seq<char>) -> int
    decreases digits.len(),
{
    if digits.len() == 0 {
        0
    } else {
        10 * number_of(digits.drop_last()) + (digits.last() as int - '0' as int)
    }
}

/// A number is written in decimal digits that stand for it, without leading zeros.
pub proof fn lemma_decimal_reads_back(number: nat)
    ensures
        number_of(decimal(number)) == number,
        decimal(number).len() > 0,
        forall|k: int|
            0 <= k < decimal(number).len() ==> '0' <= #[trigger] decimal(number)[k] <= '9',
        decimal(number).len() > 1 ==> decimal(number)[0] != '0',
    decreases number,
{
    reveal_strlit("0123456789");
    assert(digit_char(number % 10) as int == '0' as int + number % 10);
    if number < 10 {
        assert(decimal(number).drop_last() =~= Seq::empty());
        assert(number_of(Seq::<char>::empty()) == 0);
    } else {
        let front = decimal(number / 10);
        lemma_decimal_reads_back(number / 10);
        assert(decimal(number).drop_last() =~= front);
        assert(decimal(number)[0] == front[0]);
        if front.len() == 1 {
            assert(front.drop_last() =~= Seq::empty());
            assert(number_of(Seq::<char>::empty()) == 0);
            assert(front.last() == front[0]);
            assert(number / 10 != 0);
        }
    }
}

/// A text begins with a prefix exactly where something follows the prefix in it.
pub proof fn lemma_begins_with(text: Seq<char>, prefix: Seq<char>)
    ensures
        begins_with(text, prefix) <==> exists|rest: Seq<char>| text == #[trigger] (prefix + rest),
{
    if begins_with(text, prefix) {
        let rest = text.subrange(prefix.len() as int, text.len() as int);
        assert(text =~= prefix + rest);
    } else if exists|rest: Seq<char>| text == #[trigger] (prefix + rest) {
        let rest = choose|rest: Seq<char>| text == #[trigger] (prefix + rest);
        assert(text.subrange(0, prefix.len() as int) =~= prefix);
    }
}

} // verus!
