//! Packets, samples and tracks, as plain values.

use crate::error::{Error, ErrorView};
use crate::text::bytes_view;
use vstd::prelude::*;

verus! {

/// The elementary stream that a packet belongs to.
#[derive(Debug, Clone, Copy, PartialEq, Eq, Structural)]
pub enum StreamKind {
    /// H.264 video.
    Avc,
    /// H.265 video.
    Hevc,
    /// AAC-LC audio.
    Aac,
}

impl StreamKind {
    /// Whether the stream is video.
    pub open spec fn is_video(self) -> bool {
        self is Avc || self is Hevc
    }
}

/// One access unit of an elementary stream, with timestamps of the 90 kHz
/// clock.
#[derive(Debug, Clone, PartialEq, Eq)]
pub struct EncodedPacket {
    pub kind: StreamKind,
    pub data: Vec<u8>,
    pub dts_90k: u64,
    pub pts_90k: u64,
    /// Duration in ticks of the track that the packet goes to.
    pub duration: u64,
    pub is_key: bool,
    /// Whether the NAL units in `data` carry length prefixes. Otherwise they
    /// are separated by Annex B start codes.
    pub is_length_prefixed: bool,
}

/// The value of an [`EncodedPacket`] in contracts.
pub struct PacketView {
    pub kind: StreamKind,
    pub data: Seq<u8>,
    pub dts_90k: u64,
    pub pts_90k: u64,
    pub duration: u64,
    pub is_key: bool,
    pub is_length_prefixed: bool,
}

impl View for EncodedPacket {
    type V = PacketView;

    open spec fn view(&self) -> PacketView {
        PacketView {
            kind: self.kind,
            data: self.data@,
            dts_90k: self.dts_90k,
            pts_90k: self.pts_90k,
            duration: self.duration,
            is_key: self.is_key,
            is_length_prefixed: self.is_length_prefixed,
        }
    }
}

/// The values of a run of packets.
pub open spec fn packet_views(packets: Seq<EncodedPacket>) -> Seq<PacketView> {
    Seq::new(packets.len(), |i: int| packets[i]@)
}

/// What demuxing one segment gave.
#[derive(Debug, Clone, PartialEq, Eq)]
pub struct DemuxOutput {
    pub packets: Vec<EncodedPacket>,
    pub vps: Option<Vec<u8>>,
    pub sps: Option<Vec<u8>>,
    pub pps: Option<Vec<u8>>,
    pub audio_specific_config: Option<Vec<u8>>,
    pub sample_rate: Option<u32>,
    pub channel_count: Option<u8>,
    pub saw_video: bool,
    pub saw_audio: bool,
}

/// The value of a [`DemuxOutput`] in contracts.
pub struct DemuxView {
    pub packets: Seq<PacketView>,
    pub vps: Option<Seq<u8>>,
    pub sps: Option<Seq<u8>>,
    pub pps: Option<Seq<u8>>,
    pub audio_specific_config: Option<Seq<u8>>,
    pub sample_rate: Option<u32>,
    pub channel_count: Option<u8>,
    pub saw_video: bool,
    pub saw_audio: bool,
}

impl View for DemuxOutput {
    type V = DemuxView;

    open spec fn view(&self) -> DemuxView {
        DemuxView {
            packets: packet_views(self.packets@),
            vps: bytes_view(self.vps),
            sps: bytes_view(self.sps),
            pps: bytes_view(self.pps),
            audio_specific_config: bytes_view(self.audio_specific_config),
            sample_rate: self.sample_rate,
            channel_count: self.channel_count,
            saw_video: self.saw_video,
            saw_audio: self.saw_audio,
        }
    }
}

/// One sample of an MP4 track, with times in the track's timescale.
#[derive(Debug, Clone, PartialEq, Eq)]
pub struct Mp4Sample {
    pub data: Vec<u8>,
    pub dts: u64,
    pub pts: u64,
    pub duration: u32,
    pub is_key: bool,
    /// Where the sample's data stands in the output file, once that is known.
    pub offset: u64,
}

/// The value of an [`Mp4Sample`] in contracts.
pub struct SampleView {
    pub data: Seq<u8>,
    pub dts: u64,
    pub pts: u64,
    pub duration: u32,
    pub is_key: bool,
    pub offset: u64,
}

impl View for Mp4Sample {
    type V = SampleView;

    open spec fn view(&self) -> SampleView {
        SampleView {
            data: self.data@,
            dts: self.dts,
            pts: self.pts,
            duration: self.duration,
            is_key: self.is_key,
            offset: self.offset,
        }
    }
}

/// The values of a run of samples.
pub open spec fn sample_views(samples: Seq<Mp4Sample>) -> Seq<SampleView> {
    Seq::new(samples.len(), |i: int| samples[i]@)
}

/// The parameter sets that describe a video stream.
#[derive(Debug, Clone, PartialEq, Eq)]
pub enum VideoParameters {
    Avc { sps: Vec<u8>, pps: Vec<u8> },
    Hevc { vps: Vec<u8>, sps: Vec<u8>, pps: Vec<u8> },
}

/// The value of [`VideoParameters`] in contracts.
pub enum VideoParametersView {
    Avc { sps: Seq<u8>, pps: Seq<u8> },
    Hevc { vps: Seq<u8>, sps: Seq<u8>, pps: Seq<u8> },
}

impl View for VideoParameters {
    type V = VideoParametersView;

    open spec fn view(&self) -> VideoParametersView {
        match self {
            VideoParameters::Avc { sps, pps } => VideoParametersView::Avc { sps: sps@, pps: pps@ },
            VideoParameters::Hevc { vps, sps, pps } => VideoParametersView::Hevc {
                vps: vps@,
                sps: sps@,
                pps: pps@,
            },
        }
    }
}

/// What a track of a fragmented MP4 carries.
#[derive(Debug, Clone, PartialEq, Eq)]
pub enum FragmentedTrackKind {
    Video { parameters: VideoParameters },
    Audio { sample_rate: u32, channel_count: u8, audio_specific_config: Vec<u8> },
}

/// The value of a [`FragmentedTrackKind`] in contracts.
pub enum TrackKindView {
    Video { parameters: VideoParametersView },
    Audio { sample_rate: u32, channel_count: u8, audio_specific_config: Seq<u8> },
}

impl View for FragmentedTrackKind {
    type V = TrackKindView;

    open spec fn view(&self) -> TrackKindView {
        match self {
            FragmentedTrackKind::Video { parameters } => TrackKindView::Video {
                parameters: parameters@,
            },
            FragmentedTrackKind::Audio { sample_rate, channel_count, audio_specific_config } =>
                TrackKindView::Audio {
                    sample_rate: *sample_rate,
                    channel_count: *channel_count,
                    audio_specific_config: audio_specific_config@,
                },
        }
    }
}

/// A track of a fragmented MP4.
#[derive(Debug, Clone, PartialEq, Eq)]
pub struct FragmentedTrack {
    pub track_id: u32,
    pub kind: FragmentedTrackKind,
}

/// The value of a [`FragmentedTrack`] in contracts.
pub struct TrackView {
    pub track_id: u32,
    pub kind: TrackKindView,
}

impl View for FragmentedTrack {
    type V = TrackView;

    open spec fn view(&self) -> TrackView {
        TrackView { track_id: self.track_id, kind: self.kind@ }
    }
}

/// The values of a list of tracks.
pub open spec fn track_views(tracks: Seq<FragmentedTrack>) -> Seq<TrackView> {
    Seq::new(tracks.len(), |i: int| tracks[i]@)
}

/// An entry of a track's random access index: the fragment that holds the
/// sample at `time` has its `moof` box at `moof_offset`.
#[derive(Debug, Clone, Copy, PartialEq, Eq)]
pub struct TfraEntry {
    pub time: u64,
    pub moof_offset: u64,
    pub traf_number: u32,
    pub trun_number: u32,
    pub sample_number: u32,
}

/// The type of a track in a report.
#[derive(Debug, Clone, Copy, PartialEq, Eq)]
pub enum TrackType {
    Video,
    Audio,
}

/// What a report says of one track.
#[derive(Debug, Clone, PartialEq, Eq)]
pub struct TrackInfo {
    pub track_type: TrackType,
    pub codec: StreamKind,
    pub sample_count: usize,
    pub width: Option<u32>,
    pub height: Option<u32>,
    pub sample_rate: Option<u32>,
    /// Duration in ticks of `timescale`.
    pub duration: u64,
    pub timescale: u32,
}

/// What a finished run did.
#[derive(Debug, Clone, PartialEq, Eq)]
pub struct TransmuxReport {
    pub segment_count: usize,
    pub tracks: Vec<TrackInfo>,
    /// Duration in ticks of `duration_timescale`.
    pub duration: u64,
    pub duration_timescale: u32,
    pub bytes_written: u64,
}

/// The value of a [`TransmuxReport`] in contracts.
pub struct ReportView {
    pub segment_count: usize,
    pub tracks: Seq<TrackInfo>,
    pub duration: u64,
    pub duration_timescale: u32,
    pub bytes_written: u64,
}

impl View for TransmuxReport {
    type V = ReportView;

    open spec fn view(&self) -> ReportView {
        ReportView {
            segment_count: self.segment_count,
            tracks: self.tracks@,
            duration: self.duration,
            duration_timescale: self.duration_timescale,
            bytes_written: self.bytes_written,
        }
    }
}

/// The value of a finished run's outcome in contracts.
pub open spec fn report_outcome(outcome: Result<TransmuxReport, Error>) -> Result<
    ReportView,
    ErrorView,
> {
    match outcome {
        Ok(report) => Ok(report@),
        Err(error) => Err(error@),
    }
}

} // verus!
