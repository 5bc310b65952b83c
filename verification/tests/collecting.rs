use hls_transmux::collect::{mux_collected_packets, mux_report, update_param, MuxPlan};
use hls_transmux::samples::{group_samples_per_track, TrackLayout};
use hls_transmux::types::{
    DemuxOutput, EncodedPacket, Mp4Sample, StreamKind, TrackInfo, TrackType, VideoParameters,
};
use hls_transmux::{Error, PacketCollector};

fn packet(kind: StreamKind, data: &[u8], dts: u64, pts: u64) -> EncodedPacket {
    EncodedPacket {
        kind,
        data: data.to_vec(),
        dts_90k: dts,
        pts_90k: pts,
        duration: 1024,
        is_key: true,
        is_length_prefixed: true,
    }
}

fn demuxed(packets: Vec<EncodedPacket>) -> DemuxOutput {
    DemuxOutput {
        packets,
        vps: Some(vec![6]),
        sps: Some(vec![7]),
        pps: Some(vec![8]),
        audio_specific_config: Some(vec![9]),
        sample_rate: Some(45_000),
        channel_count: Some(2),
        saw_video: true,
        saw_audio: true,
    }
}

fn collected(packets: Vec<EncodedPacket>) -> PacketCollector {
    let mut collector = PacketCollector::new();
    collector.push_demuxed(demuxed(packets)).unwrap();
    collector
}

fn nothing(count: usize) -> Vec<Result<Vec<u8>, Error>> {
    (0..count).map(|_| Ok(vec![])).collect()
}

fn unsupported(message: &str) -> Error {
    Error::Unsupported(message.to_string())
}

fn bitstream(message: &str) -> Error {
    Error::Bitstream(message.to_string())
}

fn mux(collector: PacketCollector) -> Result<MuxPlan, Error> {
    let converted = nothing(collector.packets.len());
    mux_collected_packets(collector, &converted)
}

fn track(duration: u64, timescale: u32) -> TrackInfo {
    TrackInfo {
        track_type: TrackType::Video,
        codec: StreamKind::Avc,
        sample_count: 1,
        width: None,
        height: None,
        sample_rate: None,
        duration,
        timescale,
    }
}

#[test]
fn parameters_are_set_once() {
    let mut slot = None;
    assert!(update_param(&mut slot, vec![1], "changed").is_ok());
    assert_eq!(slot, Some(vec![1]));
    assert!(update_param(&mut slot, vec![1], "changed").is_ok());
    assert_eq!(update_param(&mut slot, vec![2], "changed").unwrap_err(), unsupported("changed"));
    assert_eq!(slot, Some(vec![1]));
}

#[test]
fn segments_are_collected_in_order() {
    let mut collector = collected(vec![packet(StreamKind::Avc, &[1], 0, 0)]);
    let mut bare = demuxed(vec![packet(StreamKind::Aac, &[2], 5, 5)]);
    bare.sps = None;
    bare.sample_rate = None;
    collector.push_demuxed(bare).unwrap();
    let data: Vec<&[u8]> = collector.packets.iter().map(|p| p.data.as_slice()).collect();
    assert_eq!(data, [&[1u8][..], &[2u8][..]]);
    assert_eq!(collector.sps, Some(vec![7]));
    assert_eq!(collector.sample_rate, Some(45_000));
}

#[test]
fn changed_parameters_are_unsupported() {
    let cases: Vec<(fn(&mut DemuxOutput), &str)> = vec![
        (|d| d.vps = Some(vec![0]), "mid-stream HEVC VPS changes are out of Phase 3 scope"),
        (|d| d.sps = Some(vec![0]), "mid-stream SPS changes are out of Phase 3 scope"),
        (|d| d.pps = Some(vec![0]), "mid-stream PPS changes are out of Phase 3 scope"),
        (
            |d| d.audio_specific_config = Some(vec![0]),
            "mid-stream AAC config changes are out of Phase 3 scope",
        ),
        (
            |d| d.sample_rate = Some(1),
            "mid-stream AAC sample rate changes are out of Phase 3 scope",
        ),
        (
            |d| d.channel_count = Some(1),
            "mid-stream AAC channel count changes are out of Phase 3 scope",
        ),
    ];
    for (change, message) in cases {
        let mut collector = collected(vec![packet(StreamKind::Avc, &[1], 0, 0)]);
        let mut next = demuxed(vec![packet(StreamKind::Avc, &[2], 0, 0)]);
        change(&mut next);
        assert_eq!(collector.push_demuxed(next).unwrap_err(), unsupported(message));
        assert_eq!(collector.packets.len(), 1);
        assert_eq!(collector.vps, Some(vec![6]));
        assert_eq!(collector.channel_count, Some(2));
    }
}

#[test]
fn a_refused_segment_keeps_the_parameters_before_the_conflict() {
    let mut collector = PacketCollector::new();
    let mut first = demuxed(vec![]);
    first.vps = None;
    first.pps = None;
    collector.push_demuxed(first).unwrap();
    let mut second = demuxed(vec![]);
    second.sps = Some(vec![0]);
    assert!(collector.push_demuxed(second).is_err());
    assert_eq!(collector.vps, Some(vec![6]));
    assert_eq!(collector.pps, None);
}

#[test]
fn plans_start_at_the_earliest_dts() {
    let mut raw = packet(StreamKind::Hevc, &[0, 0, 1, 5], 9_000, 12_000);
    raw.is_length_prefixed = false;
    raw.is_key = false;
    let mut audio = packet(StreamKind::Aac, &[2], 3_000, 3_600);
    audio.duration = 960;
    let collector = collected(vec![raw, audio]);
    let converted = vec![Ok(vec![0, 0, 0, 1, 5]), Err(bitstream("not looked at"))];
    assert_eq!(
        mux_collected_packets(collector, &converted).unwrap(),
        MuxPlan {
            video: VideoParameters::Hevc { vps: vec![6], sps: vec![7], pps: vec![8] },
            video_samples: vec![Mp4Sample {
                data: vec![0, 0, 0, 1, 5],
                dts: 6_000,
                pts: 9_000,
                duration: 0,
                is_key: false,
                offset: 0,
            }],
            audio_samples: vec![Mp4Sample {
                data: vec![2],
                dts: 0,
                pts: 300,
                duration: 960,
                is_key: true,
                offset: 0,
            }],
            sample_rate: 45_000,
            channel_count: 2,
            audio_specific_config: vec![9],
        }
    );
}

#[test]
fn streams_without_a_vps_are_avc() {
    let mut collector = collected(vec![packet(StreamKind::Avc, &[1], 0, 0)]);
    collector.vps = None;
    assert_eq!(
        mux(collector).unwrap().video,
        VideoParameters::Avc { sps: vec![7], pps: vec![8] }
    );
}

#[test]
fn nothing_collected_is_invalid() {
    assert_eq!(
        mux(PacketCollector::new()).unwrap_err(),
        Error::InvalidInput("HLS playlist did not produce any encoded packets".to_string())
    );
}

#[test]
fn a_standard_mp4_needs_audio() {
    let refused = unsupported("AAC audio is required for non-fragmented MP4");
    let mut collector = collected(vec![packet(StreamKind::Avc, &[1], 0, 0)]);
    collector.sample_rate = None;
    assert_eq!(mux(collector).unwrap_err(), refused);
    let mut collector = collected(vec![packet(StreamKind::Avc, &[1], 0, 0)]);
    collector.channel_count = None;
    assert_eq!(mux(collector).unwrap_err(), refused);
}

#[test]
fn presentation_before_the_start_is_refused() {
    let collector = collected(vec![
        packet(StreamKind::Avc, &[1], 100, 100),
        packet(StreamKind::Avc, &[2], 200, 99),
    ]);
    assert_eq!(
        mux(collector).unwrap_err(),
        Error::Muxing("packet timestamps precede the normalization base".to_string())
    );
}

#[test]
fn the_first_packet_that_fails_is_reported() {
    let mut raw = packet(StreamKind::Avc, &[1], 100, 100);
    raw.is_length_prefixed = false;
    let mut long = packet(StreamKind::Aac, &[2], 100, 100);
    long.duration = u64::from(u32::MAX) + 1;
    let too_long = Error::Muxing("AAC packet duration exceeds u32".to_string());

    let converted = vec![Err(bitstream("no start code")), Ok(vec![])];
    assert_eq!(
        mux_collected_packets(collected(vec![raw.clone(), long.clone()]), &converted).unwrap_err(),
        bitstream("no start code")
    );
    let converted = vec![Ok(vec![]), Err(bitstream("no start code"))];
    assert_eq!(
        mux_collected_packets(collected(vec![long, raw]), &converted).unwrap_err(),
        too_long
    );
}

#[test]
fn missing_codec_parameters_are_reported() {
    let one = || collected(vec![packet(StreamKind::Avc, &[1], 0, 0)]);
    let mut collector = one();
    collector.audio_specific_config = None;
    collector.sps = None;
    assert_eq!(mux(collector).unwrap_err(), bitstream("AAC AudioSpecificConfig was not found"));
    let mut collector = one();
    collector.sps = None;
    collector.pps = None;
    assert_eq!(mux(collector).unwrap_err(), bitstream("HEVC SPS was not found"));
    let mut collector = one();
    collector.pps = None;
    assert_eq!(mux(collector).unwrap_err(), bitstream("HEVC PPS was not found"));
    let mut collector = one();
    collector.vps = None;
    collector.sps = None;
    assert_eq!(mux(collector).unwrap_err(), bitstream("H.264 SPS was not found"));
    let mut collector = one();
    collector.vps = None;
    collector.pps = None;
    assert_eq!(mux(collector).unwrap_err(), bitstream("H.264 PPS was not found"));
}

#[test]
fn reports_give_the_longest_track() {
    let report = mux_report(4, vec![track(180_000, 90_000), track(110_250, 44_100)], 77);
    assert_eq!(report.segment_count, 4);
    assert_eq!(report.tracks.len(), 2);
    assert_eq!(report.duration, 2_500);
    assert_eq!(report.duration_timescale, 1000);
    assert_eq!(report.bytes_written, 77);
    assert_eq!(mux_report(0, vec![], 0).duration, 0);
    assert_eq!(mux_report(0, vec![track(u64::MAX, 2)], 0).duration, u64::MAX / 2);
}

#[test]
fn fragments_hold_the_samples_of_the_plan() {
    let first = vec![packet(StreamKind::Avc, &[1], 10, 40), packet(StreamKind::Aac, &[2], 12, 12)];
    let second = vec![packet(StreamKind::Aac, &[3], 20, 20), packet(StreamKind::Avc, &[4], 30, 30)];
    let layout =
        TrackLayout { video_index: Some(0), audio_index: Some(1), audio_timescale: 45_000 };
    let mut tracks = group_samples_per_track(&first, &nothing(2), &layout, 10).unwrap();
    let more = group_samples_per_track(&second, &nothing(2), &layout, 10).unwrap();
    for (track, samples) in more.into_iter().enumerate() {
        tracks[track].extend(samples);
    }
    let mut collector = collected(first);
    collector.push_demuxed(demuxed(second)).unwrap();
    let plan = mux(collector).unwrap();
    assert_eq!(tracks, vec![plan.video_samples, plan.audio_samples]);
}

#[test]
fn samples_given_back_make_the_same_plan() {
    let plan = mux(collected(vec![
        packet(StreamKind::Hevc, &[1], 9_000, 12_000),
        packet(StreamKind::Aac, &[2], 9_002, 9_002),
        packet(StreamKind::Hevc, &[3], 12_000, 12_000),
    ]))
    .unwrap();
    let mut back = vec![];
    for sample in &plan.audio_samples {
        back.push(packet(StreamKind::Aac, &sample.data, 2 * sample.dts, 2 * sample.pts));
    }
    for sample in &plan.video_samples {
        back.push(packet(StreamKind::Hevc, &sample.data, sample.dts, sample.pts));
    }
    assert_eq!(mux(collected(back)).unwrap(), plan);
}
