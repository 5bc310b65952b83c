use hls_transmux::samples::{
    group_samples_per_track, needs_conversion, rescale_90k, TrackLayout, AAC_FRAME_TICKS,
};
use hls_transmux::tracks::{build_fragmented_tracks, video_parameters};
use hls_transmux::types::{
    DemuxOutput, EncodedPacket, FragmentedTrack, FragmentedTrackKind, Mp4Sample, StreamKind,
    VideoParameters,
};
use hls_transmux::Error;

fn packet(kind: StreamKind, data: &[u8], dts: u64, pts: u64) -> EncodedPacket {
    EncodedPacket {
        kind,
        data: data.to_vec(),
        dts_90k: dts,
        pts_90k: pts,
        duration: 1024,
        is_key: false,
        is_length_prefixed: true,
    }
}

fn sample(data: &[u8], dts: u64, pts: u64, duration: u32, is_key: bool) -> Mp4Sample {
    Mp4Sample { data: data.to_vec(), dts, pts, duration, is_key, offset: 0 }
}

fn nothing(count: usize) -> Vec<Result<Vec<u8>, Error>> {
    (0..count).map(|_| Ok(vec![])).collect()
}

fn both() -> TrackLayout {
    TrackLayout { video_index: Some(0), audio_index: Some(1), audio_timescale: 45_000 }
}

fn demuxed() -> DemuxOutput {
    DemuxOutput {
        packets: vec![],
        vps: None,
        sps: Some(vec![7]),
        pps: Some(vec![8]),
        audio_specific_config: Some(vec![0x12, 0x10]),
        sample_rate: Some(44_100),
        channel_count: Some(2),
        saw_video: true,
        saw_audio: true,
    }
}

fn video_track(id: u32) -> FragmentedTrack {
    FragmentedTrack {
        track_id: id,
        kind: FragmentedTrackKind::Video {
            parameters: VideoParameters::Avc { sps: vec![7], pps: vec![8] },
        },
    }
}

fn audio_track(id: u32, sample_rate: u32) -> FragmentedTrack {
    FragmentedTrack {
        track_id: id,
        kind: FragmentedTrackKind::Audio {
            sample_rate,
            channel_count: 2,
            audio_specific_config: vec![0x12, 0x10],
        },
    }
}

fn bitstream(message: &str) -> Error {
    Error::Bitstream(message.to_string())
}

#[test]
fn rescales_90k_to_audio_timescale() {
    assert_eq!(rescale_90k(90_000, 44_100), 44_100);
}

#[test]
fn rescaling_rounds_down_and_saturates() {
    assert_eq!(rescale_90k(1, 44_100), 0);
    assert_eq!(rescale_90k(3, 48_000), 1);
    assert_eq!(rescale_90k(u64::MAX, 48_000), u64::MAX / 90_000);
    assert_eq!(rescale_90k(123, 90_000), 123);
    assert_eq!(rescale_90k(5 * 90_000, 48_000), 5 * 48_000);
    assert_eq!(rescale_90k(77, 0), 0);
}

#[test]
fn only_annex_b_video_needs_conversion() {
    let mut one = packet(StreamKind::Avc, &[1], 0, 0);
    assert!(!needs_conversion(&one));
    one.is_length_prefixed = false;
    assert!(needs_conversion(&one));
    one.kind = StreamKind::Hevc;
    assert!(needs_conversion(&one));
    one.kind = StreamKind::Aac;
    assert!(!needs_conversion(&one));
}

#[test]
fn groups_packets_by_track() {
    let mut key = packet(StreamKind::Hevc, &[1], 1_000, 4_000);
    key.is_key = true;
    let packets = vec![
        key,
        packet(StreamKind::Aac, &[2], 1_200, 1_200),
        packet(StreamKind::Avc, &[3], 4_000, 4_000),
        packet(StreamKind::Aac, &[4], 3_000, 500),
    ];
    let grouped = group_samples_per_track(&packets, &nothing(4), &both(), 1_000).unwrap();
    assert_eq!(
        grouped,
        vec![
            vec![sample(&[1], 0, 3_000, 0, true), sample(&[3], 3_000, 3_000, 0, false)],
            vec![
                sample(&[2], 100, 100, AAC_FRAME_TICKS, true),
                sample(&[4], 1_000, 0, AAC_FRAME_TICKS, true)
            ],
        ]
    );
}

#[test]
fn tracks_without_packets_stay_empty() {
    let grouped = group_samples_per_track(&vec![], &vec![], &both(), 0).unwrap();
    assert_eq!(grouped, vec![Vec::<Mp4Sample>::new(), Vec::new()]);
    assert_eq!(
        group_samples_per_track(&vec![], &vec![], &TrackLayout::default(), 0).unwrap().len(),
        0
    );
}

#[test]
fn audio_without_a_timescale_counts_in_90k() {
    let layout = TrackLayout { video_index: None, audio_index: Some(0), audio_timescale: 0 };
    let packets = vec![packet(StreamKind::Aac, &[9], 12_345, 12_345)];
    let grouped = group_samples_per_track(&packets, &nothing(1), &layout, 45).unwrap();
    assert_eq!(grouped, vec![vec![sample(&[9], 12_300, 12_300, AAC_FRAME_TICKS, true)]]);
}

#[test]
fn converted_data_replaces_annex_b_data() {
    let mut raw = packet(StreamKind::Avc, &[0, 0, 1, 5], 7, 7);
    raw.is_length_prefixed = false;
    let packets = vec![raw, packet(StreamKind::Avc, &[6], 8, 8)];
    let converted = vec![Ok(vec![0, 0, 0, 1, 5]), Err(bitstream("not looked at"))];
    let grouped = group_samples_per_track(&packets, &converted, &both(), 7).unwrap();
    assert_eq!(grouped[0][0].data, [0, 0, 0, 1, 5]);
    assert_eq!(grouped[0][1].data, [6]);
}

#[test]
fn the_first_failed_conversion_is_returned() {
    let mut raw = packet(StreamKind::Avc, &[1], 7, 7);
    raw.is_length_prefixed = false;
    let packets = vec![packet(StreamKind::Aac, &[1], 7, 7), raw.clone(), raw];
    let converted = vec![Err(bitstream("a")), Err(bitstream("b")), Err(bitstream("c"))];
    assert_eq!(
        group_samples_per_track(&packets, &converted, &both(), 7).unwrap_err(),
        bitstream("b")
    );
}

#[test]
fn grouping_by_segment_is_grouping_as_a_whole() {
    let first = vec![packet(StreamKind::Avc, &[1], 10, 10), packet(StreamKind::Aac, &[2], 10, 10)];
    let second = vec![packet(StreamKind::Aac, &[3], 20, 20), packet(StreamKind::Avc, &[4], 30, 30)];
    let mut whole = first.clone();
    whole.extend(second.clone());
    let together = group_samples_per_track(&whole, &nothing(4), &both(), 10).unwrap();
    let mut apart = group_samples_per_track(&first, &nothing(2), &both(), 10).unwrap();
    for (track, more) in
        group_samples_per_track(&second, &nothing(2), &both(), 10).unwrap().into_iter().enumerate()
    {
        apart[track].extend(more);
    }
    assert_eq!(apart, together);
}

#[test]
fn layouts_point_at_the_tracks() {
    let layout = TrackLayout::from_tracks(&vec![video_track(1), audio_track(2, 48_000)]);
    assert_eq!(
        layout,
        TrackLayout { video_index: Some(0), audio_index: Some(1), audio_timescale: 48_000 }
    );
    assert_eq!(layout.track_count(), 2);
    let lone = TrackLayout::from_tracks(&vec![audio_track(1, 32_000)]);
    assert_eq!(
        lone,
        TrackLayout { video_index: None, audio_index: Some(0), audio_timescale: 32_000 }
    );
    assert_eq!(lone.track_count(), 1);
    assert_eq!(TrackLayout::from_tracks(&vec![]), TrackLayout::default());
    assert_eq!(TrackLayout::default().track_count(), 0);
}

#[test]
fn the_last_track_of_a_kind_counts() {
    let layout = TrackLayout::from_tracks(&vec![
        audio_track(1, 32_000),
        video_track(2),
        audio_track(3, 48_000),
        video_track(4),
    ]);
    assert_eq!(
        layout,
        TrackLayout { video_index: Some(3), audio_index: Some(2), audio_timescale: 48_000 }
    );
}

#[test]
fn first_segment_determines_the_tracks() {
    let first = demuxed();
    assert_eq!(
        build_fragmented_tracks(&first, Ok(())).unwrap(),
        vec![video_track(1), audio_track(2, 44_100)]
    );

    let mut video_only = demuxed();
    video_only.saw_audio = false;
    assert_eq!(build_fragmented_tracks(&video_only, Ok(())).unwrap(), vec![video_track(1)]);

    let mut audio_only = demuxed();
    audio_only.saw_video = false;
    assert_eq!(
        build_fragmented_tracks(&audio_only, Err(bitstream("not looked at"))).unwrap(),
        vec![audio_track(1, 44_100)]
    );
}

#[test]
fn a_vps_makes_the_stream_hevc() {
    let mut first = demuxed();
    first.vps = Some(vec![6]);
    assert_eq!(
        video_parameters(&first).unwrap(),
        Some(VideoParameters::Hevc { vps: vec![6], sps: vec![7], pps: vec![8] })
    );
    first.vps = None;
    assert_eq!(
        video_parameters(&first).unwrap(),
        Some(VideoParameters::Avc { sps: vec![7], pps: vec![8] })
    );
    first.saw_video = false;
    assert_eq!(video_parameters(&first).unwrap(), None);
}

#[test]
fn missing_video_parameters_are_reported() {
    let mut first = demuxed();
    first.pps = None;
    assert_eq!(
        build_fragmented_tracks(&first, Ok(())).unwrap_err(),
        bitstream("H.264 PPS was not found in first segment")
    );
    first.sps = None;
    assert_eq!(
        build_fragmented_tracks(&first, Ok(())).unwrap_err(),
        bitstream("H.264 SPS was not found in first segment")
    );
    first.vps = Some(vec![6]);
    assert_eq!(
        build_fragmented_tracks(&first, Ok(())).unwrap_err(),
        bitstream("HEVC SPS was not found in first segment")
    );
    first.sps = Some(vec![7]);
    assert_eq!(
        build_fragmented_tracks(&first, Ok(())).unwrap_err(),
        bitstream("HEVC PPS was not found in first segment")
    );
}

#[test]
fn refused_parameters_come_before_missing_audio() {
    let mut first = demuxed();
    first.sample_rate = None;
    assert_eq!(
        build_fragmented_tracks(&first, Err(bitstream("bad SPS"))).unwrap_err(),
        bitstream("bad SPS")
    );
    assert_eq!(
        build_fragmented_tracks(&first, Ok(())).unwrap_err(),
        bitstream("AAC sample rate was not found in first segment")
    );
}

#[test]
fn missing_audio_parameters_are_reported() {
    let mut first = demuxed();
    first.audio_specific_config = None;
    assert_eq!(
        build_fragmented_tracks(&first, Ok(())).unwrap_err(),
        bitstream("AAC AudioSpecificConfig was not found in first segment")
    );
    first.channel_count = None;
    assert_eq!(
        build_fragmented_tracks(&first, Ok(())).unwrap_err(),
        bitstream("AAC channel count was not found in first segment")
    );
}

#[test]
fn a_first_segment_without_streams_is_invalid() {
    let mut first = demuxed();
    first.saw_video = false;
    first.saw_audio = false;
    assert_eq!(
        build_fragmented_tracks(&first, Ok(())).unwrap_err(),
        Error::InvalidInput("first segment produced no tracks".to_string())
    );
}
