use hls_transmux::boxes::{split_fmp4_init, walk_init, InitWalk};
use hls_transmux::fidelity::Fidelity;
use hls_transmux::fragment_run::{FragmentRun, FragmentStep};
use hls_transmux::fragments::FragmentSession;
use hls_transmux::samples::set_durations;
use hls_transmux::types::{
    DemuxOutput, EncodedPacket, FragmentedTrack, FragmentedTrackKind, Mp4Sample, StreamKind,
    TfraEntry, VideoParameters,
};
use hls_transmux::{Error, TransmuxReport};

fn boxed(kind: &[u8; 4], contents: &[u8]) -> Vec<u8> {
    let mut out = (contents.len() as u32 + 8).to_be_bytes().to_vec();
    out.extend_from_slice(kind);
    out.extend_from_slice(contents);
    out
}

fn large_boxed(kind: &[u8; 4], contents: &[u8]) -> Vec<u8> {
    let mut out = vec![0, 0, 0, 1];
    out.extend_from_slice(kind);
    out.extend_from_slice(&(contents.len() as u64 + 16).to_be_bytes());
    out.extend_from_slice(contents);
    out
}

fn packet(kind: StreamKind, dts: u64) -> EncodedPacket {
    EncodedPacket {
        kind,
        data: vec![1],
        dts_90k: dts,
        pts_90k: dts,
        duration: 1024,
        is_key: true,
        is_length_prefixed: true,
    }
}

fn demuxed(packets: Vec<EncodedPacket>) -> DemuxOutput {
    DemuxOutput {
        packets,
        vps: None,
        sps: Some(vec![7]),
        pps: Some(vec![8]),
        audio_specific_config: Some(vec![9]),
        sample_rate: Some(45_000),
        channel_count: Some(2),
        saw_video: true,
        saw_audio: true,
    }
}

fn sample(dts: u64) -> Mp4Sample {
    Mp4Sample { data: vec![], dts, pts: dts, duration: 0, is_key: true, offset: 0 }
}

fn entry(time: u64, moof_offset: u64) -> TfraEntry {
    TfraEntry { time, moof_offset, traf_number: 1, trun_number: 1, sample_number: 1 }
}

fn tracks() -> Vec<FragmentedTrack> {
    vec![
        FragmentedTrack {
            track_id: 1,
            kind: FragmentedTrackKind::Video {
                parameters: VideoParameters::Avc { sps: vec![7], pps: vec![8] },
            },
        },
        FragmentedTrack {
            track_id: 2,
            kind: FragmentedTrackKind::Audio {
                sample_rate: 45_000,
                channel_count: 2,
                audio_specific_config: vec![9],
            },
        },
    ]
}

fn fragment(size: usize) -> Vec<u8> {
    let mut bytes = boxed(b"styp", &[0; 12]);
    bytes.resize(size, 0);
    bytes
}

fn bitstream(message: &str) -> Error {
    Error::Bitstream(message.to_string())
}

fn invalid(message: &str) -> Error {
    Error::InvalidInput(message.to_string())
}

#[test]
fn the_init_part_ends_with_the_moov_box() {
    let mut file = boxed(b"ftyp", b"isom");
    file.extend(boxed(b"free", &[0; 5]));
    file.extend(boxed(b"moov", &[1; 10]));
    let end = file.len();
    assert_eq!(split_fmp4_init(&file).unwrap(), end);
    file.extend(boxed(b"moof", &[2; 3]));
    file.extend(boxed(b"mdat", &[3; 30]));
    assert_eq!(split_fmp4_init(&file).unwrap(), end);
}

#[test]
fn large_sizes_are_understood() {
    let mut file = large_boxed(b"ftyp", b"isom");
    file.extend(large_boxed(b"moov", &[1; 10]));
    let end = file.len();
    file.push(0);
    assert_eq!(split_fmp4_init(&file).unwrap(), end);
}

#[test]
fn a_moov_box_of_size_zero_reaches_to_the_end() {
    let mut file = boxed(b"ftyp", b"isom");
    file.extend_from_slice(&[0, 0, 0, 0]);
    file.extend_from_slice(b"moov");
    file.extend_from_slice(&[5; 9]);
    assert_eq!(split_fmp4_init(&file).unwrap(), file.len());
}

#[test]
fn files_without_an_init_part_are_refused() {
    assert_eq!(split_fmp4_init(&[]).unwrap_err(), bitstream("fMP4 missing ftyp or moov"));
    assert_eq!(
        split_fmp4_init(&boxed(b"ftyp", b"isom")).unwrap_err(),
        bitstream("fMP4 missing ftyp or moov")
    );
    assert_eq!(
        split_fmp4_init(&boxed(b"moov", b"")).unwrap_err(),
        bitstream("fMP4 moov before ftyp")
    );
    let mut file = boxed(b"ftyp", b"isom");
    file.extend_from_slice(&large_boxed(b"moov", b"")[..12]);
    assert_eq!(split_fmp4_init(&file).unwrap_err(), bitstream("fMP4 box header truncated"));
}

#[test]
fn walks_that_lead_nowhere_are_noticed() {
    let mut stuck = vec![0, 0, 0, 1];
    stuck.extend_from_slice(b"free");
    stuck.extend_from_slice(&[0; 8]);
    assert_eq!(walk_init(&stuck), InitWalk::Unbounded);
    let mut huge = vec![0, 0, 0, 1];
    huge.extend_from_slice(b"free");
    huge.extend_from_slice(&[0xff; 8]);
    assert_eq!(walk_init(&huge), InitWalk::Unbounded);
    for data in [&stuck, &huge] {
        assert_eq!(split_fmp4_init(data).unwrap_err(), bitstream("fMP4 missing ftyp or moov"));
    }
    assert_eq!(walk_init(&boxed(b"moov", b"")), InitWalk::MoovFirst);
}

#[test]
fn the_first_packet_fixes_the_start() {
    let mut session = FragmentSession::new();
    assert_eq!(session.observe(&vec![]), 0);
    assert_eq!(session.observe(&vec![packet(StreamKind::Aac, 500)]), 500);
    assert_eq!(session.observe(&vec![packet(StreamKind::Aac, 100)]), 500);
}

#[test]
fn fragments_are_indexed_by_track() {
    let mut session = FragmentSession::new();
    session.observe(&vec![packet(StreamKind::Avc, 90_000)]);
    assert!(!session.is_started());
    session.start(tracks(), 100);
    assert!(session.is_started());
    session.add_fragment(
        &vec![vec![sample(0), sample(5)], vec![]],
        &fragment(50),
        &vec![packet(StreamKind::Avc, 90_000), packet(StreamKind::Avc, 180_000)],
    );
    session.add_fragment(
        &vec![vec![sample(9)], vec![sample(7)]],
        &fragment(40),
        &vec![packet(StreamKind::Avc, 135_000)],
    );
    assert_eq!(session.tfra, vec![vec![entry(0, 120), entry(9, 170)], vec![entry(7, 170)]]);
    assert!(session.check_close().is_ok());
    assert_eq!(
        session.report(2, 30),
        TransmuxReport {
            segment_count: 2,
            tracks: vec![],
            duration: 1_000,
            duration_timescale: 1000,
            bytes_written: 220,
        }
    );
}

#[test]
fn empty_sessions_cannot_be_closed() {
    let mut session = FragmentSession::new();
    assert_eq!(session.check_close().unwrap_err(), invalid("no segments were processed"));
    session.start(vec![], 10);
    assert_eq!(session.check_close().unwrap_err(), invalid("no fragments were generated"));
}

#[test]
fn a_run_writes_header_fragments_and_index() {
    let (mut run, step) = FragmentRun::begin(2);
    assert_eq!(step, FragmentStep::ReadSegment(0));
    let first = vec![packet(StreamKind::Avc, 90_000), packet(StreamKind::Aac, 90_000)];
    assert_eq!(
        run.on_demuxed(Ok(demuxed(first))),
        FragmentStep::CheckParameters(VideoParameters::Avc { sps: vec![7], pps: vec![8] })
    );
    assert_eq!(run.on_checked(Ok(())), FragmentStep::WriteHeader);
    assert_eq!(run.tracks, Some(tracks()));
    assert_eq!(run.on_header(Ok(100)), FragmentStep::ConvertPackets);
    assert_eq!(run.on_converted(&vec![Ok(vec![]), Ok(vec![])]), FragmentStep::FindDurations(0));
    assert_eq!(run.samples.len(), 2);
    assert_eq!(run.samples[0][0].dts, 0);
    assert_eq!(run.samples[0][0].duration, 0);
    assert_eq!(run.on_durations(Ok(vec![3_000])), FragmentStep::WriteFragment);
    assert_eq!(run.samples[0][0].duration, 3_000);
    assert_eq!(run.samples[1][0].duration, 1_024);
    assert_eq!(run.on_fragment(Ok(fragment(50))), FragmentStep::ReadSegment(1));

    let second = vec![packet(StreamKind::Aac, 180_000)];
    assert_eq!(run.on_demuxed(Ok(demuxed(second))), FragmentStep::ConvertPackets);
    assert_eq!(run.on_converted(&vec![Ok(vec![])]), FragmentStep::WriteFragment);
    assert_eq!(run.on_fragment(Ok(fragment(60))), FragmentStep::WriteIndex);
    assert_eq!(run.session.tfra, vec![vec![entry(0, 120)], vec![entry(0, 120), entry(45_000, 170)]]);
    assert_eq!(
        run.on_index(Ok(8)),
        FragmentStep::Finished(Ok(TransmuxReport {
            segment_count: 2,
            tracks: vec![],
            duration: 1_000,
            duration_timescale: 1000,
            bytes_written: 218,
        }))
    );
}

#[test]
fn a_run_without_video_needs_no_check() {
    let (mut run, _) = FragmentRun::begin(1);
    let mut audio = demuxed(vec![packet(StreamKind::Aac, 1)]);
    audio.saw_video = false;
    assert_eq!(run.on_demuxed(Ok(audio)), FragmentStep::WriteHeader);
    assert_eq!(run.tracks.as_ref().unwrap().len(), 1);
}

#[test]
fn a_run_ends_with_the_first_failure() {
    let (_, step) = FragmentRun::begin(0);
    assert_eq!(step, FragmentStep::Finished(Err(invalid("no segments were processed"))));

    let (mut run, _) = FragmentRun::begin(1);
    assert_eq!(
        run.on_demuxed(Err(bitstream("bad sync"))),
        FragmentStep::Finished(Err(bitstream("bad sync")))
    );

    let (mut run, _) = FragmentRun::begin(1);
    let mut broken = demuxed(vec![]);
    broken.sps = None;
    assert_eq!(
        run.on_demuxed(Ok(broken)),
        FragmentStep::Finished(Err(bitstream("H.264 SPS was not found in first segment")))
    );

    let (mut run, _) = FragmentRun::begin(1);
    run.on_demuxed(Ok(demuxed(vec![])));
    assert_eq!(
        run.on_checked(Err(bitstream("bad SPS"))),
        FragmentStep::Finished(Err(bitstream("bad SPS")))
    );

    let (mut run, _) = FragmentRun::begin(1);
    let mut raw = packet(StreamKind::Avc, 0);
    raw.is_length_prefixed = false;
    run.on_demuxed(Ok(demuxed(vec![raw])));
    run.on_checked(Ok(()));
    run.on_header(Ok(1));
    assert_eq!(
        run.on_converted(&vec![Err(bitstream("no start code"))]),
        FragmentStep::Finished(Err(bitstream("no start code")))
    );

    let too_long = Error::Muxing("sample duration".to_string());
    let (mut run, _) = FragmentRun::begin(1);
    run.on_demuxed(Ok(demuxed(vec![packet(StreamKind::Avc, 0)])));
    run.on_checked(Ok(()));
    run.on_header(Ok(1));
    run.on_converted(&vec![Ok(vec![])]);
    assert_eq!(
        run.on_durations(Err(too_long.clone())),
        FragmentStep::Finished(Err(too_long))
    );
}

#[test]
fn durations_change_nothing_else() {
    let mut samples = vec![sample(4), sample(9)];
    set_durations(&mut samples, &vec![5, 7]);
    assert_eq!(
        samples,
        vec![
            Mp4Sample { duration: 5, ..sample(4) },
            Mp4Sample { duration: 7, ..sample(9) },
        ]
    );
}

fn differs(segments: Vec<DemuxOutput>) -> bool {
    let mut known = Fidelity::new();
    for segment in &segments {
        known.watch(segment);
    }
    known.differs()
}

fn pair(dts: u64) -> DemuxOutput {
    demuxed(vec![packet(StreamKind::Avc, dts), packet(StreamKind::Aac, dts)])
}

#[test]
fn fragments_of_ordinary_segments_hold_the_standard_samples() {
    assert!(!differs(vec![pair(90)]));
    assert!(!differs(vec![pair(90), pair(180)]));
    assert!(!differs(vec![demuxed(vec![]), pair(90)]));
    let mut bare = pair(180);
    bare.sps = None;
    bare.sample_rate = None;
    assert!(!differs(vec![pair(90), bare]));
}

#[test]
fn fragments_that_cannot_hold_the_standard_samples_are_noticed() {
    assert!(differs(vec![pair(90), pair(89)]));
    let mut short = pair(180);
    short.packets[1].duration = 960;
    assert!(differs(vec![pair(90), short]));
    let mut silent = pair(90);
    silent.sample_rate = Some(0);
    assert!(differs(vec![silent]));
    let mut hevc = pair(180);
    hevc.vps = Some(vec![6]);
    assert!(differs(vec![pair(90), hevc]));
    let mut late_audio = pair(90);
    late_audio.saw_audio = false;
    assert!(differs(vec![late_audio, pair(180)]));
}

#[test]
fn what_no_standard_mp4_can_hold_does_not_differ() {
    assert!(!differs(vec![]));
    assert!(!differs(vec![demuxed(vec![])]));
    let mut changed = pair(89);
    changed.sps = Some(vec![0]);
    assert!(!differs(vec![pair(90), changed]));
    let mut early = pair(90);
    early.packets[0].pts_90k = 10;
    early.packets[1].duration = 960;
    assert!(!differs(vec![early]));
    let mut mute = pair(90);
    mute.sample_rate = None;
    mute.saw_audio = false;
    assert!(!differs(vec![mute]));
    let mut long = pair(90);
    long.packets[1].duration = u64::from(u32::MAX) + 1;
    assert!(!differs(vec![long]));
}

#[test]
fn a_run_tells_whether_its_fragments_differ() {
    for (second, expected) in [(180, false), (10, true)] {
        let (mut run, _) = FragmentRun::begin(2);
        run.on_demuxed(Ok(pair(90)));
        run.on_checked(Ok(()));
        run.on_header(Ok(1));
        run.on_converted(&vec![Ok(vec![]), Ok(vec![])]);
        run.on_durations(Ok(vec![1]));
        run.on_fragment(Ok(fragment(50)));
        run.on_demuxed(Ok(pair(second)));
        assert_eq!(run.differs_from_standard(), expected);
    }
}
