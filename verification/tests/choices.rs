use std::path::Path;

use hls_transmux::options::{accept_variant, select_media, MediaSelection};
use hls_transmux::pipeline::{temp_file_name, temp_fmp4_path, OutputEvent, OutputPipeline, OutputStep};
use hls_transmux::playlist::{HlsPlaylist, HlsSegment, MasterPlaylist, MediaPlaylist, Variant};
use hls_transmux::{
    Error, FinalizeBackend, OutputFormat, SourceLocation, TransmuxOptions, TransmuxReport,
    VariantSelection,
};

fn media() -> HlsPlaylist {
    HlsPlaylist::Media(MediaPlaylist {
        segments: vec![HlsSegment {
            uri: "0.ts".to_string(),
            byte_range: None,
            init_segment: None,
        }],
    })
}

fn master(uris: &[&str]) -> HlsPlaylist {
    HlsPlaylist::Master(MasterPlaylist {
        variants: uris.iter().map(|uri| Variant { uri: uri.to_string() }).collect(),
    })
}

fn here() -> SourceLocation {
    SourceLocation::File("/v/master.m3u8".to_string())
}

fn choose_index(index: usize) -> TransmuxOptions {
    TransmuxOptions { variant: Some(VariantSelection::Index(index)), ..Default::default() }
}

fn report(bytes_written: u64) -> TransmuxReport {
    TransmuxReport {
        segment_count: 3,
        tracks: vec![],
        duration: 9,
        duration_timescale: 1000,
        bytes_written,
    }
}

fn run(format: OutputFormat, backend: FinalizeBackend) -> OutputPipeline {
    let options =
        TransmuxOptions { variant: None, output_format: format, finalize_backend: backend };
    OutputPipeline::new(&options, "out/video.mp4".to_string(), 3)
}

#[test]
fn defaults_write_a_standard_mp4() {
    let options = TransmuxOptions::default();
    assert_eq!(options.variant, None);
    assert_eq!(options.output_format, OutputFormat::Mp4);
    assert_eq!(options.finalize_backend, FinalizeBackend::Native);
    assert_eq!(OutputFormat::default(), OutputFormat::Mp4);
    assert_eq!(FinalizeBackend::default(), FinalizeBackend::Native);
}

#[test]
fn media_playlists_ignore_the_variant() {
    for options in [TransmuxOptions::default(), choose_index(9)] {
        match select_media(media(), here(), &options).unwrap() {
            MediaSelection::Media(playlist, location) => {
                assert_eq!(playlist.segments.len(), 1);
                assert_eq!(location, here());
            }
            MediaSelection::Variant(_) => panic!("a media playlist has no variants"),
        }
    }
}

#[test]
fn master_without_a_variant_is_invalid_input() {
    let error =
        select_media(master(&["media.m3u8"]), here(), &TransmuxOptions::default()).unwrap_err();
    assert!(matches!(error, Error::InvalidInput(_)));
    assert_eq!(error.message(), "master playlist input requires TransmuxOptions.variant");
}

#[test]
fn the_chosen_variant_is_resolved() {
    assert_eq!(
        select_media(master(&["lo.m3u8", "hi/a.m3u8"]), here(), &choose_index(1)).unwrap(),
        MediaSelection::Variant(SourceLocation::File("/v/hi/a.m3u8".to_string()))
    );
}

#[test]
fn variant_indices_are_checked() {
    assert_eq!(
        select_media(master(&["lo.m3u8", "hi.m3u8"]), here(), &choose_index(12)).unwrap_err(),
        Error::InvalidInput("variant index 12 is out of range for 2 variants".to_string())
    );
    assert_eq!(
        select_media(master(&[]), here(), &choose_index(0)).unwrap_err(),
        Error::InvalidInput("variant index 0 is out of range for 0 variants".to_string())
    );
}

#[test]
fn variants_with_bad_urls_are_invalid_input() {
    assert_eq!(
        select_media(master(&["http://"]), here(), &choose_index(0)).unwrap_err(),
        Error::InvalidInput("empty host".to_string())
    );
}

#[test]
fn nested_master_playlists_are_unsupported() {
    assert_eq!(accept_variant(media(), here()).unwrap().1, here());
    assert_eq!(
        accept_variant(master(&[]), here()).unwrap_err(),
        Error::Unsupported("nested master playlists are out of the Phase 2 slice".to_string())
    );
}

#[test]
fn temporary_files_stand_beside_the_output() {
    assert_eq!(temp_fmp4_path("out/video.mp4"), "out/video.partial.mp4");
    assert_eq!(temp_fmp4_path("video.mp4"), "video.partial.mp4");
    assert_eq!(temp_fmp4_path("/a/b.c/video"), "/a/b.c/video.partial");
    assert_eq!(temp_fmp4_path("/a/x.y.mp4"), "/a/x.y.partial.mp4");
}

#[test]
fn temporary_names_follow_stem_and_extension() {
    let some = |text: &str| Some(text.to_string());
    assert_eq!(temp_file_name(some("a.mp4")), "a.partial.mp4");
    assert_eq!(temp_file_name(some("a.")), "a.partial");
    assert_eq!(temp_file_name(some("a")), "a.partial");
    assert_eq!(temp_file_name(some(".a")), ".a.partial");
    assert_eq!(temp_file_name(some("..a")), "..partial.a");
    assert_eq!(temp_file_name(some("d\u{e9}.\u{e9}")), "d\u{e9}.partial.\u{e9}");
    assert_eq!(temp_file_name(None), ".partial");
}

#[test]
fn temporary_paths_agree_with_std() {
    for output in
        ["a.mp4", "/a/b.c/d", "a/.b", "a/b.", "a/..b", "a/...", "", "/", "..", "a/..", "a.b/", "a/.", "a:b.c", "d/e\\f.g"]
    {
        let path = Path::new(output);
        let mut name = path.file_stem().unwrap_or_default().to_os_string();
        name.push(".partial");
        let extension = path.extension().unwrap_or_default();
        if !extension.is_empty() {
            name.push(".");
            name.push(extension);
        }
        let mut expected = path.to_path_buf();
        expected.set_file_name(&name);
        let temp = temp_fmp4_path(output);
        assert_eq!(Path::new(&temp), expected, "{output}");
        assert_eq!(Path::new(&temp).file_name().unwrap(), name, "{output}");
        assert_ne!(temp, output);
        if path.file_name().is_some() {
            assert_eq!(Path::new(&temp).parent(), path.parent(), "{output}");
        }
    }
}

#[test]
fn direct_formats_take_one_step() {
    let mut batch = run(OutputFormat::Mp4, FinalizeBackend::Ffmpeg);
    assert_eq!(batch.first_step(), OutputStep::WriteMp4 { path: "out/video.mp4".to_string() });
    assert_eq!(
        batch.next_step(OutputEvent::Wrote(Ok(report(5)))),
        OutputStep::Finished { result: Ok(report(5)) }
    );

    let mut fragmented = run(OutputFormat::FragmentedMp4, FinalizeBackend::Native);
    assert_eq!(
        fragmented.first_step(),
        OutputStep::WriteFragments { path: "out/video.mp4".to_string() }
    );
    assert_eq!(
        fragmented.next_step(OutputEvent::Fragmented(Err(Error::Io("full".to_string())), true)),
        OutputStep::Finished { result: Err(Error::Io("full".to_string())) }
    );
}

#[test]
fn streaming_finalizes_and_removes_the_temporary_file() {
    let temp = "out/video.partial.mp4".to_string();
    let output = "out/video.mp4".to_string();
    let finalize = |backend| OutputStep::Finalize {
        backend,
        temp: temp.clone(),
        path: output.clone(),
        segment_count: 3,
    };
    let cases = [
        (FinalizeBackend::Native, false, finalize(FinalizeBackend::Native)),
        (FinalizeBackend::Native, true, OutputStep::WriteMp4 { path: output.clone() }),
        (FinalizeBackend::Ffmpeg, false, finalize(FinalizeBackend::Ffmpeg)),
        (FinalizeBackend::Ffmpeg, true, finalize(FinalizeBackend::Ffmpeg)),
    ];
    for (backend, differs, step) in cases {
        for finalized in [Ok(report(7)), Err(Error::bitstream("bad"))] {
            let mut streaming = run(OutputFormat::StreamingMp4, backend);
            assert_eq!(streaming.first_step(), OutputStep::WriteFragments { path: temp.clone() });
            assert_eq!(
                streaming.next_step(OutputEvent::Fragmented(Ok(report(100)), differs)),
                step
            );
            assert_eq!(
                streaming.next_step(OutputEvent::Wrote(finalized.clone())),
                OutputStep::RemoveTemp { temp: temp.clone() }
            );
            assert_eq!(
                streaming.next_step(OutputEvent::Removed),
                OutputStep::Finished { result: finalized }
            );
        }
    }
}

#[test]
fn streaming_that_fails_removes_the_temporary_file() {
    let temp = "out/video.partial.mp4".to_string();
    let mut streaming = run(OutputFormat::StreamingMp4, FinalizeBackend::Native);
    assert_eq!(
        streaming.next_step(OutputEvent::Fragmented(Err(Error::Http("gone".to_string())), false)),
        OutputStep::RemoveTemp { temp }
    );
    assert_eq!(
        streaming.next_step(OutputEvent::Removed),
        OutputStep::Finished { result: Err(Error::Http("gone".to_string())) }
    );
}
