use hls_transmux::location::directory;
use hls_transmux::{Error, HlsInput, SourceLocation};

fn file(path: &str) -> SourceLocation {
    SourceLocation::File(path.to_string())
}

fn url(text: &str) -> SourceLocation {
    SourceLocation::Url(text.to_string())
}

#[test]
fn resolves_file_relative_paths() {
    let base = file("/tmp/hls/master.m3u8");
    assert_eq!(
        base.resolve("media/playlist.m3u8").unwrap(),
        file("/tmp/hls/media/playlist.m3u8")
    );
}

#[test]
fn resolves_url_relative_paths() {
    let base = url(url::Url::parse("https://example.test/hls/master.m3u8").unwrap().as_str());
    assert_eq!(
        base.resolve("../media/playlist.m3u8").unwrap(),
        url(url::Url::parse("https://example.test/media/playlist.m3u8").unwrap().as_str())
    );
}

#[test]
fn absolute_urls_stand_for_themselves() {
    let found = url("https://cdn.test/a/b.ts?x=1");
    assert_eq!(file("/tmp/a.m3u8").resolve("https://cdn.test/a/b.ts?x=1").unwrap(), found);
    assert_eq!(
        url("http://example.test/x/y.m3u8").resolve("https://cdn.test/a/b.ts?x=1").unwrap(),
        found
    );
    assert_eq!(
        file("/tmp/a.m3u8").resolve("http://CDN.test").unwrap(),
        url("http://cdn.test/")
    );
}

#[test]
fn relative_paths_without_a_directory() {
    assert_eq!(file("master.m3u8").resolve("seg.ts").unwrap(), file("seg.ts"));
    assert_eq!(file("/").resolve("seg.ts").unwrap(), file("seg.ts"));
    assert_eq!(file("/a/b.m3u8").resolve("/c/seg.ts").unwrap(), file("/c/seg.ts"));
}

#[test]
fn the_parent_directory_is_the_base() {
    assert_eq!(directory(Some("/tmp".to_string())), "/tmp");
    assert_eq!(directory(None), "");
}

#[test]
fn bad_urls_are_invalid_input() {
    assert_eq!(
        file("/tmp/a.m3u8").resolve("http://").unwrap_err(),
        Error::InvalidInput("empty host".to_string())
    );
    assert_eq!(
        url("data:text/plain,x").resolve("seg.ts").unwrap_err(),
        Error::InvalidInput("relative URL with a cannot-be-a-base base".to_string())
    );
    assert_eq!(
        SourceLocation::from_url(Err("no".to_string())).unwrap_err(),
        Error::InvalidInput("no".to_string())
    );
    assert_eq!(SourceLocation::from_url(Ok("x:y".to_string())).unwrap(), url("x:y"));
}

#[test]
fn inputs_split_into_start_and_source() {
    let path: HlsInput<u8> = HlsInput::Path("a/b.m3u8".to_string());
    assert_eq!(path.into_parts().unwrap(), (file("a/b.m3u8"), None));

    let address: HlsInput<u8> = HlsInput::Url("HTTPS://example.test".to_string());
    assert_eq!(address.into_parts().unwrap(), (url("https://example.test/"), None));

    let broken: HlsInput<u8> = HlsInput::Url("playlist.m3u8".to_string());
    assert_eq!(
        broken.into_parts().unwrap_err(),
        Error::InvalidInput("relative URL without a base".to_string())
    );

    let own = HlsInput::custom(7u8, file("x"));
    assert_eq!(own.into_parts().unwrap(), (file("x"), Some(7u8)));
}
