use hls_transmux::playlist::{
    HlsPlaylist, HlsSegment, InitSegment, MasterPlaylist, MediaPlaylist, Variant,
};
use hls_transmux::prefetch::{
    direct_read, effective_concurrency, prefetch_targets, FetchStep, Prefetch, ReadStart, ReadStep,
    SlotKey,
};
use hls_transmux::segment::{segment_request, InitCache, InitStep, ReadRequest};
use hls_transmux::text::append_decimal;
use hls_transmux::{ByteRange, Error, SourceLocation};

fn segment(uri: &str, init: Option<&str>) -> HlsSegment {
    HlsSegment {
        uri: uri.to_string(),
        byte_range: None,
        init_segment: init.map(|uri| InitSegment {
            uri: uri.to_string(),
            byte_range: Some(ByteRange { offset: 0, length: 10 }),
        }),
    }
}

fn url(text: &str) -> SourceLocation {
    SourceLocation::Url(text.to_string())
}

fn key(text: &str) -> SlotKey {
    SlotKey { url: text.to_string(), range: None }
}

fn fetch(slot: u64, text: &str) -> FetchStep {
    FetchStep::Fetch { slot, url: text.to_string(), range: None }
}

fn media(uris: &[&str]) -> Result<HlsPlaylist, Error> {
    Ok(HlsPlaylist::Media(MediaPlaylist {
        segments: uris.iter().map(|uri| segment(uri, None)).collect(),
    }))
}

#[test]
fn numbers_are_written_in_decimal() {
    let mut text = "n=".to_string();
    append_decimal(&mut text, 0);
    append_decimal(&mut text, 10_203);
    append_decimal(&mut text, u64::MAX);
    assert_eq!(text, format!("n=010203{}", u64::MAX));
}

#[test]
fn segments_are_read_relative_to_their_playlist() {
    let mut part = segment("a/0.ts", None);
    part.byte_range = Some(ByteRange { offset: 3, length: 4 });
    assert_eq!(
        segment_request(&url("https://h.test/x/list.m3u8"), &part).unwrap(),
        ReadRequest {
            location: url("https://h.test/x/a/0.ts"),
            range: Some(ByteRange { offset: 3, length: 4 }),
        }
    );
    assert!(segment_request(&url("https://h.test/x"), &segment("http://", None)).is_err());
}

#[test]
fn init_segments_are_read_once() {
    let here = url("https://h.test/x/list.m3u8");
    let mut cache = InitCache::new();
    assert_eq!(cache.init_step(&here, &segment("0.ts", None)).unwrap(), InitStep::MpegTs);
    assert_eq!(
        cache.init_step(&here, &segment("0.m4s", Some("init.mp4"))).unwrap(),
        InitStep::Read(ReadRequest {
            location: url("https://h.test/x/init.mp4"),
            range: Some(ByteRange { offset: 0, length: 10 }),
        })
    );
    let head = Some(ByteRange { offset: 0, length: 10 });
    cache.store("init.mp4", head, &vec![1, 2]);
    assert_eq!(
        cache.init_step(&here, &segment("1.m4s", Some("init.mp4"))).unwrap(),
        InitStep::Cached(vec![1, 2])
    );
    assert!(matches!(
        cache.init_step(&here, &segment("2.m4s", Some("other.mp4"))).unwrap(),
        InitStep::Read(_)
    ));
    cache.store("other.mp4", head, &vec![3]);
    assert!(matches!(
        cache.init_step(&here, &segment("3.m4s", Some("init.mp4"))).unwrap(),
        InitStep::Read(_)
    ));
    assert!(cache.init_step(&here, &segment("4.m4s", Some("https://"))).is_err());
}

#[test]
fn another_range_is_another_init_segment() {
    let here = url("https://h.test/x/list.m3u8");
    let of_range = |range: Option<ByteRange>| HlsSegment {
        uri: "0.m4s".to_string(),
        byte_range: None,
        init_segment: Some(InitSegment { uri: "init.mp4".to_string(), byte_range: range }),
    };
    let first = Some(ByteRange { offset: 0, length: 700 });
    let second = Some(ByteRange { offset: 700, length: 650 });
    let mut cache = InitCache::new();
    cache.store("init.mp4", first, &vec![1]);
    assert_eq!(cache.init_step(&here, &of_range(first)).unwrap(), InitStep::Cached(vec![1]));
    for other in [second, None, Some(ByteRange { offset: 0, length: 701 })] {
        assert_eq!(
            cache.init_step(&here, &of_range(other)).unwrap(),
            InitStep::Read(ReadRequest {
                location: url("https://h.test/x/init.mp4"),
                range: other,
            })
        );
    }
    cache.store("init.mp4", second, &vec![2]);
    assert_eq!(cache.init_step(&here, &of_range(second)).unwrap(), InitStep::Cached(vec![2]));
    assert!(matches!(cache.init_step(&here, &of_range(first)).unwrap(), InitStep::Read(_)));
}

#[test]
fn concurrency_is_at_least_one() {
    assert_eq!(effective_concurrency(0), 1);
    assert_eq!(effective_concurrency(1), 1);
    assert_eq!(effective_concurrency(8), 8);
}

#[test]
fn media_playlists_at_urls_are_prefetched() {
    let here = url("https://h.test/x/list.m3u8");
    assert_eq!(
        prefetch_targets(2, &here, &media(&["0.ts", "https://", "../1.ts"])),
        Some(vec![key("https://h.test/x/0.ts"), key("https://h.test/1.ts")].into())
    );
}

#[test]
fn segments_are_prefetched_under_what_they_are_read_under() {
    let here = url("https://h.test/x/list.m3u8");
    for uri in ["0.ts", "/a/0.ts", "//o.test/0.ts", "http://o.test/0.ts", "https://h.test/0.ts"] {
        let request = segment_request(&here, &segment(uri, None)).unwrap();
        let targets = prefetch_targets(2, &here, &media(&[uri])).unwrap();
        assert_eq!(targets.len(), 1);
        assert_eq!(SourceLocation::Url(targets[0].url.clone()), request.location);
        assert_eq!(targets[0].range, request.range);
    }
}

#[test]
fn nothing_else_is_prefetched() {
    let here = url("https://h.test/x/list.m3u8");
    assert_eq!(prefetch_targets(1, &here, &media(&["0.ts"])), None);
    let local = SourceLocation::File("/x/list.m3u8".to_string());
    assert_eq!(prefetch_targets(2, &local, &media(&["0.ts"])), None);
    let master = Ok(HlsPlaylist::Master(MasterPlaylist {
        variants: vec![Variant { uri: "a".to_string() }],
    }));
    assert_eq!(prefetch_targets(2, &here, &master), None);
    assert_eq!(prefetch_targets(2, &here, &Err(Error::invalid("no playlist"))), None);
    assert_eq!(prefetch_targets(2, &here, &media(&[])), None);
    assert_eq!(prefetch_targets(2, &here, &media(&["https://"])), None);
}

#[test]
fn fetches_wait_for_tokens() {
    let mut prefetch = Prefetch::new(2, vec![key("a"), key("b"), key("c")].into());
    assert_eq!(prefetch.next_fetch(), fetch(0, "a"));
    assert_eq!(prefetch.next_fetch(), fetch(1, "b"));
    assert_eq!(prefetch.next_fetch(), FetchStep::Wait);
    prefetch.complete(0, Ok(vec![1]));
    assert_eq!(prefetch.next_fetch(), FetchStep::Wait);
    let slot = prefetch.acquire("a", None).unwrap();
    assert_eq!(prefetch.poll(slot), ReadStep::Done(Ok(vec![1])));
    assert_eq!(prefetch.next_fetch(), fetch(2, "c"));
    assert_eq!(prefetch.next_fetch(), FetchStep::Wait);
}

#[test]
fn failed_fetches_give_their_token_back() {
    let mut prefetch = Prefetch::new(1, vec![key("a"), key("b")].into());
    assert_eq!(prefetch.next_fetch(), fetch(0, "a"));
    prefetch.complete(0, Err("status 500".to_string()));
    let slot = prefetch.acquire("a", None).unwrap();
    assert_eq!(prefetch.poll(slot), ReadStep::Done(Err(Error::Http("status 500".to_string()))));
    assert_eq!(prefetch.next_fetch(), fetch(1, "b"));
    prefetch.complete(1, Ok(vec![2]));
    let slot = prefetch.acquire("b", None).unwrap();
    assert_eq!(prefetch.tokens, 0);
    assert_eq!(prefetch.poll(slot), ReadStep::Done(Ok(vec![2])));
    assert_eq!(prefetch.tokens, 1);
    assert_eq!(prefetch.next_fetch(), FetchStep::Finished);
    assert_eq!(prefetch.tokens, 1);
}

#[test]
fn readers_wait_for_fetches_in_flight() {
    let mut prefetch = Prefetch::new(1, vec![key("a")].into());
    assert_eq!(prefetch.acquire("a", None), None);
    prefetch.next_fetch();
    assert_eq!(prefetch.acquire("a", Some(ByteRange { offset: 0, length: 1 })), None);
    let slot = prefetch.acquire("a", None).unwrap();
    assert_eq!(prefetch.poll(slot), ReadStep::Wait);
    prefetch.complete(slot, Ok(vec![7]));
    assert_eq!(prefetch.poll(slot), ReadStep::Done(Ok(vec![7])));
    assert_eq!(prefetch.poll(slot), ReadStep::Gone);
    assert_eq!(prefetch.acquire("a", None), None);
}

#[test]
fn two_readers_of_a_slot_give_one_token_back() {
    let mut prefetch = Prefetch::new(2, vec![key("a"), key("b")].into());
    prefetch.next_fetch();
    prefetch.next_fetch();
    let first = prefetch.acquire("a", None).unwrap();
    let second = prefetch.acquire("a", None).unwrap();
    assert_eq!(first, second);
    prefetch.complete(0, Ok(vec![1]));
    assert_eq!(prefetch.poll(first), ReadStep::Done(Ok(vec![1])));
    assert_eq!(prefetch.tokens, 1);
    assert_eq!(prefetch.poll(second), ReadStep::Done(Ok(vec![1])));
    assert_eq!(prefetch.tokens, 1);
    assert_eq!(prefetch.slots.len(), 1);
}

#[test]
fn a_target_that_comes_twice_is_listed_once() {
    let mut prefetch = Prefetch::new(2, vec![key("a"), key("a")].into());
    prefetch.next_fetch();
    let early = prefetch.acquire("a", None).unwrap();
    prefetch.next_fetch();
    assert_eq!(prefetch.acquire("a", None), Some(1));
    prefetch.complete(0, Ok(vec![1]));
    assert_eq!(prefetch.poll(early), ReadStep::Done(Ok(vec![1])));
    prefetch.complete(1, Ok(vec![2]));
    assert_eq!(prefetch.acquire("a", None), None);
    assert_eq!(prefetch.poll(1), ReadStep::Done(Ok(vec![2])));
    assert_eq!(prefetch.slots.len(), 0);
}

#[test]
fn readers_that_give_up_leave_the_slot() {
    let mut prefetch = Prefetch::new(1, vec![key("a")].into());
    prefetch.next_fetch();
    let first = prefetch.acquire("a", None).unwrap();
    let second = prefetch.acquire("a", None).unwrap();
    prefetch.give_up(first);
    assert_eq!(prefetch.slots[0].waiters, 1);
    prefetch.complete(0, Ok(vec![4]));
    assert_eq!(prefetch.poll(second), ReadStep::Done(Ok(vec![4])));
    assert!(prefetch.slots.is_empty());
    assert_eq!(prefetch.tokens, 1);

    let mut prefetch = Prefetch::new(1, vec![key("a")].into());
    prefetch.next_fetch();
    let slot = prefetch.acquire("a", None).unwrap();
    prefetch.complete(0, Ok(vec![4]));
    prefetch.give_up(slot);
    assert_eq!(prefetch.tokens, 0);
    let slot = prefetch.acquire("a", None).unwrap();
    assert_eq!(prefetch.poll(slot), ReadStep::Done(Ok(vec![4])));
    assert!(prefetch.slots.is_empty());
    prefetch.give_up(slot);
    assert_eq!(prefetch.tokens, 1);
}

#[test]
fn a_slot_that_was_read_goes_with_its_last_reader() {
    let mut prefetch = Prefetch::new(1, vec![key("a")].into());
    prefetch.next_fetch();
    let slot = prefetch.acquire("a", None).unwrap();
    prefetch.acquire("a", None).unwrap();
    prefetch.complete(0, Ok(vec![4]));
    assert_eq!(prefetch.poll(slot), ReadStep::Done(Ok(vec![4])));
    assert_eq!(prefetch.slots.len(), 1);
    prefetch.give_up(slot);
    assert!(prefetch.slots.is_empty());
}

#[test]
fn reads_begin_with_a_slot_or_directly() {
    let range = Some(ByteRange { offset: 1, length: 2 });
    let file = SourceLocation::File("/x/0.ts".to_string());
    let mut prefetch = Prefetch::new(1, vec![key("https://h.test/0.ts")].into());
    prefetch.next_fetch();
    assert_eq!(
        prefetch.begin_read(&file, range),
        ReadStart::File { path: "/x/0.ts".to_string(), range }
    );
    assert_eq!(direct_read(&file, range), prefetch.begin_read(&file, range));
    let here = url("https://h.test/0.ts");
    assert_eq!(prefetch.begin_read(&here, None), ReadStart::Slot(0));
    assert_eq!(
        prefetch.begin_read(&here, range),
        ReadStart::Fetch { url: "https://h.test/0.ts".to_string(), range }
    );
    assert_eq!(
        direct_read(&here, None),
        ReadStart::Fetch { url: "https://h.test/0.ts".to_string(), range: None }
    );
}

#[test]
fn prefetched_bytes_are_those_of_a_request() {
    let answer = |text: &str| text.as_bytes().to_vec();
    let mut prefetch = Prefetch::new(2, vec![key("a"), key("b"), key("c")].into());
    let mut got = vec![];
    for wanted in ["a", "b", "c"] {
        while let FetchStep::Fetch { slot, url, .. } = prefetch.next_fetch() {
            prefetch.complete(slot, Ok(answer(&url)));
        }
        let slot = prefetch.acquire(wanted, None).unwrap();
        got.push(prefetch.poll(slot));
    }
    assert_eq!(got, ["a", "b", "c"].map(|text| ReadStep::Done(Ok(answer(text)))));
}
