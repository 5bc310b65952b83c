use hls_transmux::range::{
    accept_body, apply_range, check_bytes_response, check_text_response, range_header, BodyStep,
    ByteRange, ResponseHead,
};
use hls_transmux::Error;

fn range(offset: u64, length: u64) -> ByteRange {
    ByteRange { offset, length }
}

fn head(status: u16, text: &str, has_content_range: bool) -> ResponseHead {
    ResponseHead { status, status_text: text.to_string(), has_content_range }
}

#[test]
fn applies_local_byterange() {
    let bytes = apply_range(
        b"0123456789".to_vec(),
        Some(&ByteRange {
            offset: 3,
            length: 4,
        }),
    )
    .unwrap();
    assert_eq!(bytes, b"3456");
}

#[test]
fn without_a_range_all_bytes_are_kept() {
    assert_eq!(apply_range(b"0123".to_vec(), None).unwrap(), b"0123");
}

#[test]
fn a_range_may_end_with_the_bytes() {
    assert_eq!(apply_range(b"0123".to_vec(), Some(&range(0, 4))).unwrap(), b"0123");
    assert_eq!(apply_range(b"0123".to_vec(), Some(&range(4, 0))).unwrap(), b"");
}

#[test]
fn a_range_past_the_end_is_refused() {
    assert_eq!(
        apply_range(b"0123".to_vec(), Some(&range(2, 3))).unwrap_err(),
        Error::InvalidInput("byterange extends past the end of the segment".to_string())
    );
}

#[test]
fn a_range_that_overflows_is_refused() {
    assert_eq!(
        apply_range(b"0123".to_vec(), Some(&range(u64::MAX, 2))).unwrap_err(),
        Error::InvalidInput("byterange overflows usize".to_string())
    );
}

#[test]
fn range_headers_name_first_and_last_byte() {
    assert_eq!(range_header(&range(0, 1)).unwrap(), "bytes=0-0");
    assert_eq!(range_header(&range(100, 50)).unwrap(), "bytes=100-149");
    assert_eq!(range_header(&range(7, 0)).unwrap(), "bytes=7-6");
    assert_eq!(
        range_header(&range(0, u64::MAX)).unwrap(),
        "bytes=0-18446744073709551614"
    );
}

#[test]
fn range_headers_refuse_overflow() {
    let refused = Error::InvalidInput("HTTP byterange overflows u64".to_string());
    assert_eq!(range_header(&range(u64::MAX, 1)).unwrap_err(), refused);
    assert_eq!(range_header(&range(0, 0)).unwrap_err(), refused);
}

#[test]
fn playlists_need_a_success_status() {
    assert!(check_text_response("http://a/b", &head(200, "200 OK", false)).is_ok());
    assert!(check_text_response("http://a/b", &head(299, "299", false)).is_ok());
    assert_eq!(
        check_text_response("http://a/b", &head(404, "404 Not Found", false)).unwrap_err(),
        Error::Http("GET http://a/b returned status 404 Not Found".to_string())
    );
    assert!(check_text_response("http://a/b", &head(300, "300", false)).is_err());
    assert!(check_text_response("http://a/b", &head(199, "199", false)).is_err());
}

#[test]
fn whole_resources_need_a_success_status() {
    assert_eq!(
        check_bytes_response("http://a/b", None, &head(200, "200 OK", false)).unwrap(),
        BodyStep::Read
    );
    assert_eq!(
        check_bytes_response("http://a/b", None, &head(500, "500 Oops", false)).unwrap_err(),
        Error::Http("GET http://a/b returned status 500 Oops".to_string())
    );
}

#[test]
fn range_requests_need_partial_content() {
    let asked = range(1, 2);
    assert_eq!(
        check_bytes_response("http://a/b", Some(&asked), &head(206, "206", true)).unwrap(),
        BodyStep::Read
    );
    assert_eq!(
        check_bytes_response("http://a/b", Some(&asked), &head(200, "200 OK", true)).unwrap_err(),
        Error::Http("Range request for http://a/b returned status 200 OK instead of 206".to_string())
    );
    assert_eq!(
        check_bytes_response("http://a/b", Some(&asked), &head(206, "206", false)).unwrap_err(),
        Error::Http("Range request for http://a/b did not include Content-Range".to_string())
    );
    assert_eq!(
        check_bytes_response("http://a/b", Some(&range(5, 0)), &head(206, "206", true)).unwrap(),
        BodyStep::Empty
    );
}

#[test]
fn short_reads_are_refused() {
    let asked = range(10, 4);
    assert_eq!(accept_body("http://a/b", Some(&asked), vec![1, 2, 3, 4]).unwrap(), [1, 2, 3, 4]);
    assert_eq!(
        accept_body("http://a/b", Some(&asked), vec![1, 2, 3]).unwrap_err(),
        Error::Http("Range request for http://a/b returned 3 bytes instead of 4".to_string())
    );
    assert_eq!(accept_body("http://a/b", None, vec![]).unwrap(), []);
}
