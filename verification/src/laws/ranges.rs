//! What reading a whole resource or a part of it gives.

use super::values::{lemma_decimal_reads_back, number_of};
use crate::error::ErrorView;
use crate::range::{
    accepted_body, bytes_response_error, get_failed, is_success, last_byte, range_header_text,
    range_value, ranged, text_response_error, ByteRange, ResponseHead,
};
use crate::text::decimal;
use vstd::prelude::*;

verus! {

/// A range behind a reference is that range.
pub proof fn lemma_range_value(range: &ByteRange)
    ensures
        range_value(Some(range)) == Some(*range),
        range_value(None) is None,
{
}

/// What is accepted of a response is its body, all of it and nothing else. Without a
/// range it is always accepted, and with one exactly where it is not shorter than the
/// range.
pub proof fn lemma_body_is_kept(url: Seq<char>, range: Option<ByteRange>, body: Seq<u8>)
    ensures
        accepted_body(url, range, body) matches Ok(bytes) ==> bytes == body,
        range is None ==> accepted_body(url, range, body) is Ok,
        range matches Some(r) ==> (accepted_body(url, range, body) is Ok <==> body.len()
            >= r.length),
        accepted_body(url, range, body) matches Err(error) ==> error is Http,
{
}

/// The message on a short read tells how long the body is and how long it should be.
pub proof fn lemma_short_read_message(url: Seq<char>, range: ByteRange, body: Seq<u8>)
    requires
        body.len() < range.length,
    ensures
        exists|got: Seq<char>, wanted: Seq<char>|
            accepted_body(url, Some(range), body) == Err::<Seq<u8>, ErrorView>(
                ErrorView::Http(
                    #[trigger] ("Range request for "@ + url + " returned "@ + got
                        + " bytes instead of "@ + wanted),
                ),
            ) && number_of(got) == body.len() && number_of(wanted) == range.length,
{
    lemma_decimal_reads_back(body.len());
    lemma_decimal_reads_back(range.length as nat);
    let got = decimal(body.len());
    let wanted = decimal(range.length as nat);
    assert(accepted_body(url, Some(range), body) == Err::<Seq<u8>, ErrorView>(
        ErrorView::Http(
            "Range request for "@ + url + " returned "@ + got + " bytes instead of "@ + wanted,
        ),
    ));
}

/// A local file without a range is read whole; with a range it is that part, byte by
/// byte, and there is one exactly where the range lies within the file.
pub proof fn lemma_local_part(bytes: Seq<u8>, range: ByteRange)
    requires
        bytes.len() <= usize::MAX,
    ensures
        ranged(bytes, None) == Ok::<Seq<u8>, ErrorView>(bytes),
        match ranged(bytes, Some(range)) {
            Ok(part) => {
                &&& range.offset + range.length <= bytes.len()
                &&& part.len() == range.length
                &&& forall|k: int|
                    0 <= k < range.length ==> #[trigger] part[k] == bytes[range.offset + k]
            },
            Err(error) => range.offset + range.length > bytes.len() && error is InvalidInput,
        },
{
}

/// What is said of a range that does not lie within a local file: that it reaches past
/// its end, or that its end or one of its numbers is too large for the machine.
pub proof fn lemma_missing_part_message(bytes: Seq<u8>, range: ByteRange)
    requires
        bytes.len() <= usize::MAX,
        range.offset + range.length > bytes.len(),
    ensures
        range.offset + range.length <= usize::MAX ==> ranged(bytes, Some(range)) == Err::<
            Seq<u8>,
            ErrorView,
        >(ErrorView::InvalidInput("byterange extends past the end of the segment"@)),
        range.offset > usize::MAX ==> ranged(bytes, Some(range)) == Err::<Seq<u8>, ErrorView>(
            ErrorView::InvalidInput("byterange offset exceeds usize"@),
        ),
        range.offset <= usize::MAX && range.length > usize::MAX ==> ranged(bytes, Some(range))
            == Err::<Seq<u8>, ErrorView>(
            ErrorView::InvalidInput("byterange length exceeds usize"@),
        ),
        range.offset <= usize::MAX && range.length <= usize::MAX && range.offset + range.length
            > usize::MAX ==> ranged(bytes, Some(range)) == Err::<Seq<u8>, ErrorView>(
            ErrorView::InvalidInput("byterange overflows usize"@),
        ),
{
}

/// Two parts that meet make up the part that covers them.
pub proof fn lemma_parts_meet(bytes: Seq<u8>, offset: u64, first: u64, second: u64)
    requires
        bytes.len() <= usize::MAX,
        offset + first + second <= bytes.len(),
        bytes.len() <= u64::MAX,
    ensures
        ({
            let left = ranged(bytes, Some(ByteRange { offset, length: first }));
            let right = ranged(
                bytes,
                Some(ByteRange { offset: (offset + first) as u64, length: second }),
            );
            let whole = ranged(
                bytes,
                Some(ByteRange { offset, length: (first + second) as u64 }),
            );
            &&& left is Ok
            &&& right is Ok
            &&& whole is Ok
            &&& left->Ok_0 + right->Ok_0 == whole->Ok_0
        }),
{
    let left = bytes.subrange(offset as int, offset + first);
    let right = bytes.subrange(offset + first, offset + first + second);
    assert(left + right =~= bytes.subrange(offset as int, offset + first + second));
}

/// A `Range` header names the first and the last byte of the range in decimal digits.
/// There is one exactly where the last byte can be named.
pub proof fn lemma_range_header_reads_back(range: ByteRange)
    ensures
        last_byte(range) is Some <==> 0 < range.offset + range.length <= u64::MAX,
        last_byte(range) is Some ==> exists|first: Seq<char>, last: Seq<char>|
            range_header_text(range) == #[trigger] ("bytes="@ + first + "-"@ + last) && number_of(
                first,
            ) == range.offset && number_of(last) == range.offset + range.length - 1,
{
    if last_byte(range) is Some {
        let first = decimal(range.offset as nat);
        let last = decimal(last_byte(range)->0 as nat);
        lemma_decimal_reads_back(range.offset as nat);
        lemma_decimal_reads_back(last_byte(range)->0 as nat);
        assert(range_header_text(range) == "bytes="@ + first + "-"@ + last);
    }
}

/// The status codes from 200 to 299 mean success, and no others.
pub proof fn lemma_success_codes(status: u16)
    ensures
        is_success(status) <==> status / 100 == 2,
{
}

/// A playlist is read exactly where the status means success; otherwise the error
/// names the URL and the status.
pub proof fn lemma_text_response(url: Seq<char>, head: ResponseHead)
    ensures
        text_response_error(url, head) is None <==> 200 <= head.status <= 299,
        text_response_error(url, head) matches Some(error) ==> error == ErrorView::Http(
            "GET "@ + url + " returned status "@ + head.status_text@,
        ),
        get_failed(url, head.status_text@) == "GET "@ + url + " returned status "@
            + head.status_text@,
{
}

/// Bytes without a range are read exactly where the status means success; a range only
/// where the response is partial content and says of what. Every refusal is an HTTP
/// error.
pub proof fn lemma_bytes_response(url: Seq<char>, range: Option<ByteRange>, head: ResponseHead)
    ensures
        range is None ==> (bytes_response_error(url, range, head) is None <==> 200 <= head.status
            <= 299),
        range is Some ==> (bytes_response_error(url, range, head) is None <==> head.status == 206
            && head.has_content_range),
        bytes_response_error(url, range, head) matches Some(error) ==> error is Http,
        range is Some && head.status != 206 ==> bytes_response_error(url, range, head) == Some(
            ErrorView::Http(
                "Range request for "@ + url + " returned status "@ + head.status_text@
                    + " instead of 206"@,
            ),
        ),
        range is Some && head.status == 206 && !head.has_content_range ==> bytes_response_error(
            url,
            range,
            head,
        ) == Some(
            ErrorView::Http("Range request for "@ + url + " did not include Content-Range"@),
        ),
{
}

} // verus!
