//! Byte ranges of resources: slices of local files and HTTP Range requests.

use crate::error::{Error, ErrorView};
use crate::text::{append_decimal, decimal, outcome_view};
use vstd::prelude::*;

verus! {

/// A part of a larger resource, as `#EXT-X-BYTERANGE` names it.
#[derive(Debug, Clone, Copy, PartialEq, Eq, Hash, Structural)]
pub struct ByteRange {
    pub offset: u64,
    pub length: u64,
}

/// Tests whether two optional ranges are the same.
pub fn same_range(left: Option<ByteRange>, right: Option<ByteRange>) -> (same: bool)
    ensures
        same == (left == right),
{
    match (left, right) {
        (Some(l), Some(r)) => l.offset == r.offset && l.length == r.length,
        (None, None) => true,
        _ => false,
    }
}

/// The part of `bytes` that a range names, or why there is none. Without a range
/// it is all of them.
pub open spec fn ranged(bytes: Seq<u8>, range: Option<ByteRange>) -> Result<Seq<u8>, ErrorView> {
    match range {
        None => Ok(bytes),
        Some(range) => if range.offset > usize::MAX {
            Err(ErrorView::InvalidInput("byterange offset exceeds usize"@))
        } else if range.length > usize::MAX {
            Err(ErrorView::InvalidInput("byterange length exceeds usize"@))
        } else if range.offset + range.length > usize::MAX {
            Err(ErrorView::InvalidInput("byterange overflows usize"@))
        } else if range.offset + range.length > bytes.len() {
            Err(ErrorView::InvalidInput("byterange extends past the end of the segment"@))
        } else {
            Ok(bytes.subrange(range.offset as int, range.offset + range.length))
        },
    }
}

/// The range behind an optional reference.
pub open spec fn range_value(range: Option<&ByteRange>) -> Option<ByteRange> {
    match range {
        Some(range) => Some(*range),
        None => None,
    }
}

/// Cuts the part that `range` names out of the bytes of a local file.
pub fn apply_range(bytes: Vec<u8>, range: Option<&ByteRange>) -> (part: Result<Vec<u8>, Error>)
    ensures
        outcome_view(part) == ranged(bytes@, range_value(range)),
{
    let range: &ByteRange = match range {
        Some(range) => range,
        None => {
            return Ok(bytes);
        },
    };
    if range.offset > usize::MAX as u64 {
        return Err(Error::invalid("byterange offset exceeds usize"));
    }
    if range.length > usize::MAX as u64 {
        return Err(Error::invalid("byterange length exceeds usize"));
    }
    let start: usize = range.offset as usize;
    let length: usize = range.length as usize;
    let end: usize = match start.checked_add(length) {
        Some(end) => end,
        None => {
            return Err(Error::invalid("byterange overflows usize"));
        },
    };
    if end > bytes.len() {
        return Err(Error::invalid("byterange extends past the end of the segment"));
    }
    let mut head: Vec<u8> = bytes;
    let mut part: Vec<u8> = head.split_off(start);
    part.truncate(length);
    assert(part@ =~= bytes@.subrange(start as int, end as int));
    Ok(part)
}

/// The last byte that an HTTP Range request for `range` names: `None` where the
/// 64-bit arithmetic fails, which it does for the empty range at offset 0 too.
pub open spec fn last_byte(range: ByteRange) -> Option<u64> {
    if 1 <= range.offset + range.length <= u64::MAX {
        Some((range.offset + range.length - 1) as u64)
    } else {
        None
    }
}

/// The value of the `Range` header that asks for `range`.
pub open spec fn range_header_text(range: ByteRange) -> Seq<char> {
    "bytes="@ + decimal(range.offset as nat) + "-"@ + decimal(last_byte(range)->0 as nat)
}

/// Writes the value of the `Range` header that asks for `range`.
pub fn range_header(range: &ByteRange) -> (header: Result<String, Error>)
    ensures
        header is Ok <==> last_byte(*range) is Some,
        header matches Ok(text) ==> text@ == range_header_text(*range),
        header matches Err(error) ==> error@ == ErrorView::InvalidInput(
            "HTTP byterange overflows u64"@,
        ),
{
    let last: Option<u64> = match range.offset.checked_add(range.length) {
        Some(sum) => sum.checked_sub(1),
        None => None,
    };
    match last {
        None => Err(Error::invalid("HTTP byterange overflows u64")),
        Some(last) => {
            let mut text: String = "bytes=".to_owned();
            append_decimal(&mut text, range.offset);
            text.append("-");
            append_decimal(&mut text, last);
            Ok(text)
        },
    }
}

/// What the head of an HTTP response says.
#[derive(Debug, Clone, PartialEq, Eq)]
pub struct ResponseHead {
    /// The status code.
    pub status: u16,
    /// The status code with its reason, for messages.
    pub status_text: String,
    /// Whether there is a `Content-Range` header.
    pub has_content_range: bool,
}

/// The message on a response whose status is not a success.
pub open spec fn get_failed(url: Seq<char>, status_text: Seq<char>) -> Seq<char> {
    "GET "@ + url + " returned status "@ + status_text
}

/// Whether a status code means success.
pub open spec fn is_success(status: u16) -> bool {
    200 <= status < 300
}

fn get_failure(url: &str, head: &ResponseHead) -> (error: Error)
    ensures
        error@ == ErrorView::Http(get_failed(url@, head.status_text@)),
{
    let mut text: String = "GET ".to_owned();
    text.append(url);
    text.append(" returned status ");
    text.append(head.status_text.as_str());
    Error::Http(text)
}

/// Why the response to a request for a playlist is refused, if it is.
pub open spec fn text_response_error(url: Seq<char>, head: ResponseHead) -> Option<ErrorView> {
    if is_success(head.status) {
        None
    } else {
        Some(ErrorView::Http(get_failed(url, head.status_text@)))
    }
}

/// Checks the response to a request for a playlist.
pub fn check_text_response(url: &str, head: &ResponseHead) -> (checked: Result<(), Error>)
    ensures
        checked is Ok <==> text_response_error(url@, *head) is None,
        checked matches Err(error) ==> Some(error@) == text_response_error(url@, *head),
{
    if 200 <= head.status && head.status < 300 {
        Ok(())
    } else {
        Err(get_failure(url, head))
    }
}

/// Why the response to a request for bytes is refused before its body is read,
/// if it is. A Range request has to be answered with partial content.
pub open spec fn bytes_response_error(
    url: Seq<char>,
    range: Option<ByteRange>,
    head: ResponseHead,
) -> Option<ErrorView> {
    if range is None {
        text_response_error(url, head)
    } else if head.status != 206 {
        Some(
            ErrorView::Http(
                "Range request for "@ + url + " returned status "@ + head.status_text@
                    + " instead of 206"@,
            ),
        )
    } else if !head.has_content_range {
        Some(ErrorView::Http("Range request for "@ + url + " did not include Content-Range"@))
    } else {
        None
    }
}

/// What to do with the body of an accepted response.
#[derive(Debug, Clone, Copy, PartialEq, Eq)]
pub enum BodyStep {
    /// Nothing was asked for: the result is empty.
    Empty,
    /// Read the body.
    Read,
}

/// Checks the response to a request for bytes and says whether to read its body.
pub fn check_bytes_response(url: &str, range: Option<&ByteRange>, head: &ResponseHead) -> (checked:
    Result<BodyStep, Error>)
    ensures
        checked is Ok <==> bytes_response_error(url@, range_value(range), *head) is None,
        checked matches Err(error) ==> Some(error@) == bytes_response_error(
            url@,
            range_value(range),
            *head,
        ),
        checked matches Ok(step) ==> (step is Empty <==> (range matches Some(r) && r.length == 0)),
{
    let range: &ByteRange = match range {
        None => {
            return match check_text_response(url, head) {
                Ok(_) => Ok(BodyStep::Read),
                Err(error) => Err(error),
            };
        },
        Some(range) => range,
    };
    if head.status != 206 {
        let mut text: String = "Range request for ".to_owned();
        text.append(url);
        text.append(" returned status ");
        text.append(head.status_text.as_str());
        text.append(" instead of 206");
        return Err(Error::Http(text));
    }
    if !head.has_content_range {
        let mut text: String = "Range request for ".to_owned();
        text.append(url);
        text.append(" did not include Content-Range");
        return Err(Error::Http(text));
    }
    if range.length == 0 {
        Ok(BodyStep::Empty)
    } else {
        Ok(BodyStep::Read)
    }
}

/// The bytes that the body of an accepted response gives. A body that is shorter
/// than the range is a short read and refused.
pub open spec fn accepted_body(url: Seq<char>, range: Option<ByteRange>, body: Seq<u8>) -> Result<
    Seq<u8>,
    ErrorView,
> {
    match range {
        Some(range) => if body.len() < range.length {
            Err(
                ErrorView::Http(
                    "Range request for "@ + url + " returned "@ + decimal(body.len())
                        + " bytes instead of "@ + decimal(range.length as nat),
                ),
            )
        } else {
            Ok(body)
        },
        None => Ok(body),
    }
}

/// Checks that the body of an accepted response is not a short read.
pub fn accept_body(url: &str, range: Option<&ByteRange>, body: Vec<u8>) -> (bytes: Result<
    Vec<u8>,
    Error,
>)
    ensures
        outcome_view(bytes) == accepted_body(url@, range_value(range), body@),
        bytes matches Ok(accepted) ==> accepted@ == body@,
        bytes is Err <==> (range matches Some(part) && body@.len() < part.length),
{
    if let Some(range) = range {
        if (body.len() as u64) < range.length {
            let mut text: String = "Range request for ".to_owned();
            text.append(url);
            text.append(" returned ");
            append_decimal(&mut text, body.len() as u64);
            text.append(" bytes instead of ");
            append_decimal(&mut text, range.length);
            return Err(Error::Http(text));
        }
    }
    Ok(body)
}

/// A part that was cut out has the length and the bytes that its range names.
pub proof fn lemma_part_is_slice(bytes: Seq<u8>, range: ByteRange)
    requires
        ranged(bytes, Some(range)) is Ok,
    ensures
        ({
            let part = ranged(bytes, Some(range))->Ok_0;
            &&& part.len() == range.length
            &&& forall|i: int| 0 <= i < part.len() ==> #[trigger] part[i] == bytes[range.offset + i]
        }),
{
}

/// A range is cut out of local bytes exactly where it lies within them.
pub proof fn lemma_range_within_file(bytes: Seq<u8>, range: ByteRange)
    requires
        bytes.len() <= usize::MAX,
    ensures
        ranged(bytes, Some(range)) is Ok <==> range.offset + range.length <= bytes.len(),
{
}

/// A request for a range that is not empty names exactly its bytes, first and
/// last included.
pub proof fn lemma_range_request_names_range(range: ByteRange)
    requires
        range.length > 0,
        range.offset + range.length <= u64::MAX,
    ensures
        last_byte(range) matches Some(last) && last - range.offset + 1 == range.length,
{
}

} // verus!
