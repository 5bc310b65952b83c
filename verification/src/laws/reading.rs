//! Which resource is read for a URI, a segment and its init segment.

use super::values::{lemma_begins_with, lemma_decimal_reads_back, number_of};
use crate::error::ErrorView;
use crate::location::{base_directory, is_http, resolved, url_location, LocationView};
use crate::options::out_of_range;
use crate::outside::{joined_path, joined_url, parent_of, parsed_url};
use crate::playlist::HlsSegment;
use crate::range::ByteRange;
use crate::segment::{cached, init_needed, requested, CacheView, InitStepView, RequestView};
use crate::text::decimal;
use vstd::prelude::*;

verus! {

/// The URIs that stand for themselves are those that begin with one of two schemes.
pub proof fn lemma_own_urls(uri: Seq<char>)
    ensures
        is_http(uri) <==> (exists|rest: Seq<char>| uri == #[trigger] ("http://"@ + rest)) || (
        exists|rest: Seq<char>| uri == #[trigger] ("https://"@ + rest)),
{
    lemma_begins_with(uri, "http://"@);
    lemma_begins_with(uri, "https://"@);
}

/// A URL of its own is what parsing it gives, wherever it is found.
pub proof fn lemma_own_url_is_parsed(location: LocationView, scheme: Seq<char>, rest: Seq<char>)
    requires
        scheme == "http://"@ || scheme == "https://"@,
    ensures
        match parsed_url(scheme + rest) {
            Ok(url) => resolved(location, scheme + rest) == Ok::<LocationView, ErrorView>(
                LocationView::Url(url),
            ),
            Err(message) => resolved(location, scheme + rest) == Err::<LocationView, ErrorView>(
                ErrorView::InvalidInput(message),
            ),
        },
{
    lemma_own_urls(scheme + rest);
}

/// Another URI is joined to the URL of the playlist that it is found in.
pub proof fn lemma_relative_to_url(url: Seq<char>, uri: Seq<char>)
    requires
        !is_http(uri),
    ensures
        match joined_url(url, uri) {
            Ok(joined) => resolved(LocationView::Url(url), uri) == Ok::<LocationView, ErrorView>(
                LocationView::Url(joined),
            ),
            Err(message) => resolved(LocationView::Url(url), uri) == Err::<
                LocationView,
                ErrorView,
            >(ErrorView::InvalidInput(message)),
        },
{
}

/// Another URI in a local playlist is a file in the directory of the playlist, so that
/// two playlists of one directory refer to the same files.
pub proof fn lemma_relative_to_file(path: Seq<char>, other: Seq<char>, uri: Seq<char>)
    requires
        !is_http(uri),
    ensures
        parent_of(path) matches Some(parent) ==> resolved(LocationView::File(path), uri) == Ok::<
            LocationView,
            ErrorView,
        >(LocationView::File(joined_path(parent, uri))),
        parent_of(path) is None ==> resolved(LocationView::File(path), uri) == Ok::<
            LocationView,
            ErrorView,
        >(LocationView::File(joined_path(Seq::empty(), uri))),
        parent_of(path) == parent_of(other) ==> resolved(LocationView::File(path), uri)
            == resolved(LocationView::File(other), uri),
{
}

/// A directory that is there is the base, and otherwise the base is empty.
pub proof fn lemma_base_directory(parent: Seq<char>)
    ensures
        base_directory(Some(parent)) == parent,
        base_directory(None).len() == 0,
{
}

/// A URL that could be made is a location, and one that could not is invalid input.
pub proof fn lemma_url_location(text: Seq<char>)
    ensures
        url_location(Ok(text)) == Ok::<LocationView, ErrorView>(LocationView::Url(text)),
        url_location(Err(text)) == Err::<LocationView, ErrorView>(ErrorView::InvalidInput(text)),
{
}

/// A segment is read from where its URI leads, in the range that it names.
pub proof fn lemma_request_keeps_range(
    playlist: LocationView,
    uri: Seq<char>,
    range: Option<ByteRange>,
)
    ensures
        match (requested(playlist, uri, range), resolved(playlist, uri)) {
            (Ok(request), Ok(location)) => request.location == location && request.range == range,
            (Err(error), Err(reason)) => error == reason,
            _ => false,
        },
{
}

/// A segment is an MPEG-TS segment exactly where it names no init segment, whatever is
/// at hand.
pub proof fn lemma_ts_names_no_init(cache: CacheView, playlist: LocationView, segment: HlsSegment)
    ensures
        segment.init_segment is None <==> init_needed(cache, playlist, segment) == Ok::<
            InitStepView,
            ErrorView,
        >(InitStepView::MpegTs),
{
}

/// The init segment that a segment names is at hand or read. At hand is only what was
/// stored for that range of that URI. Otherwise it is read in that range from where
/// the URI leads, or the URI leads nowhere.
pub proof fn lemma_named_init_is_found(
    cache: CacheView,
    playlist: LocationView,
    segment: HlsSegment,
)
    requires
        segment.init_segment is Some,
    ensures
        ({
            let init = segment.init_segment->0;
            match init_needed(cache, playlist, segment) {
                Ok(InitStepView::MpegTs) => false,
                Ok(InitStepView::Cached(bytes)) => cache == Some(
                    (init.uri@, init.byte_range, bytes),
                ),
                Ok(InitStepView::Read(wanted)) => {
                    &&& wanted.range == init.byte_range
                    &&& resolved(playlist, init.uri@) == Ok::<LocationView, ErrorView>(
                        wanted.location,
                    )
                    &&& !(cache matches Some(entry) && entry.0 == init.uri@ && entry.1
                        == init.byte_range)
                },
                Err(error) => resolved(playlist, init.uri@) == Err::<LocationView, ErrorView>(
                    error,
                ),
            }
        }),
{
}

/// With nothing at hand a named init segment is read, whether or not it has a range.
pub proof fn lemma_first_init_is_read(playlist: LocationView, segment: HlsSegment)
    requires
        segment.init_segment is Some,
    ensures
        ({
            let init = segment.init_segment->0;
            match resolved(playlist, init.uri@) {
                Ok(location) => init_needed(None, playlist, segment) == Ok::<
                    InitStepView,
                    ErrorView,
                >(InitStepView::Read(RequestView { location, range: init.byte_range })),
                Err(error) => init_needed(None, playlist, segment) == Err::<
                    InitStepView,
                    ErrorView,
                >(error),
            }
        }),
{
}

/// What is at hand is found under its own URI and range, and under no others.
pub proof fn lemma_cache_holds_one(
    uri: Seq<char>,
    range: Option<ByteRange>,
    bytes: Seq<u8>,
    other_uri: Seq<char>,
    other_range: Option<ByteRange>,
)
    ensures
        cached(Some((uri, range, bytes)), uri, range) == Some(bytes),
        (other_uri, other_range) != (uri, range) ==> cached(
            Some((uri, range, bytes)),
            other_uri,
            other_range,
        ) is None,
        cached(None, uri, range) is None,
{
}

/// The message on a variant that is not there tells which was asked for and how many
/// there are.
pub proof fn lemma_out_of_range_message(index: nat, count: nat)
    ensures
        exists|asked: Seq<char>, there: Seq<char>|
            out_of_range(index, count) == #[trigger] ("variant index "@ + asked
                + " is out of range for "@ + there + " variants"@) && number_of(asked) == index
                && number_of(there) == count,
{
    lemma_decimal_reads_back(index);
    lemma_decimal_reads_back(count);
    let asked = decimal(index);
    let there = decimal(count);
    assert(out_of_range(index, count) == "variant index "@ + asked + " is out of range for "@
        + there + " variants"@);
}

} // verus!
