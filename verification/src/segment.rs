//! What has to be read for one segment.

use crate::error::{Error, ErrorView};
use crate::location::{resolved, LocationView, SourceLocation};
use crate::playlist::HlsSegment;
use crate::range::{same_range, ByteRange};
use vstd::prelude::*;

verus! {

/// Bytes to read: a resource, or a part of it.
#[derive(Debug, PartialEq, Eq)]
pub struct ReadRequest {
    pub location: SourceLocation,
    pub range: Option<ByteRange>,
}

/// The value of a [`ReadRequest`] in contracts.
pub struct RequestView {
    pub location: LocationView,
    pub range: Option<ByteRange>,
}

impl View for ReadRequest {
    type V = RequestView;

    open spec fn view(&self) -> RequestView {
        RequestView { location: self.location@, range: self.range }
    }
}

/// The bytes that a URI and a range in the playlist at `playlist` refer to.
pub open spec fn requested(
    playlist: LocationView,
    uri: Seq<char>,
    range: Option<ByteRange>,
) -> Result<RequestView, ErrorView> {
    match resolved(playlist, uri) {
        Ok(location) => Ok(RequestView { location, range }),
        Err(error) => Err(error),
    }
}

/// The value of a fallible request in contracts.
pub open spec fn request_outcome(outcome: Result<ReadRequest, Error>) -> Result<
    RequestView,
    ErrorView,
> {
    match outcome {
        Ok(request) => Ok(request@),
        Err(error) => Err(error@),
    }
}

fn request(playlist: &SourceLocation, uri: &str, range: Option<ByteRange>) -> (wanted: Result<
    ReadRequest,
    Error,
>)
    ensures
        request_outcome(wanted) == requested(playlist@, uri@, range),
{
    match playlist.resolve(uri) {
        Ok(location) => Ok(ReadRequest { location, range }),
        Err(error) => Err(error),
    }
}

/// The bytes of a segment of the playlist at `playlist`.
pub fn segment_request(playlist: &SourceLocation, segment: &HlsSegment) -> (wanted: Result<
    ReadRequest,
    Error,
>)
    ensures
        request_outcome(wanted) == requested(playlist@, segment.uri@, segment.byte_range),
{
    request(playlist, segment.uri.as_str(), segment.byte_range)
}

/// What a segment needs besides its own bytes.
#[derive(Debug, PartialEq, Eq)]
pub enum InitStep {
    /// Nothing: it is an MPEG-TS segment.
    MpegTs,
    /// It is an fMP4 segment, whose init segment is at hand.
    Cached(Vec<u8>),
    /// It is an fMP4 segment, whose init segment has to be read and stored.
    Read(ReadRequest),
}

/// The value of an [`InitStep`] in contracts.
pub enum InitStepView {
    MpegTs,
    Cached(Seq<u8>),
    Read(RequestView),
}

impl View for InitStep {
    type V = InitStepView;

    open spec fn view(&self) -> InitStepView {
        match self {
            InitStep::MpegTs => InitStepView::MpegTs,
            InitStep::Cached(bytes) => InitStepView::Cached(bytes@),
            InitStep::Read(wanted) => InitStepView::Read(wanted@),
        }
    }
}

/// The value of a fallible step in contracts.
pub open spec fn init_outcome(outcome: Result<InitStep, Error>) -> Result<
    InitStepView,
    ErrorView,
> {
    match outcome {
        Ok(step) => Ok(step@),
        Err(error) => Err(error@),
    }
}

/// What is at hand of an init segment: its URI, its range and its bytes.
pub type CacheView = Option<(Seq<char>, Option<ByteRange>, Seq<u8>)>;

/// The init segment that was read last, under its URI and its range.
#[derive(Debug)]
pub struct InitCache {
    pub entry: Option<(String, Option<ByteRange>, Vec<u8>)>,
}

impl View for InitCache {
    type V = CacheView;

    open spec fn view(&self) -> CacheView {
        match self.entry {
            Some((uri, range, bytes)) => Some((uri@, range, bytes@)),
            None => None,
        }
    }
}

/// The init segment at hand, if it is this range of this URI.
pub open spec fn cached(cache: CacheView, uri: Seq<char>, range: Option<ByteRange>) -> Option<
    Seq<u8>,
> {
    match cache {
        Some((held, part, bytes)) => if held == uri && part == range {
            Some(bytes)
        } else {
            None
        },
        None => None,
    }
}

/// What a segment needs besides its own bytes, given the init segment at hand.
pub open spec fn init_needed(
    cache: CacheView,
    playlist: LocationView,
    segment: HlsSegment,
) -> Result<InitStepView, ErrorView> {
    match segment.init_segment {
        None => Ok(InitStepView::MpegTs),
        Some(init) => match (cached(cache, init.uri@, init.byte_range), requested(
            playlist,
            init.uri@,
            init.byte_range,
        )) {
            (Some(bytes), _) => Ok(InitStepView::Cached(bytes)),
            (None, Ok(wanted)) => Ok(InitStepView::Read(wanted)),
            (None, Err(error)) => Err(error),
        },
    }
}

impl InitCache {
    /// A cache without an init segment.
    pub fn new() -> (cache: InitCache)
        ensures
            cache@ is None,
    {
        InitCache { entry: None }
    }

    /// Decides what a segment of the playlist at `playlist` needs besides its own
    /// bytes.
    pub fn init_step(&self, playlist: &SourceLocation, segment: &HlsSegment) -> (step: Result<
        InitStep,
        Error,
    >)
        ensures
            init_outcome(step) == init_needed(self@, playlist@, *segment),
            step matches Ok(InitStep::MpegTs) <==> segment.init_segment is None,
            step matches Ok(InitStep::Cached(bytes)) ==> (self@ matches Some((uri, range, held))
                && held == bytes@ && (segment.init_segment matches Some(init) && init.uri@ == uri
                && init.byte_range == range)),
            step matches Ok(InitStep::Read(wanted)) ==> (segment.init_segment matches Some(init)
                && wanted.range == init.byte_range && resolved(playlist@, init.uri@) == Ok::<
                LocationView,
                ErrorView,
            >(wanted.location@)),
    {
        match &segment.init_segment {
            None => Ok(InitStep::MpegTs),
            Some(init) => {
                if let Some((uri, range, bytes)) = &self.entry {
                    if *uri == init.uri && same_range(*range, init.byte_range) {
                        let copy: Vec<u8> = bytes.clone();
                        assert(copy@ =~= bytes@);
                        return Ok(InitStep::Cached(copy));
                    }
                }
                match request(playlist, init.uri.as_str(), init.byte_range) {
                    Ok(wanted) => Ok(InitStep::Read(wanted)),
                    Err(error) => Err(error),
                }
            },
        }
    }

    /// Keeps an init segment in place of the one at hand.
    pub fn store(&mut self, uri: &str, range: Option<ByteRange>, bytes: &Vec<u8>)
        ensures
            final(self)@ == Some((uri@, range, bytes@)),
    {
        let copy: Vec<u8> = bytes.clone();
        assert(copy@ =~= bytes@);
        self.entry = Some((uri.to_owned(), range, copy));
    }
}

/// An init segment is read once for a run of segments that name the same range of
/// the same URI: after it was stored, each of them finds it at hand.
pub proof fn lemma_init_read_once(
    playlist: LocationView,
    segment: HlsSegment,
    uri: Seq<char>,
    range: Option<ByteRange>,
    bytes: Seq<u8>,
)
    requires
        segment.init_segment matches Some(init) && init.uri@ == uri && init.byte_range == range,
    ensures
        init_needed(Some((uri, range, bytes)), playlist, segment) == Ok::<InitStepView, ErrorView>(
            InitStepView::Cached(bytes),
        ),
{
}

/// Another range of the same URI is another init segment, and so is another URI:
/// whatever is at hand, it is read, with its own range, from the place that its URI
/// refers to.
pub proof fn lemma_other_init_is_read(
    playlist: LocationView,
    segment: HlsSegment,
    uri: Seq<char>,
    range: Option<ByteRange>,
    bytes: Seq<u8>,
)
    requires
        segment.init_segment matches Some(init) && (init.uri@ != uri || init.byte_range != range),
    ensures
        ({
            let init = segment.init_segment->0;
            match resolved(playlist, init.uri@) {
                Ok(location) => init_needed(Some((uri, range, bytes)), playlist, segment) == Ok::<
                    InitStepView,
                    ErrorView,
                >(InitStepView::Read(RequestView { location, range: init.byte_range })),
                Err(error) => init_needed(Some((uri, range, bytes)), playlist, segment) == Err::<
                    InitStepView,
                    ErrorView,
                >(error),
            }
        }),
{
}

} // verus!
