//! Where playlists and segments are read from.

use crate::error::{Error, ErrorView};
use crate::outside::{
    join_url, joined_path, joined_url, parent_of, parse_url, parsed_url, path_join, path_parent,
    text_outcome, text_view,
};
use crate::text::{begins_with, has_prefix};
use vstd::prelude::*;

verus! {

/// A place to read from: a path of the local file system, or a URL by its
/// serialization.
#[derive(Debug, PartialEq, Eq)]
pub enum SourceLocation {
    File(String),
    Url(String),
}

/// The value of a [`SourceLocation`] in contracts.
pub enum LocationView {
    File(Seq<char>),
    Url(Seq<char>),
}

impl View for SourceLocation {
    type V = LocationView;

    open spec fn view(&self) -> LocationView {
        match self {
            SourceLocation::File(path) => LocationView::File(path@),
            SourceLocation::Url(url) => LocationView::Url(url@),
        }
    }
}

impl Clone for SourceLocation {
    fn clone(&self) -> (copy: Self)
        ensures
            copy@ == self@,
    {
        match self {
            SourceLocation::File(path) => SourceLocation::File(path.clone()),
            SourceLocation::Url(url) => SourceLocation::Url(url.clone()),
        }
    }
}

/// The value of a fallible location in contracts.
pub open spec fn location_outcome(outcome: Result<SourceLocation, Error>) -> Result<
    LocationView,
    ErrorView,
> {
    match outcome {
        Ok(location) => Ok(location@),
        Err(error) => Err(error@),
    }
}

/// Whether a URI is an HTTP or HTTPS URL of its own.
pub open spec fn is_http(uri: Seq<char>) -> bool {
    begins_with(uri, "http://"@) || begins_with(uri, "https://"@)
}

/// The location that an attempt at a URL gives.
pub open spec fn url_location(url: Result<Seq<char>, Seq<char>>) -> Result<
    LocationView,
    ErrorView,
> {
    match url {
        Ok(url) => Ok(LocationView::Url(url)),
        Err(message) => Err(ErrorView::InvalidInput(message)),
    }
}

/// The directory that the references in a file are relative to, given the parent
/// of its path.
pub open spec fn base_directory(parent: Option<Seq<char>>) -> Seq<char> {
    match parent {
        Some(parent) => parent,
        None => Seq::empty(),
    }
}

/// The location that a URI in the resource at `location` refers to.
pub open spec fn resolved(location: LocationView, uri: Seq<char>) -> Result<
    LocationView,
    ErrorView,
> {
    if is_http(uri) {
        url_location(parsed_url(uri))
    } else {
        match location {
            LocationView::File(path) => Ok(
                LocationView::File(joined_path(base_directory(parent_of(path)), uri)),
            ),
            LocationView::Url(url) => url_location(joined_url(url, uri)),
        }
    }
}

impl SourceLocation {
    /// Makes a location of an attempt at a URL: its serialization, or the message
    /// of the error.
    pub fn from_url(url: Result<String, String>) -> (location: Result<SourceLocation, Error>)
        ensures
            location_outcome(location) == url_location(text_outcome(url)),
    {
        match url {
            Ok(url) => Ok(SourceLocation::Url(url)),
            Err(message) => Err(Error::InvalidInput(message)),
        }
    }

    /// Resolves a URI that was found in the resource at this location. HTTP and
    /// HTTPS URLs stand for themselves; other URIs are relative to the resource.
    pub fn resolve(&self, uri: &str) -> (location: Result<SourceLocation, Error>)
        ensures
            location_outcome(location) == resolved(self@, uri@),
    {
        if has_prefix(uri, "http://") || has_prefix(uri, "https://") {
            return SourceLocation::from_url(parse_url(uri));
        }
        match self {
            SourceLocation::File(path) => {
                let base: String = directory(path_parent(path.as_str()));
                Ok(SourceLocation::File(path_join(base.as_str(), uri)))
            },
            SourceLocation::Url(url) => SourceLocation::from_url(join_url(url.as_str(), uri)),
        }
    }
}

/// The directory that the references in a file are relative to: the parent of
/// its path, or the empty path without one.
pub fn directory(parent: Option<String>) -> (base: String)
    ensures
        base@ == base_directory(text_view(parent)),
{
    match parent {
        Some(parent) => parent,
        None => String::new(),
    }
}

/// A text, typically a playlist, and where it was finally found.
#[derive(Debug, Clone, PartialEq, Eq)]
pub struct TextResource {
    pub content: String,
    pub location: SourceLocation,
}

/// What to transmux, and how to read it. `S` stands for a source of the caller's
/// own.
#[derive(Debug, Clone, PartialEq, Eq)]
pub enum HlsInput<S> {
    /// The path of a playlist in the local file system.
    Path(String),
    /// An HTTP or HTTPS URL of a playlist.
    Url(String),
    /// A source of the caller's own, and where it starts.
    Custom(S, SourceLocation),
}

impl<S> HlsInput<S> {
    /// An input that is read by a source of the caller's own.
    pub fn custom(source: S, location: SourceLocation) -> (input: HlsInput<S>)
        ensures
            input == HlsInput::Custom(source, location),
    {
        HlsInput::Custom(source, location)
    }

    /// Splits the input into where to start and the source to read with: `None`
    /// for the built-in one. Fails where the URL is not a valid one.
    pub fn into_parts(self) -> (parts: Result<(SourceLocation, Option<S>), Error>)
        ensures
            match self {
                HlsInput::Path(path) => {
                    &&& parts matches Ok((location, source))
                    &&& location@ == LocationView::File(path@)
                    &&& source is None
                },
                HlsInput::Url(url) => match url_location(parsed_url(url@)) {
                    Ok(start) => {
                        &&& parts matches Ok((location, source))
                        &&& location@ == start
                        &&& source is None
                    },
                    Err(failure) => parts matches Err(error) && error@ == failure,
                },
                HlsInput::Custom(own, start) => {
                    &&& parts matches Ok((location, source))
                    &&& location == start
                    &&& source == Some(own)
                },
            },
    {
        match self {
            HlsInput::Path(path) => Ok((SourceLocation::File(path), None)),
            HlsInput::Url(url) => match SourceLocation::from_url(parse_url(url.as_str())) {
                Ok(location) => Ok((location, None)),
                Err(error) => Err(error),
            },
            HlsInput::Custom(source, location) => Ok((location, Some(source))),
        }
    }
}

/// An HTTP or HTTPS URL refers to the same place wherever it is found.
pub proof fn lemma_absolute_uri_ignores_base(
    first: LocationView,
    second: LocationView,
    uri: Seq<char>,
)
    requires
        is_http(uri),
    ensures
        resolved(first, uri) == resolved(second, uri),
{
}

/// A relative URI stays with its resource: found in a file it refers to a file
/// and never fails, found at a URL it refers to a URL.
pub proof fn lemma_relative_uri_stays(location: LocationView, uri: Seq<char>)
    requires
        !is_http(uri),
    ensures
        location is File ==> (resolved(location, uri) matches Ok(found) && found is File),
        location is Url ==> (resolved(location, uri) matches Ok(found) ==> found is Url),
{
}

} // verus!
