//! Parsed playlists.

use crate::range::ByteRange;
use vstd::prelude::*;

verus! {

/// The `#EXT-X-MAP` that applies to a segment.
#[derive(Debug, PartialEq, Eq)]
pub struct InitSegment {
    pub uri: String,
    pub byte_range: Option<ByteRange>,
}

/// One media segment.
#[derive(Debug, PartialEq, Eq)]
pub struct HlsSegment {
    pub uri: String,
    pub byte_range: Option<ByteRange>,
    pub init_segment: Option<InitSegment>,
}

/// A list of media segments.
#[derive(Debug, PartialEq, Eq)]
pub struct MediaPlaylist {
    pub segments: Vec<HlsSegment>,
}

/// One variant stream of a master playlist.
#[derive(Debug, PartialEq, Eq)]
pub struct Variant {
    pub uri: String,
}

/// A list of variant streams.
#[derive(Debug, PartialEq, Eq)]
pub struct MasterPlaylist {
    pub variants: Vec<Variant>,
}

/// A playlist of either kind.
#[derive(Debug, PartialEq, Eq)]
pub enum HlsPlaylist {
    Media(MediaPlaylist),
    Master(MasterPlaylist),
}

} // verus!
