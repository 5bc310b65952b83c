//! What the caller may choose, and what follows from it for the playlists.

use crate::error::{Error, ErrorView};
use crate::location::{resolved, SourceLocation};
use crate::playlist::{HlsPlaylist, MediaPlaylist};
use crate::text::{append_decimal, decimal};
use vstd::prelude::*;

verus! {

/// Which variant of a master playlist to transmux.
#[derive(Debug, Clone, Copy, PartialEq, Eq)]
pub enum VariantSelection {
    /// Index into the list of variants, from 0.
    Index(usize),
}

/// The container and how it is written.
#[derive(Debug, Clone, Copy, PartialEq, Eq)]
pub enum OutputFormat {
    /// Standard MP4 (`ftyp`, `moov`, `mdat`). All segments are demuxed before
    /// anything is written.
    Mp4,
    /// Fragmented MP4 (`ftyp`, `moov`, then `moof` and `mdat` for each segment).
    /// Each segment is written as soon as it is demuxed.
    FragmentedMp4,
    /// Standard MP4 by way of a fragmented one in a temporary file, which is
    /// playable if the run is interrupted. The output is that of
    /// [`OutputFormat::Mp4`].
    ///
    /// A fragmented MP4 cannot always hold the samples for that: its timeline starts
    /// at the very first packet, each AAC frame lasts 1024 ticks, and its codec
    /// parameters are those of the first segment. Where a standard MP4 of the same
    /// segments has others, the native backend leaves the temporary file aside and
    /// writes all segments at once.
    StreamingMp4,
}

impl Default for OutputFormat {
    fn default() -> (format: Self)
        ensures
            format == OutputFormat::Mp4,
    {
        OutputFormat::Mp4
    }
}

/// What turns the temporary file of [`OutputFormat::StreamingMp4`] into the
/// output. Other formats ignore it.
#[derive(Debug, Clone, Copy, PartialEq, Eq)]
pub enum FinalizeBackend {
    /// The demuxer and muxer at hand.
    Native,
    /// FFmpeg.
    Ffmpeg,
}

impl Default for FinalizeBackend {
    fn default() -> (backend: Self)
        ensures
            backend == FinalizeBackend::Native,
    {
        FinalizeBackend::Native
    }
}

/// The choices of one run.
#[derive(Debug, Clone, Copy, PartialEq, Eq)]
pub struct TransmuxOptions {
    /// Needed for a master playlist, ignored for a media playlist.
    pub variant: Option<VariantSelection>,
    pub output_format: OutputFormat,
    pub finalize_backend: FinalizeBackend,
}

impl Default for TransmuxOptions {
    fn default() -> (options: Self)
        ensures
            options.variant is None,
            options.output_format == OutputFormat::Mp4,
            options.finalize_backend == FinalizeBackend::Native,
    {
        TransmuxOptions {
            variant: None,
            output_format: OutputFormat::Mp4,
            finalize_backend: FinalizeBackend::Native,
        }
    }
}

/// What the playlist that the caller named leads to.
#[derive(Debug, PartialEq, Eq)]
pub enum MediaSelection {
    /// It is a media playlist: these segments, relative to this location.
    Media(MediaPlaylist, SourceLocation),
    /// It is a master playlist: the chosen variant stands at this location.
    Variant(SourceLocation),
}

/// The message on a variant index that is too large.
pub open spec fn out_of_range(index: nat, count: nat) -> Seq<char> {
    "variant index "@ + decimal(index) + " is out of range for "@ + decimal(count) + " variants"@
}

/// Decides what to do with the playlist that the caller named, which was found at
/// `location`. A media playlist is used as it is; of a master playlist the chosen
/// variant is read next.
pub fn select_media(root: HlsPlaylist, location: SourceLocation, options: &TransmuxOptions) -> (
selection: Result<MediaSelection, Error>)
    ensures
        match root {
            HlsPlaylist::Media(media) => selection == Ok::<MediaSelection, Error>(
                MediaSelection::Media(media, location),
            ),
            HlsPlaylist::Master(master) => match options.variant {
                None => {
                    &&& selection matches Err(error)
                    &&& error@ == ErrorView::InvalidInput(
                        "master playlist input requires TransmuxOptions.variant"@,
                    )
                },
                Some(VariantSelection::Index(index)) => if index >= master.variants@.len() {
                    &&& selection matches Err(error)
                    &&& error@ == ErrorView::InvalidInput(
                        out_of_range(index as nat, master.variants@.len()),
                    )
                } else {
                    match resolved(location@, master.variants@[index as int].uri@) {
                        Ok(target) => {
                            &&& selection matches Ok(MediaSelection::Variant(found))
                            &&& found@ == target
                        },
                        Err(failure) => {
                            &&& selection matches Err(error)
                            &&& error@ == failure
                        },
                    }
                },
            },
        },
{
    match root {
        HlsPlaylist::Media(media) => Ok(MediaSelection::Media(media, location)),
        HlsPlaylist::Master(master) => {
            let index: usize = match options.variant {
                Some(VariantSelection::Index(index)) => index,
                None => {
                    return Err(
                        Error::invalid("master playlist input requires TransmuxOptions.variant"),
                    );
                },
            };
            if index >= master.variants.len() {
                let mut text: String = "variant index ".to_owned();
                append_decimal(&mut text, index as u64);
                text.append(" is out of range for ");
                append_decimal(&mut text, master.variants.len() as u64);
                text.append(" variants");
                return Err(Error::InvalidInput(text));
            }
            match location.resolve(master.variants[index].uri.as_str()) {
                Ok(target) => Ok(MediaSelection::Variant(target)),
                Err(error) => Err(error),
            }
        },
    }
}

/// Decides what to do with the playlist of the chosen variant, which was found at
/// `location`. It has to be a media playlist.
pub fn accept_variant(playlist: HlsPlaylist, location: SourceLocation) -> (accepted: Result<
    (MediaPlaylist, SourceLocation),
    Error,
>)
    ensures
        match playlist {
            HlsPlaylist::Media(media) => accepted == Ok::<(MediaPlaylist, SourceLocation), Error>(
                (media, location),
            ),
            HlsPlaylist::Master(_) => {
                &&& accepted matches Err(error)
                &&& error@ == ErrorView::Unsupported(
                    "nested master playlists are out of the Phase 2 slice"@,
                )
            },
        },
{
    match playlist {
        HlsPlaylist::Media(media) => Ok((media, location)),
        HlsPlaylist::Master(_) => Err(
            Error::unsupported("nested master playlists are out of the Phase 2 slice"),
        ),
    }
}

} // verus!
