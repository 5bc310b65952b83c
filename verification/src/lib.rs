//! Decisions of an HLS to MP4 transmuxer: where the playlists and segments are
//! read from, how segment bodies are prefetched, how demuxed packets become the
//! samples of MP4 tracks, and how the output file is put together.
//!
//! Reading, writing and waiting are left to the program around this library,
//! which hands in plain values and acts on plain values.

pub mod agreement;
pub mod boxes;
pub mod collect;
pub mod error;
pub mod fidelity;
pub mod fragment_course;
pub mod fragment_run;
pub mod fragments;
pub mod laws;
pub mod location;
pub mod options;
pub mod outside;
pub mod pipeline;
pub mod playlist;
pub mod prefetch;
pub mod prefetch_history;
pub mod range;
pub mod samples;
pub mod segment;
pub mod text;
pub mod tracks;
pub mod types;

pub use collect::PacketCollector;
pub use error::Error;
pub use location::{HlsInput, SourceLocation, TextResource};
pub use options::{FinalizeBackend, OutputFormat, TransmuxOptions, VariantSelection};
pub use range::ByteRange;
pub use types::TransmuxReport;
