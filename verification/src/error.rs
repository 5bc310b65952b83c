//! What can go wrong while transmuxing.

use vstd::prelude::*;

verus! {

/// A failure, sorted by where it comes from. Each variant carries a message.
#[derive(Debug, PartialEq, Eq)]
pub enum Error {
    /// The file system failed.
    Io(String),
    /// An HTTP exchange failed.
    Http(String),
    /// The caller's input is not usable.
    InvalidInput(String),
    /// The input needs a feature that is not supported.
    Unsupported(String),
    /// The media bytes are malformed.
    Bitstream(String),
    /// The samples cannot be laid out in an MP4 file.
    Muxing(String),
}

/// The value of an [`Error`] in contracts.
pub enum ErrorView {
    Io(Seq<char>),
    Http(Seq<char>),
    InvalidInput(Seq<char>),
    Unsupported(Seq<char>),
    Bitstream(Seq<char>),
    Muxing(Seq<char>),
}

impl View for Error {
    type V = ErrorView;

    open spec fn view(&self) -> ErrorView {
        match self {
            Error::Io(m) => ErrorView::Io(m@),
            Error::Http(m) => ErrorView::Http(m@),
            Error::InvalidInput(m) => ErrorView::InvalidInput(m@),
            Error::Unsupported(m) => ErrorView::Unsupported(m@),
            Error::Bitstream(m) => ErrorView::Bitstream(m@),
            Error::Muxing(m) => ErrorView::Muxing(m@),
        }
    }
}

impl Clone for Error {
    fn clone(&self) -> (copy: Self)
        ensures
            copy@ == self@,
    {
        match self {
            Error::Io(m) => Error::Io(m.clone()),
            Error::Http(m) => Error::Http(m.clone()),
            Error::InvalidInput(m) => Error::InvalidInput(m.clone()),
            Error::Unsupported(m) => Error::Unsupported(m.clone()),
            Error::Bitstream(m) => Error::Bitstream(m.clone()),
            Error::Muxing(m) => Error::Muxing(m.clone()),
        }
    }
}

impl Error {
    /// An input the caller has to correct.
    pub fn invalid(message: &str) -> (error: Error)
        ensures
            error@ == ErrorView::InvalidInput(message@),
    {
        Error::InvalidInput(message.to_owned())
    }

    /// An input that needs an unsupported feature.
    pub fn unsupported(message: &str) -> (error: Error)
        ensures
            error@ == ErrorView::Unsupported(message@),
    {
        Error::Unsupported(message.to_owned())
    }

    /// Malformed media bytes.
    pub fn bitstream(message: &str) -> (error: Error)
        ensures
            error@ == ErrorView::Bitstream(message@),
    {
        Error::Bitstream(message.to_owned())
    }

    /// Samples that cannot be laid out.
    pub fn muxing(message: &str) -> (error: Error)
        ensures
            error@ == ErrorView::Muxing(message@),
    {
        Error::Muxing(message.to_owned())
    }

    /// The message that the error carries.
    pub fn message(&self) -> (message: &str)
        ensures
            message@ == error_message(self@),
    {
        match self {
            Error::Io(m) => m.as_str(),
            Error::Http(m) => m.as_str(),
            Error::InvalidInput(m) => m.as_str(),
            Error::Unsupported(m) => m.as_str(),
            Error::Bitstream(m) => m.as_str(),
            Error::Muxing(m) => m.as_str(),
        }
    }
}

/// The message inside an error value.
pub open spec fn error_message(error: ErrorView) -> Seq<char> {
    match error {
        ErrorView::Io(m) => m,
        ErrorView::Http(m) => m,
        ErrorView::InvalidInput(m) => m,
        ErrorView::Unsupported(m) => m,
        ErrorView::Bitstream(m) => m,
        ErrorView::Muxing(m) => m,
    }
}

} // verus!
