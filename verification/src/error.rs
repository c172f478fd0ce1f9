//! Errors of a stream.
use vstd::prelude::*;

verus! {

/// Broad classes of errors, named as in `std::io::ErrorKind`.
#[derive(Clone, Copy, Debug, PartialEq, Eq, Structural)]
pub enum ErrorKind {
    InvalidData,
    UnexpectedEof,
    Other,
}

/// Why a stream could not deliver a response.
#[derive(Debug, PartialEq, Eq)]
pub enum StreamError {
    /// The response does not fit in the largest buffer that was allowed.
    ResponseTooLarge,
    /// The end of a literal's prefix lies beyond what `usize` can count.
    LiteralOverflow,
    /// The transport ended inside a response.
    BytesRemaining,
    /// The transport ended inside the prefix of an oversized literal.
    LiteralTruncated,
    /// The bytes are no response; the text says what the parser found.
    Unparsable(String),
    /// The bytes are a malformed response that the parser has no answer to.
    Unsupported,
    /// The response needs more memory than one allocation can have.
    SizeOverflow,
}

/// What a [`StreamError`] says.
pub enum ErrorView {
    ResponseTooLarge,
    LiteralOverflow,
    BytesRemaining,
    LiteralTruncated,
    Unparsable(Seq<char>),
    Unsupported,
    SizeOverflow,
}

impl View for StreamError {
    type V = ErrorView;

    open spec fn view(&self) -> ErrorView {
        match self {
            StreamError::ResponseTooLarge => ErrorView::ResponseTooLarge,
            StreamError::LiteralOverflow => ErrorView::LiteralOverflow,
            StreamError::BytesRemaining => ErrorView::BytesRemaining,
            StreamError::LiteralTruncated => ErrorView::LiteralTruncated,
            StreamError::Unparsable(text) => ErrorView::Unparsable(text@),
            StreamError::Unsupported => ErrorView::Unsupported,
            StreamError::SizeOverflow => ErrorView::SizeOverflow,
        }
    }
}

impl ErrorView {
    /// The class of the error.
    pub open spec fn kind(self) -> ErrorKind {
        match self {
            ErrorView::BytesRemaining | ErrorView::LiteralTruncated => ErrorKind::UnexpectedEof,
            ErrorView::Unparsable(_) => ErrorKind::Other,
            _ => ErrorKind::InvalidData,
        }
    }

    /// The text that describes the error.
    pub open spec fn message(self) -> Seq<char> {
        match self {
            ErrorView::ResponseTooLarge => "incoming IMAP response too large"@,
            ErrorView::LiteralOverflow => "IMAP literal overflow"@,
            ErrorView::BytesRemaining => "bytes remaining in stream"@,
            ErrorView::LiteralTruncated =>
                "oversized IMAP literal ended before its retained prefix"@,
            ErrorView::Unparsable(text) => text,
            ErrorView::Unsupported => "unsupported IMAP response"@,
            ErrorView::SizeOverflow => "IMAP response size overflow"@,
        }
    }
}

impl StreamError {
    /// Returns the class of the error.
    pub fn kind(&self) -> (kind: ErrorKind)
        ensures
            kind == self@.kind(),
    {
        match self {
            StreamError::BytesRemaining | StreamError::LiteralTruncated => ErrorKind::UnexpectedEof,
            StreamError::Unparsable(_) => ErrorKind::Other,
            _ => ErrorKind::InvalidData,
        }
    }

    /// Returns the text that describes the error.
    pub fn message(&self) -> (text: String)
        ensures
            text@ == self@.message(),
    {
        match self {
            StreamError::ResponseTooLarge => "incoming IMAP response too large".to_owned(),
            StreamError::LiteralOverflow => "IMAP literal overflow".to_owned(),
            StreamError::BytesRemaining => "bytes remaining in stream".to_owned(),
            StreamError::LiteralTruncated =>
                "oversized IMAP literal ended before its retained prefix".to_owned(),
            StreamError::Unparsable(text) => text.clone(),
            StreamError::Unsupported => "unsupported IMAP response".to_owned(),
            StreamError::SizeOverflow => "IMAP response size overflow".to_owned(),
        }
    }
}

/// Why polling a stream failed: the transport's own error, or the stream's.
#[derive(Debug)]
pub enum PollError<E> {
    Transport(E),
    Stream(StreamError),
}

/// What a [`PollError`] says.
pub enum PollErrorView<E> {
    Transport(E),
    Stream(ErrorView),
}

impl<E> View for PollError<E> {
    type V = PollErrorView<E>;

    open spec fn view(&self) -> PollErrorView<E> {
        match *self {
            PollError::Transport(error) => PollErrorView::Transport(error),
            PollError::Stream(error) => PollErrorView::Stream(error@),
        }
    }
}

} // verus!
