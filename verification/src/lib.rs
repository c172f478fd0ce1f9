//! Incremental reading of IMAP server responses.
//!
//! An [`stream::ImapStream`] collects the bytes that a transport delivers in a
//! bounded [`buffer::Buffer`], has them parsed one response at a time, and can
//! cut a literal that is larger than a caller wants to a prefix of its body.
//! The transport itself stays with the caller: polling the stream is a state
//! machine that says how many bytes to read next and is told how the read went.

pub mod admission;
pub mod ascii;
pub mod block;
pub mod buffer;
pub mod conduct;
pub mod entry;
pub mod error;
pub mod laws;
pub mod literal;
pub mod parser;
pub mod poll;
pub mod purpose;
pub mod refusal;
pub mod request;
pub mod response;
pub mod size;
pub mod stream;
pub mod text;

pub use buffer::Buffer;
pub use error::{ErrorKind, PollError, StreamError};
pub use literal::{oversized_literal_boundary, OversizedLiteralBoundary};
pub use parser::ParseOutcome;
pub use poll::{PollEvent, PollStep, ReadEvent, ReadPurpose, ReadRequest};
pub use request::Request;
pub use response::{LiteralAwareResponse, LiteralPrefix, ResponseData};
pub use size::NonZeroSize;
pub use stream::{DecodeOutcome, ImapStream, RecoverableDecodeError};
