//! The state machine behind reading a response.
//!
//! A poll begins with the event [`PollEvent::Begin`]. Each step either ends the
//! poll or asks for a read of at most so many bytes; how the read went is the
//! next event.
use imap_proto::types::Response;
use vstd::prelude::*;

use crate::admission::parser_admits;
use crate::buffer::{min, BufferView};
use crate::error::{ErrorView, PollError, PollErrorView};
use crate::literal::{first_boundary, lemma_first_boundary, OversizedLiteralBoundary};
use crate::parser::{parse_result, ParseView};
use crate::response::{ItemView, PrefixView, ResponseView};
use crate::size::NonZeroSize;
use crate::text::{lossy_text, quoted_text};

verus! {

/// What the bytes of a read are for.
#[derive(Clone, Copy, Debug, PartialEq, Eq, Structural)]
pub enum ReadPurpose {
    /// They continue a response.
    Response,
    /// They continue the prefix of an oversized literal. The prefix is complete
    /// when `target` bytes are buffered.
    LiteralPrefix { boundary: OversizedLiteralBoundary, target: usize },
}

/// A request to read at least one and at most `len` bytes.
#[derive(Clone, Copy, Debug, PartialEq, Eq, Structural)]
pub struct ReadRequest {
    pub purpose: ReadPurpose,
    pub len: usize,
}

/// How a read went.
#[derive(Debug)]
pub enum ReadEvent<E> {
    /// The transport has nothing to read yet.
    Pending,
    /// The transport failed.
    Failed(E),
    /// So many bytes were read; none at the end of the transport.
    Filled(usize),
}

/// What happens to a stream.
#[derive(Debug)]
pub enum PollEvent<E> {
    /// The caller wants an item.
    Begin,
    /// The read that was requested went like this.
    Read(ReadRequest, ReadEvent<E>),
}

/// What is to be done next.
#[derive(Debug)]
pub enum PollStep<T, E> {
    /// The poll ends with an item, an error, or the end of the stream.
    Ready(Option<Result<T, PollError<E>>>),
    /// The poll ends without a result, and may begin anew later.
    Pending,
    /// Read, and report how it went.
    Read(ReadRequest),
}

/// The contents of a [`PollStep`].
pub enum StepView<T, E> {
    Ready(Option<Result<T, PollErrorView<E>>>),
    Pending,
    Read(ReadRequest),
}

impl<T: View, E> View for PollStep<T, E> {
    type V = StepView<T::V, E>;

    open spec fn view(&self) -> StepView<T::V, E> {
        match *self {
            PollStep::Ready(None) => StepView::Ready(None),
            PollStep::Ready(Some(Ok(item))) => StepView::Ready(Some(Ok(item@))),
            PollStep::Ready(Some(Err(error))) => StepView::Ready(Some(Err(error@))),
            PollStep::Pending => StepView::Pending,
            PollStep::Read(request) => StepView::Read(request),
        }
    }
}

/// What decoding the buffered bytes gives.
pub enum DecodeView {
    Parsed(ResponseView),
    Incomplete,
    OversizedLiteral(OversizedLiteralBoundary),
    Failed(ErrorView),
}

/// Why the parser gave no response.
pub enum RecoverView {
    Incomplete,
    OversizedLiteral(OversizedLiteralBoundary),
    Invalid(ErrorView),
}

/// The state of a stream, without its transport.
#[verifier::ext_equal]
pub struct StreamView {
    pub buffer: BufferView,
    pub decode_needs: int,
    pub read_closed: bool,
}

/// The limit on literals as a number.
pub open spec fn limit_view(limit: Option<NonZeroSize>) -> Option<int> {
    match limit {
        Some(limit) => Some(limit@ as int),
        None => None,
    }
}

/// The description of a failure of the parser on `input`.
pub open spec fn unparsable_text(failure: Seq<char>, input: Seq<u8>) -> Seq<char> {
    failure + " during parsing of "@ + quoted_text(lossy_text(input))
}

/// The boundary of the oversized literal that `input` ends in, if literals are
/// limited at all.
pub open spec fn limited_boundary(input: Seq<u8>, needed: int, limit: Option<int>) -> Option<
    OversizedLiteralBoundary,
> {
    match limit {
        Some(limit) => first_boundary(input, 0, needed, limit),
        None => None,
    }
}

/// The step of a stream that delivers whole responses, as a step of one that may
/// also deliver prefixes of literals.
pub open spec fn whole_step<E>(step: StepView<ResponseView, E>) -> StepView<ItemView, E> {
    match step {
        StepView::Ready(None) => StepView::Ready(None),
        StepView::Ready(Some(Ok(response))) => StepView::Ready(Some(Ok(ItemView::Parsed(response)))),
        StepView::Ready(Some(Err(error))) => StepView::Ready(Some(Err(error))),
        StepView::Pending => StepView::Pending,
        StepView::Read(request) => StepView::Read(request),
    }
}

impl StreamView {
    /// The buffer is consistent.
    pub open spec fn wf(self) -> bool {
        &&& self.buffer.wf()
        &&& 0 <= self.decode_needs <= usize::MAX
    }

    /// The stream with another number of bytes needed to decode.
    pub open spec fn needing(self, decode_needs: int) -> StreamView {
        StreamView { decode_needs, ..self }
    }

    /// The stream with another buffer.
    pub open spec fn with_buffer(self, buffer: BufferView) -> StreamView {
        StreamView { buffer, ..self }
    }

    /// The stream after it was closed for reading.
    pub open spec fn closed(self) -> StreamView {
        StreamView { read_closed: true, ..self }
    }

    /// What becomes of the stream, and of the response, if the parser's answer to
    /// `input` is `outcome`.
    pub open spec fn settled(self, input: Seq<u8>, outcome: ParseView, limit: Option<int>) -> (
        StreamView,
        Result<Response<'static>, RecoverView>,
    ) {
        match outcome {
            ParseView::Complete { remaining, response } => (
                self.needing(0).with_buffer(self.buffer.reset(remaining)),
                Ok(response),
            ),
            ParseView::NeedsBytes(count) => match limited_boundary(input, count as int, limit) {
                Some(boundary) => (self.needing(0), Err(RecoverView::OversizedLiteral(boundary))),
                None => (self.needing(self.buffer.used + count), Err(RecoverView::Incomplete)),
            },
            ParseView::NeedsMore => (self.needing(0), Err(RecoverView::Incomplete)),
            ParseView::Failed(text) => (
                self.needing(0),
                Err(RecoverView::Invalid(ErrorView::Unparsable(unparsable_text(text, input)))),
            ),
        }
    }

    /// Whether the number of bytes that the parser asks for cannot be counted.
    pub open spec fn need_overflows(
        self,
        input: Seq<u8>,
        outcome: ParseView,
        limit: Option<int>,
    ) -> bool {
        outcome matches ParseView::NeedsBytes(count) && limited_boundary(input, count as int, limit)
            is None && self.buffer.used + count > usize::MAX
    }

    /// What decoding gives if the parser's answer to the buffered bytes is
    /// `outcome`.
    pub open spec fn decoded_as(self, outcome: ParseView, limit: Option<int>) -> (
        StreamView,
        DecodeView,
    ) {
        if self.need_overflows(self.buffer.buffered(), outcome, limit) {
            (self, DecodeView::Failed(ErrorView::SizeOverflow))
        } else {
            let (stream, result) = self.settled(self.buffer.buffered(), outcome, limit);
            let decoded = match result {
                Ok(response) => DecodeView::Parsed(
                    ResponseView { block: self.buffer.block, response },
                ),
                Err(RecoverView::Incomplete) => DecodeView::Incomplete,
                Err(RecoverView::OversizedLiteral(boundary)) => DecodeView::OversizedLiteral(
                    boundary,
                ),
                Err(RecoverView::Invalid(error)) => DecodeView::Failed(error),
            };
            (stream, decoded)
        }
    }

    /// What decoding the buffered bytes gives.
    pub open spec fn decoded(self, limit: Option<int>) -> (StreamView, DecodeView) {
        if self.buffer.used < self.decode_needs {
            (self, DecodeView::Incomplete)
        } else if !parser_admits(self.buffer.buffered()) {
            (self.needing(0), DecodeView::Failed(ErrorView::Unsupported))
        } else {
            self.decoded_as(parse_result(self.buffer.buffered()), limit)
        }
    }

    /// A poll that ends with an error of the stream.
    pub open spec fn failed<E>(self, error: ErrorView) -> (StreamView, StepView<ItemView, E>) {
        (self, StepView::Ready(Some(Err(PollErrorView::Stream(error)))))
    }

    /// How many bytes a read that continues a response may bring.
    pub open spec fn response_read_len(self, limit: Option<int>) -> int {
        match limit {
            Some(limit) => min(self.buffer.free(), limit),
            None => self.buffer.free(),
        }
    }

    /// The step that asks for more bytes of a response.
    pub open spec fn asking<E>(self, limit: Option<int>) -> (StreamView, StepView<ItemView, E>) {
        match self.buffer.prepared(self.decode_needs) {
            Ok(buffer) => {
                let stream = self.with_buffer(buffer);
                let len = stream.response_read_len(limit) as usize;
                (stream, StepView::Read(ReadRequest { purpose: ReadPurpose::Response, len }))
            },
            Err(error) => self.failed(error),
        }
    }

    /// The step that continues the prefix of an oversized literal: a read, or the
    /// prefix and the end of the stream.
    pub open spec fn continuing_prefix<E>(self, boundary: OversizedLiteralBoundary, target: int) -> (
        StreamView,
        StepView<ItemView, E>,
    ) {
        if self.buffer.used < target {
            let purpose = ReadPurpose::LiteralPrefix { boundary, target: target as usize };
            let len = (target - self.buffer.used) as usize;
            (self, StepView::Read(ReadRequest { purpose, len }))
        } else {
            let prefix = PrefixView {
                declared_size: boundary.declared_size,
                data: self.buffer.block.subrange(boundary.literal_start as int, target),
            };
            (
                self.with_buffer(self.buffer.reset(seq![])).closed(),
                StepView::Ready(Some(Ok(ItemView::LiteralPrefix(prefix)))),
            )
        }
    }

    /// The step that begins the prefix of an oversized literal.
    pub open spec fn beginning_prefix<E>(self, boundary: OversizedLiteralBoundary, limit: int) -> (
        StreamView,
        StepView<ItemView, E>,
    ) {
        let target = boundary.literal_start + limit;
        if target > usize::MAX {
            self.failed(ErrorView::LiteralOverflow)
        } else {
            match self.buffer.prepared(target) {
                Ok(buffer) => self.with_buffer(buffer).continuing_prefix(boundary, target),
                Err(error) => self.failed(error),
            }
        }
    }

    /// The step that follows the decoding.
    pub open spec fn following<E>(self, decoded: DecodeView, limit: Option<int>) -> (
        StreamView,
        StepView<ItemView, E>,
    ) {
        match decoded {
            DecodeView::Parsed(response) => (
                self,
                StepView::Ready(Some(Ok(ItemView::Parsed(response)))),
            ),
            DecodeView::OversizedLiteral(boundary) => self.beginning_prefix(
                boundary,
                limit.unwrap(),
            ),
            DecodeView::Incomplete => self.asking(limit),
            DecodeView::Failed(error) => self.failed(error),
        }
    }

    /// The step that decodes what is buffered.
    pub open spec fn advancing<E>(self, limit: Option<int>) -> (StreamView, StepView<ItemView, E>) {
        let (stream, decoded) = self.decoded(limit);
        stream.following(decoded, limit)
    }

    /// The step after a read of `num_bytes` bytes.
    pub open spec fn filled<E>(self, request: ReadRequest, num_bytes: int, limit: Option<int>) -> (
        StreamView,
        StepView<ItemView, E>,
    ) {
        let stream = self.with_buffer(self.buffer.extended(num_bytes));
        match request.purpose {
            ReadPurpose::Response => if num_bytes > 0 {
                stream.advancing(limit)
            } else if self.buffer.used > 0 {
                self.failed(ErrorView::BytesRemaining)
            } else {
                (self, StepView::Ready(None))
            },
            ReadPurpose::LiteralPrefix { boundary, target } => if num_bytes > 0 {
                stream.continuing_prefix(boundary, target as int)
            } else {
                self.failed(ErrorView::LiteralTruncated)
            },
        }
    }

    /// The step that an event leads to.
    pub open spec fn stepped<E>(self, event: PollEvent<E>, limit: Option<int>) -> (
        StreamView,
        StepView<ItemView, E>,
    ) {
        match event {
            PollEvent::Begin => self.advancing(limit),
            PollEvent::Read(_, ReadEvent::Pending) => (self, StepView::Pending),
            PollEvent::Read(_, ReadEvent::Failed(error)) => (
                self,
                StepView::Ready(Some(Err(PollErrorView::Transport(error)))),
            ),
            PollEvent::Read(request, ReadEvent::Filled(num_bytes)) => self.filled(
                request,
                num_bytes as int,
                limit,
            ),
        }
    }

    /// The step that an event leads to, if an error closes the stream and a closed
    /// stream has ended.
    pub open spec fn polled<E>(self, event: PollEvent<E>, limit: Option<int>) -> (
        StreamView,
        StepView<ItemView, E>,
    ) {
        if self.read_closed {
            (self, StepView::Ready(None))
        } else {
            let (stream, step) = self.stepped(event, limit);
            match step {
                StepView::Ready(Some(Err(_))) => (stream.closed(), step),
                _ => (stream, step),
            }
        }
    }

    /// The buffer with the bytes that an event brought.
    pub open spec fn arrived<E>(self, event: PollEvent<E>) -> BufferView {
        match event {
            PollEvent::Read(_, ReadEvent::Filled(num_bytes)) => self.buffer.extended(
                num_bytes as int,
            ),
            _ => self.buffer,
        }
    }

    /// Whether a boundary that decoding gave belongs to a literal that is larger than
    /// the limit and whose body begins within the buffered bytes.
    pub open spec fn is_within(self, decoded: DecodeView, limit: Option<int>) -> bool {
        decoded matches DecodeView::OversizedLiteral(boundary) ==> {
            &&& limit matches Some(limit) && limit < boundary.declared_size
            &&& boundary.literal_start <= self.buffer.used
        }
    }

    /// Whether a read may go like `request`, which an earlier step made.
    pub open spec fn expects(self, request: ReadRequest, limit: Option<int>) -> bool {
        match request.purpose {
            ReadPurpose::Response => {
                &&& 0 < request.len
                &&& request.len == self.response_read_len(limit)
            },
            ReadPurpose::LiteralPrefix { boundary, target } => {
                &&& limit matches Some(limit) && target == boundary.literal_start + limit && limit
                    < boundary.declared_size
                &&& boundary.literal_start <= self.buffer.used < target <= self.buffer.block.len()
                &&& request.len == target - self.buffer.used
            },
        }
    }

    /// Whether `event` can happen to the stream now.
    pub open spec fn accepts<E>(self, event: PollEvent<E>, limit: Option<int>) -> bool {
        event matches PollEvent::Read(request, _) ==> self.expects(request, limit)
    }
}

/// A boundary is only found where literals are limited, and lies within the
/// buffered bytes.
pub proof fn lemma_decoded_boundary(stream: StreamView, limit: Option<int>)
    requires
        stream.wf(),
    ensures
        stream.decoded(limit).0.is_within(stream.decoded(limit).1, limit),
{
    let input = stream.buffer.buffered();
    if let Some(limit) = limit {
        if let ParseView::NeedsBytes(count) = parse_result(input) {
            lemma_first_boundary(input, 0, count as int, limit);
        }
    }
}

} // verus!
