//! A stream of server responses.
use imap_proto::types::Response;
use vstd::prelude::*;
use vstd::string::StringExecFns;

use crate::admission::is_admitted;
use crate::block::MAX_BLOCK_SIZE;
use crate::buffer::{lemma_reset_size, Buffer, BufferView};
use crate::error::{PollError, StreamError};
use crate::laws::law_unlimited_stream_delivers_whole_responses;
use crate::literal::{oversized_literal_boundary, OversizedLiteralBoundary};
use crate::parser::{is_proper_suffix, parse_response, ParseOutcome, ParseView};
use crate::poll::{
    lemma_decoded_boundary, limit_view, whole_step, DecodeView, PollEvent, PollStep, ReadEvent,
    ReadPurpose, ReadRequest, RecoverView, StreamView,
};
use crate::request::{wire_pieces, Request};
use crate::response::{LiteralAwareResponse, LiteralPrefix, ResponseData};
use crate::size::NonZeroSize;
use crate::text::{decode_lossy, quote};

verus! {

/// What decoding the buffered bytes gave.
#[derive(Debug)]
pub enum DecodeOutcome {
    /// A response.
    Parsed(ResponseData),
    /// Nothing yet, more bytes are needed.
    Incomplete,
    /// The beginning of a literal that is larger than the limit.
    OversizedLiteral(OversizedLiteralBoundary),
}

/// The contents of a result of [`ImapStream::decode`].
pub open spec fn decode_view(result: Result<DecodeOutcome, StreamError>) -> DecodeView {
    match result {
        Ok(DecodeOutcome::Parsed(data)) => DecodeView::Parsed(data@),
        Ok(DecodeOutcome::Incomplete) => DecodeView::Incomplete,
        Ok(DecodeOutcome::OversizedLiteral(boundary)) => DecodeView::OversizedLiteral(boundary),
        Err(error) => DecodeView::Failed(error@),
    }
}

/// Why the parser gave no response.
#[derive(Debug)]
pub enum RecoverableDecodeError {
    Incomplete,
    OversizedLiteral(OversizedLiteralBoundary),
    Invalid(StreamError),
}

impl View for RecoverableDecodeError {
    type V = RecoverView;

    open spec fn view(&self) -> RecoverView {
        match *self {
            RecoverableDecodeError::Incomplete => RecoverView::Incomplete,
            RecoverableDecodeError::OversizedLiteral(boundary) => RecoverView::OversizedLiteral(
                boundary,
            ),
            RecoverableDecodeError::Invalid(error) => RecoverView::Invalid(error@),
        }
    }
}

/// Wraps a stream, and parses incoming data as IMAP server messages.
pub struct ImapStream<R> {
    /// The underlying stream.
    inner: R,
    /// Number of bytes the next decode operation needs if known.
    /// If the buffer contains less than this, it is a waste of time to try to parse it.
    /// If unknown, set it to 0, so decoding is always attempted.
    decode_needs: usize,
    /// The buffer.
    buffer: Buffer,
    /// True if the stream should not return any more items.
    read_closed: bool,
}

impl<R> View for ImapStream<R> {
    type V = StreamView;

    closed spec fn view(&self) -> StreamView {
        StreamView {
            buffer: self.buffer@,
            decode_needs: self.decode_needs as int,
            read_closed: self.read_closed,
        }
    }
}

impl<R> ImapStream<R> {
    /// The underlying stream.
    pub closed spec fn inner(&self) -> R {
        self.inner
    }

    /// Whether the block of the buffer can grow in place.
    pub closed spec fn owns_block(&self) -> bool {
        self.buffer.owns_block()
    }

    /// The stream is in a consistent state.
    pub open spec fn wf(&self) -> bool {
        self@.wf() && self.owns_block()
    }

    /// Creates a new `ImapStream` based on the given reader.
    pub fn new(inner: R) -> (stream: Self)
        ensures
            stream.wf(),
            stream.inner() == inner,
            stream@ == (StreamView {
                buffer: BufferView::empty(Buffer::DEFAULT_MAX_CAPACITY as int),
                decode_needs: 0,
                read_closed: false,
            }),
    {
        ImapStream { inner, buffer: Buffer::new(), decode_needs: 0, read_closed: false }
    }

    /// Creates an `ImapStream` whose response buffer cannot grow past `max_response_size`.
    pub fn new_with_max_response_size(inner: R, max_response_size: NonZeroSize) -> (stream: Self)
        ensures
            stream.wf(),
            stream.inner() == inner,
            stream@ == (StreamView {
                buffer: BufferView::empty(max_response_size@ as int),
                decode_needs: 0,
                read_closed: false,
            }),
    {
        ImapStream {
            inner,
            buffer: Buffer::new_with_max_response_size(max_response_size),
            decode_needs: 0,
            read_closed: false,
        }
    }

    /// Returns the pieces of bytes to write to the underlying stream, in order, to
    /// send `msg`.
    pub fn encode(&self, msg: Request) -> (pieces: Vec<Vec<u8>>)
        ensures
            pieces@.map_values(|piece: Vec<u8>| piece@) == wire_pieces(msg.tag(), msg.1@),
    {
        msg.into_pieces()
    }

    /// Gets a reference to the underlying stream.
    pub fn get_ref(&self) -> (inner: &R)
        ensures
            *inner == self.inner(),
    {
        &self.inner
    }

    /// Gets a mutable reference to the underlying stream.
    pub fn get_mut(&mut self) -> (inner: &mut R)
        ensures
            *inner == old(self).inner(),
            final(self).inner() == *final(inner),
            final(self)@ == old(self)@,
            final(self).owns_block() == old(self).owns_block(),
    {
        &mut self.inner
    }

    /// Returns underlying stream.
    pub fn into_inner(self) -> (inner: R)
        ensures
            inner == self.inner(),
    {
        self.inner
    }

    /// Gets a mutable reference to the underlying stream.
    pub fn as_mut(&mut self) -> (inner: &mut R)
        ensures
            *inner == old(self).inner(),
            final(self).inner() == *final(inner),
            final(self)@ == old(self)@,
            final(self).owns_block() == old(self).owns_block(),
    {
        &mut self.inner
    }

    /// Returns the buffer.
    pub fn buffer(&self) -> (buffer: &Buffer)
        ensures
            buffer@ == self@.buffer,
    {
        &self.buffer
    }

    /// Returns the number of bytes that decoding needs, or zero if that is unknown.
    pub fn decode_needs(&self) -> (count: usize)
        ensures
            count == self@.decode_needs,
    {
        self.decode_needs
    }

    /// Tells whether the stream has ended for reading.
    pub fn is_read_closed(&self) -> (closed: bool)
        ensures
            closed == self@.read_closed,
    {
        self.read_closed
    }

    /// Acts on what the parser made of the buffered bytes `buf`, while their block
    /// is taken from the buffer.
    pub fn settle(
        &mut self,
        buf: &[u8],
        outcome: ParseOutcome<'_>,
        literal_prefix_limit: Option<NonZeroSize>,
    ) -> (result: Result<Response<'static>, RecoverableDecodeError>)
        requires
            outcome@ matches ParseView::Complete { remaining, response } ==> remaining.len()
                <= old(self)@.buffer.limit && old(self)@.buffer.reset_size(remaining.len() as int)
                <= MAX_BLOCK_SIZE,
            !old(self)@.need_overflows(buf@, outcome@, limit_view(literal_prefix_limit)),
        ensures
            ({
                let (stream, settled) = old(self)@.settled(
                    buf@,
                    outcome@,
                    limit_view(literal_prefix_limit),
                );
                &&& final(self)@ == stream
                &&& match (result, settled) {
                    (Ok(response), Ok(settled)) => response == settled && final(self).owns_block(),
                    (Err(error), Err(settled)) => error@ == settled && final(self).owns_block()
                        == old(self).owns_block(),
                    _ => false,
                }
            }),
            final(self).inner() == old(self).inner(),
            outcome@ is Complete ==> final(self)@.buffer.wf(),
    {
        match outcome {
            ParseOutcome::Complete { remaining, response } => {
                self.decode_needs = 0;
                self.buffer.reset_with_data(remaining);
                Ok(response)
            },
            ParseOutcome::NeedsBytes(count) => {
                if let Some(limit) = literal_prefix_limit {
                    if let Some(boundary) = oversized_literal_boundary(buf, count, limit) {
                        self.decode_needs = 0;
                        return Err(RecoverableDecodeError::OversizedLiteral(boundary));
                    }
                }
                self.decode_needs = self.buffer.used() + count;
                Err(RecoverableDecodeError::Incomplete)
            },
            ParseOutcome::NeedsMore => {
                self.decode_needs = 0;
                Err(RecoverableDecodeError::Incomplete)
            },
            ParseOutcome::Failed(text) => {
                self.decode_needs = 0;
                let mut message = text;
                message.append(" during parsing of ");
                message.append(quote(decode_lossy(buf).as_str()).as_str());
                Err(RecoverableDecodeError::Invalid(StreamError::Unparsable(message)))
            },
        }
    }

    /// Tells whether the number of bytes that the parser asks for cannot be
    /// counted.
    fn overflows(
        &self,
        buf: &[u8],
        outcome: &ParseOutcome<'_>,
        literal_prefix_limit: Option<NonZeroSize>,
    ) -> (overflows: bool)
        ensures
            overflows == self@.need_overflows(buf@, outcome@, limit_view(literal_prefix_limit)),
    {
        match outcome {
            ParseOutcome::NeedsBytes(count) => {
                if self.buffer.used().checked_add(*count).is_some() {
                    return false;
                }
                match literal_prefix_limit {
                    Some(limit) => oversized_literal_boundary(buf, *count, limit).is_none(),
                    None => true,
                }
            },
            _ => false,
        }
    }

    /// Attempts to decode a single response from the buffer.
    ///
    /// Returns `Incomplete` if the buffer does not contain enough data.
    pub fn decode(&mut self, literal_prefix_limit: Option<NonZeroSize>) -> (result: Result<
        DecodeOutcome,
        StreamError,
    >)
        requires
            old(self).wf(),
        ensures
            final(self).wf(),
            final(self)@ == old(self)@.decoded(limit_view(literal_prefix_limit)).0,
            decode_view(result) == old(self)@.decoded(limit_view(literal_prefix_limit)).1,
            result matches Ok(DecodeOutcome::Parsed(_)) ==> is_proper_suffix(
                final(self)@.buffer.buffered(),
                old(self)@.buffer.buffered(),
            ),
            final(self)@.buffer.limit == old(self)@.buffer.limit,
            final(self).inner() == old(self).inner(),
    {
        let used: usize = self.buffer.used();
        if used < self.decode_needs {
            // We know that there is not enough data to decode anything
            // from previous attempts.
            return Ok(DecodeOutcome::Incomplete);
        }
        let block = self.buffer.take_block();
        // Be aware, now self.buffer is invalid until block is returned or reset!
        let buf: &[u8] = &block[0..used];
        if !is_admitted(buf) {
            self.decode_needs = 0;
            self.buffer.return_block(block);
            return Err(StreamError::Unsupported);
        }
        let outcome = parse_response(buf);
        if self.overflows(buf, &outcome, literal_prefix_limit) {
            self.buffer.return_block(block);
            return Err(StreamError::SizeOverflow);
        }
        proof {
            if let ParseView::Complete { remaining, response } = outcome@ {
                lemma_reset_size(old(self)@.buffer, remaining.len() as int);
                assert(old(self)@.buffer.reset(remaining).buffered() =~= remaining);
            }
        }
        match self.settle(buf, outcome, literal_prefix_limit) {
            Ok(response) => Ok(DecodeOutcome::Parsed(ResponseData::new(block, response))),
            Err(error) => {
                self.buffer.return_block(block);
                match error {
                    RecoverableDecodeError::Incomplete => Ok(DecodeOutcome::Incomplete),
                    RecoverableDecodeError::OversizedLiteral(boundary) => Ok(
                        DecodeOutcome::OversizedLiteral(boundary),
                    ),
                    RecoverableDecodeError::Invalid(error) => Err(error),
                }
            },
        }
    }

    /// Asks for more bytes of a response.
    fn ask_for_response<E>(&mut self, literal_prefix_limit: Option<NonZeroSize>) -> (step: PollStep<
        LiteralAwareResponse,
        E,
    >)
        requires
            old(self).wf(),
        ensures
            final(self).wf(),
            (final(self)@, step@) == old(self)@.asking::<E>(limit_view(literal_prefix_limit)),
            final(self)@.buffer.limit == old(self)@.buffer.limit,
            step matches PollStep::Read(request) ==> final(self)@.expects(
                request,
                limit_view(literal_prefix_limit),
            ),
            final(self).inner() == old(self).inner(),
    {
        if let Err(error) = self.buffer.prepare(self.decode_needs) {
            return PollStep::Ready(Some(Err(PollError::Stream(error))));
        }
        let free: usize = self.buffer.block().len() - self.buffer.used();
        // The buffer has at least one byte free, so that reading no bytes is the
        // end of the transport.
        let len: usize = match literal_prefix_limit {
            Some(limit) => {
                let limit: usize = limit.get();
                if limit < free {
                    limit
                } else {
                    free
                }
            },
            None => free,
        };
        PollStep::Read(ReadRequest { purpose: ReadPurpose::Response, len })
    }

    /// Continues the prefix of an oversized literal, which is complete when
    /// `target` bytes are buffered.
    fn continue_literal_prefix<E>(
        &mut self,
        boundary: OversizedLiteralBoundary,
        target: usize,
    ) -> (step: PollStep<LiteralAwareResponse, E>)
        requires
            old(self).wf(),
            boundary.literal_start <= target <= old(self)@.buffer.block.len(),
        ensures
            final(self).wf(),
            (final(self)@, step@) == old(self)@.continuing_prefix::<E>(boundary, target as int),
            final(self)@.buffer.limit == old(self)@.buffer.limit,
            final(self).inner() == old(self).inner(),
    {
        let used: usize = self.buffer.used();
        if used < target {
            let purpose = ReadPurpose::LiteralPrefix { boundary, target };
            return PollStep::Read(ReadRequest { purpose, len: target - used });
        }
        let block = self.buffer.take_block();
        let prefix = LiteralPrefix::new(
            boundary.declared_size,
            &block[boundary.literal_start..target],
        );
        self.buffer.reset_with_data(&[]);
        self.read_closed = true;
        PollStep::Ready(Some(Ok(LiteralAwareResponse::LiteralPrefix(prefix))))
    }

    /// Begins to read the prefix of an oversized literal.
    pub fn read_literal_prefix<E>(
        &mut self,
        boundary: OversizedLiteralBoundary,
        literal_prefix_limit: NonZeroSize,
    ) -> (step: PollStep<LiteralAwareResponse, E>)
        requires
            old(self).wf(),
        ensures
            final(self).wf(),
            (final(self)@, step@) == old(self)@.beginning_prefix::<E>(
                boundary,
                literal_prefix_limit@ as int,
            ),
            final(self)@.buffer.limit == old(self)@.buffer.limit,
            boundary.literal_start <= old(self)@.buffer.used && literal_prefix_limit@
                < boundary.declared_size ==> {
                step matches PollStep::Read(request) ==> final(self)@.expects(
                    request,
                    Some(literal_prefix_limit@ as int),
                )
            },
            final(self).inner() == old(self).inner(),
    {
        let target: usize = match boundary.literal_start.checked_add(literal_prefix_limit.get()) {
            Some(target) => target,
            None => {
                return PollStep::Ready(Some(Err(PollError::Stream(StreamError::LiteralOverflow))));
            },
        };
        if let Err(error) = self.buffer.prepare(target) {
            return PollStep::Ready(Some(Err(PollError::Stream(error))));
        }
        self.continue_literal_prefix(boundary, target)
    }

    /// Decodes what is buffered, and goes on from there.
    fn advance<E>(&mut self, literal_prefix_limit: Option<NonZeroSize>) -> (step: PollStep<
        LiteralAwareResponse,
        E,
    >)
        requires
            old(self).wf(),
        ensures
            final(self).wf(),
            (final(self)@, step@) == old(self)@.advancing::<E>(limit_view(literal_prefix_limit)),
            step matches PollStep::Ready(Some(Ok(LiteralAwareResponse::Parsed(_))))
                ==> is_proper_suffix(
                final(self)@.buffer.buffered(),
                old(self)@.buffer.buffered(),
            ),
            final(self)@.buffer.limit == old(self)@.buffer.limit,
            step matches PollStep::Read(request) ==> final(self)@.expects(
                request,
                limit_view(literal_prefix_limit),
            ),
            final(self).inner() == old(self).inner(),
    {
        proof {
            lemma_decoded_boundary(self@, limit_view(literal_prefix_limit));
        }
        let decoded = self.decode(literal_prefix_limit);
        self.follow(decoded, literal_prefix_limit)
    }

    /// Goes on from what decoding gave.
    pub fn follow<E>(
        &mut self,
        decoded: Result<DecodeOutcome, StreamError>,
        literal_prefix_limit: Option<NonZeroSize>,
    ) -> (step: PollStep<LiteralAwareResponse, E>)
        requires
            old(self).wf(),
            decode_view(decoded) is OversizedLiteral ==> literal_prefix_limit is Some,
        ensures
            final(self).wf(),
            (final(self)@, step@) == old(self)@.following::<E>(
                decode_view(decoded),
                limit_view(literal_prefix_limit),
            ),
            final(self)@.buffer.limit == old(self)@.buffer.limit,
            old(self)@.is_within(decode_view(decoded), limit_view(literal_prefix_limit)) ==> {
                step matches PollStep::Read(request) ==> final(self)@.expects(
                    request,
                    limit_view(literal_prefix_limit),
                )
            },
            final(self).inner() == old(self).inner(),
    {
        match decoded {
            Ok(DecodeOutcome::Parsed(response)) => PollStep::Ready(
                Some(Ok(LiteralAwareResponse::Parsed(response))),
            ),
            Ok(DecodeOutcome::OversizedLiteral(boundary)) => match literal_prefix_limit {
                Some(limit) => self.read_literal_prefix(boundary, limit),
                None => vstd::pervasive::unreached(),
            },
            Ok(DecodeOutcome::Incomplete) => self.ask_for_response(literal_prefix_limit),
            Err(error) => PollStep::Ready(Some(Err(PollError::Stream(error)))),
        }
    }

    /// Lets an event happen to the stream, and returns the next step.
    pub fn do_poll_next_with_literal_prefix<E>(
        &mut self,
        event: PollEvent<E>,
        literal_prefix_limit: Option<NonZeroSize>,
    ) -> (step: PollStep<LiteralAwareResponse, E>)
        requires
            old(self).wf(),
            old(self)@.accepts(event, limit_view(literal_prefix_limit)),
        ensures
            final(self).wf(),
            (final(self)@, step@) == old(self)@.stepped(event, limit_view(literal_prefix_limit)),
            step matches PollStep::Ready(Some(Ok(LiteralAwareResponse::Parsed(_))))
                ==> is_proper_suffix(
                final(self)@.buffer.buffered(),
                old(self)@.arrived(event).buffered(),
            ),
            final(self)@.buffer.limit == old(self)@.buffer.limit,
            step matches PollStep::Read(request) ==> final(self)@.expects(
                request,
                limit_view(literal_prefix_limit),
            ),
            final(self).inner() == old(self).inner(),
    {
        match event {
            PollEvent::Begin => self.advance(literal_prefix_limit),
            PollEvent::Read(_, ReadEvent::Pending) => PollStep::Pending,
            PollEvent::Read(_, ReadEvent::Failed(error)) => PollStep::Ready(
                Some(Err(PollError::Transport(error))),
            ),
            PollEvent::Read(request, ReadEvent::Filled(num_bytes_read)) => match request.purpose {
                ReadPurpose::Response => {
                    if num_bytes_read == 0 {
                        if self.buffer.used() > 0 {
                            return PollStep::Ready(
                                Some(Err(PollError::Stream(StreamError::BytesRemaining))),
                            );
                        }
                        return PollStep::Ready(None);
                    }
                    self.buffer.extend_used(num_bytes_read);
                    self.advance(literal_prefix_limit)
                },
                ReadPurpose::LiteralPrefix { boundary, target } => {
                    if num_bytes_read == 0 {
                        return PollStep::Ready(
                            Some(Err(PollError::Stream(StreamError::LiteralTruncated))),
                        );
                    }
                    self.buffer.extend_used(num_bytes_read);
                    self.continue_literal_prefix(boundary, target)
                },
            },
        }
    }

    /// Lets an event happen to a stream that an error closes and that has ended
    /// once it is closed.
    fn poll<E>(&mut self, event: PollEvent<E>, literal_prefix_limit: Option<NonZeroSize>) -> (step:
        PollStep<LiteralAwareResponse, E>)
        requires
            old(self).wf(),
            old(self)@.accepts(event, limit_view(literal_prefix_limit)),
        ensures
            final(self).wf(),
            (final(self)@, step@) == old(self)@.polled(event, limit_view(literal_prefix_limit)),
            step matches PollStep::Ready(Some(Ok(LiteralAwareResponse::Parsed(_))))
                ==> is_proper_suffix(
                final(self)@.buffer.buffered(),
                old(self)@.arrived(event).buffered(),
            ),
            final(self)@.buffer.limit == old(self)@.buffer.limit,
            step matches PollStep::Read(request) ==> final(self)@.expects(
                request,
                limit_view(literal_prefix_limit),
            ),
            final(self).inner() == old(self).inner(),
    {
        if self.read_closed {
            return PollStep::Ready(None);
        }
        let step = self.do_poll_next_with_literal_prefix(event, literal_prefix_limit);
        if let PollStep::Ready(Some(Err(_))) = &step {
            self.read_closed = true;
        }
        step
    }

    /// Takes a step towards the next response, or towards the prefix of a literal
    /// that is larger than the limit.
    pub fn next_with_literal_prefix<E>(
        &mut self,
        event: PollEvent<E>,
        literal_prefix_limit: NonZeroSize,
    ) -> (step: PollStep<LiteralAwareResponse, E>)
        requires
            old(self).wf(),
            old(self)@.accepts(event, Some(literal_prefix_limit@ as int)),
        ensures
            final(self).wf(),
            (final(self)@, step@) == old(self)@.polled(event, Some(literal_prefix_limit@ as int)),
            step matches PollStep::Ready(Some(Ok(LiteralAwareResponse::Parsed(_))))
                ==> is_proper_suffix(
                final(self)@.buffer.buffered(),
                old(self)@.arrived(event).buffered(),
            ),
            final(self)@.buffer.limit == old(self)@.buffer.limit,
            step matches PollStep::Read(request) ==> final(self)@.expects(
                request,
                Some(literal_prefix_limit@ as int),
            ),
            final(self).inner() == old(self).inner(),
    {
        self.poll(event, Some(literal_prefix_limit))
    }

    /// Takes a step towards the next response.
    pub fn poll_next<E>(&mut self, event: PollEvent<E>) -> (step: PollStep<ResponseData, E>)
        requires
            old(self).wf(),
            old(self)@.accepts(event, None),
        ensures
            final(self).wf(),
            (final(self)@, whole_step(step@)) == old(self)@.polled(event, None),
            step matches PollStep::Ready(Some(Ok(_)))
                ==> is_proper_suffix(
                final(self)@.buffer.buffered(),
                old(self)@.arrived(event).buffered(),
            ),
            final(self)@.buffer.limit == old(self)@.buffer.limit,
            step matches PollStep::Read(request) ==> final(self)@.expects(request, None),
            final(self).inner() == old(self).inner(),
    {
        proof {
            law_unlimited_stream_delivers_whole_responses(self@, event);
        }
        match self.poll(event, None) {
            PollStep::Ready(None) => PollStep::Ready(None),
            PollStep::Ready(Some(Err(error))) => PollStep::Ready(Some(Err(error))),
            PollStep::Ready(Some(Ok(LiteralAwareResponse::Parsed(item)))) => PollStep::Ready(
                Some(Ok(item)),
            ),
            PollStep::Ready(Some(Ok(LiteralAwareResponse::LiteralPrefix(_)))) =>
                vstd::pervasive::unreached(),
            PollStep::Pending => PollStep::Pending,
            PollStep::Read(request) => PollStep::Read(request),
        }
    }

    /// Hands out the underlying stream and the part of the buffer to read into.
    pub fn read_parts(&mut self, request: ReadRequest) -> (parts: (&mut R, &mut [u8]))
        requires
            old(self).wf(),
            request.len <= old(self)@.buffer.free(),
        ensures
            *parts.0 == old(self).inner(),
            parts.1@ == old(self)@.buffer.block.subrange(
                old(self)@.buffer.used,
                old(self)@.buffer.used + request.len,
            ),
            final(parts.1)@.len() == parts.1@.len(),
            final(self).wf(),
            final(self).inner() == *final(parts.0),
            final(self)@ == old(self)@.with_buffer(
                old(self)@.buffer.with_block(
                    old(self)@.buffer.block.take(old(self)@.buffer.used) + final(parts.1)@
                        + old(self)@.buffer.block.skip(old(self)@.buffer.used + request.len),
                ),
            ),
    {
        let free = self.buffer.free_as_mut_slice();
        let (target, _) = free.split_at_mut(request.len);
        (&mut self.inner, target)
    }
}

} // verus!
