//! How a stream behaves towards its transport and its caller, said of bytes, sizes
//! and results alone.
use imap_proto::types::Response;
use vstd::prelude::*;

use crate::admission::parser_admits;
use crate::buffer::BufferView;
use crate::error::{ErrorView, PollError, PollErrorView, StreamError};
use crate::literal::{first_boundary, OversizedLiteralBoundary};
use crate::parser::{is_proper_suffix, parse_result, ParseOutcome, ParseView};
use crate::poll::{
    limit_view, whole_step, DecodeView, PollEvent, PollStep, ReadEvent, ReadPurpose, ReadRequest,
    RecoverView, StepView, StreamView,
};
use crate::purpose::{
    are_digits, declaration, held, is_cut_short, is_stream, lacking,
    law_literal_behind_any_front_is_found, law_room_within_the_limit_is_always_made, number,
};
use crate::response::{
    ItemView, LiteralAwareResponse, LiteralPrefix, PrefixView, ResponseData, ResponseView,
};
use crate::size::NonZeroSize;
use crate::stream::{decode_view, DecodeOutcome, RecoverableDecodeError};
use crate::text::{lossy_text, quoted_text};

verus! {

/// The stream with `used` bytes of its block in use.
pub open spec fn with_used(stream: StreamView, used: int) -> StreamView {
    StreamView { buffer: BufferView { used, ..stream.buffer }, ..stream }
}

/// The step that reports an error of the stream.
pub open spec fn error_step<E>(error: ErrorView) -> StepView<ItemView, E> {
    StepView::Ready(Some(Err(PollErrorView::Stream(error))))
}

/// The boundary that the search finds in the bytes that a stream holds, if literals
/// are limited.
pub open spec fn found_boundary(stream: StreamView, count: int, limit: Option<int>) -> Option<
    OversizedLiteralBoundary,
> {
    match limit {
        Some(limit) => first_boundary(held(stream.buffer), 0, count, limit),
        None => None,
    }
}

/// If the parser finds a response, the response is given out with the block that it
/// came in, exactly the bytes behind it stay buffered, and decoding is tried again at
/// once.
pub proof fn law_bytes_behind_a_response_are_kept(
    stream: StreamView,
    remaining: Seq<u8>,
    response: Response<'static>,
    limit: Option<int>,
)
    requires
        is_stream(stream),
        remaining.len() <= stream.buffer.limit,
    ensures
        ({
            let (next, decoded) = stream.decoded_as(
                ParseView::Complete { remaining, response },
                limit,
            );
            &&& held(next.buffer) == remaining
            &&& next.buffer.limit == stream.buffer.limit
            &&& next.decode_needs == 0
            &&& next.read_closed == stream.read_closed
            &&& decoded == DecodeView::Parsed(ResponseView { block: stream.buffer.block, response })
        }),
{
    let (next, decoded) = stream.decoded_as(ParseView::Complete { remaining, response }, limit);
    assert(held(next.buffer) =~= remaining);
}

/// If the parser lacks `count` bytes, decoding waits until so many more have come,
/// unless an oversized literal is what it lacks; the buffer stays as it is.
pub proof fn law_bytes_that_the_parser_lacks_are_waited_for(
    stream: StreamView,
    count: usize,
    limit: Option<int>,
)
    ensures
        stream.decoded_as(ParseView::NeedsBytes(count), limit) == match found_boundary(
            stream,
            count as int,
            limit,
        ) {
            Some(boundary) => (
                StreamView { decode_needs: 0, ..stream },
                DecodeView::OversizedLiteral(boundary),
            ),
            None => if stream.buffer.used + count > usize::MAX {
                (stream, DecodeView::Failed(ErrorView::SizeOverflow))
            } else {
                (
                    StreamView { decode_needs: stream.buffer.used + count, ..stream },
                    DecodeView::Incomplete,
                )
            },
        },
{
}

/// If the parser lacks bytes and cannot say how many, decoding is tried again with the
/// next that come; the buffer stays as it is.
pub proof fn law_unknown_number_of_bytes_is_waited_for(stream: StreamView, limit: Option<int>)
    ensures
        stream.decoded_as(ParseView::NeedsMore, limit) == (
            StreamView { decode_needs: 0, ..stream },
            DecodeView::Incomplete,
        ),
{
}

/// If the parser fails, decoding fails with its complaint and the bytes that it
/// complains of; the buffer stays as it is.
pub proof fn law_complaint_of_the_parser_is_passed_on(
    stream: StreamView,
    text: Seq<char>,
    limit: Option<int>,
)
    ensures
        stream.decoded_as(ParseView::Failed(text), limit) == (
            StreamView { decode_needs: 0, ..stream },
            DecodeView::Failed(
                ErrorView::Unparsable(
                    text + " during parsing of "@ + quoted_text(lossy_text(held(stream.buffer))),
                ),
            ),
        ),
{
}

/// Decoding is not tried before the bytes that the parser asked for are there. Then
/// all bytes that are held are given to the parser, unless it would panic, and what
/// becomes of its answer does not depend on anything else.
pub proof fn law_decoding_asks_the_parser_about_all_bytes(stream: StreamView, limit: Option<int>)
    ensures
        stream.buffer.used < stream.decode_needs ==> stream.decoded(limit) == (
            stream,
            DecodeView::Incomplete,
        ),
        stream.buffer.used >= stream.decode_needs && !parser_admits(held(stream.buffer))
            ==> stream.decoded(limit) == (
            StreamView { decode_needs: 0, ..stream },
            DecodeView::Failed(ErrorView::Unsupported),
        ),
        stream.buffer.used >= stream.decode_needs && parser_admits(held(stream.buffer))
            ==> stream.decoded(limit) == stream.decoded_as(
            parse_result(held(stream.buffer)),
            limit,
        ),
{
}

/// While the block is taken from the buffer, the parser's answer on `input` has the
/// same effects: the response and the bytes behind it, the number of bytes to wait
/// for, the boundary of an oversized literal in `input`, or the complaint.
pub proof fn law_answers_are_settled(
    stream: StreamView,
    input: Seq<u8>,
    outcome: ParseView,
    limit: Option<int>,
)
    ensures
        ({
            let found = match (outcome, limit) {
                (ParseView::NeedsBytes(count), Some(limit)) => first_boundary(
                    input,
                    0,
                    count as int,
                    limit,
                ),
                _ => None,
            };
            let lacks_too_many = outcome matches ParseView::NeedsBytes(count) && found is None
                && stream.buffer.used + count > usize::MAX;
            let again = StreamView { decode_needs: 0, ..stream };
            &&& stream.need_overflows(input, outcome, limit) <==> lacks_too_many
            &&& match outcome {
                ParseView::Complete { remaining, response } => {
                    let (next, result) = stream.settled(input, outcome, limit);
                    &&& next == StreamView { buffer: stream.buffer.reset(remaining), ..again }
                    &&& result == Ok::<Response<'static>, RecoverView>(response)
                },
                ParseView::NeedsBytes(count) => stream.settled(input, outcome, limit) == match found {
                    Some(boundary) => (
                        again,
                        Err::<Response<'static>, RecoverView>(
                            RecoverView::OversizedLiteral(boundary),
                        ),
                    ),
                    None => (
                        StreamView { decode_needs: stream.buffer.used + count, ..stream },
                        Err(RecoverView::Incomplete),
                    ),
                },
                ParseView::NeedsMore => stream.settled(input, outcome, limit) == (
                    again,
                    Err::<Response<'static>, RecoverView>(RecoverView::Incomplete),
                ),
                ParseView::Failed(text) => stream.settled(input, outcome, limit) == (
                    again,
                    Err::<Response<'static>, RecoverView>(
                        RecoverView::Invalid(
                            ErrorView::Unparsable(
                                text + " during parsing of "@ + quoted_text(lossy_text(input)),
                            ),
                        ),
                    ),
                ),
            }
        }),
{
}

/// The bytes behind a response are what is left after at least one byte was taken from
/// the front.
pub proof fn law_rest_is_behind_what_was_taken(taken: Seq<u8>, rest: Seq<u8>, input: Seq<u8>)
    ensures
        taken.len() > 0 && input == taken + rest ==> is_proper_suffix(rest, input),
        is_proper_suffix(rest, input) ==> rest.len() < input.len() && input == input.take(
            input.len() - rest.len(),
        ) + rest,
{
    if input == taken + rest {
        assert(rest =~= input.skip(input.len() - rest.len()));
    }
    if is_proper_suffix(rest, input) {
        assert(input =~= input.take(input.len() - rest.len()) + rest);
    }
}

/// What an event brought is what was read, and nothing else.
pub proof fn law_only_reads_bring_bytes<E>(
    stream: StreamView,
    request: ReadRequest,
    num_bytes: usize,
    error: E,
)
    requires
        is_stream(stream),
    ensures
        stream.arrived(PollEvent::<E>::Begin) == stream.buffer,
        stream.arrived(PollEvent::<E>::Read(request, ReadEvent::Pending)) == stream.buffer,
        stream.arrived(PollEvent::Read(request, ReadEvent::Failed(error))) == stream.buffer,
        stream.buffer.used + num_bytes <= stream.buffer.block.len() ==> stream.arrived(
            PollEvent::<E>::Read(request, ReadEvent::Filled(num_bytes)),
        ) == (BufferView { used: stream.buffer.used + num_bytes, ..stream.buffer }),
{
}

/// A pause of the transport ends the poll without a result and changes nothing:
/// whatever is buffered, and whatever the read was for, the stream is as open as it
/// was.
pub proof fn law_pause_changes_nothing<E>(
    stream: StreamView,
    request: ReadRequest,
    limit: Option<int>,
)
    requires
        !stream.read_closed,
    ensures
        stream.polled(PollEvent::<E>::Read(request, ReadEvent::Pending), limit) == (
            stream,
            StepView::<ItemView, E>::Pending,
        ),
{
}

/// A failed read is reported with the transport's own error and closes the stream,
/// whatever is buffered and whatever the read was for.
pub proof fn law_failed_read_is_reported<E>(
    stream: StreamView,
    request: ReadRequest,
    error: E,
    limit: Option<int>,
)
    requires
        !stream.read_closed,
    ensures
        stream.polled(PollEvent::Read(request, ReadEvent::Failed(error)), limit) == (
            StreamView { read_closed: true, ..stream },
            StepView::<ItemView, E>::Ready(Some(Err(PollErrorView::Transport(error)))),
        ),
{
}

/// A transport that ends is a clean end only between responses, and leaves the stream
/// as it was; inside a response or a prefix it is an error, which closes the stream.
pub proof fn law_clean_end_is_between_responses<E>(
    stream: StreamView,
    request: ReadRequest,
    limit: Option<int>,
)
    requires
        !stream.read_closed,
        0 <= stream.buffer.used,
    ensures
        ({
            let polled = stream.polled(PollEvent::<E>::Read(request, ReadEvent::Filled(0)), limit);
            let closed = StreamView { read_closed: true, ..stream };
            match request.purpose {
                ReadPurpose::Response => if stream.buffer.used == 0 {
                    polled == (stream, StepView::<ItemView, E>::Ready(None))
                } else {
                    polled == (closed, error_step::<E>(ErrorView::BytesRemaining))
                },
                ReadPurpose::LiteralPrefix { .. } => polled == (
                    closed,
                    error_step::<E>(ErrorView::LiteralTruncated),
                ),
            }
        }),
{
}

/// To read some bytes of a response and poll on is to poll a stream that holds those
/// bytes already.
pub proof fn law_bytes_read_are_as_good_as_bytes_held<E>(
    stream: StreamView,
    len: usize,
    num_bytes: usize,
    limit: Option<int>,
)
    requires
        is_stream(stream),
        !stream.read_closed,
        0 < num_bytes,
    ensures
        stream.polled(
            PollEvent::<E>::Read(
                ReadRequest { purpose: ReadPurpose::Response, len },
                ReadEvent::Filled(num_bytes),
            ),
            limit,
        ) == with_used(
            stream,
            if stream.buffer.used + num_bytes <= stream.buffer.block.len() {
                stream.buffer.used + num_bytes
            } else {
                stream.buffer.block.len() as int
            },
        ).polled(PollEvent::<E>::Begin, limit),
{
    assert(stream.with_buffer(stream.buffer.extended(num_bytes as int)) == with_used(
        stream,
        stream.buffer.extended(num_bytes as int).used,
    ));
}

/// A poll of a stream that is not closed gives the step of the machine behind it. It
/// closes the stream if that is an error or the prefix of a literal, and only then.
pub proof fn law_poll_gives_the_step<E>(
    stream: StreamView,
    event: PollEvent<E>,
    limit: Option<int>,
)
    requires
        !stream.read_closed,
    ensures
        ({
            let (next, step) = stream.stepped(event, limit);
            let closes = match step {
                StepView::Ready(Some(Err(_))) => true,
                StepView::Ready(Some(Ok(ItemView::LiteralPrefix(_)))) => true,
                _ => false,
            };
            stream.polled(event, limit) == (StreamView { read_closed: closes, ..next }, step)
        }),
{
}

/// Decoding does not look at whether the stream is closed, nor does what follows it.
proof fn lemma_advancing_ignores_the_close<E>(stream: StreamView, limit: Option<int>)
    ensures
        ({
            let open = StreamView { read_closed: false, ..stream };
            let (next, step) = stream.advancing::<E>(limit);
            let (other, same) = open.advancing::<E>(limit);
            &&& step == same
            &&& next.buffer == other.buffer
            &&& next.decode_needs == other.decode_needs
            &&& next.read_closed == (stream.read_closed || other.read_closed)
        }),
{
    let open = StreamView { read_closed: false, ..stream };
    let (decoded, result) = stream.decoded(limit);
    let (other, same) = open.decoded(limit);
    assert(open.decoded(limit) == (StreamView { read_closed: false, ..decoded }, result));
    assert(decoded.read_closed == stream.read_closed);
    assert(decoded.following::<E>(result, limit).1 == other.following::<E>(result, limit).1);
}

/// The machine behind a poll does not look at whether the stream is closed.
pub proof fn law_step_ignores_the_close<E>(
    stream: StreamView,
    event: PollEvent<E>,
    limit: Option<int>,
)
    ensures
        ({
            let open = StreamView { read_closed: false, ..stream };
            let (next, step) = stream.stepped(event, limit);
            let (other, same) = open.stepped(event, limit);
            &&& step == same
            &&& next.buffer == other.buffer
            &&& next.decode_needs == other.decode_needs
            &&& next.read_closed == (stream.read_closed || other.read_closed)
        }),
{
    lemma_advancing_ignores_the_close::<E>(stream, limit);
    if let PollEvent::Read(_, ReadEvent::Filled(num_bytes)) = event {
        let extended = stream.with_buffer(stream.buffer.extended(num_bytes as int));
        lemma_advancing_ignores_the_close::<E>(extended, limit);
    }
}

/// A poll that begins goes on from what decoding gives: a response is delivered, an
/// error reported, and else the stream asks for a read or delivers a prefix.
pub proof fn law_poll_begins_with_decoding<E>(stream: StreamView, limit: Option<int>)
    ensures
        ({
            let (next, decoded) = stream.decoded(limit);
            let begun = stream.stepped(PollEvent::<E>::Begin, limit);
            &&& begun == next.following::<E>(decoded, limit)
            &&& decoded matches DecodeView::Parsed(response) ==> begun == (
                next,
                StepView::<ItemView, E>::Ready(Some(Ok(ItemView::Parsed(response)))),
            )
            &&& decoded matches DecodeView::Failed(error) ==> begun == (
                next,
                error_step::<E>(error),
            )
        }),
{
}

/// A response goes to the caller as it is, and so does an error; the stream stays as it
/// was.
pub proof fn law_results_of_decoding_are_passed_on<E>(
    stream: StreamView,
    response: ResponseView,
    error: ErrorView,
    limit: Option<int>,
)
    ensures
        stream.following::<E>(DecodeView::Parsed(response), limit) == (
            stream,
            StepView::<ItemView, E>::Ready(Some(Ok(ItemView::Parsed(response)))),
        ),
        stream.following::<E>(DecodeView::Failed(error), limit) == (stream, error_step::<E>(error)),
{
}

/// A read for a response is asked for as soon as there is room for the bytes that are
/// needed, for as many bytes as are free, or as the limit on literals allows. If there
/// cannot be room, the reason is reported and nothing changes.
pub proof fn law_read_for_a_response_fills_the_room<E>(stream: StreamView, limit: Option<int>)
    requires
        is_stream(stream),
        limit matches Some(limit) ==> 0 < limit <= usize::MAX,
    ensures
        ({
            let (next, step) = stream.following::<E>(DecodeView::Incomplete, limit);
            match stream.buffer.prepared(stream.decode_needs) {
                Ok(buffer) => {
                    let free = buffer.block.len() - buffer.used;
                    let len = match limit {
                        Some(limit) => if limit < free {
                            limit
                        } else {
                            free
                        },
                        None => free,
                    };
                    &&& next == StreamView { buffer, ..stream }
                    &&& step matches StepView::Read(request) && request.purpose
                        == ReadPurpose::Response && request.len == len && len > 0
                },
                Err(error) => (next, step) == (stream, error_step::<E>(error)),
            }
        }),
{
}

/// The prefix of an oversized literal ends `limit` bytes behind its boundary. As long
/// as fewer bytes are held, just the rest is asked for; once they are held, those
/// bytes are delivered, the stream is closed, and nothing stays buffered.
pub proof fn law_prefix_ends_where_the_limit_says<E>(
    stream: StreamView,
    boundary: OversizedLiteralBoundary,
    limit: int,
)
    requires
        is_stream(stream),
        0 < limit <= usize::MAX,
    ensures
        ({
            let target = boundary.literal_start + limit;
            let (next, step) = stream.following::<E>(
                DecodeView::OversizedLiteral(boundary),
                Some(limit),
            );
            &&& (next, step) == stream.beginning_prefix::<E>(boundary, limit)
            &&& if target > usize::MAX {
                (next, step) == (stream, error_step::<E>(ErrorView::LiteralOverflow))
            } else {
                match stream.buffer.prepared(target) {
                    Err(error) => (next, step) == (stream, error_step::<E>(error)),
                    Ok(buffer) => if buffer.used < target {
                        &&& next == StreamView { buffer, ..stream }
                        &&& step matches StepView::Read(request) && request.len == target
                            - buffer.used && request.purpose
                            == (ReadPurpose::LiteralPrefix { boundary, target: target as usize })
                    } else {
                        &&& step matches StepView::Ready(
                            Some(Ok(ItemView::LiteralPrefix(prefix))),
                        ) && prefix.declared_size == boundary.declared_size && prefix.data
                            == held(buffer).subrange(boundary.literal_start as int, target)
                        &&& next.read_closed
                        &&& next.decode_needs == stream.decode_needs
                        &&& next.buffer == BufferView::empty(stream.buffer.limit)
                    },
                }
            }
        }),
{
    let target = boundary.literal_start + limit;
    if target <= usize::MAX {
        if let Ok(buffer) = stream.buffer.prepared(target) {
            if buffer.used >= target {
                assert(held(buffer).subrange(boundary.literal_start as int, target)
                    =~= buffer.block.subrange(boundary.literal_start as int, target));
            }
        }
    }
}

/// Bytes read for a prefix are counted; the rest is asked for, or the prefix
/// delivered, as if they had been held when the literal was found.
pub proof fn law_bytes_of_a_prefix_are_counted<E>(
    stream: StreamView,
    boundary: OversizedLiteralBoundary,
    len: usize,
    num_bytes: usize,
    limit: int,
)
    requires
        is_stream(stream),
        0 < limit,
        boundary.literal_start <= stream.buffer.used,
        len == boundary.literal_start + limit - stream.buffer.used,
        boundary.literal_start + limit <= stream.buffer.block.len(),
        0 < num_bytes <= len,
    ensures
        ({
            let target = boundary.literal_start + limit;
            let purpose = ReadPurpose::LiteralPrefix { boundary, target: target as usize };
            let more = with_used(stream, stream.buffer.used + num_bytes);
            let (next, step) = stream.stepped(
                PollEvent::<E>::Read(ReadRequest { purpose, len }, ReadEvent::Filled(num_bytes)),
                Some(limit),
            );
            if num_bytes < len {
                &&& next == more
                &&& step matches StepView::Read(rest) && rest.purpose == purpose && rest.len == len
                    - num_bytes
            } else {
                &&& step matches StepView::Ready(Some(Ok(ItemView::LiteralPrefix(prefix))))
                    && prefix.declared_size == boundary.declared_size && prefix.data == held(
                    more.buffer,
                ).skip(boundary.literal_start as int)
                &&& next == StreamView {
                    buffer: BufferView::empty(stream.buffer.limit),
                    read_closed: true,
                    ..stream
                }
            }
        }),
{
    let target = boundary.literal_start + limit;
    let more = with_used(stream, stream.buffer.used + num_bytes);
    if num_bytes == len {
        assert(held(more.buffer).skip(boundary.literal_start as int)
            =~= more.buffer.block.subrange(boundary.literal_start as int, target));
    }
}

/// An event is accepted if it begins a poll, or answers a read that fits the stream:
/// one for a response of as many bytes as are free or as the limit on literals
/// allows, or one for the rest of the prefix of an oversized literal.
pub proof fn law_fitting_reads_are_accepted<E>(
    stream: StreamView,
    request: ReadRequest,
    event: ReadEvent<E>,
    limit: Option<int>,
)
    requires
        is_stream(stream),
        limit matches Some(limit) ==> 0 < limit <= usize::MAX,
    ensures
        stream.accepts(PollEvent::<E>::Begin, limit),
        stream.accepts(PollEvent::Read(request, event), limit) <==> stream.expects(request, limit),
        stream.expects(request, limit) <==> match request.purpose {
            ReadPurpose::Response => {
                let free = stream.buffer.block.len() - stream.buffer.used;
                &&& 0 < request.len
                &&& request.len == match limit {
                    Some(limit) => if limit < free {
                        limit
                    } else {
                        free
                    },
                    None => free,
                }
            },
            ReadPurpose::LiteralPrefix { boundary, target } => limit matches Some(limit) && {
                &&& target == boundary.literal_start + limit
                &&& limit < boundary.declared_size
                &&& boundary.literal_start <= stream.buffer.used < target
                    <= stream.buffer.block.len()
                &&& request.len == target - stream.buffer.used
            },
        },
{
}

/// A poll of a stream that holds a whole response delivers that response at once, with
/// the block that it came in, and keeps exactly the bytes behind it.
pub proof fn law_response_that_is_held_is_delivered<E>(
    stream: StreamView,
    remaining: Seq<u8>,
    response: Response<'static>,
    limit: Option<int>,
)
    requires
        is_stream(stream),
        !stream.read_closed,
        stream.buffer.used >= stream.decode_needs,
        remaining.len() <= stream.buffer.limit,
    ensures
        parser_admits(held(stream.buffer)) && parse_result(held(stream.buffer)) == (
        ParseView::Complete { remaining, response }) ==> {
            let (next, step) = stream.polled(PollEvent::<E>::Begin, limit);
            &&& step == StepView::<ItemView, E>::Ready(
                Some(
                    Ok(ItemView::Parsed(ResponseView { block: stream.buffer.block, response })),
                ),
            )
            &&& held(next.buffer) == remaining
            &&& next.decode_needs == 0
            &&& !next.read_closed
        },
{
    law_bytes_behind_a_response_are_kept(stream, remaining, response, limit);
}

/// A response that lacks `count` bytes is read on as long as it fits the limit of the
/// stream: room is made for all of it, what is held stays, and a read of as many
/// bytes as are then free is asked for.
pub proof fn law_response_that_fits_is_read_on<E>(stream: StreamView, count: usize)
    requires
        is_stream(stream),
        !stream.read_closed,
        stream.buffer.used >= stream.decode_needs,
        stream.buffer.block.len() + lacking(stream.buffer, stream.buffer.used + count)
            <= stream.buffer.limit <= usize::MAX / 2,
    ensures
        parser_admits(held(stream.buffer)) && parse_result(held(stream.buffer))
            == ParseView::NeedsBytes(count) ==> {
            let (next, step) = stream.polled(PollEvent::<E>::Begin, None);
            &&& held(next.buffer) == held(stream.buffer)
            &&& next.buffer.block.len() >= stream.buffer.used + count
            &&& next.decode_needs == stream.buffer.used + count
            &&& !next.read_closed
            &&& step matches StepView::Read(request) && request.purpose == ReadPurpose::Response
                && request.len == next.buffer.block.len() - next.buffer.used && request.len > 0
        },
{
    law_room_within_the_limit_is_always_made(stream.buffer, stream.buffer.used + count);
    if parser_admits(held(stream.buffer)) && parse_result(held(stream.buffer))
        == ParseView::NeedsBytes(count) {
        let (next, step) = stream.polled(PollEvent::<E>::Begin, None);
        assert(held(next.buffer) =~= held(stream.buffer));
    }
}

/// A literal larger than the caller's limit is cut to the front of its body, wherever
/// in the response it is declared: if the parser lacks the rest of it, the poll asks
/// for just the rest of the front, or delivers the front if it is held already.
pub proof fn law_oversized_literal_is_cut<E>(
    stream: StreamView,
    front: Seq<u8>,
    digits: Seq<u8>,
    body: Seq<u8>,
    limit: int,
)
    requires
        is_stream(stream),
        !stream.read_closed,
        stream.buffer.used >= stream.decode_needs,
        held(stream.buffer) == front + declaration(digits) + body,
        are_digits(digits),
        0 < limit < number(digits) <= usize::MAX,
        body.len() <= number(digits),
        forall|earlier: int, others: Seq<u8>|
            earlier < front.len() ==> !#[trigger] is_cut_short(
                held(stream.buffer),
                earlier,
                others,
                number(digits) - body.len(),
                limit,
            ),
        stream.buffer.block.len() + lacking(
            stream.buffer,
            front.len() + digits.len() + 4 + limit,
        ) <= stream.buffer.limit <= usize::MAX / 2,
    ensures
        parser_admits(held(stream.buffer)) && parse_result(held(stream.buffer))
            == ParseView::NeedsBytes((number(digits) - body.len()) as usize) ==> {
            let (next, step) = stream.polled(PollEvent::<E>::Begin, Some(limit));
            if body.len() < limit {
                &&& !next.read_closed
                &&& held(next.buffer) == held(stream.buffer)
                &&& step matches StepView::Read(request)
                &&& request.len == limit - body.len()
                &&& request.purpose matches ReadPurpose::LiteralPrefix { boundary, target }
                &&& boundary.literal_start == front.len() + digits.len() + 4
                &&& boundary.declared_size == number(digits)
                &&& target == boundary.literal_start + limit
            } else {
                &&& next.read_closed
                &&& next.buffer.used == 0
                &&& step == StepView::<ItemView, E>::Ready(
                    Some(
                        Ok(
                            ItemView::LiteralPrefix(
                                PrefixView {
                                    declared_size: number(digits) as usize,
                                    data: body.take(limit),
                                },
                            ),
                        ),
                    ),
                )
            }
        },
{
    let input = held(stream.buffer);
    let needed = number(digits) - body.len();
    law_literal_behind_any_front_is_found(front, digits, body, needed, limit);
    let start = front.len() as int + digits.len() + 4;
    let boundary = OversizedLiteralBoundary {
        literal_start: start as usize,
        declared_size: number(digits) as usize,
    };
    law_room_within_the_limit_is_always_made(stream.buffer, start + limit);
    law_bytes_that_the_parser_lacks_are_waited_for(stream, needed as usize, Some(limit));
    let found = StreamView { decode_needs: 0, ..stream };
    law_prefix_ends_where_the_limit_says::<E>(found, boundary, limit);
    if let Ok(buffer) = stream.buffer.prepared(start + limit) {
        assert(held(buffer) =~= input);
        if body.len() >= limit {
            assert(input.subrange(start, start + limit) =~= body.take(limit));
        }
    }
}

/// A poll, and the bytes that were read for it.
pub struct Turn<E> {
    pub chunk: Seq<u8>,
    pub event: PollEvent<E>,
}

/// The stream with `chunk` written to the front of its free bytes.
pub open spec fn with_written(stream: StreamView, chunk: Seq<u8>) -> StreamView {
    let buffer = stream.buffer;
    let block = buffer.block.take(buffer.used) + chunk + buffer.block.skip(
        buffer.used + chunk.len(),
    );
    StreamView { buffer: BufferView { block, ..buffer }, ..stream }
}

/// The stream after a turn.
#[verifier::opaque]
pub open spec fn after_turn<E>(
    stream: StreamView,
    turn: Turn<E>,
    limit: Option<int>,
) -> StreamView {
    with_written(stream, turn.chunk).polled(turn.event, limit).0
}

/// The step that a turn gives.
#[verifier::opaque]
pub open spec fn step_of_turn<E>(
    stream: StreamView,
    turn: Turn<E>,
    limit: Option<int>,
) -> StepView<ItemView, E> {
    with_written(stream, turn.chunk).polled(turn.event, limit).1
}

/// The bytes at the front of `input` that the parser takes for its response.
pub open spec fn taken_by_parser(input: Seq<u8>) -> Seq<u8> {
    match parse_result(input) {
        ParseView::Complete { remaining, response } => input.take(input.len() - remaining.len()),
        _ => seq![],
    }
}

/// Whether what the parser hands back of `input` is what comes behind the bytes that
/// it took.
pub open spec fn hands_back_the_rest(input: Seq<u8>) -> bool {
    parse_result(input) matches ParseView::Complete { remaining, response } ==> remaining.len()
        <= input.len() && input == taken_by_parser(input) + remaining
}

/// Whether a turn can be taken on an open stream that delivers responses: its bytes
/// are those of a read for a response, and come with no other event.
#[verifier::opaque]
pub open spec fn is_turn<E>(stream: StreamView, turn: Turn<E>, limit: Option<int>) -> bool {
    &&& is_stream(stream)
    &&& !stream.read_closed
    &&& match turn.event {
        PollEvent::Read(request, ReadEvent::Filled(num_bytes)) => {
            &&& request.purpose is Response
            &&& turn.chunk.len() == num_bytes
            &&& stream.buffer.used + num_bytes <= stream.buffer.block.len()
        },
        _ => turn.chunk.len() == 0,
    }
    &&& hands_back_the_rest(held(stream.buffer) + turn.chunk)
    &&& !(step_of_turn(stream, turn, limit) matches StepView::Ready(
        Some(Ok(ItemView::LiteralPrefix(_))),
    ))
}

/// Whether all of `turns` can be taken, one after the other.
pub open spec fn is_run<E>(stream: StreamView, turns: Seq<Turn<E>>, limit: Option<int>) -> bool
    decreases turns.len(),
{
    turns.len() > 0 ==> is_turn(stream, turns[0], limit) && is_run(
        after_turn(stream, turns[0], limit),
        turns.drop_first(),
        limit,
    )
}

/// The stream after a run.
pub open spec fn after_run<E>(
    stream: StreamView,
    turns: Seq<Turn<E>>,
    limit: Option<int>,
) -> StreamView
    decreases turns.len(),
{
    if turns.len() == 0 {
        stream
    } else {
        after_run(after_turn(stream, turns[0], limit), turns.drop_first(), limit)
    }
}

/// The bytes that arrive in a run.
pub open spec fn arrived<E>(turns: Seq<Turn<E>>) -> Seq<u8>
    decreases turns.len(),
{
    if turns.len() == 0 {
        seq![]
    } else {
        turns[0].chunk + arrived(turns.drop_first())
    }
}

/// The bytes of the responses that a run delivers.
pub open spec fn delivered<E>(
    stream: StreamView,
    turns: Seq<Turn<E>>,
    limit: Option<int>,
) -> Seq<u8>
    decreases turns.len(),
{
    if turns.len() == 0 {
        seq![]
    } else {
        let bytes = match step_of_turn(stream, turns[0], limit) {
            StepView::Ready(Some(Ok(ItemView::Parsed(_)))) => taken_by_parser(
                held(stream.buffer) + turns[0].chunk,
            ),
            _ => seq![],
        };
        bytes + delivered(after_turn(stream, turns[0], limit), turns.drop_first(), limit)
    }
}

proof fn lemma_begin_keeps_bytes<E>(stream: StreamView, limit: Option<int>)
    requires
        is_stream(stream),
        !stream.read_closed,
        hands_back_the_rest(held(stream.buffer)),
        !(stream.polled(PollEvent::<E>::Begin, limit).1 matches StepView::Ready(
            Some(Ok(ItemView::LiteralPrefix(_))),
        )),
    ensures
        ({
            let (next, step) = stream.polled(PollEvent::<E>::Begin, limit);
            if step matches StepView::Ready(Some(Ok(ItemView::Parsed(_)))) {
                parse_result(held(stream.buffer)) matches ParseView::Complete { remaining, response }
                    && held(next.buffer) == remaining
            } else {
                held(next.buffer) == held(stream.buffer)
            }
        }),
{
    let input = held(stream.buffer);
    let (decoded, result) = stream.decoded(limit);
    law_decoding_asks_the_parser_about_all_bytes(stream, limit);
    if let ParseView::Complete { remaining, response } = parse_result(input) {
        law_bytes_behind_a_response_are_kept(stream, remaining, response, limit);
    }
    let (next, step) = stream.polled(PollEvent::<E>::Begin, limit);
    if !(step matches StepView::Ready(Some(Ok(ItemView::Parsed(_))))) {
        assert(decoded.buffer == stream.buffer);
        assert(held(next.buffer) =~= input);
    }
}

/// A turn that delivers a response takes from the bytes that are there just those of
/// the response; any other keeps them all.
pub proof fn law_turn_keeps_all_other_bytes<E>(
    stream: StreamView,
    turn: Turn<E>,
    limit: Option<int>,
)
    requires
        is_turn(stream, turn, limit),
    ensures
        ({
            let there = held(stream.buffer) + turn.chunk;
            let kept = held(after_turn(stream, turn, limit).buffer);
            if step_of_turn(stream, turn, limit) matches StepView::Ready(
                Some(Ok(ItemView::Parsed(_))),
            ) {
                there == taken_by_parser(there) + kept
            } else {
                there == kept
            }
        }),
{
    reveal(after_turn);
    reveal(step_of_turn);
    reveal(is_turn);
    let written = with_written(stream, turn.chunk);
    let there = held(stream.buffer) + turn.chunk;
    assert(held(written.buffer) =~= held(stream.buffer));
    match turn.event {
        PollEvent::Begin => {
            assert(there =~= held(written.buffer));
            lemma_begin_keeps_bytes::<E>(written, limit);
        },
        PollEvent::Read(request, ReadEvent::Filled(num_bytes)) => {
            if num_bytes > 0 {
                let full = with_used(written, written.buffer.used + num_bytes);
                assert(held(full.buffer) =~= there);
                law_bytes_read_are_as_good_as_bytes_held::<E>(
                    written,
                    request.len,
                    num_bytes,
                    limit,
                );
                assert(request == ReadRequest { purpose: ReadPurpose::Response, len: request.len });
                lemma_begin_keeps_bytes::<E>(full, limit);
            } else {
                assert(there =~= held(written.buffer));
            }
        },
        _ => {
            assert(there =~= held(written.buffer));
        },
    }
}

/// Over a whole run, no byte is lost, doubled or moved: the bytes of the responses
/// that were delivered, followed by the bytes that are still buffered, are the bytes
/// that were buffered at first, followed by those that arrived.
pub proof fn law_run_loses_no_bytes<E>(stream: StreamView, turns: Seq<Turn<E>>, limit: Option<int>)
    requires
        is_run(stream, turns, limit),
    ensures
        delivered(stream, turns, limit) + held(after_run(stream, turns, limit).buffer) == held(
            stream.buffer,
        ) + arrived(turns),
    decreases turns.len(),
{
    if turns.len() > 0 {
        let next = after_turn(stream, turns[0], limit);
        let rest = turns.drop_first();
        law_turn_keeps_all_other_bytes(stream, turns[0], limit);
        law_run_loses_no_bytes(next, rest, limit);
        let last = held(after_run(stream, turns, limit).buffer);
        let there = held(stream.buffer) + turns[0].chunk;
        assert(held(stream.buffer) + arrived(turns) =~= there + arrived(rest));
        if step_of_turn(stream, turns[0], limit) matches StepView::Ready(
            Some(Ok(ItemView::Parsed(_))),
        ) {
            assert(delivered(stream, turns, limit) + last =~= taken_by_parser(there) + (delivered(
                next,
                rest,
                limit,
            ) + last));
            assert(there + arrived(rest) =~= taken_by_parser(there) + (held(next.buffer) + arrived(
                rest,
            )));
        } else {
            assert(delivered(stream, turns, limit) =~= delivered(next, rest, limit));
        }
    } else {
        assert(delivered(stream, turns, limit) + held(stream.buffer) =~= held(stream.buffer)
            + arrived(turns));
    }
}

/// Steps, errors and limits show what they are.
pub proof fn law_views_of_steps<E>(
    data: ResponseData,
    prefix: LiteralPrefix,
    error: E,
    fault: StreamError,
    request: ReadRequest,
    size: NonZeroSize,
)
    ensures
        PollStep::<LiteralAwareResponse, E>::Ready(None)@ == StepView::<ItemView, E>::Ready(None),
        PollStep::<LiteralAwareResponse, E>::Pending@ == StepView::<ItemView, E>::Pending,
        PollStep::<LiteralAwareResponse, E>::Read(request)@ == StepView::<ItemView, E>::Read(
            request,
        ),
        PollStep::<LiteralAwareResponse, E>::Ready(Some(Ok(LiteralAwareResponse::Parsed(data))))@
            == StepView::<ItemView, E>::Ready(Some(Ok(ItemView::Parsed(data@)))),
        PollStep::<LiteralAwareResponse, E>::Ready(
            Some(Ok(LiteralAwareResponse::LiteralPrefix(prefix))),
        )@ == StepView::<ItemView, E>::Ready(Some(Ok(ItemView::LiteralPrefix(prefix@)))),
        PollStep::<LiteralAwareResponse, E>::Ready(Some(Err(PollError::Transport(error))))@
            == StepView::<ItemView, E>::Ready(Some(Err(PollErrorView::Transport(error)))),
        PollStep::<LiteralAwareResponse, E>::Ready(Some(Err(PollError::Stream(fault))))@
            == error_step::<E>(fault@),
        limit_view(None) == None::<int>,
        limit_view(Some(size)) == Some(size@ as int),
{
}

/// A stream that delivers whole responses gives the steps of one that may also deliver
/// prefixes, with each item as it is.
pub proof fn law_whole_steps<E>(step: StepView<ResponseView, E>)
    ensures
        match (step, whole_step(step)) {
            (StepView::Ready(None), StepView::Ready(None)) => true,
            (
                StepView::Ready(Some(Ok(response))),
                StepView::Ready(Some(Ok(ItemView::Parsed(same)))),
            ) => response == same,
            (StepView::Ready(Some(Err(error))), StepView::Ready(Some(Err(same)))) => error == same,
            (StepView::Pending, StepView::Pending) => true,
            (StepView::Read(request), StepView::Read(same)) => request == same,
            _ => false,
        },
{
}

/// Results of the parser and of decoding show what they are.
pub proof fn law_views_of_results(
    remaining: &[u8],
    response: Response<'static>,
    count: usize,
    text: String,
    data: ResponseData,
    boundary: OversizedLiteralBoundary,
    error: StreamError,
)
    ensures
        (ParseOutcome::Complete { remaining, response })@ == (ParseView::Complete {
            remaining: remaining@,
            response,
        }),
        ParseOutcome::NeedsBytes(count)@ == ParseView::NeedsBytes(count),
        ParseOutcome::NeedsMore@ == ParseView::NeedsMore,
        ParseOutcome::Failed(text)@ == ParseView::Failed(text@),
        decode_view(Ok(DecodeOutcome::Parsed(data))) == DecodeView::Parsed(data@),
        decode_view(Ok(DecodeOutcome::Incomplete)) == DecodeView::Incomplete,
        decode_view(Ok(DecodeOutcome::OversizedLiteral(boundary))) == DecodeView::OversizedLiteral(
            boundary,
        ),
        decode_view(Err(error)) == DecodeView::Failed(error@),
        RecoverableDecodeError::Incomplete@ == RecoverView::Incomplete,
        RecoverableDecodeError::OversizedLiteral(boundary)@ == RecoverView::OversizedLiteral(
            boundary,
        ),
        RecoverableDecodeError::Invalid(error)@ == RecoverView::Invalid(error@),
{
}

} // verus!
