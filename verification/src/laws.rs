//! What holds of streams, buffers and requests as a whole.
use vstd::prelude::*;
use vstd::utf8::encode_utf8;

use crate::admission::{fetch_list, has_word, parser_admits, UNTAGGED_METADATA};
use crate::ascii::{CR, LF, SPACE};
use crate::buffer::BufferView;
use crate::error::{ErrorView, PollErrorView};
use crate::literal::{
    boundary_at, confirms_boundary, declares_literal, digits_end, first_boundary, is_digit,
    lemma_digits_end, lemma_front_digits_end, literal_body, literal_size, OversizedLiteralBoundary,
};
use crate::parser::{parse_result, ParseView};
use crate::poll::{
    lemma_decoded_boundary, limited_boundary, DecodeView, PollEvent, ReadEvent, ReadPurpose,
    ReadRequest, StepView, StreamView,
};
use crate::request::wire_pieces;
use crate::response::{ItemView, PrefixView};

verus! {

/// Returning the block that was taken undoes taking it.
pub proof fn law_returned_block_restores_buffer(buffer: BufferView)
    ensures
        buffer.with_block(BufferView::empty(buffer.limit).block).with_block(buffer.block) == buffer,
{
}

/// A buffer that was made ready has at least one byte free, so a read of no bytes
/// is the end of the transport. It can hold what was required, still holds what
/// it held, and is within its limit.
pub proof fn law_prepared_buffer_has_room(buffer: BufferView, required: int)
    requires
        buffer.wf(),
    ensures
        buffer.prepared(required) matches Ok(prepared) ==> {
            &&& prepared.wf()
            &&& prepared.free() > 0
            &&& prepared.block.len() >= required
            &&& prepared.limit == buffer.limit
            &&& prepared.used == buffer.used
            &&& prepared.buffered() == buffer.buffered()
        },
{
    if let Ok(prepared) = buffer.prepared(required) {
        assert(prepared.buffered() =~= buffer.buffered());
    }
}

/// Bytes that are written to the front of the free part and declared used come
/// right after the bytes that were buffered.
pub proof fn law_written_bytes_are_appended(buffer: BufferView, written: Seq<u8>, num_bytes: int)
    requires
        buffer.wf(),
        written.len() == buffer.free(),
        0 <= num_bytes <= buffer.free(),
    ensures
        buffer.with_block(buffer.block.take(buffer.used) + written).extended(num_bytes).buffered()
            == buffer.buffered() + written.take(num_bytes),
{
    assert(buffer.with_block(buffer.block.take(buffer.used) + written).extended(
        num_bytes,
    ).buffered() =~= buffer.buffered() + written.take(num_bytes));
}

/// Declaring more bytes used than are free uses the entire buffer.
pub proof fn law_extending_stops_at_the_end(buffer: BufferView, num_bytes: int)
    requires
        buffer.wf(),
        num_bytes >= buffer.free(),
    ensures
        buffer.extended(num_bytes).used == buffer.block.len(),
        buffer.extended(num_bytes).buffered() == buffer.block,
{
    assert(buffer.extended(num_bytes).buffered() =~= buffer.block);
}

/// A buffer that was reset holds just the data that it was given, and has free
/// space unless the data is as long as the limit.
pub proof fn law_reset_buffer_holds_data(buffer: BufferView, data: Seq<u8>)
    requires
        data.len() <= buffer.limit,
    ensures
        buffer.reset(data).buffered() == data,
        buffer.reset(data).free() > 0 <==> data.len() < buffer.limit,
        buffer.reset(data).block.len() <= buffer.limit,
{
    assert(buffer.reset(data).buffered() =~= data);
}

/// The declaration that is taken as the boundary of an oversized literal is the
/// first that confirms the number of missing bytes: bytes of the body that look
/// like a declaration cannot replace it.
pub proof fn law_first_declaration_is_the_boundary(input: Seq<u8>, needed: int, limit: int)
    ensures
        match first_boundary(input, 0, needed, limit) {
            Some(boundary) => exists|start: int|
                {
                    &&& #[trigger] confirms_boundary(input, start, needed, limit)
                    &&& boundary == boundary_at(input, start)
                    &&& forall|earlier: int|
                        earlier < start ==> !#[trigger] confirms_boundary(
                            input,
                            earlier,
                            needed,
                            limit,
                        )
                },
            None => forall|start: int| !#[trigger] confirms_boundary(input, start, needed, limit),
        },
{
    lemma_first_from(input, 0, needed, limit);
}

proof fn lemma_first_from(input: Seq<u8>, from: int, needed: int, limit: int)
    requires
        0 <= from,
    ensures
        match first_boundary(input, from, needed, limit) {
            Some(boundary) => exists|start: int|
                {
                    &&& #[trigger] confirms_boundary(input, start, needed, limit)
                    &&& boundary == boundary_at(input, start)
                    &&& from <= start
                    &&& forall|earlier: int|
                        from <= earlier < start ==> !#[trigger] confirms_boundary(
                            input,
                            earlier,
                            needed,
                            limit,
                        )
                },
            None => forall|start: int|
                from <= start ==> !#[trigger] confirms_boundary(input, start, needed, limit),
        },
    decreases input.len() - from,
{
    if from < input.len() && !confirms_boundary(input, from, needed, limit) {
        lemma_first_from(input, from + 1, needed, limit);
    }
}

/// A response that is neither a `FETCH` nor a `METADATA` response is never kept from
/// the parser.
pub proof fn law_other_responses_are_admitted(input: Seq<u8>)
    requires
        fetch_list(input) is None,
        !has_word(input, 0, UNTAGGED_METADATA@),
    ensures
        parser_admits(input),
{
}

/// As long as fewer bytes are buffered than the parser asked for, decoding changes
/// nothing and gives nothing.
pub proof fn law_decoding_waits_for_the_needed_bytes(stream: StreamView, limit: Option<int>)
    requires
        stream.buffer.used < stream.decode_needs,
    ensures
        stream.decoded(limit) == (stream, DecodeView::Incomplete),
{
}

/// Decoding that gives no response leaves the buffer as it was.
pub proof fn law_decoding_loses_no_bytes(stream: StreamView, limit: Option<int>)
    ensures
        !(stream.decoded(limit).1 is Parsed) ==> stream.decoded(limit).0.buffer == stream.buffer,
{
}

/// The block in which a response came is handed out with it.
pub proof fn law_response_comes_with_its_block(stream: StreamView, limit: Option<int>)
    ensures
        stream.decoded(limit).1 matches DecodeView::Parsed(response) ==> response.block
            == stream.buffer.block,
{
}

/// Decoding the same bytes again gives the same result, as long as it gave no
/// response.
pub proof fn law_decoding_can_be_repeated(stream: StreamView, limit: Option<int>)
    requires
        stream.wf(),
    ensures
        stream.decoded(limit).1 is Incomplete || stream.decoded(limit).1 is OversizedLiteral
            ==> stream.decoded(limit).0.decoded(limit) == stream.decoded(limit),
{
}

/// A poll that asked for a read and got nothing ends without a result and changes
/// nothing. It can begin anew: it asks for the same read and changes nothing.
pub proof fn law_pending_poll_can_begin_anew<E>(stream: StreamView, limit: Option<int>)
    requires
        stream.wf(),
        limit matches Some(limit) ==> limit > 0,
    ensures
        ({
            let (waiting, step) = stream.stepped(PollEvent::<E>::Begin, limit);
            step matches StepView::Read(request) ==> {
                &&& waiting.stepped(PollEvent::<E>::Read(request, ReadEvent::Pending), limit) == (
                    waiting,
                    StepView::<ItemView, E>::Pending,
                )
                &&& waiting.stepped(PollEvent::<E>::Begin, limit) == (waiting, step)
            }
        }),
{
    let (waiting, step) = stream.stepped(PollEvent::<E>::Begin, limit);
    let (decoded, result) = stream.decoded(limit);
    lemma_decoded_boundary(stream, limit);
    law_decoding_can_be_repeated(stream, limit);
    if step is Read {
        match result {
            DecodeView::Incomplete => {
                law_prepared_buffer_has_room(decoded.buffer, decoded.decode_needs);
                assert(waiting.buffer.buffered() == decoded.buffer.buffered());
                assert(waiting.decoded(limit) == (waiting, result));
            },
            DecodeView::OversizedLiteral(boundary) => {
                let target = boundary.literal_start + limit.unwrap();
                law_prepared_buffer_has_room(decoded.buffer, target);
                assert(waiting.buffer.buffered() == decoded.buffer.buffered());
                assert(waiting.decoded(limit) == (waiting, result));
            },
            _ => {},
        }
    }
}

/// A response of which the parser says that it needs more bytes than the limit of
/// the buffer is refused before anything is allocated for it.
pub proof fn law_oversized_response_is_refused_unallocated<E>(
    stream: StreamView,
    count: usize,
    limit: Option<int>,
)
    requires
        stream.wf(),
        stream.buffer.limit < stream.buffer.used + count <= usize::MAX,
        limited_boundary(stream.buffer.buffered(), count as int, limit) is None,
    ensures
        ({
            let (next, decoded) = stream.decoded_as(ParseView::NeedsBytes(count), limit);
            let (refused, step) = next.following::<E>(decoded, limit);
            &&& refused.buffer == stream.buffer
            &&& step == StepView::<ItemView, E>::Ready(
                Some(Err(PollErrorView::Stream(ErrorView::ResponseTooLarge))),
            )
        }),
{
}

/// A stream that is closed for reading has ended: nothing that happens to it
/// changes it or has it read.
pub proof fn law_closed_stream_has_ended<E>(
    stream: StreamView,
    event: PollEvent<E>,
    limit: Option<int>,
)
    requires
        stream.read_closed,
    ensures
        stream.polled(event, limit) == (stream, StepView::<ItemView, E>::Ready(None)),
{
}

/// After an error, of the transport or of the stream, nothing more comes.
pub proof fn law_stream_ends_after_an_error<E>(
    stream: StreamView,
    event: PollEvent<E>,
    limit: Option<int>,
    later: PollEvent<E>,
    later_limit: Option<int>,
)
    requires
        stream.polled(event, limit).1 matches StepView::Ready(Some(Err(_))),
    ensures
        stream.polled(event, limit).0.polled(later, later_limit).1 == (StepView::<
            ItemView,
            E,
        >::Ready(None)),
{
}

/// A transport that ends between responses ends the stream; one that ends inside a
/// response, or inside the prefix of a literal, is an error.
pub proof fn law_end_of_transport<E>(
    stream: StreamView,
    request: ReadRequest,
    limit: Option<int>,
)
    requires
        stream.expects(request, limit),
    ensures
        stream.stepped(PollEvent::<E>::Read(request, ReadEvent::Filled(0)), limit) == (
            stream,
            match request.purpose {
                ReadPurpose::Response => if stream.buffer.used > 0 {
                    StepView::<ItemView, E>::Ready(
                        Some(Err(PollErrorView::Stream(ErrorView::BytesRemaining))),
                    )
                } else {
                    StepView::Ready(None)
                },
                ReadPurpose::LiteralPrefix { .. } => StepView::Ready(
                    Some(Err(PollErrorView::Stream(ErrorView::LiteralTruncated))),
                ),
            },
        ),
{
}

/// A stream without a limit on literals never delivers the prefix of one.
pub proof fn law_unlimited_stream_delivers_whole_responses<E>(
    stream: StreamView,
    event: PollEvent<E>,
)
    requires
        stream.wf(),
        stream.accepts(event, None),
    ensures
        !(stream.polled(event, None).1 matches StepView::Ready(Some(Ok(ItemView::LiteralPrefix(_))))),
{
    lemma_decoded_boundary(stream, None);
    if let PollEvent::Read(request, ReadEvent::Filled(num_bytes)) = event {
        lemma_decoded_boundary(
            stream.with_buffer(stream.buffer.extended(num_bytes as int)),
            None,
        );
    }
}

/// A read that is asked for brings at least one byte, no more than are free, and
/// no more than the limit on literals.
pub proof fn law_reads_are_bounded(stream: StreamView, request: ReadRequest, limit: Option<int>)
    requires
        stream.wf(),
        stream.expects(request, limit),
    ensures
        0 < request.len <= stream.buffer.free(),
        limit matches Some(limit) ==> request.len <= limit,
{
}

/// The reads for the prefix of a literal never take more from the transport than
/// the prefix, and the prefix is delivered as soon as it is complete.
pub proof fn law_prefix_reads_stop_at_the_prefix<E>(
    stream: StreamView,
    request: ReadRequest,
    num_bytes: usize,
    limit: int,
)
    requires
        stream.wf(),
        stream.expects(request, Some(limit)),
        request.purpose is LiteralPrefix,
        0 < num_bytes <= request.len,
    ensures
        ({
            let target = request.purpose->target;
            let (next, step) = stream.stepped(
                PollEvent::<E>::Read(request, ReadEvent::Filled(num_bytes)),
                Some(limit),
            );
            if num_bytes < request.len {
                &&& step == StepView::<ItemView, E>::Read(
                    ReadRequest { len: (request.len - num_bytes) as usize, ..request },
                )
                &&& next.buffer.used == stream.buffer.used + num_bytes < target
                &&& next.expects(step->Read_0, Some(limit))
            } else {
                &&& stream.buffer.used + num_bytes == target
                &&& step matches StepView::Ready(Some(Ok(ItemView::LiteralPrefix(_))))
            }
        }),
{
}

/// A prefix that is delivered is as long as the limit, is shorter than the literal
/// was declared, and ends the stream, whose buffer is then empty and no larger
/// than at first.
pub proof fn law_prefix_is_exact_and_last<E>(
    stream: StreamView,
    event: PollEvent<E>,
    limit: int,
    later: PollEvent<E>,
    later_limit: Option<int>,
)
    requires
        stream.wf(),
        0 < limit,
        stream.accepts(event, Some(limit)),
    ensures
        stream.polled(event, Some(limit)).1 matches StepView::Ready(
            Some(Ok(ItemView::LiteralPrefix(prefix))),
        ) ==> {
            let after = stream.polled(event, Some(limit)).0;
            &&& prefix.data.len() == limit < prefix.declared_size
            &&& after.buffer == BufferView::empty(stream.buffer.limit)
            &&& after.polled(later, later_limit) == (after, StepView::<ItemView, E>::Ready(None))
        },
{
    lemma_decoded_boundary(stream, Some(limit));
    if let PollEvent::Read(request, ReadEvent::Filled(num_bytes)) = event {
        let extended = stream.with_buffer(stream.buffer.extended(num_bytes as int));
        lemma_decoded_boundary(extended, Some(limit));
    }
}

/// A stream into which `chunk` was read as the first bytes of a read.
pub open spec fn with_chunk(stream: StreamView, chunk: Seq<u8>) -> StreamView {
    let buffer = stream.buffer;
    stream.with_buffer(
        buffer.with_block(
            buffer.block.take(buffer.used) + chunk + buffer.block.skip(buffer.used + chunk.len()),
        ),
    )
}

/// The step after `chunk` was read.
pub open spec fn fed<E>(
    stream: StreamView,
    request: ReadRequest,
    chunk: Seq<u8>,
    limit: Option<int>,
) -> (StreamView, StepView<ItemView, E>) {
    with_chunk(stream, chunk).stepped(
        PollEvent::Read(request, ReadEvent::Filled(chunk.len() as usize)),
        limit,
    )
}

/// The step after all of `chunks` were read, each for the request that the step
/// before it made, or the first step that makes no request.
pub open spec fn fed_all<E>(
    stream: StreamView,
    request: ReadRequest,
    chunks: Seq<Seq<u8>>,
    limit: Option<int>,
) -> StepView<ItemView, E>
    decreases chunks.len(),
{
    if chunks.len() == 0 {
        StepView::Read(request)
    } else {
        let (next, step) = fed::<E>(stream, request, chunks.first(), limit);
        match step {
            StepView::Read(request) => fed_all(next, request, chunks.drop_first(), limit),
            _ => step,
        }
    }
}

/// What arrives for a response comes right after the bytes that were buffered, and
/// together they are decoded next.
pub proof fn law_arrived_bytes_are_decoded_next<E>(
    stream: StreamView,
    request: ReadRequest,
    chunk: Seq<u8>,
    limit: Option<int>,
)
    requires
        stream.wf(),
        stream.expects(request, limit),
        request.purpose is Response,
        0 < chunk.len() <= request.len,
    ensures
        ({
            let written = with_chunk(stream, chunk);
            let extended = written.with_buffer(written.buffer.extended(chunk.len() as int));
            &&& extended.buffer.buffered() == stream.buffer.buffered() + chunk
            &&& fed::<E>(stream, request, chunk, limit) == extended.advancing::<E>(limit)
        }),
{
    let written = with_chunk(stream, chunk);
    assert(written.buffer.extended(chunk.len() as int).buffered() =~= stream.buffer.buffered()
        + chunk);
}

/// However the bytes of a prefix arrive in pieces, the prefix that is delivered is
/// the front of the literal's body as the transport brought it.
pub proof fn law_prefix_is_the_front_of_the_body<E>(
    stream: StreamView,
    request: ReadRequest,
    chunks: Seq<Seq<u8>>,
    limit: int,
)
    requires
        stream.wf(),
        stream.expects(request, Some(limit)),
        request.purpose is LiteralPrefix,
        forall|i: int| 0 <= i < chunks.len() ==> (#[trigger] chunks[i]).len() > 0,
        chunks.flatten().len() == request.len,
    ensures
        fed_all::<E>(stream, request, chunks, Some(limit)) == StepView::<ItemView, E>::Ready(
            Some(
                Ok(
                    ItemView::LiteralPrefix(
                        PrefixView {
                            declared_size: request.purpose->boundary.declared_size,
                            data: (stream.buffer.buffered() + chunks.flatten()).subrange(
                                request.purpose->boundary.literal_start as int,
                                request.purpose->boundary.literal_start + limit,
                            ),
                        },
                    ),
                ),
            ),
        ),
    decreases chunks.len(),
{
    let chunk = chunks.first();
    let rest = chunks.drop_first();
    assert(chunks.len() > 0);
    assert(chunks.flatten() == chunk + rest.flatten());
    assert(chunks[0].len() > 0);
    let written = with_chunk(stream, chunk);
    let extended = written.buffer.extended(chunk.len() as int);
    assert(extended.buffered() =~= stream.buffer.buffered() + chunk);
    let boundary = request.purpose->boundary;
    let (next, step) = fed::<E>(stream, request, chunk, Some(limit));
    if chunk.len() < request.len {
        assert(next.buffer == extended);
        assert(forall|i: int| 0 <= i < rest.len() ==> (#[trigger] rest[i]) == chunks[i + 1]);
        law_prefix_is_the_front_of_the_body::<E>(next, step->Read_0, rest, limit);
        assert(stream.buffer.buffered() + chunks.flatten() =~= next.buffer.buffered()
            + rest.flatten());
    } else {
        let target = boundary.literal_start + limit;
        assert(rest.flatten() =~= seq![]);
        assert(extended.block.subrange(boundary.literal_start as int, target) =~= (
        stream.buffer.buffered() + chunks.flatten()).subrange(
            boundary.literal_start as int,
            target,
        ));
    }
}

/// More bytes do not change whether a literal is declared at `start`, nor which, once
/// a later literal was declared before they came.
proof fn lemma_longer_input(input: Seq<u8>, more: Seq<u8>, start: int, later: int)
    requires
        0 <= start <= later,
        declares_literal(input, later),
    ensures
        declares_literal(input + more, start) <==> declares_literal(input, start),
        declares_literal(input, start) ==> {
            &&& literal_body(input + more, start) == literal_body(input, start)
            &&& literal_size(input + more, start) == literal_size(input, start)
        },
{
    let longer = input + more;
    assert(longer.take(input.len() as int) =~= input);
    lemma_digits_end(input, later + 1);
    lemma_digits_end(input, start + 1);
    lemma_front_digits_end(longer, start + 1, input.len() as int);
    if start < later {
        assert(!is_digit(input[later]));
        assert(digits_end(input, start + 1) <= later);
    }
    if declares_literal(input, start) {
        let end = digits_end(input, start + 1);
        assert(longer.subrange(start + 1, end) =~= input.subrange(start + 1, end));
    }
}

proof fn lemma_longer_boundary(
    input: Seq<u8>,
    more: Seq<u8>,
    from: int,
    needed: int,
    limit: int,
)
    requires
        0 <= from,
        first_boundary(input, from, needed, limit) is Some,
    ensures
        first_boundary(input + more, from, needed - more.len(), limit) == first_boundary(
            input,
            from,
            needed,
            limit,
        ),
        exists|start: int| from <= start && #[trigger] declares_literal(input, start),
    decreases input.len() - from,
{
    if confirms_boundary(input, from, needed, limit) {
        lemma_longer_input(input, more, from, from);
        assert(declares_literal(input, from));
    } else {
        lemma_longer_boundary(input, more, from + 1, needed, limit);
        let later = choose|start: int|
            from + 1 <= start && #[trigger] declares_literal(input, start);
        lemma_longer_input(input, more, from, later);
    }
}

/// The boundary of an oversized literal stays the same while bytes of its body
/// arrive: if the parser asked for `needed` bytes, and asks for so many fewer after
/// `more` has come, the same declaration is found.
pub proof fn law_boundary_stays_while_the_body_arrives(
    input: Seq<u8>,
    more: Seq<u8>,
    needed: int,
    limit: int,
)
    requires
        first_boundary(input, 0, needed, limit) is Some,
    ensures
        first_boundary(input + more, 0, needed - more.len(), limit) == first_boundary(
            input,
            0,
            needed,
            limit,
        ),
{
    lemma_longer_boundary(input, more, 0, needed, limit);
}

/// A prefix of which only a part arrived before the transport paused is gone on with:
/// if the parser, which asked for `count` bytes, asks for so many fewer after `chunk`
/// has come, the poll that begins anew asks for the rest of the same prefix and
/// changes nothing.
pub proof fn law_paused_prefix_goes_on<E>(
    stream: StreamView,
    request: ReadRequest,
    chunk: Seq<u8>,
    count: usize,
    limit: int,
)
    requires
        stream.wf(),
        0 < limit,
        stream.expects(request, Some(limit)),
        request.purpose is LiteralPrefix,
        stream.decoded_as(ParseView::NeedsBytes(count), Some(limit)) == (
            stream,
            DecodeView::OversizedLiteral(request.purpose->boundary),
        ),
        0 < chunk.len() < request.len,
    ensures
        ({
            let (paused, step) = fed::<E>(stream, request, chunk, Some(limit));
            let rest = ReadRequest { len: (request.len - chunk.len()) as usize, ..request };
            let answer = ParseView::NeedsBytes((count - chunk.len()) as usize);
            &&& step == StepView::<ItemView, E>::Read(rest)
            &&& chunk.len() < count
            &&& paused.decoded_as(answer, Some(limit)) == (
                paused,
                DecodeView::OversizedLiteral(request.purpose->boundary),
            )
            &&& parser_admits(paused.buffer.buffered()) && parse_result(paused.buffer.buffered())
                == answer ==> paused.stepped(PollEvent::<E>::Begin, Some(limit)) == (paused, step)
        }),
{
    let input = stream.buffer.buffered();
    let (paused, step) = fed::<E>(stream, request, chunk, Some(limit));
    let written = with_chunk(stream, chunk);
    assert(paused.buffer == written.buffer.extended(chunk.len() as int));
    assert(paused.buffer.buffered() =~= input + chunk);
    law_first_declaration_is_the_boundary(input, count as int, limit);
    law_boundary_stays_while_the_body_arrives(input, chunk, count as int, limit);
}

/// A prefix that is buffered in full when the oversized literal is found is
/// delivered without a read, and is the front of the literal's body as it was
/// buffered.
pub proof fn law_buffered_prefix_is_delivered_at_once<E>(
    stream: StreamView,
    boundary: OversizedLiteralBoundary,
    limit: int,
)
    requires
        stream.wf(),
        0 < limit,
        boundary.literal_start + limit <= stream.buffer.used,
        stream.buffer.prepared(boundary.literal_start + limit) is Ok,
    ensures
        stream.beginning_prefix::<E>(boundary, limit).1 == StepView::<ItemView, E>::Ready(
            Some(
                Ok(
                    ItemView::LiteralPrefix(
                        PrefixView {
                            declared_size: boundary.declared_size,
                            data: stream.buffer.buffered().subrange(
                                boundary.literal_start as int,
                                boundary.literal_start + limit,
                            ),
                        },
                    ),
                ),
            ),
        ),
{
    let target = boundary.literal_start + limit;
    law_prepared_buffer_has_room(stream.buffer, target);
    let prepared = stream.buffer.ensured(target);
    assert(prepared.block.subrange(boundary.literal_start as int, target)
        =~= prepared.buffered().subrange(boundary.literal_start as int, target));
}

/// What is sent for a request is its tag and a space, if it has a tag, its text,
/// and the end of the line.
pub proof fn law_request_is_one_line(tag: Option<Seq<char>>, text: Seq<u8>)
    ensures
        wire_pieces(tag, text).flatten() == match tag {
            Some(tag) => encode_utf8(tag) + seq![SPACE] + text + seq![CR, LF],
            None => text + seq![CR, LF],
        },
{
    let end = wire_pieces(None, text);
    assert(end.drop_first().drop_first() =~= seq![]);
    assert(end.flatten() =~= text + seq![CR, LF]) by {
        reveal_with_fuel(Seq::flatten, 3);
    }
    if let Some(tag) = tag {
        let line = wire_pieces(Some(tag), text);
        assert(line.drop_first().drop_first() =~= end);
        assert(line.flatten() =~= line[0] + (line[1] + end.flatten())) by {
            reveal_with_fuel(Seq::flatten, 3);
        }
    }
}

} // verus!
