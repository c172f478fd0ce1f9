use imap_proto::types::{Response, Status};
use imap_stream::admission::is_admitted;
use imap_stream::{
    DecodeOutcome, ErrorKind, ImapStream, LiteralAwareResponse, NonZeroSize,
    OversizedLiteralBoundary, ParseOutcome, PollError, PollEvent, PollStep, ReadEvent, ReadPurpose,
    ReadRequest, RecoverableDecodeError, Request, ResponseData, StreamError,
};

/// A transport that delivers fixed bytes in reads of a bounded size.
struct Script {
    bytes: Vec<u8>,
    position: usize,
    max_read_size: usize,
    failures: usize,
    pauses: usize,
}

impl Script {
    fn new(bytes: &[u8]) -> Self {
        Script {
            bytes: bytes.to_vec(),
            position: 0,
            max_read_size: usize::MAX,
            failures: 0,
            pauses: 0,
        }
    }

    fn with_max_read_size(mut self, size: usize) -> Self {
        self.max_read_size = size;
        self
    }

    fn failing_once(mut self) -> Self {
        self.failures = 1;
        self
    }

    fn pausing(mut self, pauses: usize) -> Self {
        self.pauses = pauses;
        self
    }

    fn read(&mut self, buf: &mut [u8]) -> ReadEvent<String> {
        assert!(!buf.is_empty());
        if self.failures > 0 {
            self.failures -= 1;
            return ReadEvent::Failed("Failure".to_string());
        }
        if self.pauses > 0 {
            self.pauses -= 1;
            return ReadEvent::Pending;
        }
        let rest = &self.bytes[self.position..];
        let len = rest.len().min(buf.len()).min(self.max_read_size);
        buf[..len].copy_from_slice(&rest[..len]);
        self.position += len;
        ReadEvent::Filled(len)
    }
}

type Stream = ImapStream<Script>;

fn size(value: usize) -> NonZeroSize {
    NonZeroSize::new(value).expect("size is nonzero")
}

fn event_of(stream: &mut Stream, request: ReadRequest) -> PollEvent<String> {
    let (transport, buf) = stream.read_parts(request);
    assert_eq!(buf.len(), request.len);
    PollEvent::Read(request, transport.read(buf))
}

fn next(stream: &mut Stream) -> Option<Result<ResponseData, PollError<String>>> {
    let mut event = PollEvent::Begin;
    loop {
        event = match stream.poll_next(event) {
            PollStep::Ready(item) => return item,
            PollStep::Pending => PollEvent::Begin,
            PollStep::Read(request) => event_of(stream, request),
        };
    }
}

fn next_limited(
    stream: &mut Stream,
    limit: usize,
) -> Option<Result<LiteralAwareResponse, PollError<String>>> {
    let mut event = PollEvent::Begin;
    loop {
        event = match stream.next_with_literal_prefix(event, size(limit)) {
            PollStep::Ready(item) => return item,
            PollStep::Pending => PollEvent::Begin,
            PollStep::Read(request) => event_of(stream, request),
        };
    }
}

fn stream_error(item: Option<Result<ResponseData, PollError<String>>>) -> StreamError {
    match item {
        Some(Err(PollError::Stream(error))) => error,
        other => panic!("expected an error of the stream, got {:?}", other),
    }
}

/// The stream returns nothing after a single error of the underlying stream.
#[test]
fn test_imap_stream_error() {
    let mut imap_stream = ImapStream::new(Script::new(b"* OK\r\n").failing_once());

    // First call is an error because underlying stream fails.
    match next(&mut imap_stream).unwrap() {
        Err(PollError::Transport(error)) => assert_eq!(error, "Failure"),
        other => panic!("expected the failure, got {:?}", other),
    }

    // IMAP stream should end even though underlying stream fails only once.
    assert!(next(&mut imap_stream).is_none());
    assert_eq!(imap_stream.get_ref().position, 0);
}

#[test]
fn oversized_literal_is_rejected_before_buffer_allocation() {
    const RESPONSE_LIMIT: usize = 64 * 1024;
    let script = Script::new(b"* 1 FETCH (BODY[] {33554432}\r\n");
    let mut imap_stream = ImapStream::new_with_max_response_size(script, size(RESPONSE_LIMIT));

    let error = stream_error(next(&mut imap_stream));

    assert_eq!(error.kind(), ErrorKind::InvalidData);
    assert_eq!(error.message(), "incoming IMAP response too large");
    assert!(imap_stream.buffer().block().len() <= RESPONSE_LIMIT);
    assert_eq!(imap_stream.buffer().block().len(), 4096);
}

#[test]
fn oversized_literal_returns_only_the_configured_prefix_without_draining() {
    const LITERAL_LIMIT: usize = 8 * 1024;
    const DECLARED_LITERAL_SIZE: usize = 10 * 1024;
    let declaration =
        format!("* 1 FETCH (UID 42 BODY[] {{{DECLARED_LITERAL_SIZE}}}\r\n").into_bytes();
    let mut response = declaration.clone();
    response.extend(std::iter::repeat(b'x').take(DECLARED_LITERAL_SIZE));
    response.extend_from_slice(b")\r\nA0001 OK done\r\n");
    let script = Script::new(&response).with_max_read_size(1024);
    let mut imap_stream =
        ImapStream::new_with_max_response_size(script, size(LITERAL_LIMIT + 1024));

    let response = next_limited(&mut imap_stream, LITERAL_LIMIT)
        .expect("literal-prefix read should succeed")
        .expect("stream should return one item");
    let LiteralAwareResponse::LiteralPrefix(literal) = response else {
        panic!("oversized declaration should return a prefix");
    };

    assert_eq!(literal.declared_size(), DECLARED_LITERAL_SIZE);
    assert_eq!(literal.data(), vec![b'x'; LITERAL_LIMIT]);
    assert_eq!(literal.into_data(), vec![b'x'; LITERAL_LIMIT]);
    assert!(
        imap_stream.buffer().block().len() <= LITERAL_LIMIT + 1024,
        "the stream must never allocate the declared literal size"
    );
    assert_eq!(
        imap_stream.get_ref().position,
        declaration.len() + LITERAL_LIMIT,
        "the unread literal suffix and tagged completion must remain on the socket"
    );
    assert!(
        next_limited(&mut imap_stream, LITERAL_LIMIT).is_none(),
        "a capped stream must remain permanently read-closed"
    );
}

#[test]
fn marker_like_literal_bytes_cannot_replace_the_parser_confirmed_boundary() {
    const LITERAL_LIMIT: usize = 8 * 1024;
    const DECLARED_LITERAL_SIZE: usize = 10 * 1024;
    let declaration =
        format!("* 1 FETCH (UID 42 BODY[] {{{DECLARED_LITERAL_SIZE}}}\r\n").into_bytes();
    // This fake declaration also agrees with the number of missing bytes.
    // Selecting the earliest matching marker is what identifies the real parser boundary.
    let fake_marker = format!("{{{}}}\r\n", DECLARED_LITERAL_SIZE - 9).into_bytes();
    let mut body = fake_marker.clone();
    body.extend(std::iter::repeat(b'y').take(DECLARED_LITERAL_SIZE - fake_marker.len()));
    let mut response = declaration;
    response.extend_from_slice(&body);
    response.extend_from_slice(b")\r\nA0001 OK done\r\n");
    let script = Script::new(&response).with_max_read_size(1024);
    let mut imap_stream =
        ImapStream::new_with_max_response_size(script, size(LITERAL_LIMIT + 1024));

    let response = next_limited(&mut imap_stream, LITERAL_LIMIT)
        .expect("literal-prefix read should succeed")
        .expect("stream should return one item");
    let LiteralAwareResponse::LiteralPrefix(literal) = response else {
        panic!("oversized declaration should return a prefix");
    };

    assert_eq!(literal.declared_size(), DECLARED_LITERAL_SIZE);
    assert_eq!(literal.data(), &body[..LITERAL_LIMIT]);
}

#[test]
fn responses_come_one_by_one_however_they_are_cut() {
    let bytes = b"* 3 EXPUNGE\r\n+ idling\r\nA1 OK done\r\n";
    for max_read_size in 1..bytes.len() + 1 {
        let mut stream = ImapStream::new(Script::new(bytes).with_max_read_size(max_read_size));
        let data = next(&mut stream).unwrap().unwrap();
        assert_eq!(data.parsed(), &Response::Expunge(3));
        assert!(data.block().starts_with(b"* 3 EXPUNGE\r\n"));
        match next(&mut stream).unwrap().unwrap().parsed() {
            Response::Continue { information, .. } => {
                assert_eq!(information.as_deref(), Some("idling"))
            }
            other => panic!("unexpected {:?}", other),
        }
        match next(&mut stream).unwrap().unwrap().parsed() {
            Response::Done { tag, status, .. } => {
                assert_eq!(tag.0, "A1");
                assert_eq!(status, &Status::Ok);
            }
            other => panic!("unexpected {:?}", other),
        }
        assert!(next(&mut stream).is_none());
        assert!(next(&mut stream).is_none());
        assert_eq!(stream.get_ref().position, bytes.len());
    }
}

#[test]
fn literal_within_the_limit_is_parsed() {
    let bytes = b"* 1 FETCH (BODY[] {5}\r\nhello)\r\n";
    let mut stream = ImapStream::new(Script::new(bytes).with_max_read_size(3));
    match next_limited(&mut stream, 5).unwrap().unwrap() {
        LiteralAwareResponse::Parsed(data) => match data.parsed() {
            Response::Fetch(1, _) => {}
            other => panic!("unexpected {:?}", other),
        },
        other => panic!("unexpected {:?}", other),
    }
    assert!(next_limited(&mut stream, 5).is_none());
}

#[test]
fn limited_reads_are_no_longer_than_the_limit() {
    let bytes = b"* 1 FETCH (BODY[] {12}\r\nhello world!)\r\n";
    let mut stream = ImapStream::new(Script::new(bytes));
    match stream.next_with_literal_prefix(PollEvent::<String>::Begin, size(7)) {
        PollStep::Read(request) => assert_eq!(
            request,
            ReadRequest {
                purpose: ReadPurpose::Response,
                len: 7
            }
        ),
        other => panic!("unexpected {:?}", other),
    }
    match next_limited(&mut stream, 7).unwrap().unwrap() {
        LiteralAwareResponse::LiteralPrefix(prefix) => {
            assert_eq!(prefix.declared_size(), 12);
            assert_eq!(prefix.data(), b"hello w");
        }
        other => panic!("unexpected {:?}", other),
    }
    assert_eq!(stream.get_ref().position, 24 + 7);
    assert_eq!(stream.buffer().used(), 0);
}

#[test]
fn pending_polls_begin_anew() {
    let bytes = b"* 1 FETCH (BODY[] {12}\r\nhello world!)\r\n";
    let script = Script::new(bytes).with_max_read_size(4).pausing(5);
    let mut stream = ImapStream::new(script);
    let first = stream.poll_next(PollEvent::<String>::Begin);
    let again = stream.poll_next(PollEvent::<String>::Begin);
    match (first, again) {
        (PollStep::Read(first), PollStep::Read(again)) => assert_eq!(first, again),
        other => panic!("unexpected {:?}", other),
    }
    match next_limited(&mut stream, 3).unwrap().unwrap() {
        LiteralAwareResponse::LiteralPrefix(prefix) => assert_eq!(prefix.data(), b"hel"),
        other => panic!("unexpected {:?}", other),
    }
}

#[test]
fn paused_prefix_goes_on() {
    let bytes = b"* 1 FETCH (BODY[] {12}\r\nhello world!)\r\n";
    let mut stream = ImapStream::new(Script::new(bytes).with_max_read_size(26));
    let request = match stream.next_with_literal_prefix(PollEvent::<String>::Begin, size(10)) {
        PollStep::Read(request) => request,
        other => panic!("unexpected {:?}", other),
    };
    // Read the declaration in bites, until a read for the prefix is asked for.
    let mut request = request;
    while request.purpose == ReadPurpose::Response {
        let event = event_of(&mut stream, request);
        request = match stream.next_with_literal_prefix(event, size(10)) {
            PollStep::Read(request) => request,
            other => panic!("unexpected {:?}", other),
        };
    }
    stream.get_mut().max_read_size = 2;
    let event = event_of(&mut stream, request);
    let rest = match stream.next_with_literal_prefix(event, size(10)) {
        PollStep::Read(rest) => rest,
        other => panic!("unexpected {:?}", other),
    };
    assert_eq!(rest.purpose, request.purpose);
    assert_eq!(rest.len, request.len - 2);
    // The transport pauses, and the next poll begins anew.
    let paused = PollEvent::<String>::Read(rest, ReadEvent::Pending);
    assert!(matches!(
        stream.next_with_literal_prefix(paused, size(10)),
        PollStep::Pending
    ));
    match stream.next_with_literal_prefix(PollEvent::<String>::Begin, size(10)) {
        PollStep::Read(again) => assert_eq!(again, rest),
        other => panic!("unexpected {:?}", other),
    }
    match next_limited(&mut stream, 10).unwrap().unwrap() {
        LiteralAwareResponse::LiteralPrefix(prefix) => assert_eq!(prefix.data(), b"hello worl"),
        other => panic!("unexpected {:?}", other),
    }
    assert!(stream.is_read_closed());
}

#[test]
fn transport_that_ends_inside_a_response_is_an_error() {
    let mut stream = ImapStream::new(Script::new(b"* OK uns"));
    let error = stream_error(next(&mut stream));
    assert_eq!(error, StreamError::BytesRemaining);
    assert_eq!(error.kind(), ErrorKind::UnexpectedEof);
    assert_eq!(error.message(), "bytes remaining in stream");
    assert!(next(&mut stream).is_none());
}

#[test]
fn transport_that_ends_inside_a_prefix_is_an_error() {
    let mut stream = ImapStream::new(Script::new(b"* 1 FETCH (BODY[] {12}\r\nhello"));
    match next_limited(&mut stream, 10) {
        Some(Err(PollError::Stream(error))) => {
            assert_eq!(error, StreamError::LiteralTruncated);
            assert_eq!(error.kind(), ErrorKind::UnexpectedEof);
            assert_eq!(
                error.message(),
                "oversized IMAP literal ended before its retained prefix"
            );
        }
        other => panic!("unexpected {:?}", other),
    }
    assert!(next_limited(&mut stream, 10).is_none());
}

#[test]
fn unparsable_bytes_are_described() {
    let mut stream = ImapStream::new(Script::new(b"\x00\xff\"\r\n"));
    let error = stream_error(next(&mut stream));
    assert_eq!(error.kind(), ErrorKind::Other);
    assert_eq!(
        error.message(),
        "Error(Error { input: [0, 255, 34, 13, 10], code: TakeWhile1 }) during parsing of \
         \"\\0\u{fffd}\\\"\\r\\n\""
    );
    assert!(next(&mut stream).is_none());
}

#[test]
fn prefix_that_does_not_fit_the_buffer_is_an_error() {
    let script = Script::new(b"* 1 FETCH (BODY[] {9000}\r\n");
    let mut stream = ImapStream::new_with_max_response_size(script, size(4096));
    match next_limited(&mut stream, 8000) {
        Some(Err(PollError::Stream(error))) => assert_eq!(error, StreamError::ResponseTooLarge),
        other => panic!("unexpected {:?}", other),
    }
}

#[test]
fn prefix_that_cannot_be_counted_is_an_error() {
    let mut stream = ImapStream::new(Script::new(b""));
    let boundary = OversizedLiteralBoundary {
        literal_start: 1,
        declared_size: usize::MAX,
    };
    match stream.read_literal_prefix::<String>(boundary, size(usize::MAX)) {
        PollStep::Ready(Some(Err(PollError::Stream(error)))) => {
            assert_eq!(error, StreamError::LiteralOverflow);
            assert_eq!(error.kind(), ErrorKind::InvalidData);
            assert_eq!(error.message(), "IMAP literal overflow");
        }
        other => panic!("unexpected {:?}", other),
    }
}

#[test]
fn block_that_cannot_be_allocated_is_an_error() {
    let mut stream =
        ImapStream::new_with_max_response_size(Script::new(b""), size(usize::MAX));
    let boundary = OversizedLiteralBoundary {
        literal_start: 0,
        declared_size: usize::MAX,
    };
    match stream.read_literal_prefix::<String>(boundary, size(usize::MAX - 1)) {
        PollStep::Ready(Some(Err(PollError::Stream(error)))) => {
            assert_eq!(error, StreamError::SizeOverflow);
            assert_eq!(error.kind(), ErrorKind::InvalidData);
            assert_eq!(error.message(), "IMAP response size overflow");
        }
        other => panic!("unexpected {:?}", other),
    }
}

#[test]
fn responses_that_the_parser_has_no_answer_to_are_errors() {
    let unsupported: [&[u8]; 6] = [
        b"* 1 FETCH (INTERNALDATE NIL)\r\n",
        b"* 27 fetch (UID 5 InternalDate nil)\r\n",
        b"* 1 FETCH (FLAGS (\\Seen) BODY[] {3}\r\nab\" RFC822.TEXT \"x\\\")\" INTERNALDATE NIL",
        b"* METADATA \"\" (/shared/comment {1}\r\n\xff)\r\n",
        b"* METADATA \"a\\\"{1}\" ({17}\r\n/shared/comment \xff NIL)\r\n",
        b"* metadata \"\" (/shared/comment {2}\r\n\xc3\xa9 /shared/comment {1}\r\n\xc3)\r\n",
    ];
    for bytes in unsupported {
        let mut stream = ImapStream::new(Script::new(bytes));
        let error = stream_error(next(&mut stream));
        assert_eq!(error, StreamError::Unsupported);
        assert_eq!(error.kind(), ErrorKind::InvalidData);
        assert_eq!(error.message(), "unsupported IMAP response");
        assert!(next(&mut stream).is_none());
    }
}

#[test]
fn responses_with_another_mistake_first_are_unparsable() {
    let unparsable: [&[u8]; 9] = [
        b"* METADATA \"\" ({1}\r\n\xff NIL)\r\n",
        b"* metadata \"\" ({1}\r\n\xff NIL)\r\n",
        b"* METADATA \"\" (/shared/comment NIL {16}\r\n/shared/comment\xff NIL)\r\n",
        b"* METADATA \"\" {1}\r\n\xff\r\n",
        b"* METADATA \"\" (/shared/bogus {1}\r\n\xff)\r\n",
        b"* 1 FETCH (BOGUS INTERNALDATE NIL)\r\n",
        b"* 1 FETCH (UID INTERNALDATE NIL)\r\n",
        b"* 1 FETCH (RFC822 \"\x80\" INTERNALDATE NIL)\r\n",
        b"* METADATA {1}\r\n\xff (/shared/comment NIL)\r\n",
    ];
    for bytes in unparsable {
        assert!(is_admitted(bytes));
        let mut stream = ImapStream::new(Script::new(bytes));
        match stream_error(next(&mut stream)) {
            StreamError::Unparsable(text) => assert!(text.contains(" during parsing of \"* ")),
            other => panic!("unexpected {:?}", other),
        }
    }
    assert!(!is_admitted(b"* 1 FETCH (INTERNALDATE NIL)\r\n"));
}

#[test]
fn responses_that_the_parser_waits_for_are_incomplete() {
    let incomplete: [&[u8]; 3] = [
        b"* METADATA \"\" (/shared/vendor {1}\r\n\xff)\r\n",
        b"* METADATA \"\" ({15}\r\n/shared/vendor\xff NIL)\r\n",
        b"* METADATA \"\" (/shared/comment {2}\r\n\xff",
    ];
    for bytes in incomplete {
        assert!(is_admitted(bytes));
        let mut stream = ImapStream::new(());
        match stream.poll_next(PollEvent::<String>::Begin) {
            PollStep::Read(request) => {
                stream.read_parts(request).1[..bytes.len()].copy_from_slice(bytes);
                let event = PollEvent::<String>::Read(request, ReadEvent::Filled(bytes.len()));
                assert!(matches!(stream.poll_next(event), PollStep::Read(_)));
            }
            other => panic!("unexpected {:?}", other),
        }
        assert!(matches!(stream.decode(None), Ok(DecodeOutcome::Incomplete)));
        assert_eq!(stream.buffer().buffered(), bytes);
        assert!(!stream.is_read_closed());
    }
}

#[test]
fn undecodable_names_and_values_are_unsupported() {
    let passing: [&[u8]; 5] = [
        b"* METADATA \"\" ({17}\r\n/shared/comment \xff NIL)\r\n",
        b"* METADATA \"\" {15}\r\n/shared/admin\r\xff",
        b"* METADATA \"\" (/shared/comment NIL {21}\r\n/private/vendor/a/b\r\xff",
        b"* METADATA \"\" /shared/comment {18}\r\n/private/comment \xff\r\n",
        b"* METADATA \"\" (/shared/comment NIL /shared/comment {1}\r\n\xff",
    ];
    for bytes in passing {
        assert!(!is_admitted(bytes));
        let mut stream = ImapStream::new(Script::new(bytes));
        assert_eq!(stream_error(next(&mut stream)), StreamError::Unsupported);
    }
}

/// Polls a stream on `front` and each sequence of up to `depth` of `tokens` behind it,
/// and counts the responses that are kept from the parser.
fn count_unsupported(front: &[u8], tokens: &[&[u8]], depth: usize) -> usize {
    let mut stream = ImapStream::new(Script::new(front));
    let unsupported = matches!(
        next(&mut stream),
        Some(Err(PollError::Stream(StreamError::Unsupported)))
    );
    assert_eq!(unsupported, !is_admitted(front));
    let mut count = usize::from(unsupported);
    if depth > 0 {
        for token in tokens {
            count += count_unsupported(&[front, token].concat(), tokens, depth - 1);
        }
    }
    count
}

#[test]
fn parser_gets_no_metadata_that_it_panics_on() {
    let tokens: [&[u8]; 9] = [
        b"(",
        b")\r\n",
        b" ",
        b"NIL",
        b"/shared/comment",
        b"/shared/vendor",
        b"\"x\"",
        b"{1}\r\n\xff",
        b"{17}\r\n/shared/comment \xff",
    ];
    assert!(count_unsupported(b"* METADATA \"\" ", &tokens, 4) > 0);
    assert!(count_unsupported(b"* METADATA \"\" (/shared/comment ", &tokens, 4) > 0);
    // Only a name behind a mailbox and a space.
    assert_eq!(count_unsupported(b"* METADATA ", &tokens[2..], 3), 1);
}

#[test]
fn parser_gets_no_fetch_that_it_panics_on() {
    let tokens: [&[u8]; 9] = [
        b"(",
        b")\r\n",
        b" ",
        b"INTERNALDATE NIL",
        b"InternalDate ",
        b"UID 1",
        b"FLAGS ",
        b"BODY[] ",
        b"{3}\r\nNIL",
    ];
    assert!(count_unsupported(b"* 1 FETCH ", &tokens, 4) > 0);
    assert!(count_unsupported(b"* 1 FETCH (UID 1", &tokens, 4) > 0);
}

#[test]
fn strings_and_later_responses_do_not_make_a_response_unsupported() {
    let supported: [&[u8]; 8] = [
        b"* 1 FETCH (INTERNALDATE \"17-Jul-1996 02:44:25 -0700\")\r\n",
        b"* 1 FETCH (BODY[] {22}\r\nsee (INTERNALDATE NIL))\r\n",
        b"* 1 FETCH (BODY[] \"\\\\\\\" INTERNALDATE NIL\" UID 4)\r\n",
        b"* 1 FETCH (FLAGS (INTERNALDATE NIL))\r\n",
        b"* 1 FETCH (UID 4)\r\n* 2 FETCH (INTERNALDATE NIL)\r\n",
        b"* OK INTERNALDATE NIL\r\n",
        b"* METADATA \"\" (/shared/comment {2}\r\n\xc3\xa9)\r\n",
        b"* METADATA \"\" /shared/comment\r\n* 1 FETCH (BODY[] {1}\r\n\xff)\r\n",
    ];
    for bytes in supported {
        let mut stream = ImapStream::new(Script::new(bytes));
        assert!(next(&mut stream).unwrap().is_ok());
    }
}

#[test]
fn settling_follows_the_answer_of_the_parser() {
    let mut stream = ImapStream::new(());
    let result = stream.settle(b"", ParseOutcome::NeedsMore, None);
    assert!(matches!(result, Err(RecoverableDecodeError::Incomplete)));

    let result = stream.settle(
        b"{9}\r\nab",
        ParseOutcome::NeedsBytes(7),
        Some(size(8)),
    );
    match result {
        Err(RecoverableDecodeError::OversizedLiteral(boundary)) => assert_eq!(
            boundary,
            OversizedLiteralBoundary {
                literal_start: 5,
                declared_size: 9
            }
        ),
        other => panic!("unexpected {:?}", other),
    }
    let result = stream.settle(
        b"{9}\r\nab",
        ParseOutcome::NeedsBytes(7),
        Some(size(9)),
    );
    assert!(matches!(result, Err(RecoverableDecodeError::Incomplete)));

    let failure = ParseOutcome::Failed("Broken".to_string());
    match stream.settle(b"a\"b", failure, None) {
        Err(RecoverableDecodeError::Invalid(error)) => {
            assert_eq!(error.message(), "Broken during parsing of \"a\\\"b\"")
        }
        other => panic!("unexpected {:?}", other),
    }

    let complete = ParseOutcome::Complete {
        remaining: b"rest",
        response: Response::Expunge(1),
    };
    assert_eq!(stream.settle(b"x rest", complete, None).unwrap(), Response::Expunge(1));
    assert_eq!(stream.buffer().buffered(), b"rest");
}

#[test]
fn decoding_waits_for_the_bytes_that_the_parser_asked_for() {
    let mut stream = ImapStream::new(());
    let result = stream.settle(b"", ParseOutcome::NeedsBytes(10), None);
    assert!(matches!(result, Err(RecoverableDecodeError::Incomplete)));
    match stream.poll_next(PollEvent::<String>::Begin) {
        PollStep::Read(request) => {
            let (_, buf) = stream.read_parts(request);
            buf[..6].copy_from_slice(b"+ ok\r\n");
            // A complete response, but short of what was asked for.
            let event = PollEvent::<String>::Read(request, ReadEvent::Filled(6));
            assert!(matches!(stream.poll_next(event), PollStep::Read(_)));
        }
        other => panic!("unexpected {:?}", other),
    }
    assert!(matches!(stream.decode(None), Ok(DecodeOutcome::Incomplete)));
    assert_eq!(stream.decode_needs(), 10);
    match stream.poll_next(PollEvent::<String>::Begin) {
        PollStep::Read(request) => {
            let (_, buf) = stream.read_parts(request);
            buf[..6].copy_from_slice(b"+ ok\r\n");
            let event = PollEvent::<String>::Read(request, ReadEvent::Filled(6));
            assert!(matches!(
                stream.poll_next(event),
                PollStep::Ready(Some(Ok(_)))
            ));
        }
        other => panic!("unexpected {:?}", other),
    }
    assert_eq!(stream.buffer().buffered(), b"+ ok\r\n");
}

#[test]
fn following_turns_results_into_steps() {
    let mut stream = ImapStream::new(());
    match stream.follow::<String>(Err(StreamError::Unsupported), None) {
        PollStep::Ready(Some(Err(PollError::Stream(StreamError::Unsupported)))) => {}
        other => panic!("unexpected {:?}", other),
    }
    match stream.follow::<String>(Ok(DecodeOutcome::Incomplete), Some(size(100))) {
        PollStep::Read(request) => assert_eq!(request.len, 100),
        other => panic!("unexpected {:?}", other),
    }
    let boundary = OversizedLiteralBoundary {
        literal_start: 0,
        declared_size: 200,
    };
    let oversized = Ok(DecodeOutcome::OversizedLiteral(boundary));
    match stream.follow::<String>(oversized, Some(size(100))) {
        PollStep::Read(request) => assert_eq!(
            request,
            ReadRequest {
                purpose: ReadPurpose::LiteralPrefix {
                    boundary,
                    target: 100
                },
                len: 100
            }
        ),
        other => panic!("unexpected {:?}", other),
    }
}

#[test]
fn buffered_prefix_is_delivered_at_once() {
    let mut stream = ImapStream::new(());
    let remaining = b"{9}\r\nabcd";
    let complete = ParseOutcome::Complete {
        remaining,
        response: Response::Expunge(1),
    };
    assert!(stream.settle(b"x{9}\r\nabcd", complete, None).is_ok());
    let boundary = OversizedLiteralBoundary {
        literal_start: 5,
        declared_size: 9,
    };
    match stream.read_literal_prefix::<String>(boundary, size(4)) {
        PollStep::Ready(Some(Ok(LiteralAwareResponse::LiteralPrefix(prefix)))) => {
            assert_eq!(prefix.declared_size(), 9);
            assert_eq!(prefix.data(), b"abcd");
        }
        other => panic!("unexpected {:?}", other),
    }
    assert!(matches!(
        stream.poll_next(PollEvent::<String>::Begin),
        PollStep::Ready(None)
    ));
}

#[test]
fn underlying_stream_is_reachable() {
    let mut stream = ImapStream::new(5);
    assert_eq!(*stream.get_ref(), 5);
    *stream.get_mut() += 1;
    *stream.as_mut() += 1;
    assert_eq!(stream.into_inner(), 7);
}

#[test]
fn request_is_one_line() {
    let stream = ImapStream::new(());
    let pieces = stream.encode(Request(Some("A\u{e9}1".to_string()), b"NOOP".to_vec()));
    assert_eq!(pieces.len(), 4);
    assert_eq!(pieces.concat(), "A\u{e9}1 NOOP\r\n".as_bytes());
    let pieces = stream.encode(Request(None, b"DONE".to_vec()));
    assert_eq!(pieces, vec![b"DONE".to_vec(), b"\r\n".to_vec()]);
}
