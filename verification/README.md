# imap-stream

Incremental reading of IMAP server responses, with the decisions proved correct
in Verus.

A stream collects the bytes that a transport delivers in a buffer that never grows
past its limit, has them parsed by `imap-proto` one response at a time, and can cut
a literal that is larger than the caller wants to a prefix of its body. It does no
I/O of its own: polling it is a state machine that says how many bytes to read next
and is told how the read went.

## Layout

- `src/buffer.rs`: the bounded buffer.
- `src/literal.rs`: finding the literal that a parser stopped in.
- `src/poll.rs`: the state machine as a mathematical function.
- `src/stream.rs`: the stream, proved to follow that function.
- `src/laws.rs`: what holds of streams, buffers and requests as a whole.
- `src/admission.rs`, `src/entry.rs`: which bytes the parser can be given without a
  panic.
- `src/block.rs`, `src/parser.rs`, `src/text.rs`: the contracts of `bytes::BytesMut`,
  of `imap_proto::parser::parse_response` and of std's text functions, which are
  taken on trust, as are std's `copy_from_slice` in `src/block.rs` and
  `str::from_utf8` in `src/admission.rs`.
- `app/`: the stream over the transports of tokio or of async-std.
