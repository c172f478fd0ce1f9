//! The response parser: `imap_proto::parser::parse_response`.
use imap_proto::types::Response;
use vstd::prelude::*;

use crate::admission::parser_admits;

verus! {

/// What the parser makes of some bytes.
#[derive(Debug)]
pub enum ParseOutcome<'a> {
    /// The bytes begin with a complete response; `remaining` comes after it.
    Complete { remaining: &'a [u8], response: Response<'static> },
    /// The response needs at least this many bytes more.
    NeedsBytes(usize),
    /// The response needs more bytes, nobody knows how many.
    NeedsMore,
    /// The bytes do not begin with a response; the text says why.
    Failed(String),
}

/// The contents of a [`ParseOutcome`].
pub enum ParseView {
    Complete { remaining: Seq<u8>, response: Response<'static> },
    NeedsBytes(usize),
    NeedsMore,
    Failed(Seq<char>),
}

impl<'a> View for ParseOutcome<'a> {
    type V = ParseView;

    open spec fn view(&self) -> ParseView {
        match *self {
            ParseOutcome::Complete { remaining, response } => ParseView::Complete {
                remaining: remaining@,
                response,
            },
            ParseOutcome::NeedsBytes(count) => ParseView::NeedsBytes(count),
            ParseOutcome::NeedsMore => ParseView::NeedsMore,
            ParseOutcome::Failed(text) => ParseView::Failed(text@),
        }
    }
}

/// Whether `rest` is `input` without some bytes, at least one, at its front.
pub open spec fn is_proper_suffix(rest: Seq<u8>, input: Seq<u8>) -> bool {
    &&& rest.len() < input.len()
    &&& rest == input.skip(input.len() - rest.len())
}

/// What the parser makes of `input`. Two responses count as the same value if
/// they are equal as `imap_proto` compares them.
pub uninterp spec fn parse_result(input: Seq<u8>) -> ParseView;

/// `imap_proto::parser::parse_response` parses one response at the front of the
/// input. What it returns depends on the input alone. A response takes at least
/// one byte, and what comes after it is handed back. Where the parser knows how
/// many bytes are missing, that is at least one. The text of a failure is the
/// `Debug` format of the parser's error. The parser is not given input on which it
/// panics.
///
/// Left unsaid is how deep a body structure may be nested: the parser recurses,
/// and how far depends on the stack of the running thread.
#[verifier::external_body]
pub(crate) fn parse_response<'a>(input: &'a [u8]) -> (outcome: ParseOutcome<'a>)
    requires
        parser_admits(input@),
    ensures
        outcome@ == parse_result(input@),
        outcome matches ParseOutcome::Complete { remaining, response } ==> is_proper_suffix(
            remaining@,
            input@,
        ),
        outcome matches ParseOutcome::NeedsBytes(count) ==> count > 0,
{
    match imap_proto::parser::parse_response(input) {
        Ok((remaining, response)) => ParseOutcome::Complete {
            remaining,
            response: response.into_owned(),
        },
        Err(nom::Err::Incomplete(nom::Needed::Size(count))) => ParseOutcome::NeedsBytes(count.get()),
        Err(nom::Err::Incomplete(nom::Needed::Unknown)) => ParseOutcome::NeedsMore,
        Err(other) => ParseOutcome::Failed(format!("{:?}", other)),
    }
}

} // verus!
