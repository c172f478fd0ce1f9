//! Requests of a client.
use vstd::prelude::*;
use vstd::slice::slice_to_vec;
use vstd::utf8::encode_utf8;

use crate::ascii::{CR, LF, SPACE};

verus! {

/// A command line to send: its tag, if it has one, and its text.
#[derive(Debug, PartialEq, Eq)]
pub struct Request(pub Option<String>, pub Vec<u8>);

/// The pieces of bytes that make up a request on the wire, in order.
pub open spec fn wire_pieces(tag: Option<Seq<char>>, text: Seq<u8>) -> Seq<Seq<u8>> {
    match tag {
        Some(tag) => seq![encode_utf8(tag), seq![SPACE], text, seq![CR, LF]],
        None => seq![text, seq![CR, LF]],
    }
}

impl Request {
    /// The tag of the request.
    pub open spec fn tag(self) -> Option<Seq<char>> {
        match self.0 {
            Some(tag) => Some(tag@),
            None => None,
        }
    }

    /// Splits the request into the pieces that are written one after the other.
    pub fn into_pieces(self) -> (pieces: Vec<Vec<u8>>)
        ensures
            pieces@.map_values(|piece: Vec<u8>| piece@) == wire_pieces(self.tag(), self.1@),
    {
        let Request(tag, text) = self;
        let mut pieces: Vec<Vec<u8>> = Vec::new();
        if let Some(tag) = &tag {
            pieces.push(slice_to_vec(tag.as_str().as_bytes()));
            pieces.push(vec![SPACE]);
        }
        pieces.push(text);
        pieces.push(vec![CR, LF]);
        assert(pieces@.map_values(|piece: Vec<u8>| piece@) =~~= wire_pieces(self.tag(), self.1@));
        pieces
    }
}

} // verus!
