//! Responses, parsed or cut short.
use bytes::BytesMut;
use imap_proto::types::Response;
use vstd::prelude::*;
use vstd::slice::slice_to_vec;

use crate::block::block_bytes;

verus! {

/// `imap_proto::types::Response`, a response as the parser returns it.
#[verifier::external_type_specification]
#[verifier::external_body]
pub struct ExResponse<'a>(Response<'a>);

/// A parsed response, with the block of bytes that it was parsed from.
#[derive(Debug)]
pub struct ResponseData {
    block: BytesMut,
    response: Response<'static>,
}

/// The contents of a [`ResponseData`].
#[verifier::ext_equal]
pub struct ResponseView {
    pub block: Seq<u8>,
    pub response: Response<'static>,
}

impl View for ResponseData {
    type V = ResponseView;

    closed spec fn view(&self) -> ResponseView {
        ResponseView { block: block_bytes(self.block), response: self.response }
    }
}

impl ResponseData {
    /// Puts a response together with its block.
    pub fn new(block: BytesMut, response: Response<'static>) -> (data: Self)
        ensures
            data@ == (ResponseView { block: block_bytes(block), response }),
    {
        ResponseData { block, response }
    }

    /// Returns the block that the response was parsed from.
    pub fn block(&self) -> (block: &BytesMut)
        ensures
            block_bytes(*block) == self@.block,
    {
        &self.block
    }

    /// Returns the parsed response.
    pub fn parsed(&self) -> (response: &Response<'static>)
        ensures
            *response == self@.response,
    {
        &self.response
    }
}

/// The bounded body prefix retained from an oversized server-declared literal.
#[derive(Debug, PartialEq, Eq)]
pub struct LiteralPrefix {
    declared_size: usize,
    data: Vec<u8>,
}

/// The contents of a [`LiteralPrefix`].
#[verifier::ext_equal]
pub struct PrefixView {
    pub declared_size: usize,
    pub data: Seq<u8>,
}

impl View for LiteralPrefix {
    type V = PrefixView;

    closed spec fn view(&self) -> PrefixView {
        PrefixView { declared_size: self.declared_size, data: self.data@ }
    }
}

impl LiteralPrefix {
    /// Keeps `bytes` as the prefix of a literal of `declared_size` bytes.
    pub(crate) fn new(declared_size: usize, bytes: &[u8]) -> (prefix: Self)
        ensures
            prefix@ == (PrefixView { declared_size, data: bytes@ }),
    {
        LiteralPrefix { declared_size, data: slice_to_vec(bytes) }
    }

    /// Returns the literal size declared by the server.
    pub fn declared_size(&self) -> (size: usize)
        ensures
            size == self@.declared_size,
    {
        self.declared_size
    }

    /// Returns exactly the retained prefix bytes.
    pub fn data(&self) -> (data: &[u8])
        ensures
            data@ == self@.data,
    {
        &self.data
    }

    /// Consumes the outcome and returns exactly the retained prefix bytes.
    pub fn into_data(self) -> (data: Vec<u8>)
        ensures
            data@ == self@.data,
    {
        self.data
    }
}

/// One parsed IMAP response or the retained prefix of a noncompliant oversized literal.
#[derive(Debug)]
pub enum LiteralAwareResponse {
    /// A complete parsed IMAP response.
    Parsed(ResponseData),
    /// A body prefix retained from a server-declared literal larger than the configured limit.
    LiteralPrefix(LiteralPrefix),
}

/// The contents of a [`LiteralAwareResponse`].
pub enum ItemView {
    Parsed(ResponseView),
    LiteralPrefix(PrefixView),
}

impl View for LiteralAwareResponse {
    type V = ItemView;

    open spec fn view(&self) -> ItemView {
        match self {
            LiteralAwareResponse::Parsed(data) => ItemView::Parsed(data@),
            LiteralAwareResponse::LiteralPrefix(prefix) => ItemView::LiteralPrefix(prefix@),
        }
    }
}

} // verus!
