//! Errors of the byte-level packet layer.

use vstd::prelude::*;

verus! {

/// The payload type that failed to read as JSON.
#[derive(Debug, Clone, Copy, PartialEq, Eq, Structural)]
pub enum PayloadType {
    /// A CONNECT payload: a JSON object with a string `sid`.
    Connect,
    /// A CONNECT_ERROR payload: a JSON object with a string `message`.
    ConnectError,
}

/// A JSON payload that did not read as the expected type.
#[derive(Debug)]
pub struct PayloadError {
    /// What the payload was read as.
    pub kind: PayloadType,
    /// The offending JSON text, when attached.
    pub json: Option<Vec<u8>>,
}

impl PayloadError {
    /// A payload error for `kind`, without its text.
    pub fn new(kind: PayloadType) -> (r: PayloadError)
        ensures
            r.kind == kind,
            r.json is None,
    {
        PayloadError { kind, json: None }
    }

    /// Attaches the offending JSON text.
    pub fn with_slice(self, json: &[u8]) -> (r: PayloadError)
        ensures
            r.kind == self.kind,
            r.json matches Some(j) && j@ == json@,
    {
        let copy = crate::num::copy_range(json, 0, json.len());
        proof {
            assert(json@.subrange(0, json@.len() as int) =~= json@);
        }
        PayloadError { kind: self.kind, json: Some(copy) }
    }
}

/// Errors from decoding a raw Socket.IO packet.
#[derive(Debug)]
pub enum ParseError {
    /// The packet is empty.
    EmptyPacket,
    /// The first byte is not a known packet type.
    UnknownPacketType { byte: u8 },
    /// A binary packet has no `<count>-` prefix.
    MissingAttachmentCount,
    /// The attachment count does not fit in `usize`.
    InvalidAttachmentCount,
    /// A non-default namespace has no `,` after its path.
    MissingNamespaceDelimiter,
    /// An ack packet has no numeric ID.
    MissingAckId,
    /// A packet ID is not a valid `u64`.
    InvalidAckId,
    /// A text event carries an attachment count.
    UnexpectedAttachments { count: usize },
    /// Invalid UTF-8 in the packet.
    Utf8,
    /// A JSON payload did not read as its type.
    Payload(PayloadError),
}

/// The mathematical value of a [`ParseError`].
pub enum ParseErrorModel {
    EmptyPacket,
    UnknownPacketType(u8),
    MissingAttachmentCount,
    InvalidAttachmentCount,
    MissingNamespaceDelimiter,
    MissingAckId,
    InvalidAckId,
    UnexpectedAttachments(usize),
    Utf8,
    /// The payload type and the offending JSON text, when attached.
    Payload(PayloadType, Option<Seq<u8>>),
}

impl View for ParseError {
    type V = ParseErrorModel;

    open spec fn view(&self) -> ParseErrorModel {
        match self {
            ParseError::EmptyPacket => ParseErrorModel::EmptyPacket,
            ParseError::UnknownPacketType { byte } => ParseErrorModel::UnknownPacketType(*byte),
            ParseError::MissingAttachmentCount => ParseErrorModel::MissingAttachmentCount,
            ParseError::InvalidAttachmentCount => ParseErrorModel::InvalidAttachmentCount,
            ParseError::MissingNamespaceDelimiter => ParseErrorModel::MissingNamespaceDelimiter,
            ParseError::MissingAckId => ParseErrorModel::MissingAckId,
            ParseError::InvalidAckId => ParseErrorModel::InvalidAckId,
            ParseError::UnexpectedAttachments { count } => ParseErrorModel::UnexpectedAttachments(
                *count,
            ),
            ParseError::Utf8 => ParseErrorModel::Utf8,
            ParseError::Payload(p) => ParseErrorModel::Payload(
                p.kind,
                match &p.json {
                    Some(j) => Some(j@),
                    None => None,
                },
            ),
        }
    }
}

} // verus!
