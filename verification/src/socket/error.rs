//! Errors of the Socket.IO layer.

use crate::engine::packet::{Message, MessageModel};
use crate::proto::error::{PayloadError, PayloadType};
use vstd::prelude::*;

verus! {

/// Errors from decoding a raw Socket.IO packet.
#[derive(Debug, Clone, Copy, PartialEq, Eq, Structural)]
pub enum PacketError {
    /// No bytes were available to read.
    Empty,
    /// First byte does not map to any known packet type.
    InvalidId { id: u8 },
    /// Binary packet header has no attachment count before the `-` separator.
    MissingAttachmentCount,
    /// Text event packet carries an attachment count.
    UnexpectedAttachments { count: usize },
    /// Attachment count prefix is present but does not fit in `usize`.
    InvalidAttachmentCount,
    /// Non-default namespace is missing the `,` delimiter after the path.
    MissingNamespaceDelimiter,
    /// Ack packet has no numeric ID field.
    MissingAckId,
    /// Ack ID field is present but does not fit in `u64`.
    InvalidAckId,
}

/// Errors raised by the namespace router.
#[derive(Debug)]
pub enum ManagerError {
    /// A packet could not be decoded.
    Packet(PacketError),
    /// A text frame arrived while a binary reassembly was in progress.
    UnexpectedText(Vec<u8>),
    /// A binary frame arrived with no pending reassembly.
    UnexpectedBinary(Vec<u8>),
    /// Operation on a namespace that is not open.
    UnknownNamespace { ns: Vec<u8> },
    /// Ack ID in a server response has no registered handler.
    UnknownAckId { ns: Vec<u8>, id: u64 },
    /// Attempted to open a namespace that is already open.
    NamespaceConflict { ns: Vec<u8> },
    /// A CONNECT or CONNECT_ERROR payload did not read as its JSON object.
    /// For a CONNECT, the namespace was already marked confirmed and its
    /// buffered messages released: `flushed` holds them, in order, for the
    /// engine.
    Payload { ns: Vec<u8>, error: PayloadError, flushed: Vec<Message> },
}

/// The mathematical value of a [`ManagerError`].
pub enum ManagerErrorModel {
    Packet(PacketError),
    UnexpectedText(Seq<u8>),
    UnexpectedBinary(Seq<u8>),
    UnknownNamespace(Seq<u8>),
    UnknownAckId(Seq<u8>, u64),
    NamespaceConflict(Seq<u8>),
    Payload(Seq<u8>, PayloadType, Option<Seq<u8>>, Seq<MessageModel>),
}

impl View for ManagerError {
    type V = ManagerErrorModel;

    open spec fn view(&self) -> ManagerErrorModel {
        match self {
            ManagerError::Packet(e) => ManagerErrorModel::Packet(*e),
            ManagerError::UnexpectedText(t) => ManagerErrorModel::UnexpectedText(t@),
            ManagerError::UnexpectedBinary(b) => ManagerErrorModel::UnexpectedBinary(b@),
            ManagerError::UnknownNamespace { ns } => ManagerErrorModel::UnknownNamespace(ns@),
            ManagerError::UnknownAckId { ns, id } => ManagerErrorModel::UnknownAckId(ns@, *id),
            ManagerError::NamespaceConflict { ns } => ManagerErrorModel::NamespaceConflict(ns@),
            ManagerError::Payload { ns, error, flushed } => ManagerErrorModel::Payload(
                ns@,
                error.kind,
                match &error.json {
                    Some(j) => Some(j@),
                    None => None,
                },
                flushed@.map_values(|m: Message| m@),
            ),
        }
    }
}

} // verus!
