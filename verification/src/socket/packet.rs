//! Socket.IO v4 packet types.

use crate::num::{blobs_view, lemma_u64_digits};
use crate::socket::parse::{hint_packet_size, hint_size_spec, write_packet, write_packet_spec};
use vstd::prelude::*;

/// The typed CONNECT / CONNECT_ERROR payloads a [`Signal`] carries.
pub use crate::proto::packet::{Connect, ConnectError};
use crate::proto::packet::ObjectModel;

verus! {

/// A value tagged with a Socket.IO namespace path (e.g. `"/chat"`).
#[derive(Debug)]
pub struct Ns<T>(pub Vec<u8>, pub T);

/// A wire-level packet decoded from (or encoded into) a single text frame.
///
/// Binary variants carry an attachment count; the router collects the
/// follow-up binary frames.
#[derive(Debug)]
#[allow(inconsistent_fields)]
pub enum Packet {
    /// Type `0` — namespace connection (payload: optional JSON object).
    Connect(Vec<u8>),
    /// Type `1` — namespace disconnection.
    Disconnect,
    /// Type `2` — event.
    Event { payload: Vec<u8>, id: Option<u64> },
    /// Type `3` — acknowledgement.
    Ack { payload: Vec<u8>, id: u64 },
    /// Type `4` — namespace connection rejected.
    ConnectError(Vec<u8>),
    /// Type `5` — binary event with `count` follow-up binary frames.
    BinaryEvent { payload: Vec<u8>, id: Option<u64>, count: usize },
    /// Type `6` — binary acknowledgement with `count` follow-up binary frames.
    BinaryAck { payload: Vec<u8>, id: u64, count: usize },
}

/// The mathematical value of a [`Packet`].
#[allow(inconsistent_fields)]
pub enum PacketModel {
    Connect(Seq<u8>),
    Disconnect,
    Event { payload: Seq<u8>, id: Option<u64> },
    Ack { payload: Seq<u8>, id: u64 },
    ConnectError(Seq<u8>),
    BinaryEvent { payload: Seq<u8>, id: Option<u64>, count: usize },
    BinaryAck { payload: Seq<u8>, id: u64, count: usize },
}

impl View for Packet {
    type V = PacketModel;

    open spec fn view(&self) -> PacketModel {
        match self {
            Packet::Connect(p) => PacketModel::Connect(p@),
            Packet::Disconnect => PacketModel::Disconnect,
            Packet::Event { payload, id } => PacketModel::Event { payload: payload@, id: *id },
            Packet::Ack { payload, id } => PacketModel::Ack { payload: payload@, id: *id },
            Packet::ConnectError(p) => PacketModel::ConnectError(p@),
            Packet::BinaryEvent { payload, id, count } => PacketModel::BinaryEvent {
                payload: payload@,
                id: *id,
                count: *count,
            },
            Packet::BinaryAck { payload, id, count } => PacketModel::BinaryAck {
                payload: payload@,
                id: *id,
                count: *count,
            },
        }
    }
}

/// The size hint of a packet, as the arguments of [`hint_packet_size`].
pub open spec fn packet_size_hint_spec(p: PacketModel, ns: Seq<u8>) -> int {
    match p {
        PacketModel::Connect(d) => hint_size_spec(ns, false, false, Some(d)),
        PacketModel::Disconnect => hint_size_spec(ns, false, false, None),
        PacketModel::Event { payload, id } => hint_size_spec(ns, false, id is Some, Some(payload)),
        PacketModel::Ack { payload, .. } => hint_size_spec(ns, false, true, Some(payload)),
        PacketModel::ConnectError(d) => hint_size_spec(ns, false, false, Some(d)),
        PacketModel::BinaryEvent { payload, id, .. } => hint_size_spec(
            ns,
            true,
            id is Some,
            Some(payload),
        ),
        PacketModel::BinaryAck { payload, .. } => hint_size_spec(ns, true, true, Some(payload)),
    }
}

/// The wire text of a packet in namespace `ns`.
pub open spec fn encode_spec(p: PacketModel, ns: Seq<u8>) -> Seq<u8> {
    match p {
        PacketModel::Connect(d) => write_packet_spec(48, None, ns, None, Some(d)),
        PacketModel::Disconnect => write_packet_spec(49, None, ns, None, None),
        PacketModel::Event { payload, id } => write_packet_spec(50, None, ns, id, Some(payload)),
        PacketModel::Ack { payload, id } => write_packet_spec(51, None, ns, Some(id), Some(payload)),
        PacketModel::ConnectError(d) => write_packet_spec(52, None, ns, None, Some(d)),
        PacketModel::BinaryEvent { payload, id, count } => write_packet_spec(
            53,
            Some(count),
            ns,
            id,
            Some(payload),
        ),
        PacketModel::BinaryAck { payload, id, count } => write_packet_spec(
            54,
            Some(count),
            ns,
            Some(id),
            Some(payload),
        ),
    }
}

/// The payload bytes a packet carries, if any.
pub open spec fn packet_payload(p: PacketModel) -> Seq<u8> {
    match p {
        PacketModel::Connect(d) => d,
        PacketModel::Disconnect => Seq::empty(),
        PacketModel::Event { payload, .. } => payload,
        PacketModel::Ack { payload, .. } => payload,
        PacketModel::ConnectError(d) => d,
        PacketModel::BinaryEvent { payload, .. } => payload,
        PacketModel::BinaryAck { payload, .. } => payload,
    }
}

impl Packet {
    /// Returns a conservative upper bound on the encoded text-frame byte length.
    pub fn size_hint(&self, ns: &[u8]) -> (n: usize)
        requires
            ns.len() + packet_payload(self@).len() + 43 <= usize::MAX,
        ensures
            n == packet_size_hint_spec(self@, ns@),
            encode_spec(self@, ns@).len() <= n,
    {
        proof {
            lemma_encode_within_hint(self@, ns@);
        }
        match self {
            Packet::Connect(p) => hint_packet_size(ns, false, false, Some(p.as_slice())),
            Packet::Disconnect => hint_packet_size(ns, false, false, None),
            Packet::Event { payload, id } => hint_packet_size(
                ns,
                false,
                id.is_some(),
                Some(payload.as_slice()),
            ),
            Packet::Ack { payload, .. } => hint_packet_size(ns, false, true, Some(payload.as_slice())),
            Packet::ConnectError(p) => hint_packet_size(ns, false, false, Some(p.as_slice())),
            Packet::BinaryEvent { payload, id, .. } => hint_packet_size(
                ns,
                true,
                id.is_some(),
                Some(payload.as_slice()),
            ),
            Packet::BinaryAck { payload, .. } => hint_packet_size(
                ns,
                true,
                true,
                Some(payload.as_slice()),
            ),
        }
    }

    /// Encodes this packet as the text frame for namespace `ns`.
    pub fn encode(&self, ns: &[u8]) -> (out: Vec<u8>)
        ensures
            out@ == encode_spec(self@, ns@),
    {
        let mut buffer: Vec<u8> = Vec::new();
        match self {
            Packet::Connect(p) => write_packet(&mut buffer, 48, None, ns, None, Some(p.as_slice())),
            Packet::Disconnect => write_packet(&mut buffer, 49, None, ns, None, None),
            Packet::Event { payload, id } => write_packet(
                &mut buffer,
                50,
                None,
                ns,
                *id,
                Some(payload.as_slice()),
            ),
            Packet::Ack { payload, id } => write_packet(
                &mut buffer,
                51,
                None,
                ns,
                Some(*id),
                Some(payload.as_slice()),
            ),
            Packet::ConnectError(p) => write_packet(
                &mut buffer,
                52,
                None,
                ns,
                None,
                Some(p.as_slice()),
            ),
            Packet::BinaryEvent { payload, id, count } => write_packet(
                &mut buffer,
                53,
                Some(*count),
                ns,
                *id,
                Some(payload.as_slice()),
            ),
            Packet::BinaryAck { payload, id, count } => write_packet(
                &mut buffer,
                54,
                Some(*count),
                ns,
                Some(*id),
                Some(payload.as_slice()),
            ),
        }
        proof {
            assert(buffer@ =~= encode_spec(self@, ns@));
        }
        buffer
    }
}

impl Ns<Packet> {
    /// Size hint of the packet in its own namespace.
    pub fn size_hint(&self) -> (n: usize)
        requires
            self.0@.len() + packet_payload(self.1@).len() + 43 <= usize::MAX,
        ensures
            n == packet_size_hint_spec(self.1@, self.0@),
    {
        self.1.size_hint(self.0.as_slice())
    }

    /// Encodes the packet in its own namespace.
    pub fn encode(&self) -> (out: Vec<u8>)
        ensures
            out@ == encode_spec(self.1@, self.0@),
    {
        self.1.encode(self.0.as_slice())
    }
}

/// The text encoding of any packet fits in its size hint.
pub proof fn lemma_encode_within_hint(p: PacketModel, ns: Seq<u8>)
    ensures
        encode_spec(p, ns).len() <= packet_size_hint_spec(p, ns),
{
    match p {
        PacketModel::Event { id: Some(i), .. } => lemma_u64_digits(i),
        PacketModel::Ack { id, .. } => lemma_u64_digits(id),
        PacketModel::BinaryEvent { id, count, .. } => {
            lemma_u64_digits(count as u64);
            if let Some(i) = id {
                lemma_u64_digits(i);
            }
        },
        PacketModel::BinaryAck { id, count, .. } => {
            lemma_u64_digits(count as u64);
            lemma_u64_digits(id);
        },
        _ => {},
    }
}

/// Type-erased inbound event after binary reassembly.
#[derive(Debug)]
pub struct DynEvent {
    pub payload: Vec<u8>,
    pub id: Option<u64>,
    pub attachments: Option<Vec<Vec<u8>>>,
}

/// The mathematical value of a [`DynEvent`].
pub struct DynEventModel {
    pub payload: Seq<u8>,
    pub id: Option<u64>,
    pub attachments: Option<Seq<Seq<u8>>>,
}

/// The mathematical value of optional attachments.
pub open spec fn attachments_view(a: Option<Vec<Vec<u8>>>) -> Option<Seq<Seq<u8>>> {
    match a {
        Some(v) => Some(blobs_view(v@)),
        None => None,
    }
}

impl View for DynEvent {
    type V = DynEventModel;

    open spec fn view(&self) -> DynEventModel {
        DynEventModel {
            payload: self.payload@,
            id: self.id,
            attachments: attachments_view(self.attachments),
        }
    }
}

impl DynEvent {
    /// An event without attachments.
    pub fn new(payload: Vec<u8>, id: Option<u64>) -> (r: Self)
        ensures
            r@ == (DynEventModel { payload: payload@, id, attachments: None }),
    {
        DynEvent { payload, id, attachments: None }
    }

    /// The same event carrying `attachments`.
    pub fn with_attachments(self, attachments: Vec<Vec<u8>>) -> (r: Self)
        ensures
            r@ == (DynEventModel {
                payload: self.payload@,
                id: self.id,
                attachments: Some(blobs_view(attachments@)),
            }),
    {
        DynEvent { payload: self.payload, id: self.id, attachments: Some(attachments) }
    }
}

/// Type-erased inbound acknowledgement after binary reassembly.
#[derive(Debug)]
pub struct DynAck {
    pub payload: Vec<u8>,
    pub attachments: Option<Vec<Vec<u8>>>,
}

/// The mathematical value of a [`DynAck`].
pub struct DynAckModel {
    pub payload: Seq<u8>,
    pub attachments: Option<Seq<Seq<u8>>>,
}

impl View for DynAck {
    type V = DynAckModel;

    open spec fn view(&self) -> DynAckModel {
        DynAckModel { payload: self.payload@, attachments: attachments_view(self.attachments) }
    }
}

impl DynAck {
    /// An acknowledgement without attachments.
    pub fn new(payload: Vec<u8>) -> (r: Self)
        ensures
            r@ == (DynAckModel { payload: payload@, attachments: None }),
    {
        DynAck { payload, attachments: None }
    }

    /// The same acknowledgement carrying `attachments`.
    pub fn with_attachments(self, attachments: Vec<Vec<u8>>) -> (r: Self)
        ensures
            r@ == (DynAckModel { payload: self.payload@, attachments: Some(blobs_view(attachments@)) }),
    {
        DynAck { payload: self.payload, attachments: Some(attachments) }
    }
}

/// A fully reassembled inbound packet for one namespace.
#[derive(Debug)]
pub enum Signal {
    /// The server confirmed the namespace connection.
    Connect(Connect),
    /// The server closed the namespace.
    Disconnect,
    /// The server rejected the namespace connection.
    ConnectError(ConnectError),
    /// An application-level event (possibly with binary attachments).
    Event(DynEvent),
}

/// The mathematical value of a [`Signal`].
pub enum SignalModel {
    Connect(ObjectModel),
    Disconnect,
    ConnectError(ObjectModel),
    Event(DynEventModel),
}

impl View for Signal {
    type V = SignalModel;

    open spec fn view(&self) -> SignalModel {
        match self {
            Signal::Connect(p) => SignalModel::Connect(p@),
            Signal::Disconnect => SignalModel::Disconnect,
            Signal::ConnectError(p) => SignalModel::ConnectError(p@),
            Signal::Event(e) => SignalModel::Event(e@),
        }
    }
}

/// An outbound request to the router for one namespace.
///
/// The response channels of the caller stay with the caller: `Connect`
/// opens the namespace, and an `Event` with `ack` set is given an ack ID
/// under which the caller files its responder.
#[derive(Debug)]
pub enum Directive {
    /// Opens a namespace; `payload` is an optional authentication payload.
    Connect { payload: Vec<u8> },
    /// Closes the namespace.
    Disconnect,
    /// Emits an event; with `ack` set an ack ID is assigned for the response.
    Event { payload: Vec<u8>, ack: bool, attachments: Option<Vec<Vec<u8>>> },
    /// Acknowledges a previously received event.
    Ack { payload: Vec<u8>, id: u64, attachments: Option<Vec<Vec<u8>>> },
}

/// The mathematical value of a [`Directive`].
pub enum DirectiveModel {
    Connect { payload: Seq<u8> },
    Disconnect,
    Event { payload: Seq<u8>, ack: bool, attachments: Option<Seq<Seq<u8>>> },
    Ack { payload: Seq<u8>, id: u64, attachments: Option<Seq<Seq<u8>>> },
}

impl View for Directive {
    type V = DirectiveModel;

    open spec fn view(&self) -> DirectiveModel {
        match self {
            Directive::Connect { payload } => DirectiveModel::Connect { payload: payload@ },
            Directive::Disconnect => DirectiveModel::Disconnect,
            Directive::Event { payload, ack, attachments } => DirectiveModel::Event {
                payload: payload@,
                ack: *ack,
                attachments: attachments_view(*attachments),
            },
            Directive::Ack { payload, id, attachments } => DirectiveModel::Ack {
                payload: payload@,
                id: *id,
                attachments: attachments_view(*attachments),
            },
        }
    }
}

} // verus!
