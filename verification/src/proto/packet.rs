//! Packet types of the byte-level layer.

use crate::json::{entries_view, string_field_spec, take_string_field};
use crate::socket::packet::attachments_view;
use crate::num::lemma_u64_digits;
use crate::proto::parse::write_packet_spec;
use crate::socket::parse::{hint_packet_size, hint_size_spec};
use crate::proto::error::{PayloadError, PayloadType};
use vstd::prelude::*;
use vstd::string::StringSliceAdditionalSpecFns;

verus! {

/// A value tagged with a Socket.IO namespace path (e.g. `"/chat"`).
#[derive(Debug)]
pub struct Ns<T>(pub String, pub T);

/// Server payload confirming a namespace connection.
#[derive(Debug)]
pub struct Connect {
    /// Server-assigned session identifier for this namespace socket.
    pub sid: String,
    /// The other fields of the payload: each key with its value's JSON text.
    pub extra: Vec<(String, Vec<u8>)>,
}

/// Server payload rejecting a namespace connection.
#[derive(Debug)]
pub struct ConnectError {
    /// Human-readable rejection reason.
    pub message: String,
    /// The other fields of the payload: each key with its value's JSON text.
    pub extra: Vec<(String, Vec<u8>)>,
}

/// The mathematical value of a [`Connect`] or [`ConnectError`]: the named
/// string field and the other entries.
pub struct ObjectModel {
    pub field: Seq<char>,
    pub extra: Seq<(Seq<char>, Seq<u8>)>,
}

impl View for Connect {
    type V = ObjectModel;

    open spec fn view(&self) -> ObjectModel {
        ObjectModel { field: self.sid@, extra: entries_view(self.extra@) }
    }
}

impl View for ConnectError {
    type V = ObjectModel;

    open spec fn view(&self) -> ObjectModel {
        ObjectModel { field: self.message@, extra: entries_view(self.extra@) }
    }
}

/// The key `sid`.
pub open spec fn sid_key() -> Seq<char> {
    seq!['s', 'i', 'd']
}

/// The key `message`.
pub open spec fn message_key() -> Seq<char> {
    seq!['m', 'e', 's', 's', 'a', 'g', 'e']
}

/// The object a payload reads as, keyed by its mandatory string field.
pub open spec fn object_spec(text: Seq<u8>, key: Seq<char>) -> Option<ObjectModel> {
    match string_field_spec(text, key) {
        Some((v, rest)) => Some(ObjectModel { field: v, extra: rest }),
        None => None,
    }
}

impl Connect {
    /// Reads a CONNECT payload: a JSON object with a string `sid`.
    pub fn from_json(text: &[u8]) -> (r: Result<Connect, PayloadError>)
        ensures
            match r {
                Ok(c) => object_spec(text@, sid_key()) == Some(c@),
                Err(e) => object_spec(text@, sid_key()) is None && e.kind
                    == PayloadType::Connect && (e.json matches Some(j) && j@ == text@),
            },
    {
        proof {
            reveal_strlit("sid");
            assert("sid"@ =~= sid_key());
        }
        match take_string_field(text, "sid") {
            Some((sid, extra)) => Ok(Connect { sid, extra }),
            None => Err(PayloadError::new(PayloadType::Connect).with_slice(text)),
        }
    }
}

impl ConnectError {
    /// Reads a CONNECT_ERROR payload: a JSON object with a string `message`.
    pub fn from_json(text: &[u8]) -> (r: Result<ConnectError, PayloadError>)
        ensures
            match r {
                Ok(c) => object_spec(text@, message_key()) == Some(c@),
                Err(e) => object_spec(text@, message_key()) is None && e.kind
                    == PayloadType::ConnectError && (e.json matches Some(j) && j@ == text@),
            },
    {
        proof {
            reveal_strlit("message");
            assert("message"@ =~= message_key());
        }
        match take_string_field(text, "message") {
            Some((message, extra)) => Ok(ConnectError { message, extra }),
            None => Err(PayloadError::new(PayloadType::ConnectError).with_slice(text)),
        }
    }
}

/// Type-erased inbound event after binary reassembly.
#[derive(Debug)]
pub struct DynEvent {
    pub data: Vec<u8>,
    pub id: Option<u64>,
    pub attachments: Option<Vec<Vec<u8>>>,
}

impl DynEvent {
    /// An event without attachments.
    pub fn new(data: Vec<u8>, id: Option<u64>) -> (r: DynEvent)
        ensures
            r.data@ == data@,
            r.id == id,
            r.attachments is None,
    {
        DynEvent { data, id, attachments: None }
    }

    /// The same event carrying `attachments`.
    pub fn with_attachments(self, attachments: Vec<Vec<u8>>) -> (r: DynEvent)
        ensures
            r.data@ == self.data@,
            r.id == self.id,
            attachments_view(r.attachments) == attachments_view(Some(attachments)),
    {
        DynEvent { data: self.data, id: self.id, attachments: Some(attachments) }
    }
}

/// Type-erased inbound acknowledgement after binary reassembly.
#[derive(Debug)]
pub struct DynAck {
    pub data: Vec<u8>,
    pub attachments: Option<Vec<Vec<u8>>>,
}

impl DynAck {
    /// An acknowledgement without attachments.
    pub fn new(data: Vec<u8>) -> (r: DynAck)
        ensures
            r.data@ == data@,
            r.attachments is None,
    {
        DynAck { data, attachments: None }
    }

    /// The same acknowledgement carrying `attachments`.
    pub fn with_attachments(self, attachments: Vec<Vec<u8>>) -> (r: DynAck)
        ensures
            r.data@ == self.data@,
            attachments_view(r.attachments) == attachments_view(Some(attachments)),
    {
        DynAck { data: self.data, attachments: Some(attachments) }
    }
}

/// A fully decoded inbound packet.
#[derive(Debug)]
pub enum Packet {
    /// The server confirmed the namespace connection.
    Connect(Connect),
    /// The server (or client) closed the namespace.
    Disconnect,
    /// The server rejected the namespace connection.
    ConnectError(ConnectError),
    /// An application-level event (possibly with binary attachments).
    Event(DynEvent),
}

/// An outbound packet to be serialised and sent to the server.
#[derive(Debug)]
#[allow(inconsistent_fields)]
pub enum Command {
    /// Opens a namespace, with an optional authentication payload.
    Connect { data: Option<Vec<u8>> },
    /// Closes the namespace.
    Disconnect,
    /// Emits an event; `ack` asks for an ack ID and the server's response.
    Event { data: Vec<u8>, ack: bool, attachments: Option<Vec<Vec<u8>>> },
    /// Acknowledges a previously received event.
    Ack { data: Vec<u8>, id: u64, attachments: Option<Vec<Vec<u8>>> },
}

/// The mathematical value of a [`Command`].
#[allow(inconsistent_fields)]
pub enum CommandModel {
    Connect { data: Option<Seq<u8>> },
    Disconnect,
    Event { data: Seq<u8>, ack: bool, attachments: Option<Seq<Seq<u8>>> },
    Ack { data: Seq<u8>, id: u64, attachments: Option<Seq<Seq<u8>>> },
}

impl View for Command {
    type V = CommandModel;

    open spec fn view(&self) -> CommandModel {
        match self {
            Command::Connect { data } => CommandModel::Connect {
                data: match data {
                    Some(d) => Some(d@),
                    None => None,
                },
            },
            Command::Disconnect => CommandModel::Disconnect,
            Command::Event { data, ack, attachments } => CommandModel::Event {
                data: data@,
                ack: *ack,
                attachments: attachments_view(*attachments),
            },
            Command::Ack { data, id, attachments } => CommandModel::Ack {
                data: data@,
                id: *id,
                attachments: attachments_view(*attachments),
            },
        }
    }
}

/// The packet type byte of a command.
pub open spec fn type_id_spec(c: CommandModel) -> u8 {
    match c {
        CommandModel::Connect { .. } => 48,
        CommandModel::Disconnect => 49,
        CommandModel::Event { attachments: None, .. } => 50,
        CommandModel::Event { attachments: Some(_), .. } => 53,
        CommandModel::Ack { attachments: None, .. } => 51,
        CommandModel::Ack { attachments: Some(_), .. } => 54,
    }
}

/// The data a command carries.
pub open spec fn command_data(c: CommandModel) -> Seq<u8> {
    match c {
        CommandModel::Connect { data: Some(d) } => d,
        CommandModel::Connect { data: None } => Seq::empty(),
        CommandModel::Disconnect => Seq::empty(),
        CommandModel::Event { data, .. } => data,
        CommandModel::Ack { data, .. } => data,
    }
}

/// The size hint of a command in namespace `ns` (given by its bytes): room
/// for the type byte, the namespace field, an ack ID where one is written,
/// an attachment count where attachments follow, and the data.
pub open spec fn command_size_spec(c: CommandModel, ns: Seq<u8>) -> int {
    match c {
        CommandModel::Connect { data } => hint_size_spec(ns, false, false, data),
        CommandModel::Disconnect => hint_size_spec(ns, false, false, None),
        CommandModel::Event { data, ack, attachments } => hint_size_spec(
            ns,
            attachments is Some,
            ack,
            Some(data),
        ),
        CommandModel::Ack { data, attachments, .. } => hint_size_spec(
            ns,
            attachments is Some,
            true,
            Some(data),
        ),
    }
}

/// The attachment count written for a command: the number of attachments.
pub open spec fn command_count(c: CommandModel) -> Option<usize> {
    match c {
        CommandModel::Event { attachments: Some(a), .. } => Some(a.len() as usize),
        CommandModel::Ack { attachments: Some(a), .. } => Some(a.len() as usize),
        _ => None,
    }
}

/// The ack ID written for a command: the one assigned to an event that asks
/// for an acknowledgement, or the one an ack answers.
pub open spec fn command_id(c: CommandModel, assigned: u64) -> Option<u64> {
    match c {
        CommandModel::Event { ack: true, .. } => Some(assigned),
        CommandModel::Ack { id, .. } => Some(id),
        _ => None,
    }
}

/// The size hint of a command bounds the text frame written for it, whatever
/// ack ID is assigned and however many attachments follow.
pub proof fn lemma_command_within_hint(c: CommandModel, ns: Seq<u8>, assigned: u64)
    ensures
        write_packet_spec(
            type_id_spec(c),
            command_count(c),
            ns,
            command_id(c, assigned),
            match c {
                CommandModel::Connect { data } => data,
                CommandModel::Disconnect => None,
                _ => Some(command_data(c)),
            },
        ).len() <= command_size_spec(c, ns),
{
    lemma_u64_digits(assigned);
    if let Some(n) = command_count(c) {
        lemma_u64_digits(n as u64);
    }
    if let CommandModel::Ack { id, .. } = c {
        lemma_u64_digits(id);
    }
}

impl Command {
    /// The packet type byte: `0` connect, `1` disconnect, `2`/`5` event
    /// (text/binary), `3`/`6` ack (text/binary).
    pub fn type_id(&self) -> (t: u8)
        ensures
            t == type_id_spec(self@),
    {
        match self {
            Command::Connect { .. } => 48u8,
            Command::Disconnect => 49u8,
            Command::Event { attachments: None, .. } => 50u8,
            Command::Event { attachments: Some(_), .. } => 53u8,
            Command::Ack { attachments: None, .. } => 51u8,
            Command::Ack { attachments: Some(_), .. } => 54u8,
        }
    }

    /// Returns a conservative upper bound on the serialised text-frame byte length.
    pub fn size_hint(&self, ns: &str) -> (n: usize)
        requires
            ns.spec_bytes().len() + command_data(self@).len() + 43 <= usize::MAX,
        ensures
            n == command_size_spec(self@, ns.spec_bytes()),
    {
        let nb = ns.as_bytes();
        match self {
            Command::Connect { data } => match data {
                Some(d) => hint_packet_size(nb, false, false, Some(d.as_slice())),
                None => hint_packet_size(nb, false, false, None),
            },
            Command::Disconnect => hint_packet_size(nb, false, false, None),
            Command::Event { data, ack, attachments } => hint_packet_size(
                nb,
                attachments.is_some(),
                *ack,
                Some(data.as_slice()),
            ),
            Command::Ack { data, attachments, .. } => hint_packet_size(
                nb,
                attachments.is_some(),
                true,
                Some(data.as_slice()),
            ),
        }
    }
}

/// A wire-level packet decoded directly from a single text frame.
///
/// Binary variants (types 5 and 6) carry an attachment count; the binary
/// frames that follow are collected by the router.
#[derive(Debug)]
#[allow(inconsistent_fields)]
pub enum SioPacket {
    /// Type `0` — namespace connection confirmed.
    Connect(Connect),
    /// Type `1` — namespace disconnection.
    Disconnect,
    /// Types `2` / `5` — event; `count` is `Some(n)` for a binary event.
    Event { data: Vec<u8>, id: Option<u64>, count: Option<usize> },
    /// Type `4` — namespace connection rejected.
    ConnectError(ConnectError),
    /// Types `3` / `6` — acknowledgement; `count` is `Some(n)` for a binary ack.
    Ack { data: Vec<u8>, id: u64, count: Option<usize> },
}

/// The mathematical value of a [`SioPacket`].
#[allow(inconsistent_fields)]
pub enum SioPacketModel {
    Connect(ObjectModel),
    Disconnect,
    Event { data: Seq<u8>, id: Option<u64>, count: Option<usize> },
    ConnectError(ObjectModel),
    Ack { data: Seq<u8>, id: u64, count: Option<usize> },
}

impl View for SioPacket {
    type V = SioPacketModel;

    open spec fn view(&self) -> SioPacketModel {
        match self {
            SioPacket::Connect(c) => SioPacketModel::Connect(c@),
            SioPacket::Disconnect => SioPacketModel::Disconnect,
            SioPacket::Event { data, id, count } => SioPacketModel::Event {
                data: data@,
                id: *id,
                count: *count,
            },
            SioPacket::ConnectError(e) => SioPacketModel::ConnectError(e@),
            SioPacket::Ack { data, id, count } => SioPacketModel::Ack {
                data: data@,
                id: *id,
                count: *count,
            },
        }
    }
}

} // verus!
