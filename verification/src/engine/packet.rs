//! Engine.IO v4 packet types and their text codec.

use crate::json::{entries_view, field_text, find_key, json_object_entries, json_object_entries_of, json_string, json_string_of, json_strings, json_strings_of, json_u64, json_u64_of};
use crate::num::{copy_range, push_bytes};
use crate::proto::packet::sid_key;
use vstd::prelude::*;

verus! {

/// Content exchanged between the Socket.IO and Engine.IO layers.
#[derive(Debug)]
pub enum Message {
    /// A UTF-8 text payload.
    Text(Vec<u8>),
    /// A raw binary payload.
    Binary(Vec<u8>),
    /// Signals a clean connection close.
    Close,
}

/// The mathematical value of a [`Message`].
pub enum MessageModel {
    Text(Seq<u8>),
    Binary(Seq<u8>),
    Close,
}

impl View for Message {
    type V = MessageModel;

    open spec fn view(&self) -> MessageModel {
        match self {
            Message::Text(t) => MessageModel::Text(t@),
            Message::Binary(b) => MessageModel::Binary(b@),
            Message::Close => MessageModel::Close,
        }
    }
}

/// The payload of the `ping` probe sent before a WebSocket upgrade.
pub open spec fn probe_spec() -> Seq<u8> {
    seq![112u8, 114u8, 111u8, 98u8, 101u8]
}

/// The payload of the `ping` probe sent before a WebSocket upgrade (`"probe"`).
pub fn probe() -> (p: Vec<u8>)
    ensures
        p@ == probe_spec(),
{
    let p: Vec<u8> = vec![112u8, 114u8, 111u8, 98u8, 101u8];
    proof {
        assert(p@ =~= probe_spec());
    }
    p
}

/// Data of the Engine.IO v4 handshake (the `open` packet payload).
///
/// The server sends it as a JSON object
/// `{"sid":..,"upgrades":[..],"pingInterval":..,"pingTimeout":..,"maxPayload":..}`.
#[derive(Debug)]
pub struct Handshake {
    /// Session identifier, sent as the `sid` query parameter afterwards.
    pub sid: String,
    /// Available transport upgrades (e.g. `["websocket"]`).
    pub upgrades: Vec<String>,
    /// Server ping interval in milliseconds.
    pub ping_interval: u64,
    /// Server ping timeout in milliseconds.
    pub ping_timeout: u64,
    /// Maximum bytes per chunk.
    pub max_payload: u64,
}

/// The mathematical value of a [`Handshake`].
pub struct HandshakeModel {
    pub sid: Seq<char>,
    pub upgrades: Seq<Seq<char>>,
    pub ping_interval: u64,
    pub ping_timeout: u64,
    pub max_payload: u64,
}

impl View for Handshake {
    type V = HandshakeModel;

    open spec fn view(&self) -> HandshakeModel {
        HandshakeModel {
            sid: self.sid@,
            upgrades: self.upgrades@.map_values(|u: String| u@),
            ping_interval: self.ping_interval,
            ping_timeout: self.ping_timeout,
            max_payload: self.max_payload,
        }
    }
}

/// The key `upgrades`.
pub open spec fn upgrades_key() -> Seq<char> {
    seq!['u', 'p', 'g', 'r', 'a', 'd', 'e', 's']
}

/// The key `pingInterval`.
pub open spec fn ping_interval_key() -> Seq<char> {
    seq!['p', 'i', 'n', 'g', 'I', 'n', 't', 'e', 'r', 'v', 'a', 'l']
}

/// The key `pingTimeout`.
pub open spec fn ping_timeout_key() -> Seq<char> {
    seq!['p', 'i', 'n', 'g', 'T', 'i', 'm', 'e', 'o', 'u', 't']
}

/// The key `maxPayload`.
pub open spec fn max_payload_key() -> Seq<char> {
    seq!['m', 'a', 'x', 'P', 'a', 'y', 'l', 'o', 'a', 'd']
}

/// The handshake a JSON text describes: an object whose `sid` is a string,
/// `upgrades` an array of strings, and `pingInterval`, `pingTimeout` and
/// `maxPayload` unsigned integers; other keys are ignored.
pub open spec fn handshake_spec(text: Seq<u8>) -> Option<HandshakeModel> {
    match json_object_entries_of(text) {
        None => None,
        Some(es) => match (
            field_text(es, sid_key()),
            field_text(es, upgrades_key()),
            field_text(es, ping_interval_key()),
            field_text(es, ping_timeout_key()),
            field_text(es, max_payload_key()),
        ) {
            (Some(a), Some(b), Some(c), Some(d), Some(e)) => match (
                json_string_of(a),
                json_strings_of(b),
                json_u64_of(c),
                json_u64_of(d),
                json_u64_of(e),
            ) {
                (Some(sid), Some(upgrades), Some(pi), Some(pt), Some(mp)) => Some(
                    HandshakeModel {
                        sid,
                        upgrades,
                        ping_interval: pi,
                        ping_timeout: pt,
                        max_payload: mp,
                    },
                ),
                _ => None,
            },
            _ => None,
        },
    }
}

/// The value text under `key`, when the key is present.
fn field<'a>(entries: &'a Vec<(String, Vec<u8>)>, key: &str) -> (r: Option<&'a [u8]>)
    ensures
        match r {
            Some(t) => field_text(entries_view(entries@), key@) == Some(t@),
            None => field_text(entries_view(entries@), key@) is None,
        },
{
    match find_key(entries, key) {
        Some(i) => Some(entries[i].1.as_slice()),
        None => None,
    }
}

/// `"websocket"` as characters.
pub open spec fn websocket_chars() -> Seq<char> {
    seq!['w', 'e', 'b', 's', 'o', 'c', 'k', 'e', 't']
}

impl Handshake {
    /// Reads the handshake from the JSON text of an `open` packet.
    pub fn from_json(text: &[u8]) -> (r: Option<Handshake>)
        ensures
            match r {
                Some(h) => handshake_spec(text@) == Some(h@),
                None => handshake_spec(text@) is None,
            },
    {
        proof {
            reveal_strlit("sid");
            reveal_strlit("upgrades");
            reveal_strlit("pingInterval");
            reveal_strlit("pingTimeout");
            reveal_strlit("maxPayload");
            assert("sid"@ =~= sid_key());
            assert("upgrades"@ =~= upgrades_key());
            assert("pingInterval"@ =~= ping_interval_key());
            assert("pingTimeout"@ =~= ping_timeout_key());
            assert("maxPayload"@ =~= max_payload_key());
        }
        let entries = json_object_entries(text)?;
        let a = field(&entries, "sid")?;
        let b = field(&entries, "upgrades")?;
        let c = field(&entries, "pingInterval")?;
        let d = field(&entries, "pingTimeout")?;
        let e = field(&entries, "maxPayload")?;
        let sid = json_string(a)?;
        let upgrades = json_strings(b)?;
        let ping_interval = json_u64(c)?;
        let ping_timeout = json_u64(d)?;
        let max_payload = json_u64(e)?;
        Some(Handshake { sid, upgrades, ping_interval, ping_timeout, max_payload })
    }

    /// True when the server offers an upgrade to the `websocket` transport.
    pub fn can_upgrade_to_websocket(&self) -> (r: bool)
        ensures
            r == exists|i: int| 0 <= i < self.upgrades@.len() && (#[trigger] self.upgrades@[i])@ == websocket_chars(),
    {
        proof {
            reveal_strlit("websocket");
            assert("websocket"@ =~= websocket_chars());
        }
        let name = "websocket".to_owned();
        let mut i: usize = 0;
        while i < self.upgrades.len()
            invariant
                i <= self.upgrades@.len(),
                name@ == websocket_chars(),
                forall|j: int| 0 <= j < i ==> (#[trigger] self.upgrades@[j])@ != websocket_chars(),
            decreases self.upgrades@.len() - i,
        {
            if self.upgrades[i] == name {
                return true;
            }
            i = i + 1;
        }
        false
    }

    /// Combined `pingInterval + pingTimeout`, in milliseconds.
    pub fn ping_window(&self) -> (ms: u64)
        requires
            self.ping_interval + self.ping_timeout <= u64::MAX,
        ensures
            ms == self.ping_interval + self.ping_timeout,
    {
        self.ping_interval + self.ping_timeout
    }
}

/// Errors from decoding a raw Engine.IO packet.
#[derive(Debug)]
pub enum PacketError {
    /// Packet bytes are empty.
    Empty,
    /// First byte is not a recognised packet-type digit.
    InvalidId { id: u8 },
    /// A packet type that carries no payload was followed by bytes.
    UnexpectedPayload { id: u8, payload: Vec<u8> },
    /// The `open` packet's payload is not a valid handshake.
    InvalidHandshake { payload: Vec<u8> },
}

/// The mathematical value of a [`PacketError`].
pub enum PacketErrorModel {
    Empty,
    InvalidId { id: u8 },
    UnexpectedPayload { id: u8, payload: Seq<u8> },
    InvalidHandshake { payload: Seq<u8> },
}

impl View for PacketError {
    type V = PacketErrorModel;

    open spec fn view(&self) -> PacketErrorModel {
        match self {
            PacketError::Empty => PacketErrorModel::Empty,
            PacketError::InvalidId { id } => PacketErrorModel::InvalidId { id: *id },
            PacketError::UnexpectedPayload { id, payload } => PacketErrorModel::UnexpectedPayload {
                id: *id,
                payload: payload@,
            },
            PacketError::InvalidHandshake { payload } => PacketErrorModel::InvalidHandshake {
                payload: payload@,
            },
        }
    }
}

/// A packet of the Engine.IO v4 protocol.
#[derive(Debug)]
pub enum Packet {
    /// `0` — Handshake data from the server.
    Open(Handshake),
    /// `1` — The transport can be closed.
    Close,
    /// `2` — Heartbeat from the server (answered with [`Packet::Pong`]).
    Ping(Vec<u8>),
    /// `3` — Heartbeat reply.
    Pong(Vec<u8>),
    /// `4` — Application-level text data.
    Message(Vec<u8>),
    /// `5` — Sent by the client to finalise a transport upgrade.
    Upgrade,
    /// `6` — Sent by the server to flush a pending long-poll GET.
    Noop,
}

/// The mathematical value of a [`Packet`].
pub enum PacketModel {
    Open(HandshakeModel),
    Close,
    Ping(Seq<u8>),
    Pong(Seq<u8>),
    Message(Seq<u8>),
    Upgrade,
    Noop,
}

impl View for Packet {
    type V = PacketModel;

    open spec fn view(&self) -> PacketModel {
        match self {
            Packet::Open(h) => PacketModel::Open(h@),
            Packet::Close => PacketModel::Close,
            Packet::Ping(p) => PacketModel::Ping(p@),
            Packet::Pong(p) => PacketModel::Pong(p@),
            Packet::Message(p) => PacketModel::Message(p@),
            Packet::Upgrade => PacketModel::Upgrade,
            Packet::Noop => PacketModel::Noop,
        }
    }
}

/// True for the packets a client sends (all but `Open` and `Noop`).
pub open spec fn client_packet(p: PacketModel) -> bool {
    !(p is Open || p is Noop)
}

/// The text encoding of a client packet: its type digit then its payload.
/// (`Open` and `Noop` are never encoded by a client; they map to their digit.)
pub open spec fn encode_spec(p: PacketModel) -> Seq<u8> {
    match p {
        PacketModel::Open(_) => seq![48u8],
        PacketModel::Close => seq![49u8],
        PacketModel::Ping(d) => seq![50u8] + d,
        PacketModel::Pong(d) => seq![51u8] + d,
        PacketModel::Message(d) => seq![52u8] + d,
        PacketModel::Upgrade => seq![53u8],
        PacketModel::Noop => seq![54u8],
    }
}

/// The decoding of a text frame into a packet.
pub open spec fn decode_spec(s: Seq<u8>) -> Result<PacketModel, PacketErrorModel> {
    if s.len() == 0 {
        Err(PacketErrorModel::Empty)
    } else {
        let id = s[0];
        let rest = s.drop_first();
        if id == 48u8 {
            match handshake_spec(rest) {
                Some(h) => Ok(PacketModel::Open(h)),
                None => Err(PacketErrorModel::InvalidHandshake { payload: rest }),
            }
        } else if id == 49u8 {
            if rest.len() == 0 {
                Ok(PacketModel::Close)
            } else {
                Err(PacketErrorModel::UnexpectedPayload { id, payload: rest })
            }
        } else if id == 50u8 {
            Ok(PacketModel::Ping(rest))
        } else if id == 51u8 {
            Ok(PacketModel::Pong(rest))
        } else if id == 52u8 {
            Ok(PacketModel::Message(rest))
        } else if id == 53u8 {
            if rest.len() == 0 {
                Ok(PacketModel::Upgrade)
            } else {
                Err(PacketErrorModel::UnexpectedPayload { id, payload: rest })
            }
        } else if id == 54u8 {
            if rest.len() == 0 {
                Ok(PacketModel::Noop)
            } else {
                Err(PacketErrorModel::UnexpectedPayload { id, payload: rest })
            }
        } else {
            Err(PacketErrorModel::InvalidId { id })
        }
    }
}

/// The mathematical value of a decoding outcome.
pub open spec fn decoded_view(r: Result<Packet, PacketError>) -> Result<PacketModel, PacketErrorModel> {
    match r {
        Ok(p) => Ok(p@),
        Err(e) => Err(e@),
    }
}

impl Packet {
    /// Appends the text encoding of this packet to `buffer`.
    ///
    /// A client never encodes `Open` or `Noop`.
    pub fn write(&self, buffer: &mut Vec<u8>)
        requires
            client_packet(self@),
        ensures
            final(buffer)@ == old(buffer)@ + encode_spec(self@),
    {
        match self {
            Packet::Close => buffer.push(49u8),
            Packet::Ping(payload) => {
                buffer.push(50u8);
                push_bytes(buffer, payload.as_slice());
            },
            Packet::Pong(payload) => {
                buffer.push(51u8);
                push_bytes(buffer, payload.as_slice());
            },
            Packet::Message(payload) => {
                buffer.push(52u8);
                push_bytes(buffer, payload.as_slice());
            },
            Packet::Upgrade => buffer.push(53u8),
            _ => {},
        }
        proof {
            assert(final(buffer)@ =~= old(buffer)@ + encode_spec(self@));
        }
    }

    /// Encodes this packet as a text frame.
    pub fn encode(&self) -> (out: Vec<u8>)
        requires
            client_packet(self@),
        ensures
            out@ == encode_spec(self@),
    {
        let mut buffer: Vec<u8> = Vec::new();
        self.write(&mut buffer);
        proof {
            assert(buffer@ =~= encode_spec(self@));
        }
        buffer
    }

    /// Decodes a single packet from a text frame; the first byte is the type digit.
    pub fn decode(bytes: &[u8]) -> (r: Result<Packet, PacketError>)
        ensures
            decoded_view(r) == decode_spec(bytes@),
    {
        if bytes.len() == 0 {
            return Err(PacketError::Empty);
        }
        let id = bytes[0];
        let rest = copy_range(bytes, 1, bytes.len());
        proof {
            assert(rest@ =~= bytes@.drop_first());
        }
        if id == 48u8 {
            match Handshake::from_json(rest.as_slice()) {
                Some(h) => Ok(Packet::Open(h)),
                None => Err(PacketError::InvalidHandshake { payload: rest }),
            }
        } else if id == 49u8 {
            if rest.len() == 0 {
                Ok(Packet::Close)
            } else {
                Err(PacketError::UnexpectedPayload { id, payload: rest })
            }
        } else if id == 50u8 {
            Ok(Packet::Ping(rest))
        } else if id == 51u8 {
            Ok(Packet::Pong(rest))
        } else if id == 52u8 {
            Ok(Packet::Message(rest))
        } else if id == 53u8 {
            if rest.len() == 0 {
                Ok(Packet::Upgrade)
            } else {
                Err(PacketError::UnexpectedPayload { id, payload: rest })
            }
        } else if id == 54u8 {
            if rest.len() == 0 {
                Ok(Packet::Noop)
            } else {
                Err(PacketError::UnexpectedPayload { id, payload: rest })
            }
        } else {
            Err(PacketError::InvalidId { id })
        }
    }
}

/// Decoding the encoding of a client packet gives the packet back.
pub proof fn lemma_decode_encode(p: PacketModel)
    requires
        client_packet(p),
    ensures
        decode_spec(encode_spec(p)) == Ok::<PacketModel, PacketErrorModel>(p),
{
    let s = encode_spec(p);
    match p {
        PacketModel::Ping(d) => assert(s.drop_first() =~= d),
        PacketModel::Pong(d) => assert(s.drop_first() =~= d),
        PacketModel::Message(d) => assert(s.drop_first() =~= d),
        PacketModel::Close => assert(s.drop_first() =~= Seq::<u8>::empty()),
        PacketModel::Upgrade => assert(s.drop_first() =~= Seq::<u8>::empty()),
        _ => {},
    }
}

/// A frame that decodes to anything but a handshake is the encoding of what
/// it decodes to.
pub proof fn lemma_encode_decode(s: Seq<u8>)
    requires
        decode_spec(s) is Ok,
        !(decode_spec(s)->Ok_0 is Open),
    ensures
        encode_spec(decode_spec(s)->Ok_0) == s,
{
    assert(s =~= seq![s[0]] + s.drop_first());
    if s.drop_first().len() == 0 {
        assert(s =~= seq![s[0]]);
    }
}

/// A wire-level frame exchanged with the transport: a text packet or a raw binary payload.
#[derive(Debug)]
pub enum Frame {
    /// A text frame holding a complete Engine.IO packet.
    Packet(Packet),
    /// A raw binary frame.
    Binary(Vec<u8>),
}

/// The mathematical value of a [`Frame`].
pub enum FrameModel {
    Packet(PacketModel),
    Binary(Seq<u8>),
}

impl View for Frame {
    type V = FrameModel;

    open spec fn view(&self) -> FrameModel {
        match self {
            Frame::Packet(p) => FrameModel::Packet(p@),
            Frame::Binary(b) => FrameModel::Binary(b@),
        }
    }
}

} // verus!
