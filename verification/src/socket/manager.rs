//! The Socket.IO namespace router.
//!
//! [`Manager`] holds the per-namespace protocol state — open namespaces,
//! pending acknowledgement IDs, events buffered until the server confirms a
//! namespace, and the binary packet being reassembled — and decides, for
//! each outbound [`Directive`] and each inbound engine [`Message`], what is
//! sent to the engine and what is delivered to the namespaces.  The caller
//! performs those [`Effect`]s on its channels.

use crate::engine::packet::{Message, MessageModel};
use crate::num::{blobs_view, bytes_eq};
use crate::socket::error::{ManagerError, ManagerErrorModel, PacketError};
use crate::socket::packet::{
    attachments_view, encode_spec, Directive, DirectiveModel, DynAck, DynAckModel, DynEvent,
    DynEventModel, Ns, Packet, PacketModel, Signal, SignalModel,
};
use crate::proto::error::PayloadType;
use crate::proto::packet::{message_key, object_spec, sid_key, Connect, ConnectError};
use crate::socket::parse::{decode_spec, lemma_decode_encode, namespace_field, valid_namespace, valid_payload};
use vstd::prelude::*;

verus! {

/// The state of one open namespace.
pub struct SocketModel {
    /// The next ack ID to hand out.
    pub ids: u64,
    /// Ack IDs awaiting the server's response.
    pub acks: Set<u64>,
    /// Set once the server confirmed the namespace.
    pub connected: bool,
    /// Messages held back until the server confirms the namespace.
    pub buffer: Seq<MessageModel>,
}

/// A binary packet whose attachments are being collected.
#[allow(inconsistent_fields)]
pub enum BinaryModel {
    Event { payload: Seq<u8>, id: Option<u64>, attachments: Seq<Seq<u8>>, count: usize },
    Ack { payload: Seq<u8>, id: u64, attachments: Seq<Seq<u8>>, count: usize },
}

/// The state of the router.
pub struct ManagerModel {
    /// Open namespaces.
    pub sockets: Map<Seq<u8>, SocketModel>,
    /// The binary packet being reassembled, with its namespace.
    pub pending: Option<(Seq<u8>, BinaryModel)>,
}

/// What the router asks its caller to do.
#[derive(Debug)]
pub enum Effect {
    /// Send a message to the engine.
    Engine(Message),
    /// Deliver a signal to the namespace's channel.
    Deliver { ns: Vec<u8>, signal: Signal },
    /// Hand an acknowledgement to the responder filed under `id`.
    Acknowledge { ns: Vec<u8>, id: u64, ack: DynAck },
}

/// The mathematical value of an [`Effect`].
pub enum EffectModel {
    Engine(MessageModel),
    Deliver { ns: Seq<u8>, signal: SignalModel },
    Acknowledge { ns: Seq<u8>, id: u64, ack: DynAckModel },
}

impl View for Effect {
    type V = EffectModel;

    open spec fn view(&self) -> EffectModel {
        match self {
            Effect::Engine(m) => EffectModel::Engine(m@),
            Effect::Deliver { ns, signal } => EffectModel::Deliver { ns: ns@, signal: signal@ },
            Effect::Acknowledge { ns, id, ack } => EffectModel::Acknowledge {
                ns: ns@,
                id: *id,
                ack: ack@,
            },
        }
    }
}

/// The result of one router step: effects to perform, and the ack ID handed out, if any.
#[derive(Debug)]
pub struct Step {
    pub effects: Vec<Effect>,
    pub ack_id: Option<u64>,
}

/// The mathematical value of a sequence of effects.
pub open spec fn effects_view(v: Seq<Effect>) -> Seq<EffectModel> {
    v.map_values(|e: Effect| e@)
}

/// The mathematical value of a sequence of messages.
pub open spec fn messages_view(v: Seq<Message>) -> Seq<MessageModel> {
    v.map_values(|m: Message| m@)
}

/// A freshly opened namespace.
pub open spec fn new_socket() -> SocketModel {
    SocketModel { ids: 0, acks: Set::empty(), connected: false, buffer: Seq::empty() }
}

/// The messages that carry a packet: its text frame, then one binary frame per attachment.
pub open spec fn outbound_messages(
    p: PacketModel,
    ns: Seq<u8>,
    attachments: Option<Seq<Seq<u8>>>,
) -> Seq<MessageModel> {
    seq![MessageModel::Text(encode_spec(p, ns))] + match attachments {
        Some(a) => a.map_values(|b: Seq<u8>| MessageModel::Binary(b)),
        None => Seq::empty(),
    }
}

/// Effects that send each message to the engine, in order.
pub open spec fn engine_effects(ms: Seq<MessageModel>) -> Seq<EffectModel> {
    ms.map_values(|m: MessageModel| EffectModel::Engine(m))
}

/// The router state with namespace `ns` replaced by `s`.
pub open spec fn with_socket(m: ManagerModel, ns: Seq<u8>, s: SocketModel) -> ManagerModel {
    ManagerModel { sockets: m.sockets.insert(ns, s), pending: m.pending }
}

/// What one outbound directive does to the router: new state and outcome.
pub open spec fn dispatch_spec(m: ManagerModel, ns: Seq<u8>, d: DirectiveModel) -> (
    ManagerModel,
    Result<(Seq<EffectModel>, Option<u64>), ManagerErrorModel>,
) {
    match d {
        DirectiveModel::Connect { payload } => {
            if m.sockets.contains_key(ns) {
                (m, Err(ManagerErrorModel::NamespaceConflict(ns)))
            } else {
                (
                    with_socket(m, ns, new_socket()),
                    Ok(
                        (
                            engine_effects(
                                outbound_messages(PacketModel::Connect(payload), ns, None),
                            ),
                            None,
                        ),
                    ),
                )
            }
        },
        DirectiveModel::Disconnect => {
            if !m.sockets.contains_key(ns) {
                (m, Err(ManagerErrorModel::UnknownNamespace(ns)))
            } else {
                (
                    ManagerModel { sockets: m.sockets.remove(ns), pending: m.pending },
                    Ok(
                        (
                            engine_effects(outbound_messages(PacketModel::Disconnect, ns, None)),
                            None,
                        ),
                    ),
                )
            }
        },
        DirectiveModel::Event { payload, ack, attachments } => {
            if !m.sockets.contains_key(ns) {
                (m, Err(ManagerErrorModel::UnknownNamespace(ns)))
            } else {
                let s = m.sockets[ns];
                let id: Option<u64> = if ack {
                    Some(s.ids)
                } else {
                    None
                };
                let s1 = if ack {
                    SocketModel {
                        ids: (s.ids + 1) as u64,
                        acks: s.acks.insert(s.ids),
                        connected: s.connected,
                        buffer: s.buffer,
                    }
                } else {
                    s
                };
                let p = match attachments {
                    None => PacketModel::Event { payload, id },
                    Some(a) => PacketModel::BinaryEvent { payload, id, count: a.len() as usize },
                };
                let msgs = outbound_messages(p, ns, attachments);
                if s.connected {
                    (with_socket(m, ns, s1), Ok((engine_effects(msgs), id)))
                } else {
                    (
                        with_socket(
                            m,
                            ns,
                            SocketModel {
                                ids: s1.ids,
                                acks: s1.acks,
                                connected: s1.connected,
                                buffer: s1.buffer + msgs,
                            },
                        ),
                        Ok((Seq::empty(), id)),
                    )
                }
            }
        },
        DirectiveModel::Ack { payload, id, attachments } => {
            if !m.sockets.contains_key(ns) {
                (m, Err(ManagerErrorModel::UnknownNamespace(ns)))
            } else {
                let p = match attachments {
                    None => PacketModel::Ack { payload, id },
                    Some(a) => PacketModel::BinaryAck { payload, id, count: a.len() as usize },
                };
                (m, Ok((engine_effects(outbound_messages(p, ns, attachments)), None)))
            }
        },
    }
}

/// A collected binary packet with its attachments appended.
pub open spec fn attach_spec(bp: BinaryModel, b: Seq<u8>) -> BinaryModel {
    match bp {
        BinaryModel::Event { payload, id, attachments, count } => BinaryModel::Event {
            payload,
            id,
            attachments: attachments.push(b),
            count,
        },
        BinaryModel::Ack { payload, id, attachments, count } => BinaryModel::Ack {
            payload,
            id,
            attachments: attachments.push(b),
            count,
        },
    }
}

/// True once a binary packet holds exactly its announced number of attachments.
pub open spec fn complete_spec(bp: BinaryModel) -> bool {
    match bp {
        BinaryModel::Event { attachments, count, .. } => attachments.len() == count,
        BinaryModel::Ack { attachments, count, .. } => attachments.len() == count,
    }
}

/// The namespace `s` with ack `id` answered.
pub open spec fn without_ack(s: SocketModel, id: u64) -> SocketModel {
    SocketModel { ids: s.ids, acks: s.acks.remove(id), connected: s.connected, buffer: s.buffer }
}

/// What an inbound text frame does to the router.
pub open spec fn route_text_spec(m: ManagerModel, t: Seq<u8>) -> (
    ManagerModel,
    Result<Seq<EffectModel>, ManagerErrorModel>,
) {
    if m.pending is Some {
        (m, Err(ManagerErrorModel::UnexpectedText(t)))
    } else {
        match decode_spec(t) {
            Err(e) => (m, Err(ManagerErrorModel::Packet(e))),
            Ok((ns, p)) => {
                if !m.sockets.contains_key(ns) {
                    (m, Err(ManagerErrorModel::UnknownNamespace(ns)))
                } else {
                    let s = m.sockets[ns];
                    match p {
                        PacketModel::Connect(payload) => {
                            let m1 = with_socket(
                                m,
                                ns,
                                SocketModel {
                                    ids: s.ids,
                                    acks: s.acks,
                                    connected: true,
                                    buffer: Seq::empty(),
                                },
                            );
                            match object_spec(payload, sid_key()) {
                                Some(c) => (
                                    m1,
                                    Ok(
                                        engine_effects(s.buffer).push(
                                            EffectModel::Deliver {
                                                ns,
                                                signal: SignalModel::Connect(c),
                                            },
                                        ),
                                    ),
                                ),
                                None => (
                                    m1,
                                    Err(
                                        ManagerErrorModel::Payload(
                                            ns,
                                            PayloadType::Connect,
                                            Some(payload),
                                            s.buffer,
                                        ),
                                    ),
                                ),
                            }
                        },
                        PacketModel::Disconnect => (
                            m,
                            Ok(seq![EffectModel::Deliver { ns, signal: SignalModel::Disconnect }]),
                        ),
                        PacketModel::Event { payload, id } => (
                            m,
                            Ok(
                                seq![
                                    EffectModel::Deliver {
                                        ns,
                                        signal: SignalModel::Event(
                                            DynEventModel { payload, id, attachments: None },
                                        ),
                                    },
                                ],
                            ),
                        ),
                        PacketModel::Ack { payload, id } => {
                            if s.acks.contains(id) {
                                (
                                    with_socket(m, ns, without_ack(s, id)),
                                    Ok(
                                        seq![
                                            EffectModel::Acknowledge {
                                                ns,
                                                id,
                                                ack: DynAckModel { payload, attachments: None },
                                            },
                                        ],
                                    ),
                                )
                            } else {
                                (m, Err(ManagerErrorModel::UnknownAckId(ns, id)))
                            }
                        },
                        PacketModel::ConnectError(payload) => match object_spec(payload, message_key()) {
                            Some(c) => (
                                m,
                                Ok(
                                    seq![
                                        EffectModel::Deliver {
                                            ns,
                                            signal: SignalModel::ConnectError(c),
                                        },
                                    ],
                                ),
                            ),
                            None => (
                                m,
                                Err(
                                    ManagerErrorModel::Payload(
                                        ns,
                                        PayloadType::ConnectError,
                                        Some(payload),
                                        Seq::empty(),
                                    ),
                                ),
                            ),
                        },
                        PacketModel::BinaryEvent { payload, id, count } => (
                            ManagerModel {
                                sockets: m.sockets,
                                pending: Some(
                                    (
                                        ns,
                                        BinaryModel::Event {
                                            payload,
                                            id,
                                            attachments: Seq::empty(),
                                            count,
                                        },
                                    ),
                                ),
                            },
                            Ok(Seq::empty()),
                        ),
                        PacketModel::BinaryAck { payload, id, count } => (
                            ManagerModel {
                                sockets: m.sockets,
                                pending: Some(
                                    (
                                        ns,
                                        BinaryModel::Ack {
                                            payload,
                                            id,
                                            attachments: Seq::empty(),
                                            count,
                                        },
                                    ),
                                ),
                            },
                            Ok(Seq::empty()),
                        ),
                    }
                }
            },
        }
    }
}

/// What an inbound binary frame does to the router.
pub open spec fn route_binary_spec(m: ManagerModel, b: Seq<u8>) -> (
    ManagerModel,
    Result<Seq<EffectModel>, ManagerErrorModel>,
) {
    match m.pending {
        None => (m, Err(ManagerErrorModel::UnexpectedBinary(b))),
        Some((ns, bp)) => {
            let bp2 = attach_spec(bp, b);
            if complete_spec(bp2) {
                let m0 = ManagerModel { sockets: m.sockets, pending: None };
                if !m.sockets.contains_key(ns) {
                    (m0, Err(ManagerErrorModel::UnknownNamespace(ns)))
                } else {
                    match bp2 {
                        BinaryModel::Event { payload, id, attachments, .. } => (
                            m0,
                            Ok(
                                seq![
                                    EffectModel::Deliver {
                                        ns,
                                        signal: SignalModel::Event(
                                            DynEventModel {
                                                payload,
                                                id,
                                                attachments: Some(attachments),
                                            },
                                        ),
                                    },
                                ],
                            ),
                        ),
                        BinaryModel::Ack { payload, id, attachments, .. } => {
                            let s = m.sockets[ns];
                            if s.acks.contains(id) {
                                (
                                    with_socket(m0, ns, without_ack(s, id)),
                                    Ok(
                                        seq![
                                            EffectModel::Acknowledge {
                                                ns,
                                                id,
                                                ack: DynAckModel {
                                                    payload,
                                                    attachments: Some(attachments),
                                                },
                                            },
                                        ],
                                    ),
                                )
                            } else {
                                (m0, Err(ManagerErrorModel::UnknownAckId(ns, id)))
                            }
                        },
                    }
                }
            } else {
                (ManagerModel { sockets: m.sockets, pending: Some((ns, bp2)) }, Ok(Seq::empty()))
            }
        },
    }
}

/// What an inbound engine message does to the router.
pub open spec fn route_spec(m: ManagerModel, msg: MessageModel) -> (
    ManagerModel,
    Result<Seq<EffectModel>, ManagerErrorModel>,
) {
    match msg {
        MessageModel::Text(t) => route_text_spec(m, t),
        MessageModel::Binary(b) => route_binary_spec(m, b),
        MessageModel::Close => (
            ManagerModel { sockets: Map::empty(), pending: m.pending },
            Ok(Seq::empty()),
        ),
    }
}

/// An input of the router: an outbound directive for a namespace, or an
/// inbound engine message.
#[derive(Debug)]
pub enum ManagerInput {
    Socket(Ns<Directive>),
    Engine(Message),
}

/// The mathematical value of a [`ManagerInput`].
pub enum ManagerInputModel {
    Socket(Seq<u8>, DirectiveModel),
    Engine(MessageModel),
}

impl View for ManagerInput {
    type V = ManagerInputModel;

    open spec fn view(&self) -> ManagerInputModel {
        match self {
            ManagerInput::Socket(Ns(ns, d)) => ManagerInputModel::Socket(ns@, d@),
            ManagerInput::Engine(m) => ManagerInputModel::Engine(m@),
        }
    }
}

/// The outcome of one router turn: effects to perform, the ack ID handed out
/// if any, and whether the session is over (no namespace is left open).
#[derive(Debug)]
pub struct Outcome {
    pub effects: Vec<Effect>,
    pub ack_id: Option<u64>,
    pub close: bool,
}

/// What one input does to the router, including the end of the session:
/// when no namespace is left open after a successful step, a `Close` is sent
/// to the engine after the step's own effects, and the session is over.
pub open spec fn turn_spec(m: ManagerModel, input: ManagerInputModel) -> (
    ManagerModel,
    Result<(Seq<EffectModel>, Option<u64>, bool), ManagerErrorModel>,
) {
    let (m1, r): (ManagerModel, Result<(Seq<EffectModel>, Option<u64>), ManagerErrorModel>) =
        match input {
        ManagerInputModel::Socket(ns, d) => dispatch_spec(m, ns, d),
        ManagerInputModel::Engine(msg) => {
            let (m1, r) = route_spec(m, msg);
            (
                m1,
                match r {
                    Ok(e) => Ok((e, None)),
                    Err(x) => Err(x),
                },
            )
        },
    };
    match r {
        Err(e) => (m1, Err(e)),
        Ok((e, id)) => {
            if m1.sockets.dom() == Set::<Seq<u8>>::empty() {
                (m1, Ok((e.push(EffectModel::Engine(MessageModel::Close)), id, true)))
            } else {
                (m1, Ok((e, id, false)))
            }
        },
    }
}

/// An event asking for an ack ID finds one left in its namespace (when open).
pub open spec fn ack_room(m: ManagerModel, input: ManagerInputModel) -> bool {
    match input {
        ManagerInputModel::Socket(ns, DirectiveModel::Event { ack: true, .. }) => m.sockets.contains_key(
            ns,
        ) ==> m.sockets[ns].ids < u64::MAX,
        _ => true,
    }
}

/// The mathematical value of a turn's outcome.
pub open spec fn outcome_view(r: Result<Outcome, ManagerError>) -> Result<
    (Seq<EffectModel>, Option<u64>, bool),
    ManagerErrorModel,
> {
    match r {
        Ok(o) => Ok((effects_view(o.effects@), o.ack_id, o.close)),
        Err(e) => Err(e@),
    }
}

/// The router's invariant: every pending ack ID is below the namespace's next ID.
pub open spec fn model_wf(m: ManagerModel) -> bool {
    forall|ns: Seq<u8>, id: u64|
        m.sockets.contains_key(ns) && #[trigger] m.sockets[ns].acks.contains(id) ==> id
            < m.sockets[ns].ids
}

/// One open namespace.
struct Socket {
    ids: u64,
    acks: Vec<u64>,
    connected: bool,
    buffer: Vec<Message>,
}

impl View for Socket {
    type V = SocketModel;

    closed spec fn view(&self) -> SocketModel {
        SocketModel {
            ids: self.ids,
            acks: Set::new(|x: u64| self.acks@.contains(x)),
            connected: self.connected,
            buffer: messages_view(self.buffer@),
        }
    }
}

impl Socket {
    spec fn wf(&self) -> bool {
        &&& self.acks@.no_duplicates()
        &&& forall|i: int| 0 <= i < self.acks@.len() ==> #[trigger] self.acks@[i] < self.ids
    }

    fn new() -> (s: Socket)
        ensures
            s.wf(),
            s@ == new_socket(),
    {
        let s = Socket { ids: 0, acks: Vec::new(), connected: false, buffer: Vec::new() };
        proof {
            assert(s@.acks =~= Set::<u64>::empty());
            assert(s@.buffer =~= Seq::<MessageModel>::empty());
        }
        s
    }

    /// Allocates the next ack ID.
    fn register_ack(&mut self) -> (id: u64)
        requires
            old(self).wf(),
            old(self).ids < u64::MAX,
        ensures
            final(self).wf(),
            id == old(self).ids,
            final(self)@ == (SocketModel {
                ids: (old(self).ids + 1) as u64,
                acks: old(self)@.acks.insert(id),
                connected: old(self).connected,
                buffer: old(self)@.buffer,
            }),
    {
        let id = self.ids;
        self.ids = self.ids + 1;
        self.acks.push(id);
        proof {
            assert forall|i: int, j: int|
                0 <= i < self.acks@.len() && 0 <= j < self.acks@.len() && i != j implies self.acks@[i]
                != self.acks@[j] by {
                if i < old(self).acks@.len() && j < old(self).acks@.len() {
                    assert(old(self).acks@[i] != old(self).acks@[j]);
                } else if i < old(self).acks@.len() {
                    assert(old(self).acks@[i] < id);
                } else if j < old(self).acks@.len() {
                    assert(old(self).acks@[j] < id);
                }
            }
            assert forall|x: u64| #[trigger] self.acks@.contains(x) == (old(self).acks@.contains(x)
                || x == id) by {
                if self.acks@.contains(x) {
                    let k = choose|k: int| 0 <= k < self.acks@.len() && self.acks@[k] == x;
                    if k < old(self).acks@.len() {
                        assert(old(self).acks@[k] == x);
                    }
                }
                if old(self).acks@.contains(x) {
                    let k = choose|k: int| 0 <= k < old(self).acks@.len() && old(self).acks@[k] == x;
                    assert(self.acks@[k] == x);
                }
                if x == id {
                    assert(self.acks@[self.acks@.len() - 1] == id);
                }
            }
            assert(self@.acks =~= old(self)@.acks.insert(id));
        }
        id
    }

    /// Removes a pending ack ID; false when it was not pending.
    fn take_ack(&mut self, id: u64) -> (found: bool)
        requires
            old(self).wf(),
        ensures
            final(self).wf(),
            found == old(self)@.acks.contains(id),
            final(self)@ == without_ack(old(self)@, id),
    {
        let mut j: usize = 0;
        while j < self.acks.len() && self.acks[j] != id
            invariant
                j <= self.acks@.len(),
                forall|k: int| 0 <= k < j ==> self.acks@[k] != id,
            decreases self.acks@.len() - j,
        {
            j = j + 1;
        }
        if j < self.acks.len() {
            let ghost before = self.acks@;
            self.acks.remove(j);
            proof {
                assert(before.contains(id));
                assert forall|x: u64| #[trigger] self.acks@.contains(x) == (before.contains(x) && x
                    != id) by {
                    if self.acks@.contains(x) {
                        let k = choose|k: int| 0 <= k < self.acks@.len() && self.acks@[k] == x;
                        if k < j {
                            assert(before[k] == x);
                        } else {
                            assert(before[k + 1] == x);
                            assert(before[j as int] == id);
                        }
                    }
                    if before.contains(x) && x != id {
                        let k = choose|k: int| 0 <= k < before.len() && before[k] == x;
                        if k < j {
                            assert(self.acks@[k] == x);
                        } else {
                            assert(k != j);
                            assert(self.acks@[k - 1] == x);
                        }
                    }
                }
                assert(self@.acks =~= old(self)@.acks.remove(id));
                assert forall|a: int, b: int|
                    0 <= a < self.acks@.len() && 0 <= b < self.acks@.len() && a != b implies self.acks@[a]
                    != self.acks@[b] by {
                    let a1 = if a < j { a } else { a + 1 };
                    let b1 = if b < j { b } else { b + 1 };
                    assert(self.acks@[a] == before[a1]);
                    assert(self.acks@[b] == before[b1]);
                }
                assert forall|i: int| 0 <= i < self.acks@.len() implies #[trigger] self.acks@[i]
                    < self.ids by {
                    let i1 = if i < j { i } else { i + 1 };
                    assert(self.acks@[i] == before[i1]);
                }
            }
            true
        } else {
            proof {
                assert(!self.acks@.contains(id));
                assert(self@.acks =~= old(self)@.acks.remove(id));
            }
            false
        }
    }
}

/// Whether some entry of the namespace table has key `k`.
pub open spec fn has_key<V>(s: Seq<(Vec<u8>, V)>, k: Seq<u8>) -> bool {
    exists|i: int| 0 <= i < s.len() && (#[trigger] s[i]).0@ == k
}

/// The position of key `k` in the namespace table.
pub open spec fn key_index<V>(s: Seq<(Vec<u8>, V)>, k: Seq<u8>) -> int {
    choose|i: int| 0 <= i < s.len() && (#[trigger] s[i]).0@ == k
}

/// No key occurs twice in the namespace table.
pub open spec fn distinct_keys<V>(s: Seq<(Vec<u8>, V)>) -> bool {
    forall|i: int, j: int|
        0 <= i < s.len() && 0 <= j < s.len() && i != j ==> (#[trigger] s[i]).0@ != (#[trigger] s[j]).0@
}

/// The namespace table as a map.
pub open spec fn table_view<V: View>(s: Seq<(Vec<u8>, V)>) -> Map<Seq<u8>, V::V> {
    Map::new(|k: Seq<u8>| has_key(s, k), |k: Seq<u8>| s[key_index(s, k)].1@)
}

proof fn lemma_table_at<V: View>(s: Seq<(Vec<u8>, V)>, i: int)
    requires
        distinct_keys(s),
        0 <= i < s.len(),
    ensures
        table_view(s).contains_key(s[i].0@),
        table_view(s)[s[i].0@] == s[i].1@,
{
    assert(has_key(s, s[i].0@));
    let j = key_index(s, s[i].0@);
    assert(j == i);
}

proof fn lemma_table_push<V: View>(s: Seq<(Vec<u8>, V)>, k: Vec<u8>, v: V)
    requires
        distinct_keys(s),
        !has_key(s, k@),
    ensures
        distinct_keys(s.push((k, v))),
        table_view(s.push((k, v))) =~= table_view(s).insert(k@, v@),
{
    let t = s.push((k, v));
    assert forall|i: int, j: int| 0 <= i < t.len() && 0 <= j < t.len() && i != j implies (
    #[trigger] t[i]).0@ != (#[trigger] t[j]).0@ by {
        if i < s.len() && j < s.len() {
            assert(t[i] == s[i] && t[j] == s[j]);
        } else if i < s.len() {
            assert(t[i] == s[i]);
        } else {
            assert(t[j] == s[j]);
        }
    }
    assert forall|key: Seq<u8>| #[trigger] has_key(t, key) == (has_key(s, key) || key == k@) by {
        if has_key(s, key) {
            let i = choose|i: int| 0 <= i < s.len() && (#[trigger] s[i]).0@ == key;
            assert(t[i] == s[i]);
        }
        if has_key(t, key) && key != k@ {
            let i = choose|i: int| 0 <= i < t.len() && (#[trigger] t[i]).0@ == key;
            assert(t[i] == s[i]);
        }
        assert(t[s.len() as int] == (k, v));
    }
    assert forall|key: Seq<u8>| has_key(t, key) implies #[trigger] table_view(t)[key] == table_view(
        s,
    ).insert(k@, v@)[key] by {
        let j = key_index(t, key);
        if key == k@ {
            assert(t[s.len() as int].0@ == key);
            assert(j == s.len());
        } else {
            let i = key_index(s, key);
            assert(t[i] == s[i]);
            assert(t[i].0@ == key);
            assert(j == i);
        }
    }
}

proof fn lemma_table_swap_remove<V: View>(s: Seq<(Vec<u8>, V)>, i: int)
    requires
        distinct_keys(s),
        0 <= i < s.len(),
    ensures
        distinct_keys(s.update(i, s.last()).drop_last()),
        table_view(s.update(i, s.last()).drop_last()) =~= table_view(s).remove(s[i].0@),
        !has_key(s.update(i, s.last()).drop_last(), s[i].0@),
{
    let t = s.update(i, s.last()).drop_last();
    let last = s.len() - 1;
    assert forall|a: int| 0 <= a < t.len() implies #[trigger] t[a] == s[if a == i {
        last
    } else {
        a
    }] by {}
    assert forall|a: int, b: int| 0 <= a < t.len() && 0 <= b < t.len() && a != b implies (
    #[trigger] t[a]).0@ != (#[trigger] t[b]).0@ by {
        let a1 = if a == i { last } else { a };
        let b1 = if b == i { last } else { b };
        assert(t[a] == s[a1] && t[b] == s[b1]);
    }
    assert forall|key: Seq<u8>| #[trigger] has_key(t, key) == (has_key(s, key) && key != s[i].0@) by {
        if has_key(t, key) {
            let a = choose|a: int| 0 <= a < t.len() && (#[trigger] t[a]).0@ == key;
            let a1 = if a == i { last } else { a };
            assert(t[a] == s[a1]);
            assert(a1 != i);
        }
        if has_key(s, key) && key != s[i].0@ {
            let a = choose|a: int| 0 <= a < s.len() && (#[trigger] s[a]).0@ == key;
            assert(a != i);
            if a == last {
                assert(t[i] == s[last]);
            } else {
                assert(t[a] == s[a]);
            }
        }
    }
    assert forall|key: Seq<u8>| has_key(t, key) implies #[trigger] table_view(t)[key] == table_view(
        s,
    )[key] by {
        let a = key_index(t, key);
        let a1 = if a == i { last } else { a };
        assert(t[a] == s[a1]);
        lemma_table_at(s, a1);
    }
}

/// A binary packet being collected.
#[allow(inconsistent_fields)]
enum BinaryPacket {
    Event { payload: Vec<u8>, id: Option<u64>, attachments: Vec<Vec<u8>>, count: usize },
    Ack { payload: Vec<u8>, id: u64, attachments: Vec<Vec<u8>>, count: usize },
}

impl View for BinaryPacket {
    type V = BinaryModel;

    closed spec fn view(&self) -> BinaryModel {
        match self {
            BinaryPacket::Event { payload, id, attachments, count } => BinaryModel::Event {
                payload: payload@,
                id: *id,
                attachments: blobs_view(attachments@),
                count: *count,
            },
            BinaryPacket::Ack { payload, id, attachments, count } => BinaryModel::Ack {
                payload: payload@,
                id: *id,
                attachments: blobs_view(attachments@),
                count: *count,
            },
        }
    }
}

impl BinaryPacket {
    fn attach(&mut self, bytes: Vec<u8>)
        ensures
            final(self)@ == attach_spec(old(self)@, bytes@),
    {
        let ghost b = bytes@;
        match self {
            BinaryPacket::Event { attachments, .. } => {
                let ghost a0 = attachments@;
                attachments.push(bytes);
                proof {
                    assert(blobs_view(attachments@) =~= blobs_view(a0).push(b));
                }
            },
            BinaryPacket::Ack { attachments, .. } => {
                let ghost a0 = attachments@;
                attachments.push(bytes);
                proof {
                    assert(blobs_view(attachments@) =~= blobs_view(a0).push(b));
                }
            },
        }
    }

    fn is_complete(&self) -> (r: bool)
        ensures
            r == complete_spec(self@),
    {
        match self {
            BinaryPacket::Event { attachments, count, .. } => attachments.len() == *count,
            BinaryPacket::Ack { attachments, count, .. } => attachments.len() == *count,
        }
    }
}

/// The messages carrying a packet: its text frame, then one binary frame per attachment.
fn outbound(text: Vec<u8>, attachments: Option<Vec<Vec<u8>>>) -> (r: Vec<Message>)
    ensures
        messages_view(r@) == seq![MessageModel::Text(text@)] + match attachments_view(attachments) {
            Some(a) => a.map_values(|b: Seq<u8>| MessageModel::Binary(b)),
            None => Seq::empty(),
        },
{
    let ghost t = text@;
    let mut r: Vec<Message> = Vec::new();
    r.push(Message::Text(text));
    match attachments {
        Some(a) => {
            let ghost av = blobs_view(a@);
            for b in it: a.into_iter()
                invariant
                    it.seq() == a@,
                    av == blobs_view(a@),
                    messages_view(r@) == seq![MessageModel::Text(t)] + av.take(it.index()).map_values(
                        |b: Seq<u8>| MessageModel::Binary(b),
                    ),
            {
                let ghost before = r@;
                r.push(Message::Binary(b));
                proof {
                    assert(av.take(it.index() + 1) =~= av.take(it.index() as int).push(b@));
                    assert(messages_view(r@) =~= messages_view(before).push(MessageModel::Binary(b@)));
                }
            }
            proof {
                assert(av.take(a@.len() as int) =~= av);
            }
        },
        None => {
            proof {
                assert(messages_view(r@) =~= seq![MessageModel::Text(t)] + Seq::<MessageModel>::empty());
            }
        },
    }
    r
}

/// Effects that send each message to the engine, in order.
fn engine_effects_of(ms: Vec<Message>) -> (r: Vec<Effect>)
    ensures
        effects_view(r@) == engine_effects(messages_view(ms@)),
{
    let ghost mv = messages_view(ms@);
    let mut r: Vec<Effect> = Vec::new();
    for m in it: ms.into_iter()
        invariant
            it.seq() == ms@,
            mv == messages_view(ms@),
            effects_view(r@) == engine_effects(mv.take(it.index())),
    {
        let ghost before = r@;
        r.push(Effect::Engine(m));
        proof {
            assert(mv.take(it.index() + 1) =~= mv.take(it.index() as int).push(m@));
            assert(effects_view(r@) =~= effects_view(before).push(EffectModel::Engine(m@)));
            assert(engine_effects(mv.take(it.index() + 1)) =~= engine_effects(
                mv.take(it.index() as int),
            ).push(EffectModel::Engine(m@)));
        }
    }
    proof {
        assert(mv.take(ms@.len() as int) =~= mv);
    }
    r
}

/// Routes packets between the Socket.IO API and the Engine.IO layer.
pub struct Manager {
    sockets: Vec<(Vec<u8>, Socket)>,
    pending: Option<(Vec<u8>, BinaryPacket)>,
}

/// The mathematical value of the pending binary packet.
spec fn pending_view(p: Option<(Vec<u8>, BinaryPacket)>) -> Option<(Seq<u8>, BinaryModel)> {
    match p {
        Some(x) => Some((x.0@, x.1@)),
        None => None,
    }
}

/// The mathematical value of a step's outcome.
pub open spec fn step_view(r: Result<Step, ManagerError>) -> Result<(Seq<EffectModel>, Option<u64>), ManagerErrorModel> {
    match r {
        Ok(s) => Ok((effects_view(s.effects@), s.ack_id)),
        Err(e) => Err(e@),
    }
}

/// The mathematical value of a routing outcome.
pub open spec fn route_view(r: Result<Vec<Effect>, ManagerError>) -> Result<Seq<EffectModel>, ManagerErrorModel> {
    match r {
        Ok(v) => Ok(effects_view(v@)),
        Err(e) => Err(e@),
    }
}

impl View for Manager {
    type V = ManagerModel;

    closed spec fn view(&self) -> ManagerModel {
        ManagerModel { sockets: table_view(self.sockets@), pending: pending_view(self.pending) }
    }
}

impl Manager {
    /// The router's representation invariant.
    pub closed spec fn wf(&self) -> bool {
        &&& distinct_keys(self.sockets@)
        &&& forall|i: int| 0 <= i < self.sockets@.len() ==> (#[trigger] self.sockets@[i]).1.wf()
    }

    /// Every pending ack ID of a well-formed router is below its namespace's next ID.
    pub proof fn lemma_wf(&self)
        requires
            self.wf(),
        ensures
            model_wf(self@),
    {
        assert forall|ns: Seq<u8>, id: u64|
            self@.sockets.contains_key(ns) && #[trigger] self@.sockets[ns].acks.contains(
                id,
            ) implies id < self@.sockets[ns].ids by {
            let i = key_index(self.sockets@, ns);
            let sock = self.sockets@[i].1;
            assert(sock.wf());
            assert(sock.acks@.contains(id));
            let k = choose|k: int| 0 <= k < sock.acks@.len() && sock.acks@[k] == id;
            assert(sock.acks@[k] < sock.ids);
        }
    }

    /// A router with no open namespace and nothing pending.
    pub fn new() -> (m: Manager)
        ensures
            m.wf(),
            m@ == (ManagerModel { sockets: Map::empty(), pending: None }),
    {
        let m = Manager { sockets: Vec::new(), pending: None };
        proof {
            assert(m@.sockets =~= Map::<Seq<u8>, SocketModel>::empty());
        }
        m
    }

    /// True when no namespace is open (the engine is then closed).
    pub fn is_empty(&self) -> (r: bool)
        requires
            self.wf(),
        ensures
            r == (self@.sockets.dom() =~= Set::empty()),
    {
        proof {
            if self.sockets@.len() > 0 {
                lemma_table_at(self.sockets@, 0);
            }
        }
        self.sockets.len() == 0
    }

    /// True unless namespace `ns` is open and has handed out every ack ID.
    pub fn can_register_ack(&self, ns: &[u8]) -> (r: bool)
        requires
            self.wf(),
        ensures
            r == (!self@.sockets.contains_key(ns@) || self@.sockets[ns@].ids < u64::MAX),
    {
        match self.find(ns) {
            Some(i) => {
                proof {
                    lemma_table_at(self.sockets@, i as int);
                }
                self.sockets[i].1.ids < u64::MAX
            },
            None => true,
        }
    }

    fn find(&self, ns: &[u8]) -> (r: Option<usize>)
        ensures
            match r {
                Some(i) => i < self.sockets@.len() && self.sockets@[i as int].0@ == ns@,
                None => !has_key(self.sockets@, ns@),
            },
    {
        let mut i: usize = 0;
        while i < self.sockets.len()
            invariant
                i <= self.sockets@.len(),
                forall|j: int| 0 <= j < i ==> (#[trigger] self.sockets@[j]).0@ != ns@,
            decreases self.sockets@.len() - i,
        {
            if bytes_eq(self.sockets[i].0.as_slice(), ns) {
                return Some(i);
            }
            i = i + 1;
        }
        None
    }

    /// Removes entry `i` of the namespace table.
    fn take(&mut self, i: usize) -> (r: (Vec<u8>, Socket))
        requires
            old(self).wf(),
            i < old(self).sockets@.len(),
        ensures
            distinct_keys(final(self).sockets@),
            forall|j: int|
                0 <= j < final(self).sockets@.len() ==> (#[trigger] final(self).sockets@[j]).1.wf(),
            r == old(self).sockets@[i as int],
            r.1.wf(),
            table_view(final(self).sockets@) == table_view(old(self).sockets@).remove(r.0@),
            !has_key(final(self).sockets@, r.0@),
            final(self).pending == old(self).pending,
            old(self)@.sockets.contains_key(r.0@),
            old(self)@.sockets[r.0@] == r.1@,
    {
        proof {
            lemma_table_swap_remove(self.sockets@, i as int);
            lemma_table_at(self.sockets@, i as int);
        }
        let ghost s0 = self.sockets@;
        let r = self.sockets.swap_remove(i);
        proof {
            assert forall|j: int| 0 <= j < self.sockets@.len() implies (
            #[trigger] self.sockets@[j]).1.wf() by {
                let j1 = if j == i { s0.len() - 1 } else { j };
                assert(self.sockets@[j] == s0[j1]);
                assert(s0[j1].1.wf());
            }
            assert(s0[i as int].1.wf());
        }
        r
    }

    /// Adds an entry for a namespace that has none.
    fn put(&mut self, ns: Vec<u8>, sock: Socket)
        requires
            distinct_keys(old(self).sockets@),
            forall|j: int|
                0 <= j < old(self).sockets@.len() ==> (#[trigger] old(self).sockets@[j]).1.wf(),
            !has_key(old(self).sockets@, ns@),
            sock.wf(),
        ensures
            final(self).wf(),
            final(self)@ == (ManagerModel {
                sockets: table_view(old(self).sockets@).insert(ns@, sock@),
                pending: pending_view(old(self).pending),
            }),
    {
        proof {
            lemma_table_push(self.sockets@, ns, sock);
        }
        let ghost s0 = self.sockets@;
        self.sockets.push((ns, sock));
        proof {
            assert forall|j: int| 0 <= j < self.sockets@.len() implies (
            #[trigger] self.sockets@[j]).1.wf() by {
                if j < s0.len() {
                    assert(self.sockets@[j] == s0[j]);
                }
            }
        }
    }

    /// Encodes and sends (or buffers) one outbound directive for namespace `ns`.
    ///
    /// Events sent before the server confirms the namespace are held in the
    /// namespace's buffer and sent when the confirmation arrives.
    pub fn dispatch_directive(&mut self, ns: Vec<u8>, directive: Directive) -> (r: Result<Step, ManagerError>)
        requires
            old(self).wf(),
            directive@ matches DirectiveModel::Event { ack: true, .. } && old(self)@.sockets.contains_key(ns@)
                ==> old(self)@.sockets[ns@].ids < u64::MAX,
        ensures
            final(self).wf(),
            dispatch_spec(old(self)@, ns@, directive@) == (final(self)@, step_view(r)),
    {
        let ghost m0 = self@;
        let ghost d = directive@;
        match directive {
            Directive::Connect { payload } => {
                match self.find(ns.as_slice()) {
                    Some(i) => {
                        proof {
                            lemma_table_at(self.sockets@, i as int);
                        }
                        return Err(ManagerError::NamespaceConflict { ns });
                    },
                    None => {},
                }
                let text = Packet::Connect(payload).encode(ns.as_slice());
                let ghost tv = text@;
                self.put(ns, Socket::new());
                let effects = engine_effects_of(outbound(text, None));
                proof {
                    assert(self@ == with_socket(m0, ns@, new_socket()));
                }
                Ok(Step { effects, ack_id: None })
            },
            Directive::Disconnect => {
                let i = match self.find(ns.as_slice()) {
                    Some(i) => i,
                    None => {
                        return Err(ManagerError::UnknownNamespace { ns });
                    },
                };
                let (key, _sock) = self.take(i);
                let text = Packet::Disconnect.encode(key.as_slice());
                let effects = engine_effects_of(outbound(text, None));
                proof {
                    assert(self@.sockets =~= m0.sockets.remove(ns@));
                }
                Ok(Step { effects, ack_id: None })
            },
            Directive::Event { payload, ack, attachments } => {
                let i = match self.find(ns.as_slice()) {
                    Some(i) => i,
                    None => {
                        return Err(ManagerError::UnknownNamespace { ns });
                    },
                };
                let ghost av = attachments_view(attachments);
                let (key, mut sock) = self.take(i);
                let ghost s0 = sock@;
                let id = if ack {
                    Some(sock.register_ack())
                } else {
                    None
                };
                let packet = match &attachments {
                    None => Packet::Event { payload, id },
                    Some(a) => Packet::BinaryEvent { payload, id, count: a.len() },
                };
                let text = packet.encode(key.as_slice());
                let msgs = outbound(text, attachments);
                let effects = if sock.connected {
                    engine_effects_of(msgs)
                } else {
                    let mut msgs = msgs;
                    let ghost b0 = sock.buffer@;
                    let ghost mm = msgs@;
                    sock.buffer.append(&mut msgs);
                    proof {
                        assert(messages_view(sock.buffer@) =~= messages_view(b0) + messages_view(mm));
                    }
                    Vec::new()
                };
                self.put(key, sock);
                proof {
                    let m1 = dispatch_spec(m0, ns@, d).0;
                    assert(self@.sockets =~= m1.sockets);
                    match dispatch_spec(m0, ns@, d).1 {
                        Ok(o) => assert(effects_view(effects@) =~= o.0),
                        Err(_) => {},
                    }
                }
                Ok(Step { effects, ack_id: id })
            },
            Directive::Ack { payload, id, attachments } => {
                match self.find(ns.as_slice()) {
                    Some(i) => {
                        proof {
                            lemma_table_at(self.sockets@, i as int);
                        }
                    },
                    None => {
                        return Err(ManagerError::UnknownNamespace { ns });
                    },
                }
                let packet = match &attachments {
                    None => Packet::Ack { payload, id },
                    Some(a) => Packet::BinaryAck { payload, id, count: a.len() },
                };
                let text = packet.encode(ns.as_slice());
                let effects = engine_effects_of(outbound(text, attachments));
                Ok(Step { effects, ack_id: None })
            },
        }
    }

    /// Routes one inbound engine message; returns what to deliver and send.
    pub fn route_message(&mut self, message: Message) -> (r: Result<Vec<Effect>, ManagerError>)
        requires
            old(self).wf(),
        ensures
            final(self).wf(),
            route_spec(old(self)@, message@) == (final(self)@, route_view(r)),
    {
        match message {
            Message::Text(text) => self.route_text_message(text),
            Message::Binary(bytes) => self.route_binary_message(bytes),
            Message::Close => {
                self.sockets = Vec::new();
                let effects: Vec<Effect> = Vec::new();
                proof {
                    assert(self@.sockets =~= Map::<Seq<u8>, SocketModel>::empty());
                    assert(effects_view(effects@) =~= Seq::<EffectModel>::empty());
                }
                Ok(effects)
            },
        }
    }

    /// Runs one turn of the router: dispatches a directive or routes an
    /// engine message, then closes the engine when no namespace is left open.
    pub fn turn(&mut self, input: ManagerInput) -> (r: Result<Outcome, ManagerError>)
        requires
            old(self).wf(),
            ack_room(old(self)@, input@),
        ensures
            final(self).wf(),
            turn_spec(old(self)@, input@) == (final(self)@, outcome_view(r)),
    {
        let (mut effects, ack_id) = match input {
            ManagerInput::Socket(Ns(ns, directive)) => {
                let step = self.dispatch_directive(ns, directive)?;
                (step.effects, step.ack_id)
            },
            ManagerInput::Engine(message) => {
                let effects = self.route_message(message)?;
                (effects, None)
            },
        };
        let close = self.is_empty();
        if close {
            let ghost before = effects@;
            effects.push(Effect::Engine(Message::Close));
            proof {
                assert(effects_view(effects@) =~= effects_view(before).push(
                    EffectModel::Engine(MessageModel::Close),
                ));
            }
        }
        proof {
            if close {
                assert(self@.sockets.dom() == Set::<Seq<u8>>::empty());
            } else {
                assert(self@.sockets.dom() != Set::<Seq<u8>>::empty());
            }
        }
        Ok(Outcome { effects, ack_id, close })
    }

    fn route_text_message(&mut self, text: Vec<u8>) -> (r: Result<Vec<Effect>, ManagerError>)
        requires
            old(self).wf(),
        ensures
            final(self).wf(),
            route_text_spec(old(self)@, text@) == (final(self)@, route_view(r)),
    {
        let ghost m0 = self@;
        if self.pending.is_some() {
            return Err(ManagerError::UnexpectedText(text));
        }
        let Ns(ns, packet) = match Ns::<Packet>::decode(text.as_slice()) {
            Ok(p) => p,
            Err(e) => {
                return Err(ManagerError::Packet(e));
            },
        };
        let i = match self.find(ns.as_slice()) {
            Some(i) => i,
            None => {
                return Err(ManagerError::UnknownNamespace { ns });
            },
        };
        proof {
            lemma_table_at(self.sockets@, i as int);
        }
        match packet {
            Packet::Connect(payload) => {
                let (key, mut sock) = self.take(i);
                sock.connected = true;
                let mut buffered: Vec<Message> = Vec::new();
                std::mem::swap(&mut buffered, &mut sock.buffer);
                proof {
                    assert(messages_view(sock.buffer@) =~= Seq::<MessageModel>::empty());
                }
                self.put(key, sock);
                proof {
                    let m1 = route_text_spec(m0, text@).0;
                    assert(self@.sockets =~= m1.sockets);
                }
                match Connect::from_json(payload.as_slice()) {
                    Ok(c) => {
                        let mut effects = engine_effects_of(buffered);
                        effects.push(Effect::Deliver { ns, signal: Signal::Connect(c) });
                        proof {
                            match route_text_spec(m0, text@).1 {
                                Ok(o) => assert(effects_view(effects@) =~= o),
                                Err(_) => {},
                            }
                        }
                        Ok(effects)
                    },
                    Err(error) => Err(ManagerError::Payload { ns, error, flushed: buffered }),
                }
            },
            Packet::Disconnect => {
                let effects = vec![Effect::Deliver { ns, signal: Signal::Disconnect }];
                proof {
                    assert(effects_view(effects@) =~= seq![
                        EffectModel::Deliver { ns: ns@, signal: SignalModel::Disconnect },
                    ]);
                }
                Ok(effects)
            },
            Packet::Event { payload, id } => {
                let effects = vec![
                    Effect::Deliver { ns, signal: Signal::Event(DynEvent::new(payload, id)) },
                ];
                proof {
                    match route_text_spec(m0, text@).1 {
                        Ok(o) => assert(effects_view(effects@) =~= o),
                        Err(_) => {},
                    }
                }
                Ok(effects)
            },
            Packet::Ack { payload, id } => {
                let (key, mut sock) = self.take(i);
                let ghost s0 = sock@;
                let found = sock.take_ack(id);
                self.put(key, sock);
                if found {
                    let effects = vec![Effect::Acknowledge { ns, id, ack: DynAck::new(payload) }];
                    proof {
                        let m1 = route_text_spec(m0, text@).0;
                        assert(self@.sockets =~= m1.sockets);
                        match route_text_spec(m0, text@).1 {
                            Ok(o) => assert(effects_view(effects@) =~= o),
                            Err(_) => {},
                        }
                    }
                    Ok(effects)
                } else {
                    proof {
                        assert(without_ack(s0, id).acks =~= s0.acks);
                        assert(self@.sockets =~= m0.sockets);
                    }
                    Err(ManagerError::UnknownAckId { ns, id })
                }
            },
            Packet::ConnectError(payload) => {
                match ConnectError::from_json(payload.as_slice()) {
                    Ok(c) => {
                        let effects = vec![Effect::Deliver { ns, signal: Signal::ConnectError(c) }];
                        proof {
                            match route_text_spec(m0, text@).1 {
                                Ok(o) => assert(effects_view(effects@) =~= o),
                                Err(_) => {},
                            }
                        }
                        Ok(effects)
                    },
                    Err(error) => {
                        let flushed: Vec<Message> = Vec::new();
                        proof {
                            assert(flushed@.map_values(|m: Message| m@) =~= Seq::<MessageModel>::empty());
                        }
                        Err(ManagerError::Payload { ns, error, flushed })
                    },
                }
            },
            Packet::BinaryEvent { payload, id, count } => {
                let attachments: Vec<Vec<u8>> = Vec::new();
                proof {
                    assert(blobs_view(attachments@) =~= Seq::<Seq<u8>>::empty());
                }
                self.pending = Some((ns, BinaryPacket::Event { payload, id, attachments, count }));
                let effects: Vec<Effect> = Vec::new();
                proof {
                    assert(effects_view(effects@) =~= Seq::<EffectModel>::empty());
                }
                Ok(effects)
            },
            Packet::BinaryAck { payload, id, count } => {
                let attachments: Vec<Vec<u8>> = Vec::new();
                proof {
                    assert(blobs_view(attachments@) =~= Seq::<Seq<u8>>::empty());
                }
                self.pending = Some((ns, BinaryPacket::Ack { payload, id, attachments, count }));
                let effects: Vec<Effect> = Vec::new();
                proof {
                    assert(effects_view(effects@) =~= Seq::<EffectModel>::empty());
                }
                Ok(effects)
            },
        }
    }

    fn route_binary_message(&mut self, bytes: Vec<u8>) -> (r: Result<Vec<Effect>, ManagerError>)
        requires
            old(self).wf(),
        ensures
            final(self).wf(),
            route_binary_spec(old(self)@, bytes@) == (final(self)@, route_view(r)),
    {
        let ghost m0 = self@;
        let (ns, mut packet) = match self.pending.take() {
            Some(p) => p,
            None => {
                return Err(ManagerError::UnexpectedBinary(bytes));
            },
        };
        packet.attach(bytes);
        if !packet.is_complete() {
            self.pending = Some((ns, packet));
            let effects: Vec<Effect> = Vec::new();
            proof {
                assert(effects_view(effects@) =~= Seq::<EffectModel>::empty());
            }
            return Ok(effects);
        }
        let i = match self.find(ns.as_slice()) {
            Some(i) => i,
            None => {
                return Err(ManagerError::UnknownNamespace { ns });
            },
        };
        proof {
            lemma_table_at(self.sockets@, i as int);
        }
        match packet {
            BinaryPacket::Event { payload, id, attachments, .. } => {
                let event = DynEvent::new(payload, id).with_attachments(attachments);
                let effects = vec![Effect::Deliver { ns, signal: Signal::Event(event) }];
                proof {
                    match route_binary_spec(m0, bytes@).1 {
                        Ok(o) => assert(effects_view(effects@) =~= o),
                        Err(_) => {},
                    }
                }
                Ok(effects)
            },
            BinaryPacket::Ack { payload, id, attachments, .. } => {
                let (key, mut sock) = self.take(i);
                let ghost s0 = sock@;
                let found = sock.take_ack(id);
                self.put(key, sock);
                if found {
                    let ack = DynAck::new(payload).with_attachments(attachments);
                    let effects = vec![Effect::Acknowledge { ns, id, ack }];
                    proof {
                        let m1 = route_binary_spec(m0, bytes@).0;
                        assert(self@.sockets =~= m1.sockets);
                        match route_binary_spec(m0, bytes@).1 {
                            Ok(o) => assert(effects_view(effects@) =~= o),
                            Err(_) => {},
                        }
                    }
                    Ok(effects)
                } else {
                    proof {
                        assert(without_ack(s0, id).acks =~= s0.acks);
                        assert(self@.sockets =~= m0.sockets);
                    }
                    Err(ManagerError::UnknownAckId { ns, id })
                }
            },
        }
    }
}

/// Feeds binary frames to the router one after another; the final state and each outcome.
pub open spec fn feed_binaries(m: ManagerModel, frames: Seq<Seq<u8>>) -> (
    ManagerModel,
    Seq<Result<Seq<EffectModel>, ManagerErrorModel>>,
)
    decreases frames.len(),
{
    if frames.len() == 0 {
        (m, Seq::empty())
    } else {
        let (m1, r1) = route_binary_spec(m, frames[0]);
        let (m2, rs) = feed_binaries(m1, frames.drop_first());
        (m2, seq![r1] + rs)
    }
}

/// Every step keeps the router's invariant: pending ack IDs stay below the next ID.
pub proof fn lemma_steps_keep_invariant(m: ManagerModel, ns: Seq<u8>, d: DirectiveModel, msg: MessageModel)
    requires
        model_wf(m),
        d matches DirectiveModel::Event { ack: true, .. } && m.sockets.contains_key(ns)
            ==> m.sockets[ns].ids < u64::MAX,
    ensures
        model_wf(dispatch_spec(m, ns, d).0),
        model_wf(route_spec(m, msg).0),
{
    let m1 = dispatch_spec(m, ns, d).0;
    assert forall|k: Seq<u8>, id: u64|
        m1.sockets.contains_key(k) && #[trigger] m1.sockets[k].acks.contains(id) implies id
        < m1.sockets[k].ids by {
        if k != ns {
            assert(m.sockets.contains_key(k));
        }
    }
    let m2 = route_spec(m, msg).0;
    assert forall|k: Seq<u8>, id: u64|
        m2.sockets.contains_key(k) && #[trigger] m2.sockets[k].acks.contains(id) implies id
        < m2.sockets[k].ids by {
        assert(m.sockets.contains_key(k));
    }
}

/// An ack ID handed out for an event is not pending in its namespace, and
/// the namespace's next ID moves past it, so no two pending requests share an ID.
pub proof fn lemma_ack_id_fresh(
    m: ManagerModel,
    ns: Seq<u8>,
    payload: Seq<u8>,
    attachments: Option<Seq<Seq<u8>>>,
)
    requires
        model_wf(m),
        m.sockets.contains_key(ns),
        m.sockets[ns].ids < u64::MAX,
    ensures
        ({
            let (m1, r) = dispatch_spec(m, ns, DirectiveModel::Event { payload, ack: true, attachments });
            &&& r matches Ok((_, Some(id)))
            &&& id == m.sockets[ns].ids
            &&& !m.sockets[ns].acks.contains(id)
            &&& m1.sockets[ns].acks == m.sockets[ns].acks.insert(id)
            &&& m1.sockets[ns].ids == id + 1
        }),
{
}

/// A namespace opens with no ack ID handed out: its first ack ID is `0`, and
/// (by [`lemma_ack_id_fresh`]) the following ones are `1`, `2`, ... in order.
pub proof fn lemma_connect_starts_ids(m: ManagerModel, ns: Seq<u8>, payload: Seq<u8>)
    requires
        !m.sockets.contains_key(ns),
    ensures
        ({
            let (m1, r) = dispatch_spec(m, ns, DirectiveModel::Connect { payload });
            &&& r is Ok
            &&& m1.sockets[ns].ids == 0
            &&& m1.sockets[ns].acks.is_empty()
        }),
{
}

/// Events emitted before the server confirms a namespace send nothing and
/// are appended to the namespace's buffer.
pub proof fn lemma_event_buffered_before_connect(
    m: ManagerModel,
    ns: Seq<u8>,
    payload: Seq<u8>,
    ack: bool,
    attachments: Option<Seq<Seq<u8>>>,
)
    requires
        m.sockets.contains_key(ns),
        !m.sockets[ns].connected,
    ensures
        ({
            let (m1, r) = dispatch_spec(m, ns, DirectiveModel::Event { payload, ack, attachments });
            &&& r matches Ok((effects, _)) && effects.len() == 0
            &&& m1.sockets[ns].buffer == m.sockets[ns].buffer + outbound_messages(
                match attachments {
                    None => PacketModel::Event {
                        payload,
                        id: if ack {
                            Some(m.sockets[ns].ids)
                        } else {
                            None
                        },
                    },
                    Some(a) => PacketModel::BinaryEvent {
                        payload,
                        id: if ack {
                            Some(m.sockets[ns].ids)
                        } else {
                            None
                        },
                        count: a.len() as usize,
                    },
                },
                ns,
                attachments,
            )
        }),
{
}

/// The server's confirmation of a namespace first sends every buffered
/// message, in order, then delivers the confirmation; the buffer is emptied
/// and later events are sent at once.  A confirmation whose payload is not a
/// JSON object with a string `sid` is refused, after the buffered messages
/// have been released (the error holds them).
pub proof fn lemma_connect_flushes_buffer(m: ManagerModel, t: Seq<u8>, ns: Seq<u8>, payload: Seq<u8>)
    requires
        m.pending is None,
        decode_spec(t) == Ok::<(Seq<u8>, PacketModel), PacketError>((ns, PacketModel::Connect(payload))),
        m.sockets.contains_key(ns),
    ensures
        ({
            let (m1, r) = route_text_spec(m, t);
            &&& r == match object_spec(payload, sid_key()) {
                Some(c) => Ok::<Seq<EffectModel>, ManagerErrorModel>(
                    engine_effects(m.sockets[ns].buffer).push(
                        EffectModel::Deliver { ns, signal: SignalModel::Connect(c) },
                    ),
                ),
                None => Err(
                    ManagerErrorModel::Payload(
                        ns,
                        PayloadType::Connect,
                        Some(payload),
                        m.sockets[ns].buffer,
                    ),
                ),
            }
            &&& m1.sockets[ns].connected
            &&& m1.sockets[ns].buffer.len() == 0
        }),
{
}

/// A server acknowledgement is handed over once: the same ID answered again
/// is refused as unknown.
pub proof fn lemma_ack_delivered_once(m: ManagerModel, t: Seq<u8>, ns: Seq<u8>, payload: Seq<u8>, id: u64)
    requires
        m.pending is None,
        decode_spec(t) == Ok::<(Seq<u8>, PacketModel), PacketError>((ns, PacketModel::Ack { payload, id })),
        m.sockets.contains_key(ns),
    ensures
        ({
            let (m1, r1) = route_text_spec(m, t);
            &&& r1 is Ok <==> m.sockets[ns].acks.contains(id)
            &&& r1 is Ok ==> route_text_spec(m1, t).1 == Err::<Seq<EffectModel>, ManagerErrorModel>(
                ManagerErrorModel::UnknownAckId(ns, id),
            )
        }),
{
}

/// Closing the last open namespace leaves no namespace open, which closes the engine.
pub proof fn lemma_last_disconnect_empties(m: ManagerModel, ns: Seq<u8>)
    requires
        m.sockets.dom() == set![ns],
    ensures
        dispatch_spec(m, ns, DirectiveModel::Disconnect).0.sockets.dom() =~= Set::<Seq<u8>>::empty(),
{
    assert(m.sockets.contains_key(ns));
}

/// A binary event whose header announced `count` attachments is held back
/// until the last of them arrives, then delivered once with every attachment
/// in arrival order.
pub proof fn lemma_binary_reassembly(
    m: ManagerModel,
    ns: Seq<u8>,
    payload: Seq<u8>,
    id: Option<u64>,
    atts: Seq<Seq<u8>>,
    count: usize,
    frames: Seq<Seq<u8>>,
)
    requires
        m.pending == Some((ns, BinaryModel::Event { payload, id, attachments: atts, count })),
        m.sockets.contains_key(ns),
        frames.len() >= 1,
        atts.len() + frames.len() == count,
    ensures
        ({
            let (m2, rs) = feed_binaries(m, frames);
            &&& rs.len() == frames.len()
            &&& forall|i: int| 0 <= i < rs.len() - 1 ==> #[trigger] rs[i] == Ok::<Seq<EffectModel>, ManagerErrorModel>(Seq::empty())
            &&& rs.last() == Ok::<Seq<EffectModel>, ManagerErrorModel>(
                seq![
                    EffectModel::Deliver {
                        ns,
                        signal: SignalModel::Event(
                            DynEventModel { payload, id, attachments: Some(atts + frames) },
                        ),
                    },
                ],
            )
            &&& m2.pending is None
            &&& m2.sockets == m.sockets
        }),
    decreases frames.len(),
{
    let (m1, r1) = route_binary_spec(m, frames[0]);
    let rest = frames.drop_first();
    if frames.len() == 1 {
        assert(atts.push(frames[0]) =~= atts + frames);
        assert(feed_binaries(m1, rest) == (m1, Seq::<Result<Seq<EffectModel>, ManagerErrorModel>>::empty()));
    } else {
        assert(m1.pending == Some(
            (ns, BinaryModel::Event { payload, id, attachments: atts.push(frames[0]), count }),
        ));
        lemma_binary_reassembly(m1, ns, payload, id, atts.push(frames[0]), count, rest);
        assert(atts.push(frames[0]) + rest =~= atts + frames);
        let (m2, rs) = feed_binaries(m1, rest);
        let all = seq![r1] + rs;
        assert forall|i: int| 0 <= i < all.len() - 1 implies #[trigger] all[i] == Ok::<Seq<EffectModel>, ManagerErrorModel>(Seq::empty()) by {
            if i > 0 {
                assert(all[i] == rs[i - 1]);
            }
        }
    }
}

/// Closing the last open namespace sends its disconnect packet and then a
/// `Close` to the engine, and ends the session.
pub proof fn lemma_last_disconnect_closes(m: ManagerModel, ns: Seq<u8>)
    requires
        m.sockets.dom() == set![ns],
    ensures
        turn_spec(m, ManagerInputModel::Socket(ns, DirectiveModel::Disconnect)).1 == Ok::<
            (Seq<EffectModel>, Option<u64>, bool),
            ManagerErrorModel,
        >(
            (
                engine_effects(outbound_messages(PacketModel::Disconnect, ns, None)).push(
                    EffectModel::Engine(MessageModel::Close),
                ),
                None,
                true,
            ),
        ),
{
    assert(m.sockets.contains_key(ns));
    assert(m.sockets.remove(ns).dom() =~= Set::<Seq<u8>>::empty());
}

/// An acknowledgement is sent as what it is: one text frame of type `3`
/// (`6` with attachments) that decodes to an ack for the same ID and payload
/// in the same namespace, followed by one binary frame per attachment, in
/// order.  Nothing else about the router changes.
pub proof fn lemma_ack_sent(
    m: ManagerModel,
    ns: Seq<u8>,
    payload: Seq<u8>,
    id: u64,
    attachments: Option<Seq<Seq<u8>>>,
)
    requires
        m.sockets.contains_key(ns),
    ensures
        ({
            let (m1, r) = dispatch_spec(m, ns, DirectiveModel::Ack { payload, id, attachments });
            let n: int = match attachments {
                Some(a) => a.len() as int,
                None => 0,
            };
            let packet = match attachments {
                None => PacketModel::Ack { payload, id },
                Some(a) => PacketModel::BinaryAck { payload, id, count: a.len() as usize },
            };
            &&& m1 == m
            &&& r matches Ok((effects, None)) && {
                &&& effects.len() == 1 + n
                &&& effects[0] matches EffectModel::Engine(MessageModel::Text(t)) && {
                    &&& t.len() > 0
                    &&& t[0] == (if attachments is None { 51u8 } else { 54u8 })
                    &&& valid_namespace(ns) && valid_payload(payload) ==> decode_spec(t) == Ok::<
                        (Seq<u8>, PacketModel),
                        PacketError,
                    >((ns, packet))
                }
                &&& forall|i: int| 0 <= i < n ==> #[trigger] effects[i + 1] == EffectModel::Engine(
                    MessageModel::Binary(attachments->Some_0[i]),
                )
            }
        }),
{
    let packet = match attachments {
        None => PacketModel::Ack { payload, id },
        Some(a) => PacketModel::BinaryAck { payload, id, count: a.len() as usize },
    };
    if valid_namespace(ns) && valid_payload(payload) {
        lemma_decode_encode(packet, ns);
    }
    let effects = engine_effects(outbound_messages(packet, ns, attachments));
    assert(effects[0] == EffectModel::Engine(MessageModel::Text(encode_spec(packet, ns))));
}

/// Opening a namespace sends one CONNECT frame carrying the directive's
/// payload (the authentication data) after the namespace field; decoding it
/// gives the namespace and that payload back.
pub proof fn lemma_connect_sent(m: ManagerModel, ns: Seq<u8>, payload: Seq<u8>)
    requires
        !m.sockets.contains_key(ns),
    ensures
        ({
            let (m1, r) = dispatch_spec(m, ns, DirectiveModel::Connect { payload });
            let t = seq![48u8] + namespace_field(ns) + payload;
            &&& r == Ok::<(Seq<EffectModel>, Option<u64>), ManagerErrorModel>(
                (seq![EffectModel::Engine(MessageModel::Text(t))], None),
            )
            &&& valid_namespace(ns) && valid_payload(payload) ==> decode_spec(t) == Ok::<
                (Seq<u8>, PacketModel),
                PacketError,
            >((ns, PacketModel::Connect(payload)))
            &&& m1.sockets.contains_key(ns)
        }),
{
    let t = seq![48u8] + namespace_field(ns) + payload;
    assert(encode_spec(PacketModel::Connect(payload), ns) =~= t);
    if valid_namespace(ns) && valid_payload(payload) {
        lemma_decode_encode(PacketModel::Connect(payload), ns);
    }
    let effects = engine_effects(outbound_messages(PacketModel::Connect(payload), ns, None));
    assert(effects =~= seq![EffectModel::Engine(MessageModel::Text(t))]);
}

/// An event sent by the server arrives with the payload and ID it was sent
/// with: the encoding of `Event { payload, id }` in an open namespace is
/// routed to exactly one delivery of that payload and ID, without
/// attachments, and leaves the router unchanged.
pub proof fn lemma_event_delivered(m: ManagerModel, ns: Seq<u8>, payload: Seq<u8>, id: Option<u64>)
    requires
        m.pending is None,
        m.sockets.contains_key(ns),
        valid_namespace(ns),
        valid_payload(payload),
    ensures
        route_text_spec(m, encode_spec(PacketModel::Event { payload, id }, ns)) == (
            m,
            Ok::<Seq<EffectModel>, ManagerErrorModel>(
                seq![
                    EffectModel::Deliver {
                        ns,
                        signal: SignalModel::Event(DynEventModel { payload, id, attachments: None }),
                    },
                ],
            ),
        ),
{
    lemma_decode_encode(PacketModel::Event { payload, id }, ns);
}

/// A binary acknowledgement whose header announced `count` attachments is
/// held back until the last of them arrives, then handed once to the
/// responder filed under its ID, with every attachment in arrival order;
/// the ID is then no longer pending.
pub proof fn lemma_binary_ack_reassembly(
    m: ManagerModel,
    ns: Seq<u8>,
    payload: Seq<u8>,
    id: u64,
    atts: Seq<Seq<u8>>,
    count: usize,
    frames: Seq<Seq<u8>>,
)
    requires
        m.pending == Some((ns, BinaryModel::Ack { payload, id, attachments: atts, count })),
        m.sockets.contains_key(ns),
        m.sockets[ns].acks.contains(id),
        frames.len() >= 1,
        atts.len() + frames.len() == count,
    ensures
        ({
            let (m2, rs) = feed_binaries(m, frames);
            &&& rs.len() == frames.len()
            &&& forall|i: int| 0 <= i < rs.len() - 1 ==> #[trigger] rs[i] == Ok::<Seq<EffectModel>, ManagerErrorModel>(Seq::empty())
            &&& rs.last() == Ok::<Seq<EffectModel>, ManagerErrorModel>(
                seq![
                    EffectModel::Acknowledge {
                        ns,
                        id,
                        ack: DynAckModel { payload, attachments: Some(atts + frames) },
                    },
                ],
            )
            &&& m2.pending is None
            &&& m2.sockets == m.sockets.insert(ns, without_ack(m.sockets[ns], id))
            &&& !m2.sockets[ns].acks.contains(id)
        }),
    decreases frames.len(),
{
    let (m1, r1) = route_binary_spec(m, frames[0]);
    let rest = frames.drop_first();
    if frames.len() == 1 {
        assert(atts.push(frames[0]) =~= atts + frames);
        assert(feed_binaries(m1, rest) == (m1, Seq::<Result<Seq<EffectModel>, ManagerErrorModel>>::empty()));
    } else {
        assert(m1.pending == Some(
            (ns, BinaryModel::Ack { payload, id, attachments: atts.push(frames[0]), count }),
        ));
        assert(m1.sockets == m.sockets);
        lemma_binary_ack_reassembly(m1, ns, payload, id, atts.push(frames[0]), count, rest);
        assert(atts.push(frames[0]) + rest =~= atts + frames);
        let (m2, rs) = feed_binaries(m1, rest);
        let all = seq![r1] + rs;
        assert forall|i: int| 0 <= i < all.len() - 1 implies #[trigger] all[i] == Ok::<Seq<EffectModel>, ManagerErrorModel>(Seq::empty()) by {
            if i > 0 {
                assert(all[i] == rs[i - 1]);
            }
        }
    }
}

/// An event emitted on a confirmed namespace is sent at once as one text
/// frame of type `2` (`5` with attachments) that decodes to the same payload,
/// with the ack ID handed out when one is asked for, followed by one binary
/// frame per attachment, in order.
pub proof fn lemma_event_sent(
    m: ManagerModel,
    ns: Seq<u8>,
    payload: Seq<u8>,
    ack: bool,
    attachments: Option<Seq<Seq<u8>>>,
)
    requires
        m.sockets.contains_key(ns),
        m.sockets[ns].connected,
    ensures
        ({
            let (m1, r) = dispatch_spec(m, ns, DirectiveModel::Event { payload, ack, attachments });
            let n: int = match attachments {
                Some(a) => a.len() as int,
                None => 0,
            };
            let id: Option<u64> = if ack {
                Some(m.sockets[ns].ids)
            } else {
                None
            };
            let packet = match attachments {
                None => PacketModel::Event { payload, id },
                Some(a) => PacketModel::BinaryEvent { payload, id, count: a.len() as usize },
            };
            &&& r matches Ok((effects, rid)) && {
                &&& rid == id
                &&& effects.len() == 1 + n
                &&& effects[0] matches EffectModel::Engine(MessageModel::Text(t)) && {
                    &&& t.len() > 0
                    &&& t[0] == (if attachments is None { 50u8 } else { 53u8 })
                    &&& valid_namespace(ns) && valid_payload(payload) ==> decode_spec(t) == Ok::<
                        (Seq<u8>, PacketModel),
                        PacketError,
                    >((ns, packet))
                }
                &&& forall|i: int| 0 <= i < n ==> #[trigger] effects[i + 1] == EffectModel::Engine(
                    MessageModel::Binary(attachments->Some_0[i]),
                )
            }
            &&& m1.sockets[ns].buffer == m.sockets[ns].buffer
        }),
{
    let id: Option<u64> = if ack {
        Some(m.sockets[ns].ids)
    } else {
        None
    };
    let packet = match attachments {
        None => PacketModel::Event { payload, id },
        Some(a) => PacketModel::BinaryEvent { payload, id, count: a.len() as usize },
    };
    if valid_namespace(ns) && valid_payload(payload) {
        lemma_decode_encode(packet, ns);
    }
    let effects = engine_effects(outbound_messages(packet, ns, attachments));
    assert(effects[0] == EffectModel::Engine(MessageModel::Text(encode_spec(packet, ns))));
}

/// Closing a namespace sends one DISCONNECT frame for it and forgets it.
pub proof fn lemma_disconnect_sent(m: ManagerModel, ns: Seq<u8>)
    requires
        m.sockets.contains_key(ns),
    ensures
        ({
            let (m1, r) = dispatch_spec(m, ns, DirectiveModel::Disconnect);
            &&& r == Ok::<(Seq<EffectModel>, Option<u64>), ManagerErrorModel>(
                (seq![EffectModel::Engine(MessageModel::Text(seq![49u8] + namespace_field(ns)))], None),
            )
            &&& !m1.sockets.contains_key(ns)
            &&& forall|k: Seq<u8>| k != ns ==> m1.sockets.contains_key(k) == m.sockets.contains_key(k)
        }),
{
    assert(encode_spec(PacketModel::Disconnect, ns) =~= seq![49u8] + namespace_field(ns));
    let effects = engine_effects(outbound_messages(PacketModel::Disconnect, ns, None));
    assert(effects =~= seq![EffectModel::Engine(MessageModel::Text(seq![49u8] + namespace_field(ns)))]);
}

/// A server acknowledgement for a pending ID is handed, with its payload, to
/// the responder filed under that ID, which then stops being pending.
pub proof fn lemma_ack_routed(m: ManagerModel, ns: Seq<u8>, payload: Seq<u8>, id: u64)
    requires
        m.pending is None,
        m.sockets.contains_key(ns),
        m.sockets[ns].acks.contains(id),
        valid_namespace(ns),
        valid_payload(payload),
    ensures
        ({
            let (m1, r) = route_text_spec(m, encode_spec(PacketModel::Ack { payload, id }, ns));
            &&& r == Ok::<Seq<EffectModel>, ManagerErrorModel>(
                seq![
                    EffectModel::Acknowledge { ns, id, ack: DynAckModel { payload, attachments: None } },
                ],
            )
            &&& !m1.sockets[ns].acks.contains(id)
            &&& m1.sockets[ns].acks == m.sockets[ns].acks.remove(id)
        }),
{
    lemma_decode_encode(PacketModel::Ack { payload, id }, ns);
}

/// The header of a binary event or ack starts a reassembly of the announced
/// number of attachments, with nothing delivered yet.
pub proof fn lemma_binary_header_routed(
    m: ManagerModel,
    ns: Seq<u8>,
    payload: Seq<u8>,
    id: u64,
    count: usize,
)
    requires
        m.pending is None,
        m.sockets.contains_key(ns),
        valid_namespace(ns),
        valid_payload(payload),
    ensures
        route_text_spec(m, encode_spec(PacketModel::BinaryAck { payload, id, count }, ns)) == (
            ManagerModel {
                sockets: m.sockets,
                pending: Some(
                    (ns, BinaryModel::Ack { payload, id, attachments: Seq::empty(), count }),
                ),
            },
            Ok::<Seq<EffectModel>, ManagerErrorModel>(Seq::empty()),
        ),
        route_text_spec(m, encode_spec(PacketModel::BinaryEvent { payload, id: Some(id), count }, ns)) == (
            ManagerModel {
                sockets: m.sockets,
                pending: Some(
                    (ns, BinaryModel::Event { payload, id: Some(id), attachments: Seq::empty(), count }),
                ),
            },
            Ok::<Seq<EffectModel>, ManagerErrorModel>(Seq::empty()),
        ),
{
    lemma_decode_encode(PacketModel::BinaryAck { payload, id, count }, ns);
    lemma_decode_encode(PacketModel::BinaryEvent { payload, id: Some(id), count }, ns);
}

} // verus!
