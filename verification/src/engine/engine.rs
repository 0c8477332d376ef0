//! The Engine.IO session state machine.
//!
//! The engine sits between the transport (which delivers [`Frame`]s) and the
//! Socket.IO layer (which exchanges [`Message`]s).  [`engine_step`] decides,
//! for each action, what is forwarded where, when the heartbeat deadline is
//! renewed and when the session ends; the caller performs the I/O and keeps
//! the heartbeat timer.

use crate::engine::packet::{Frame, FrameModel, Message, MessageModel, Packet, PacketModel};
use vstd::prelude::*;

verus! {

/// An input of the engine.
#[derive(Debug)]
pub enum EngineAction {
    /// An inbound frame from the transport layer.
    Transport(Frame),
    /// An outbound message from the upper layer.
    Sink(Message),
    /// The heartbeat deadline passed: no `ping` arrived within the ping window.
    HeartbeatElapsed,
}

/// The mathematical value of an [`EngineAction`].
pub enum EngineActionModel {
    Transport(FrameModel),
    Sink(MessageModel),
    HeartbeatElapsed,
}

impl View for EngineAction {
    type V = EngineActionModel;

    open spec fn view(&self) -> EngineActionModel {
        match self {
            EngineAction::Transport(f) => EngineActionModel::Transport(f@),
            EngineAction::Sink(m) => EngineActionModel::Sink(m@),
            EngineAction::HeartbeatElapsed => EngineActionModel::HeartbeatElapsed,
        }
    }
}

/// What the engine asks its caller to do.
#[derive(Debug)]
pub enum EngineOutput {
    /// Send a frame to the transport.
    Transport(Frame),
    /// Deliver a message to the upper layer.
    Sink(Message),
    /// Renew the heartbeat deadline (a ping arrived).
    ResetHeartbeat,
}

/// The mathematical value of an [`EngineOutput`].
pub enum EngineOutputModel {
    Transport(FrameModel),
    Sink(MessageModel),
    ResetHeartbeat,
}

impl View for EngineOutput {
    type V = EngineOutputModel;

    open spec fn view(&self) -> EngineOutputModel {
        match self {
            EngineOutput::Transport(f) => EngineOutputModel::Transport(f@),
            EngineOutput::Sink(m) => EngineOutputModel::Sink(m@),
            EngineOutput::ResetHeartbeat => EngineOutputModel::ResetHeartbeat,
        }
    }
}

/// The outcome of one engine step: outputs, and whether the session ends.
#[derive(Debug)]
pub struct EngineStep {
    pub outputs: Vec<EngineOutput>,
    pub stop: bool,
}

/// Errors of the engine state machine.
#[derive(Debug)]
pub enum EngineError {
    /// The server sent a packet that has no place in an open session.
    UnexpectedPacket(Packet),
    /// No `ping` arrived within `pingInterval + pingTimeout`.
    HeartbeatTimeout,
}

/// The mathematical value of an [`EngineError`].
pub enum EngineErrorModel {
    UnexpectedPacket(PacketModel),
    HeartbeatTimeout,
}

/// What one action does: outputs and whether the session ends, or the packet refused.
pub open spec fn engine_step_spec(a: EngineActionModel) -> Result<(Seq<EngineOutputModel>, bool), EngineErrorModel> {
    match a {
        EngineActionModel::Transport(FrameModel::Packet(p)) => match p {
            PacketModel::Close => Ok((Seq::empty(), true)),
            PacketModel::Ping(d) => Ok(
                (
                    seq![
                        EngineOutputModel::Transport(FrameModel::Packet(PacketModel::Pong(d))),
                        EngineOutputModel::ResetHeartbeat,
                    ],
                    false,
                ),
            ),
            PacketModel::Message(d) => Ok(
                (seq![EngineOutputModel::Sink(MessageModel::Text(d))], false),
            ),
            PacketModel::Noop => Ok((Seq::empty(), false)),
            other => Err(EngineErrorModel::UnexpectedPacket(other)),
        },
        EngineActionModel::Transport(FrameModel::Binary(b)) => Ok(
            (seq![EngineOutputModel::Sink(MessageModel::Binary(b))], false),
        ),
        EngineActionModel::Sink(MessageModel::Text(t)) => Ok(
            (seq![EngineOutputModel::Transport(FrameModel::Packet(PacketModel::Message(t)))], false),
        ),
        EngineActionModel::Sink(MessageModel::Binary(b)) => Ok(
            (seq![EngineOutputModel::Transport(FrameModel::Binary(b))], false),
        ),
        EngineActionModel::Sink(MessageModel::Close) => Ok(
            (seq![EngineOutputModel::Transport(FrameModel::Packet(PacketModel::Close))], true),
        ),
        EngineActionModel::HeartbeatElapsed => Err(EngineErrorModel::HeartbeatTimeout),
    }
}

/// The mathematical value of an engine step's outcome.
pub open spec fn engine_step_view(r: Result<EngineStep, EngineError>) -> Result<(Seq<EngineOutputModel>, bool), EngineErrorModel> {
    match r {
        Ok(s) => Ok((s.outputs@.map_values(|o: EngineOutput| o@), s.stop)),
        Err(EngineError::UnexpectedPacket(p)) => Err(EngineErrorModel::UnexpectedPacket(p@)),
        Err(EngineError::HeartbeatTimeout) => Err(EngineErrorModel::HeartbeatTimeout),
    }
}

/// Decides what one engine action does.
///
/// A server `ping` is answered with a `pong` carrying the same payload and
/// renews the heartbeat; `message` packets and binary frames go up as
/// messages; outbound messages go down as `message` packets or binary frames;
/// a `close` from either side ends the session; `noop` is ignored; any other
/// server packet is an error, and so is a heartbeat deadline that passes.
pub fn engine_step(action: EngineAction) -> (r: Result<EngineStep, EngineError>)
    ensures
        engine_step_view(r) == engine_step_spec(action@),
{
    let (outputs, stop): (Vec<EngineOutput>, bool) = match action {
        EngineAction::Transport(Frame::Packet(packet)) => match packet {
            Packet::Close => (Vec::new(), true),
            Packet::Ping(payload) => (
                vec![
                    EngineOutput::Transport(Frame::Packet(Packet::Pong(payload))),
                    EngineOutput::ResetHeartbeat,
                ],
                false,
            ),
            Packet::Message(payload) => (vec![EngineOutput::Sink(Message::Text(payload))], false),
            Packet::Noop => (Vec::new(), false),
            other => {
                return Err(EngineError::UnexpectedPacket(other));
            },
        },
        EngineAction::Transport(Frame::Binary(bytes)) => (
            vec![EngineOutput::Sink(Message::Binary(bytes))],
            false,
        ),
        EngineAction::Sink(Message::Text(text)) => (
            vec![EngineOutput::Transport(Frame::Packet(Packet::Message(text)))],
            false,
        ),
        EngineAction::Sink(Message::Binary(bytes)) => (
            vec![EngineOutput::Transport(Frame::Binary(bytes))],
            false,
        ),
        EngineAction::Sink(Message::Close) => (
            vec![EngineOutput::Transport(Frame::Packet(Packet::Close))],
            true,
        ),
        EngineAction::HeartbeatElapsed => {
            return Err(EngineError::HeartbeatTimeout);
        },
    };
    let r = EngineStep { outputs, stop };
    proof {
        match engine_step_spec(action@) {
            Ok(o) => assert(r.outputs@.map_values(|o: EngineOutput| o@) =~= o.0),
            Err(_) => {},
        }
    }
    Ok(r)
}

/// Every server ping is answered with a pong of the same payload, and renews the heartbeat.
pub proof fn lemma_ping_answered(d: Seq<u8>)
    ensures
        engine_step_spec(EngineActionModel::Transport(FrameModel::Packet(PacketModel::Ping(d))))
            == Ok::<(Seq<EngineOutputModel>, bool), EngineErrorModel>(
            (
                seq![
                    EngineOutputModel::Transport(FrameModel::Packet(PacketModel::Pong(d))),
                    EngineOutputModel::ResetHeartbeat,
                ],
                false,
            ),
        ),
{
}

/// Text and binary data cross the engine unchanged in both directions, and
/// only a close (from either side) ends the session.
pub proof fn lemma_data_passes_through(d: Seq<u8>)
    ensures
        engine_step_spec(EngineActionModel::Transport(FrameModel::Packet(PacketModel::Message(d))))
            == Ok::<(Seq<EngineOutputModel>, bool), EngineErrorModel>(
            (seq![EngineOutputModel::Sink(MessageModel::Text(d))], false),
        ),
        engine_step_spec(EngineActionModel::Sink(MessageModel::Text(d))) == Ok::<(Seq<EngineOutputModel>, bool), EngineErrorModel>(
            (seq![EngineOutputModel::Transport(FrameModel::Packet(PacketModel::Message(d)))], false),
        ),
        engine_step_spec(EngineActionModel::Transport(FrameModel::Binary(d))) == Ok::<(Seq<EngineOutputModel>, bool), EngineErrorModel>(
            (seq![EngineOutputModel::Sink(MessageModel::Binary(d))], false),
        ),
        engine_step_spec(EngineActionModel::Sink(MessageModel::Binary(d))) == Ok::<(Seq<EngineOutputModel>, bool), EngineErrorModel>(
            (seq![EngineOutputModel::Transport(FrameModel::Binary(d))], false),
        ),
        forall|a: EngineActionModel|
            #[trigger] engine_step_spec(a) matches Ok((_, true)) ==> (a == EngineActionModel::Sink(
                MessageModel::Close,
            ) || a == EngineActionModel::Transport(FrameModel::Packet(PacketModel::Close))),
{
}

/// A heartbeat deadline that passes ends the session with a timeout, and
/// only a server `ping` renews the deadline.
pub proof fn lemma_heartbeat(a: EngineActionModel)
    ensures
        engine_step_spec(EngineActionModel::HeartbeatElapsed) == Err::<
            (Seq<EngineOutputModel>, bool),
            EngineErrorModel,
        >(EngineErrorModel::HeartbeatTimeout),
        engine_step_spec(a) matches Ok((outs, _)) && outs.contains(EngineOutputModel::ResetHeartbeat)
            ==> a matches EngineActionModel::Transport(FrameModel::Packet(PacketModel::Ping(_))),
{
    if let Ok((outs, _)) = engine_step_spec(a) {
        if outs.contains(EngineOutputModel::ResetHeartbeat) {
            let k = choose|k: int| 0 <= k < outs.len() && outs[k] == EngineOutputModel::ResetHeartbeat;
            assert(outs[k] == EngineOutputModel::ResetHeartbeat);
        }
    }
}

} // verus!
