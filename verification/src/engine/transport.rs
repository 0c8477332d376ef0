//! Transport selection and the decisions taken while a transport connects.
//!
//! Opening sockets and HTTP requests happens outside the library; these
//! functions decide which transport to use, how its URL is formed, and
//! whether the first frames received are the ones the protocol requires.

use crate::engine::packet::{probe, probe_spec, Frame, FrameModel, Handshake, Packet, PacketModel};
use crate::num::{bytes_eq, copy_range, push_decimal};
use vstd::prelude::*;

verus! {

/// The Engine.IO protocol version implemented (the `EIO` query parameter).
pub const ENGINE_IO_VERSION: u64 = 4;

/// How the engine reaches the server.
#[derive(Debug, Clone, Copy, PartialEq, Eq, Structural)]
pub enum TransportStrategy {
    /// HTTP long-polling, upgraded to WebSocket when the server offers it.
    Polling,
    /// WebSocket from the start.
    WebSocket,
}

impl Default for TransportStrategy {
    fn default() -> (s: Self)
        ensures
            s == TransportStrategy::Polling,
    {
        TransportStrategy::Polling
    }
}

/// Transport selection of the client builder.
#[derive(Debug, Clone, Copy, PartialEq, Eq, Structural)]
pub enum TransportType {
    /// Use polling transport only.
    Polling,
    /// Use WebSocket transport only.
    Websocket,
    /// Start with polling and upgrade to WebSocket if supported (default).
    Auto,
}

/// Opens plain WebSocket connections with no custom TLS or header configuration.
#[derive(Debug, Clone, Copy, Default)]
pub struct DefaultWebSocketConnector;

/// The transport named in a URL's `transport` query parameter.
#[derive(Debug, Clone, Copy, PartialEq, Eq, Structural)]
pub enum TransportKind {
    Polling,
    WebSocket,
}

/// `"polling"`.
pub open spec fn polling_name() -> Seq<u8> {
    seq![112u8, 111u8, 108u8, 108u8, 105u8, 110u8, 103u8]
}

/// `"websocket"`.
pub open spec fn websocket_name() -> Seq<u8> {
    seq![119u8, 101u8, 98u8, 115u8, 111u8, 99u8, 107u8, 101u8, 116u8]
}

/// The query parameters a transport URL carries: `EIO=4`, the transport, and the session ID if any.
pub open spec fn engine_query_spec(kind: TransportKind, sid: Option<Seq<u8>>) -> Seq<(Seq<u8>, Seq<u8>)> {
    let base = seq![
        (seq![69u8, 73u8, 79u8], seq![52u8]),
        (
            seq![116u8, 114u8, 97u8, 110u8, 115u8, 112u8, 111u8, 114u8, 116u8],
            match kind {
                TransportKind::Polling => polling_name(),
                TransportKind::WebSocket => websocket_name(),
            },
        ),
    ];
    match sid {
        Some(s) => base.push((seq![115u8, 105u8, 100u8], s)),
        None => base,
    }
}

/// The mathematical value of a list of query pairs.
pub open spec fn pairs_view(v: Seq<(Vec<u8>, Vec<u8>)>) -> Seq<(Seq<u8>, Seq<u8>)> {
    v.map_values(|p: (Vec<u8>, Vec<u8>)| (p.0@, p.1@))
}

/// The query parameters to append to a transport URL.
pub fn engine_query(kind: TransportKind, sid: Option<&[u8]>) -> (r: Vec<(Vec<u8>, Vec<u8>)>)
    ensures
        pairs_view(r@) == engine_query_spec(
            kind,
            match sid {
                Some(s) => Some(s@),
                None => None,
            },
        ),
{
    let mut version: Vec<u8> = Vec::new();
    push_decimal(&mut version, ENGINE_IO_VERSION);
    let transport = match kind {
        TransportKind::Polling => vec![112u8, 111u8, 108u8, 108u8, 105u8, 110u8, 103u8],
        TransportKind::WebSocket => vec![119u8, 101u8, 98u8, 115u8, 111u8, 99u8, 107u8, 101u8, 116u8],
    };
    let eio: Vec<u8> = vec![69u8, 73u8, 79u8];
    let tkey: Vec<u8> = vec![116u8, 114u8, 97u8, 110u8, 115u8, 112u8, 111u8, 114u8, 116u8];
    proof {
        assert(version@ =~= seq![52u8]);
        assert(eio@ =~= seq![69u8, 73u8, 79u8]);
        assert(tkey@ =~= seq![116u8, 114u8, 97u8, 110u8, 115u8, 112u8, 111u8, 114u8, 116u8]);
        match kind {
            TransportKind::Polling => assert(transport@ =~= polling_name()),
            TransportKind::WebSocket => assert(transport@ =~= websocket_name()),
        }
    }
    let mut r: Vec<(Vec<u8>, Vec<u8>)> = Vec::new();
    r.push((eio, version));
    r.push((tkey, transport));
    if let Some(s) = sid {
        let skey: Vec<u8> = vec![115u8, 105u8, 100u8];
        proof {
            assert(skey@ =~= seq![115u8, 105u8, 100u8]);
        }
        r.push((skey, copy_range(s, 0, s.len())));
        proof {
            assert(s@.subrange(0, s@.len() as int) =~= s@);
        }
    }
    proof {
        let sv = match sid {
            Some(s) => Some(s@),
            None => None,
        };
        assert(pairs_view(r@) =~= engine_query_spec(kind, sv));
    }
    r
}

/// The WebSocket scheme for an HTTP scheme: `http` → `ws`, `https` → `wss`, otherwise unchanged.
pub open spec fn websocket_scheme_spec(scheme: Seq<u8>) -> Option<Seq<u8>> {
    if scheme == seq![104u8, 116u8, 116u8, 112u8] {
        Some(seq![119u8, 115u8])
    } else if scheme == seq![104u8, 116u8, 116u8, 112u8, 115u8] {
        Some(seq![119u8, 115u8, 115u8])
    } else {
        None
    }
}

/// The scheme a WebSocket URL takes for the given URL scheme; `None` keeps it.
pub fn websocket_scheme(scheme: &[u8]) -> (r: Option<Vec<u8>>)
    ensures
        match r {
            Some(v) => websocket_scheme_spec(scheme@) == Some(v@),
            None => websocket_scheme_spec(scheme@) is None,
        },
{
    let http: Vec<u8> = vec![104u8, 116u8, 116u8, 112u8];
    let https: Vec<u8> = vec![104u8, 116u8, 116u8, 112u8, 115u8];
    proof {
        assert(http@ =~= seq![104u8, 116u8, 116u8, 112u8]);
        assert(https@ =~= seq![104u8, 116u8, 116u8, 112u8, 115u8]);
    }
    if bytes_eq(scheme, http.as_slice()) {
        let ws: Vec<u8> = vec![119u8, 115u8];
        proof {
            assert(ws@ =~= seq![119u8, 115u8]);
        }
        Some(ws)
    } else if bytes_eq(scheme, https.as_slice()) {
        let wss: Vec<u8> = vec![119u8, 115u8, 115u8];
        proof {
            assert(wss@ =~= seq![119u8, 115u8, 115u8]);
        }
        Some(wss)
    } else {
        None
    }
}

/// The path an engine URL takes: a bare `/` becomes `/engine.io/`; `None` keeps the path.
pub open spec fn engine_path_spec(path: Seq<u8>) -> Option<Seq<u8>> {
    if path == seq![47u8] {
        Some(seq![47u8, 101u8, 110u8, 103u8, 105u8, 110u8, 101u8, 46u8, 105u8, 111u8, 47u8])
    } else {
        None
    }
}

/// The path a client URL takes: a URL with no path is served at `/engine.io/`.
pub fn engine_path(path: &[u8]) -> (r: Option<Vec<u8>>)
    ensures
        match r {
            Some(v) => engine_path_spec(path@) == Some(v@),
            None => engine_path_spec(path@) is None,
        },
{
    if path.len() == 1 && path[0] == 47u8 {
        let p: Vec<u8> = vec![47u8, 101u8, 110u8, 103u8, 105u8, 110u8, 101u8, 46u8, 105u8, 111u8, 47u8];
        proof {
            assert(path@ =~= seq![47u8]);
            assert(p@ =~= seq![47u8, 101u8, 110u8, 103u8, 105u8, 110u8, 101u8, 46u8, 105u8, 111u8, 47u8]);
        }
        Some(p)
    } else {
        proof {
            if path@ == seq![47u8] {
                assert(path@.len() == 1);
            }
        }
        None
    }
}

/// Takes the handshake out of the first frame of a session, which must be an `open` packet.
///
/// Returns the handshake, or gives the frame back when it is anything else.
pub fn expect_open(frame: Frame) -> (r: Result<Handshake, Frame>)
    ensures
        match r {
            Ok(h) => frame@ == FrameModel::Packet(PacketModel::Open(h@)),
            Err(f) => f@ == frame@ && !(frame@ is Packet && frame@->Packet_0 is Open),
        },
{
    match frame {
        Frame::Packet(Packet::Open(handshake)) => Ok(handshake),
        other => Err(other),
    }
}

/// True when `frame` is the `pong` answering the upgrade probe (payload `"probe"`).
pub fn is_probe_reply(frame: &Frame) -> (r: bool)
    ensures
        r == (frame@ == FrameModel::Packet(PacketModel::Pong(probe_spec()))),
{
    match frame {
        Frame::Packet(Packet::Pong(payload)) => {
            let p = probe();
            bytes_eq(payload.as_slice(), p.as_slice())
        },
        _ => false,
    }
}

/// The probe `ping` sent on a new WebSocket before upgrading.
pub fn probe_ping() -> (f: Frame)
    ensures
        f@ == FrameModel::Packet(PacketModel::Ping(probe_spec())),
{
    Frame::Packet(Packet::Ping(probe()))
}

} // verus!
