use sioc::engine::engine::{engine_step, EngineAction, EngineError, EngineOutput};
use sioc::engine::packet::{probe, Frame, Handshake, Message, Packet, PacketError};
use sioc::engine::polling::{decode_frames, encode_frames, split_payload, FrameError, SEPARATOR};
use sioc::engine::transport::{
    engine_path, engine_query, expect_open, is_probe_reply, probe_ping, websocket_scheme,
    TransportKind, TransportStrategy, ENGINE_IO_VERSION,
};
use std::time::Duration;

fn test_handshake() -> Handshake {
    Handshake {
        sid: "abc".into(),
        upgrades: vec!["websocket".into()],
        ping_interval: 25000,
        ping_timeout: 5000,
        max_payload: 1_000_000,
    }
}

fn same_handshake(a: &Handshake, b: &Handshake) -> bool {
    a.sid == b.sid
        && a.upgrades == b.upgrades
        && a.ping_interval == b.ping_interval
        && a.ping_timeout == b.ping_timeout
        && a.max_payload == b.max_payload
}

fn payload_of(p: &Packet) -> Option<&[u8]> {
    match p {
        Packet::Ping(d) | Packet::Pong(d) | Packet::Message(d) => Some(d.as_slice()),
        _ => None,
    }
}

#[test]
fn handshake_missing_required_field_is_error() {
    let mut json = serde_json::Map::new();
    json.insert("sid".to_string(), serde_json::Value::from("test-456"));
    json.insert("upgrades".to_string(), serde_json::Value::Array(Vec::new()));
    json.insert("pingInterval".to_string(), serde_json::Value::from(25000));
    json.insert("pingTimeout".to_string(), serde_json::Value::from(20000));
    let json = serde_json::Value::Object(json);
    let bytes = format!("0{}", json).into_bytes();
    assert!(Packet::decode(&bytes).is_err());
}

#[test]
fn handshake_ping_window() {
    let hs = test_handshake();
    assert_eq!(
        Duration::from_millis(hs.ping_window()),
        Duration::from_millis(25000 + 5000)
    );
}

#[test]
fn decode_invalid_packet_id() {
    assert!(matches!(
        Packet::decode(b"9"),
        Err(PacketError::InvalidId { id: b'9' })
    ));
}

#[test]
fn decode_empty_packet() {
    assert!(matches!(Packet::decode(b""), Err(PacketError::Empty)));
}

#[test]
fn decode_open() {
    let hs = test_handshake();
    let json = r#"{"sid":"abc","upgrades":["websocket"],"pingInterval":25000,"pingTimeout":5000,"maxPayload":1000000}"#;
    let bytes = format!("0{json}").into_bytes();
    match Packet::decode(&bytes).unwrap() {
        Packet::Open(decoded) => assert!(same_handshake(&decoded, &hs)),
        other => panic!("expected Open, got {other:?}"),
    }
}

#[test]
fn encode_decode_close_round_trip() {
    let encoded = Packet::Close.encode();
    assert!(matches!(Packet::decode(&encoded).unwrap(), Packet::Close));
}

#[test]
fn encode_decode_ping_round_trip() {
    let payload = b"probe".to_vec();
    let encoded = Packet::Ping(payload.clone()).encode();
    let decoded = Packet::decode(&encoded).unwrap();
    assert!(matches!(decoded, Packet::Ping(_)));
    assert_eq!(payload_of(&decoded), Some(&payload[..]));
}

#[test]
fn encode_decode_ping_empty_payload() {
    let encoded = Packet::Ping(Vec::new()).encode();
    let decoded = Packet::decode(&encoded).unwrap();
    assert!(matches!(decoded, Packet::Ping(_)));
    assert_eq!(payload_of(&decoded), Some(&b""[..]));
}

#[test]
fn encode_decode_pong_round_trip() {
    let payload = b"probe".to_vec();
    let encoded = Packet::Pong(payload.clone()).encode();
    let decoded = Packet::decode(&encoded).unwrap();
    assert!(matches!(decoded, Packet::Pong(_)));
    assert_eq!(payload_of(&decoded), Some(&payload[..]));
}

#[test]
fn encode_decode_message_round_trip() {
    let text = b"hello world".to_vec();
    let encoded = Packet::Message(text.clone()).encode();
    let decoded = Packet::decode(&encoded).unwrap();
    assert!(matches!(decoded, Packet::Message(_)));
    assert_eq!(payload_of(&decoded), Some(&text[..]));
}

#[test]
fn encode_decode_upgrade_round_trip() {
    let encoded = Packet::Upgrade.encode();
    assert!(matches!(Packet::decode(&encoded).unwrap(), Packet::Upgrade));
}

#[test]
fn decode_noop() {
    assert!(matches!(Packet::decode(b"6").unwrap(), Packet::Noop));
}

// ---- further cases of the Engine.IO layer ----

#[test]
fn engine_packet_exact_encodings() {
    assert_eq!(Packet::Close.encode(), b"1");
    assert_eq!(Packet::Ping(b"x".to_vec()).encode(), b"2x");
    assert_eq!(Packet::Pong(b"probe".to_vec()).encode(), b"3probe");
    assert_eq!(Packet::Message(b"hi".to_vec()).encode(), b"4hi");
    assert_eq!(Packet::Upgrade.encode(), b"5");
}

#[test]
fn engine_packet_rejects_payload_on_bare_types() {
    assert!(matches!(Packet::decode(b"1x"), Err(PacketError::UnexpectedPayload { id: b'1', .. })));
    assert!(matches!(Packet::decode(b"5x"), Err(PacketError::UnexpectedPayload { id: b'5', .. })));
    assert!(matches!(Packet::decode(b"6x"), Err(PacketError::UnexpectedPayload { id: b'6', .. })));
}

#[test]
fn engine_handshake_reads_fields() {
    let text = br#"0{"sid":"s-1","upgrades":[],"pingInterval":1,"pingTimeout":2,"maxPayload":3,"extra":true}"#;
    match Packet::decode(text).unwrap() {
        Packet::Open(h) => {
            assert_eq!(h.sid, "s-1");
            assert!(h.upgrades.is_empty());
            assert_eq!((h.ping_interval, h.ping_timeout, h.max_payload), (1, 2, 3));
            assert!(!h.can_upgrade_to_websocket());
        }
        other => panic!("expected Open, got {other:?}"),
    }
}

#[test]
fn engine_handshake_rejects_wrong_types() {
    let bad = [
        &br#"0{"sid":1,"upgrades":[],"pingInterval":1,"pingTimeout":2,"maxPayload":3}"#[..],
        &br#"0{"sid":"a","upgrades":[1],"pingInterval":1,"pingTimeout":2,"maxPayload":3}"#[..],
        &br#"0{"sid":"a","upgrades":[],"pingInterval":-1,"pingTimeout":2,"maxPayload":3}"#[..],
        &br#"0{"sid":"a","upgrades":[],"pingInterval":1.5,"pingTimeout":2,"maxPayload":3}"#[..],
        &b"0[]"[..],
        &b"0"[..],
    ];
    for text in bad {
        assert!(matches!(Packet::decode(text), Err(PacketError::InvalidHandshake { .. })));
    }
}

#[test]
fn engine_can_upgrade_to_websocket() {
    assert!(test_handshake().can_upgrade_to_websocket());
    let mut hs = test_handshake();
    hs.upgrades = vec!["polling".into(), "webtransport".into()];
    assert!(!hs.can_upgrade_to_websocket());
}

#[test]
fn engine_step_answers_ping_with_pong() {
    let step = engine_step(EngineAction::Transport(Frame::Packet(Packet::Ping(b"7".to_vec())))).unwrap();
    assert!(!step.stop);
    assert_eq!(step.outputs.len(), 2);
    match &step.outputs[0] {
        EngineOutput::Transport(Frame::Packet(Packet::Pong(d))) => assert_eq!(&d[..], b"7"),
        other => panic!("expected pong, got {other:?}"),
    }
    assert!(matches!(step.outputs[1], EngineOutput::ResetHeartbeat));
}

#[test]
fn engine_step_passes_data_through() {
    let up = engine_step(EngineAction::Transport(Frame::Packet(Packet::Message(b"m".to_vec())))).unwrap();
    assert!(matches!(&up.outputs[..], [EngineOutput::Sink(Message::Text(t))] if t == b"m"));
    let bin = engine_step(EngineAction::Transport(Frame::Binary(vec![1, 2]))).unwrap();
    assert!(matches!(&bin.outputs[..], [EngineOutput::Sink(Message::Binary(b))] if b == &[1, 2]));
    let down = engine_step(EngineAction::Sink(Message::Text(b"t".to_vec()))).unwrap();
    assert!(matches!(&down.outputs[..], [EngineOutput::Transport(Frame::Packet(Packet::Message(t)))] if t == b"t"));
    let down_bin = engine_step(EngineAction::Sink(Message::Binary(vec![9]))).unwrap();
    assert!(matches!(&down_bin.outputs[..], [EngineOutput::Transport(Frame::Binary(b))] if b == &[9]));
}

#[test]
fn engine_step_close_and_noop() {
    let close = engine_step(EngineAction::Transport(Frame::Packet(Packet::Close))).unwrap();
    assert!(close.stop && close.outputs.is_empty());
    let local = engine_step(EngineAction::Sink(Message::Close)).unwrap();
    assert!(local.stop);
    assert!(matches!(&local.outputs[..], [EngineOutput::Transport(Frame::Packet(Packet::Close))]));
    let noop = engine_step(EngineAction::Transport(Frame::Packet(Packet::Noop))).unwrap();
    assert!(!noop.stop && noop.outputs.is_empty());
    let err = engine_step(EngineAction::Transport(Frame::Packet(Packet::Upgrade)));
    assert!(matches!(err, Err(EngineError::UnexpectedPacket(Packet::Upgrade))));
}

#[test]
fn polling_payload_roundtrip_with_base64() {
    let frames = vec![
        Frame::Packet(Packet::Message(b"hello".to_vec())),
        Frame::Binary(vec![0, 1, 2, 255]),
        Frame::Packet(Packet::Ping(b"probe".to_vec())),
    ];
    let out = encode_frames(&frames);
    assert_eq!(&out[..], b"4hello\x1ebAAEC/w==\x1e2probe");
    let back = decode_frames(&out).unwrap();
    assert_eq!(back.len(), 3);
    match &back[1] {
        Frame::Binary(b) => assert_eq!(&b[..], &[0, 1, 2, 255]),
        other => panic!("expected binary, got {other:?}"),
    }
}

#[test]
fn polling_split_and_errors() {
    let parts = split_payload(&[b'a', SEPARATOR, b'b', SEPARATOR]);
    assert_eq!(parts, vec![b"a".to_vec(), b"b".to_vec(), Vec::new()]);
    assert!(matches!(decode_frames(b"b!!!"), Err(FrameError::Base64)));
    assert!(matches!(decode_frames(b"4ok\x1e9"), Err(FrameError::Packet(PacketError::InvalidId { id: b'9' }))));
}

#[test]
fn transport_helpers() {
    assert_eq!(ENGINE_IO_VERSION, 4);
    assert_eq!(TransportStrategy::default(), TransportStrategy::Polling);
    let q = engine_query(TransportKind::Polling, Some(b"abc"));
    assert_eq!(
        q,
        vec![
            (b"EIO".to_vec(), b"4".to_vec()),
            (b"transport".to_vec(), b"polling".to_vec()),
            (b"sid".to_vec(), b"abc".to_vec()),
        ]
    );
    let q = engine_query(TransportKind::WebSocket, None);
    assert_eq!(q[1].1, b"websocket");
    assert_eq!(q.len(), 2);
    assert_eq!(websocket_scheme(b"http"), Some(b"ws".to_vec()));
    assert_eq!(websocket_scheme(b"https"), Some(b"wss".to_vec()));
    assert_eq!(websocket_scheme(b"ws"), None);
    assert_eq!(engine_path(b"/"), Some(b"/engine.io/".to_vec()));
    assert_eq!(engine_path(b"/socket.io/"), None);
}

#[test]
fn transport_open_and_probe() {
    let frame = Frame::Packet(Packet::decode(br#"0{"sid":"x","upgrades":["websocket"],"pingInterval":1,"pingTimeout":1,"maxPayload":1}"#).unwrap());
    let hs = expect_open(frame).unwrap();
    assert_eq!(hs.sid, "x");
    assert!(expect_open(Frame::Binary(vec![])).is_err());
    assert_eq!(probe(), b"probe");
    assert!(is_probe_reply(&Frame::Packet(Packet::Pong(b"probe".to_vec()))));
    assert!(!is_probe_reply(&Frame::Packet(Packet::Pong(b"prob".to_vec()))));
    assert!(matches!(probe_ping(), Frame::Packet(Packet::Ping(p)) if p == b"probe"));
}

#[test]
fn engine_step_heartbeat_elapsed_times_out() {
    assert!(matches!(engine_step(EngineAction::HeartbeatElapsed), Err(EngineError::HeartbeatTimeout)));
}
