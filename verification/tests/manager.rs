use sioc::engine::packet::Message;
use sioc::socket::error::ManagerError;
use sioc::socket::manager::{Effect, Manager, ManagerInput};
use sioc::socket::packet::{Directive, Ns, Signal};

const CONNECT_RESPONSE: &[u8] = b"0{\"sid\":\"test\"}";

fn open_namespace(m: &mut Manager, ns: &str) -> Vec<Effect> {
    m.dispatch_directive(ns.as_bytes().to_vec(), Directive::Connect { payload: Vec::new() })
        .unwrap()
        .effects
}

fn server_connect(m: &mut Manager) -> Vec<Effect> {
    m.route_message(Message::Text(CONNECT_RESPONSE.to_vec())).unwrap()
}

fn event(payload: &[u8], ack: bool) -> Directive {
    Directive::Event { payload: payload.to_vec(), ack, attachments: None }
}

fn engine_texts(effects: &[Effect]) -> Vec<Vec<u8>> {
    effects
        .iter()
        .filter_map(|e| match e {
            Effect::Engine(Message::Text(t)) => Some(t.clone()),
            _ => None,
        })
        .collect()
}

/// Events are held in the socket buffer until the server sends a CONNECT response.
#[test]
fn events_buffered_before_server_connect() {
    let mut m = Manager::new();
    let opened = open_namespace(&mut m, "/");
    assert_eq!(engine_texts(&opened), vec![b"0".to_vec()]);
    let step = m.dispatch_directive(b"/".to_vec(), event(b"[\"ping\"]", false)).unwrap();
    assert!(step.effects.is_empty(), "event must be buffered before server CONNECT");
    assert_eq!(step.ack_id, None);
}

/// All buffered events are flushed in order once the server confirms the namespace.
#[test]
fn buffered_events_flushed_on_server_connect() {
    let mut m = Manager::new();
    open_namespace(&mut m, "/");
    for c in ['a', 'b', 'c'] {
        let payload = format!("[\"{}\"]", c);
        let step = m.dispatch_directive(b"/".to_vec(), event(payload.as_bytes(), false)).unwrap();
        assert!(step.effects.is_empty(), "must still be buffered");
    }
    let effects = server_connect(&mut m);
    assert_eq!(effects.len(), 4);
    assert_eq!(
        engine_texts(&effects),
        vec![b"2[\"a\"]".to_vec(), b"2[\"b\"]".to_vec(), b"2[\"c\"]".to_vec()]
    );
    match &effects[3] {
        Effect::Deliver { ns, signal: Signal::Connect(c) } => {
            assert_eq!(ns, b"/");
            assert_eq!(c.sid, "test");
            assert!(c.extra.is_empty());
        }
        other => panic!("expected Connect delivery, got {other:?}"),
    }
    // once connected, events go straight out
    let step = m.dispatch_directive(b"/".to_vec(), event(b"[\"d\"]", false)).unwrap();
    assert_eq!(engine_texts(&step.effects), vec![b"2[\"d\"]".to_vec()]);
}

/// After the last namespace disconnects the router has no namespace left (the engine is closed).
#[test]
fn disconnect_closes_engine_when_empty() {
    let mut m = Manager::new();
    open_namespace(&mut m, "/");
    server_connect(&mut m);
    let step = m.dispatch_directive(b"/".to_vec(), Directive::Disconnect).unwrap();
    assert_eq!(engine_texts(&step.effects), vec![b"1".to_vec()]);
    assert!(m.is_empty());
}

/// Routing a directive to an unknown namespace returns an error.
#[test]
fn unknown_namespace_returns_error() {
    let mut m = Manager::new();
    let r = m.dispatch_directive(b"/no-such-ns".to_vec(), event(b"[\"x\"]", false));
    assert!(matches!(r, Err(ManagerError::UnknownNamespace { .. })));
}

/// Connecting the same namespace twice returns a conflict error.
#[test]
fn duplicate_connect_returns_conflict() {
    let mut m = Manager::new();
    open_namespace(&mut m, "/");
    let r = m.dispatch_directive(b"/".to_vec(), Directive::Connect { payload: Vec::new() });
    assert!(matches!(r, Err(ManagerError::NamespaceConflict { .. })));
}

/// Disconnecting a namespace that is not open returns an error.
#[test]
fn double_disconnect_returns_error() {
    let mut m = Manager::new();
    open_namespace(&mut m, "/");
    server_connect(&mut m);
    assert!(m.dispatch_directive(b"/".to_vec(), Directive::Disconnect).is_ok());
    let r = m.dispatch_directive(b"/".to_vec(), Directive::Disconnect);
    assert!(matches!(r, Err(ManagerError::UnknownNamespace { .. })));
}

/// Ack IDs are assigned per-namespace and responses route back correctly.
#[test]
fn ack_roundtrip() {
    let mut m = Manager::new();
    open_namespace(&mut m, "/");
    server_connect(&mut m);
    let step = m.dispatch_directive(b"/".to_vec(), event(b"[\"greet\",\"hello\"]", true)).unwrap();
    assert_eq!(step.ack_id, Some(0));
    assert_eq!(engine_texts(&step.effects), vec![b"20[\"greet\",\"hello\"]".to_vec()]);
    let effects = m.route_message(Message::Text(b"30[\"world\"]".to_vec())).unwrap();
    match &effects[..] {
        [Effect::Acknowledge { ns, id, ack }] => {
            assert_eq!(ns, b"/");
            assert_eq!(*id, 0);
            assert_eq!(&ack.payload[..], b"[\"world\"]");
        }
        other => panic!("expected one acknowledgement, got {other:?}"),
    }
    // the responder is used once
    let again = m.route_message(Message::Text(b"30[\"world\"]".to_vec()));
    assert!(matches!(again, Err(ManagerError::UnknownAckId { id: 0, .. })));
}

/// A binary event is held until all attachment frames arrive, then delivered as a complete packet.
#[test]
fn binary_event_reassembly() {
    let mut m = Manager::new();
    open_namespace(&mut m, "/");
    server_connect(&mut m);
    assert!(m.route_message(Message::Text(b"52-[\"img\"]".to_vec())).unwrap().is_empty());
    let first = m.route_message(Message::Binary(vec![1, 2])).unwrap();
    assert!(first.is_empty(), "incomplete, second attachment not yet received");
    let second = m.route_message(Message::Binary(vec![3, 4])).unwrap();
    match &second[..] {
        [Effect::Deliver { signal: Signal::Event(ev), .. }] => {
            let attachments = ev.attachments.as_ref().unwrap();
            assert_eq!(attachments.len(), 2);
            assert_eq!(attachments[0], vec![1, 2]);
            assert_eq!(attachments[1], vec![3, 4]);
            assert_eq!(&ev.payload[..], b"[\"img\"]");
        }
        other => panic!("expected Event, got {other:?}"),
    }
}

// ---- further router scenarios ----

#[test]
fn manager_ack_ids_increase_per_namespace() {
    let mut m = Manager::new();
    open_namespace(&mut m, "/");
    open_namespace(&mut m, "/chat");
    let a = m.dispatch_directive(b"/".to_vec(), event(b"[1]", true)).unwrap();
    let b = m.dispatch_directive(b"/".to_vec(), event(b"[2]", true)).unwrap();
    let c = m.dispatch_directive(b"/chat".to_vec(), event(b"[3]", true)).unwrap();
    assert_eq!((a.ack_id, b.ack_id, c.ack_id), (Some(0), Some(1), Some(0)));
    assert!(m.can_register_ack(b"/"));
}

#[test]
fn manager_binary_outbound_frames() {
    let mut m = Manager::new();
    open_namespace(&mut m, "/chat");
    m.route_message(Message::Text(b"0/chat,{\"sid\":\"s\"}".to_vec())).unwrap();
    let d = Directive::Event {
        payload: b"[\"up\",{\"_placeholder\":true,\"num\":0}]".to_vec(),
        ack: false,
        attachments: Some(vec![vec![7, 7]]),
    };
    let step = m.dispatch_directive(b"/chat".to_vec(), d).unwrap();
    match &step.effects[..] {
        [Effect::Engine(Message::Text(t)), Effect::Engine(Message::Binary(b))] => {
            assert_eq!(&t[..], b"51-/chat,[\"up\",{\"_placeholder\":true,\"num\":0}]");
            assert_eq!(b, &vec![7, 7]);
        }
        other => panic!("unexpected effects {other:?}"),
    }
}

#[test]
fn manager_text_during_reassembly_is_error() {
    let mut m = Manager::new();
    open_namespace(&mut m, "/");
    server_connect(&mut m);
    m.route_message(Message::Text(b"51-[\"x\"]".to_vec())).unwrap();
    let r = m.route_message(Message::Text(b"2[\"y\"]".to_vec()));
    assert!(matches!(r, Err(ManagerError::UnexpectedText(_))));
}

#[test]
fn manager_binary_without_pending_is_error() {
    let mut m = Manager::new();
    let r = m.route_message(Message::Binary(vec![1]));
    assert!(matches!(r, Err(ManagerError::UnexpectedBinary(_))));
}

#[test]
fn manager_binary_ack_reassembly() {
    let mut m = Manager::new();
    open_namespace(&mut m, "/");
    server_connect(&mut m);
    m.dispatch_directive(b"/".to_vec(), event(b"[\"q\"]", true)).unwrap();
    m.route_message(Message::Text(b"61-0[\"r\"]".to_vec())).unwrap();
    let effects = m.route_message(Message::Binary(vec![5])).unwrap();
    match &effects[..] {
        [Effect::Acknowledge { id: 0, ack, .. }] => {
            assert_eq!(ack.attachments.as_ref().unwrap(), &vec![vec![5u8]]);
        }
        other => panic!("expected acknowledgement, got {other:?}"),
    }
}

#[test]
fn manager_engine_close_clears_namespaces() {
    let mut m = Manager::new();
    open_namespace(&mut m, "/");
    open_namespace(&mut m, "/a");
    assert!(!m.is_empty());
    assert!(m.route_message(Message::Close).unwrap().is_empty());
    assert!(m.is_empty());
}

#[test]
fn manager_decode_error_is_reported() {
    let mut m = Manager::new();
    let r = m.route_message(Message::Text(b"9".to_vec()));
    assert!(matches!(r, Err(ManagerError::Packet(_))));
}

#[test]
fn manager_event_and_disconnect_delivery() {
    let mut m = Manager::new();
    open_namespace(&mut m, "/");
    server_connect(&mut m);
    let e = m.route_message(Message::Text(b"23[\"hi\"]".to_vec())).unwrap();
    match &e[..] {
        [Effect::Deliver { signal: Signal::Event(ev), .. }] => {
            assert_eq!(ev.id, Some(3));
            assert!(ev.attachments.is_none());
        }
        other => panic!("unexpected {other:?}"),
    }
    let d = m.route_message(Message::Text(b"1".to_vec())).unwrap();
    assert!(matches!(&d[..], [Effect::Deliver { signal: Signal::Disconnect, .. }]));
    let ce = m.route_message(Message::Text(b"4{\"message\":\"no\"}".to_vec())).unwrap();
    assert!(matches!(&ce[..], [Effect::Deliver { signal: Signal::ConnectError(_), .. }]));
}

#[test]
fn manager_turn_closes_engine_after_last_disconnect() {
    let mut m = Manager::new();
    let opened = m
        .turn(ManagerInput::Socket(Ns(b"/".to_vec(), Directive::Connect { payload: Vec::new() })))
        .unwrap();
    assert!(!opened.close);
    let connected = m.turn(ManagerInput::Engine(Message::Text(CONNECT_RESPONSE.to_vec()))).unwrap();
    assert!(!connected.close);
    let out = m.turn(ManagerInput::Socket(Ns(b"/".to_vec(), Directive::Disconnect))).unwrap();
    assert!(out.close);
    match &out.effects[..] {
        [Effect::Engine(Message::Text(t)), Effect::Engine(Message::Close)] => assert_eq!(&t[..], b"1"),
        other => panic!("unexpected effects {other:?}"),
    }
}

#[test]
fn manager_turn_engine_close_ends_session() {
    let mut m = Manager::new();
    m.turn(ManagerInput::Socket(Ns(b"/".to_vec(), Directive::Connect { payload: Vec::new() })))
        .unwrap();
    let out = m.turn(ManagerInput::Engine(Message::Close)).unwrap();
    assert!(out.close);
    assert!(matches!(&out.effects[..], [Effect::Engine(Message::Close)]));
}

#[test]
fn manager_connect_payload_error_releases_buffer() {
    let mut m = Manager::new();
    open_namespace(&mut m, "/");
    m.dispatch_directive(b"/".to_vec(), event(b"[\"a\"]", false)).unwrap();
    match m.route_message(Message::Text(b"0{\"nosid\":1}".to_vec())) {
        Err(ManagerError::Payload { ns, error, flushed }) => {
            assert_eq!(ns, b"/");
            assert_eq!(error.json.as_deref(), Some(&b"{\"nosid\":1}"[..]));
            assert!(matches!(&flushed[..], [Message::Text(t)] if t == b"2[\"a\"]"));
        }
        other => panic!("unexpected {other:?}"),
    }
    // the namespace counts as confirmed: later events go straight out
    let step = m.dispatch_directive(b"/".to_vec(), event(b"[\"b\"]", false)).unwrap();
    assert_eq!(engine_texts(&step.effects), vec![b"2[\"b\"]".to_vec()]);
    let bad = m.route_message(Message::Text(b"4{}".to_vec()));
    assert!(matches!(bad, Err(ManagerError::Payload { .. })));
}
