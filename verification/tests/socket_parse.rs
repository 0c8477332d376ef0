use sioc::socket::error::PacketError;
use sioc::socket::packet::{Ns, Packet};
use sioc::socket::parse::{
    hint_packet_size, namespace_size, split_attachments, split_id, split_namespace,
    write_attachments, write_data, write_id, write_namespace, write_packet,
};

fn decode(text: &[u8]) -> Result<Ns<Packet>, PacketError> {
    Ns::<Packet>::decode(text)
}

#[test]
fn parse_split_namespace_default() {
    let (ns, rest) = split_namespace(b"hello").unwrap();
    assert_eq!(ns, b"/");
    assert_eq!(&rest[..], b"hello");
}

#[test]
fn parse_split_namespace_custom() {
    let (ns, rest) = split_namespace(b"/chat,payload").unwrap();
    assert_eq!(ns, b"/chat");
    assert_eq!(&rest[..], b"payload");
}

#[test]
fn parse_split_namespace_missing_delimiter() {
    let err = split_namespace(b"/chat").unwrap_err();
    assert!(matches!(err, PacketError::MissingNamespaceDelimiter));
}

#[test]
fn parse_split_id_digits() {
    let (id, rest) = split_id(b"42[\"hello\"]").unwrap();
    assert_eq!(id, Some(42));
    assert_eq!(&rest[..], b"[\"hello\"]");
}

#[test]
fn parse_split_id_no_digits() {
    let data = b"[\"hello\"]";
    let (id, rest) = split_id(data).unwrap();
    assert!(id.is_none());
    assert_eq!(&rest[..], &data[..]);
}

#[test]
fn parse_split_id_overflow() {
    // u64::MAX + 1
    assert!(split_id(b"99999999999999999999999[\"hello\"]").is_err());
}

#[test]
fn parse_split_id_empty() {
    let (id, rest) = split_id(b"").unwrap();
    assert!(id.is_none());
    assert!(rest.is_empty());
}

#[test]
fn parse_split_attachments_valid() {
    let (count, rest) = split_attachments(b"3-payload").unwrap();
    assert_eq!(count, Some(3));
    assert_eq!(&rest[..], b"payload");
}

#[test]
fn parse_split_attachments_missing() {
    let data = b"payload";
    let (count, rest) = split_attachments(data).unwrap();
    assert!(count.is_none());
    assert_eq!(&rest[..], &data[..]);
}

#[test]
fn parse_split_attachments_non_digit_prefix() {
    let data = b"abc-payload";
    let (count, rest) = split_attachments(data).unwrap();
    assert!(count.is_none());
    assert_eq!(&rest[..], &data[..]);
}

#[test]
fn parse_split_attachments_namespace_with_hyphen() {
    let data = b"/admin-ns,[\"data\"]";
    let (count, rest) = split_attachments(data).unwrap();
    assert!(count.is_none());
    assert_eq!(&rest[..], &data[..]);
}

#[test]
fn parse_split_attachments_digits_without_dash() {
    let data = b"42[\"data\"]";
    let (count, rest) = split_attachments(data).unwrap();
    assert!(count.is_none());
    assert_eq!(&rest[..], &data[..]);
}

#[test]
fn parse_parse_connect_packet() {
    let ns_packet = decode(b"0").unwrap();
    assert_eq!(ns_packet.0, b"/");
    match ns_packet.1 {
        Packet::Connect(payload) => assert!(payload.is_empty()),
        _ => panic!("expected Connect"),
    }
}

#[test]
fn parse_connect_packet_with_payload() {
    let ns_packet = decode(b"0{\"sid\":\"abc\",\"token\":\"xyz\"}").unwrap();
    assert_eq!(ns_packet.0, b"/");
    match ns_packet.1 {
        Packet::Connect(payload) => {
            assert_eq!(&payload[..], b"{\"sid\":\"abc\",\"token\":\"xyz\"}");
        }
        _ => panic!("expected Connect"),
    }
}

#[test]
fn parse_connect_packet_custom_namespace() {
    let ns_packet = decode(b"0/admin,").unwrap();
    assert_eq!(ns_packet.0, b"/admin");
    assert!(matches!(ns_packet.1, Packet::Connect(_)));
}

#[test]
fn parse_parse_disconnect_packet() {
    let ns_packet = decode(b"1").unwrap();
    assert_eq!(ns_packet.0, b"/");
    assert!(matches!(ns_packet.1, Packet::Disconnect));
}

#[test]
fn parse_parse_event_packet() {
    let ns_packet = decode(b"2[\"hello\",\"world\"]").unwrap();
    assert_eq!(ns_packet.0, b"/");
    match ns_packet.1 {
        Packet::Event { payload, id } => {
            assert_eq!(&payload[..], b"[\"hello\",\"world\"]");
            assert!(id.is_none());
        }
        _ => panic!("expected Event"),
    }
}

#[test]
fn parse_parse_event_with_ack_id() {
    let ns_packet = decode(b"242[\"hello\"]").unwrap();
    match ns_packet.1 {
        Packet::Event { id, .. } => {
            assert_eq!(id, Some(42));
        }
        _ => panic!("expected Event"),
    }
}

#[test]
fn parse_parse_ack_packet() {
    let ns_packet = decode(b"37[\"ok\"]").unwrap();
    match ns_packet.1 {
        Packet::Ack { id, payload } => {
            assert_eq!(id, 7);
            assert_eq!(&payload[..], b"[\"ok\"]");
        }
        _ => panic!("expected Ack"),
    }
}

#[test]
fn parse_parse_connect_error_packet() {
    let ns_packet = decode(b"4{\"message\":\"forbidden\"}").unwrap();
    assert_eq!(ns_packet.0, b"/");
    match ns_packet.1 {
        Packet::ConnectError(payload) => {
            assert_eq!(&payload[..], b"{\"message\":\"forbidden\"}");
        }
        _ => panic!("expected ConnectError"),
    }
}

#[test]
fn parse_connect_error_with_extra_fields() {
    let ns_packet = decode(br#"4{"message":"bad","data":{"code":401}}"#).unwrap();
    assert_eq!(ns_packet.0, b"/");
    match ns_packet.1 {
        Packet::ConnectError(payload) => {
            assert!(payload.starts_with(b"{\"message\":"));
        }
        _ => panic!("expected ConnectError"),
    }
}

#[test]
fn parse_parse_binary_event_packet() {
    let ns_packet = decode(b"52-[\"bin\"]").unwrap();
    match ns_packet.1 {
        Packet::BinaryEvent { count, id, .. } => {
            assert_eq!(count, 2);
            assert!(id.is_none());
        }
        _ => panic!("expected Event (binary)"),
    }
}

#[test]
fn parse_parse_binary_ack_packet() {
    let ns_packet = decode(b"61-5[\"ok\"]").unwrap();
    match ns_packet.1 {
        Packet::BinaryAck { count, id, .. } => {
            assert_eq!(count, 1);
            assert_eq!(id, 5);
        }
        _ => panic!("expected Ack (binary)"),
    }
}

#[test]
fn parse_parse_unknown_packet_type() {
    assert!(matches!(decode(b"9").unwrap_err(), PacketError::InvalidId { id: b'9' }));
}

#[test]
fn parse_parse_empty_packet() {
    assert!(matches!(decode(b"").unwrap_err(), PacketError::Empty));
}

#[test]
fn parse_parse_event_with_custom_namespace() {
    let ns_packet = decode(b"2/chat,[\"msg\"]").unwrap();
    assert_eq!(ns_packet.0, b"/chat");
    assert!(matches!(ns_packet.1, Packet::Event { .. }));
}

#[test]
fn parse_parse_ack_missing_id() {
    assert!(matches!(decode(b"3[\"ok\"]").unwrap_err(), PacketError::MissingAckId));
}

#[test]
fn parse_parse_text_event_rejects_attachment_prefix() {
    assert!(matches!(
        decode(b"21-[\"oops\"]").unwrap_err(),
        PacketError::UnexpectedAttachments { count: 1 }
    ));
}

#[test]
fn parse_parse_event_with_hyphenated_namespace() {
    let ns_packet = decode(b"2/admin-ns,[\"msg\"]").unwrap();
    assert_eq!(ns_packet.0, b"/admin-ns");
    match ns_packet.1 {
        Packet::Event { payload, id } => {
            assert_eq!(&payload[..], b"[\"msg\"]");
            assert!(id.is_none());
        }
        _ => panic!("expected Event"),
    }
}

#[test]
fn parse_parse_binary_event_with_hyphenated_namespace() {
    let ns_packet = decode(b"51-/admin-ns,[\"bin\"]").unwrap();
    assert_eq!(ns_packet.0, b"/admin-ns");
    match ns_packet.1 {
        Packet::BinaryEvent { count, .. } => {
            assert_eq!(count, 1);
        }
        _ => panic!("expected binary Event"),
    }
}

#[test]
fn parse_parse_binary_event_missing_attachment_count() {
    assert!(matches!(decode(b"5[\"oops\"]").unwrap_err(), PacketError::MissingAttachmentCount));
}

#[test]
fn parse_parse_binary_ack_missing_attachment_count() {
    assert!(matches!(decode(b"65[\"ok\"]").unwrap_err(), PacketError::MissingAttachmentCount));
}

#[test]
fn parse_namespace_size_default() {
    assert_eq!(namespace_size(b"/"), 0);
}

#[test]
fn parse_namespace_size_custom() {
    // "/chat" is 5 chars + 1 comma = 6
    assert_eq!(namespace_size(b"/chat"), 6);
}

#[test]
fn parse_write_namespace_default_is_noop() {
    let mut buffer: Vec<u8> = Vec::new();
    write_namespace(&mut buffer, b"/");
    assert!(buffer.is_empty());
}

#[test]
fn parse_write_namespace_custom_appends_comma() {
    let mut buffer: Vec<u8> = Vec::new();
    write_namespace(&mut buffer, b"/chat");
    assert_eq!(&buffer[..], b"/chat,");
}

#[test]
fn parse_write_id_formats_decimal() {
    let mut buffer: Vec<u8> = Vec::new();
    write_id(&mut buffer, 42);
    assert_eq!(&buffer[..], b"42");
}

#[test]
fn parse_write_data_appends_bytes() {
    let mut buffer: Vec<u8> = Vec::new();
    write_data(&mut buffer, b"[\"hello\"]");
    assert_eq!(&buffer[..], b"[\"hello\"]");
}

#[test]
fn parse_write_attachments_formats_count_dash() {
    let mut buffer: Vec<u8> = Vec::new();
    write_attachments(&mut buffer, 3);
    assert_eq!(&buffer[..], b"3-");
}

// ---- codec laws on concrete values ----

#[test]
fn socket_encode_decode_roundtrip() {
    let packets = vec![
        Packet::Connect(b"{\"token\":1}".to_vec()),
        Packet::Disconnect,
        Packet::Event { payload: b"[\"a\"]".to_vec(), id: Some(9) },
        Packet::Ack { payload: b"[]".to_vec(), id: 0 },
        Packet::ConnectError(b"{\"message\":\"no\"}".to_vec()),
        Packet::BinaryEvent { payload: b"[{\"_placeholder\":true,\"num\":0}]".to_vec(), id: None, count: 1 },
        Packet::BinaryAck { payload: b"[]".to_vec(), id: 12, count: 3 },
    ];
    for p in packets {
        for ns in [&b"/"[..], &b"/admin-ns"[..]] {
            let text = p.encode(ns);
            let back = decode(&text).unwrap();
            assert_eq!(back.0, ns);
            assert_eq!(back.1.encode(ns), text);
            assert!(text.len() <= p.size_hint(ns));
        }
    }
}

#[test]
fn socket_encode_exact_text() {
    let p = Packet::BinaryEvent { payload: b"[\"x\"]".to_vec(), id: Some(4), count: 2 };
    assert_eq!(p.encode(b"/chat"), b"52-/chat,4[\"x\"]");
    assert_eq!(Ns(b"/".to_vec(), Packet::Disconnect).encode(), b"1");
}

#[test]
fn socket_size_hint_formula() {
    assert_eq!(hint_packet_size(b"/", false, false, None), 1);
    assert_eq!(hint_packet_size(b"/chat", true, true, Some(b"[]")), 1 + 6 + 20 + 21 + 2);
}

#[test]
fn socket_write_packet_all_fields() {
    let mut buffer: Vec<u8> = Vec::new();
    write_packet(&mut buffer, b'6', Some(1), b"/", Some(5), Some(b"[\"ok\"]"));
    assert_eq!(&buffer[..], b"61-5[\"ok\"]");
}

#[test]
fn socket_attachment_count_overflow() {
    assert!(matches!(
        split_attachments(b"99999999999999999999999-x"),
        Err(PacketError::InvalidAttachmentCount)
    ));
}

#[test]
fn socket_write_packet_type_as_character() {
    let mut buffer: Vec<u8> = Vec::new();
    write_packet(&mut buffer, 200, None, b"/", None, None);
    assert_eq!(buffer, "\u{c8}".as_bytes());
    let mut ascii: Vec<u8> = Vec::new();
    write_packet(&mut ascii, b'2', None, b"/", None, Some(b"[]"));
    assert_eq!(&ascii[..], b"2[]");
}
