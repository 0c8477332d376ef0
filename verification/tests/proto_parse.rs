use sioc::proto::error::ParseError;
use sioc::proto::packet::{Command, Ns, SioPacket};
use sioc::proto::parse::{
    namespace_size, packet_size_hint, parse_id, split_attachments, split_id, split_namespace,
    write_attachments, write_data, write_id, write_namespace, write_packet,
};

fn decode(text: &[u8]) -> Result<Ns<SioPacket>, ParseError> {
    Ns::<SioPacket>::decode(text)
}

fn extra_value<'a>(extra: &'a [(String, Vec<u8>)], key: &str) -> Option<&'a [u8]> {
    extra.iter().find(|(k, _)| k == key).map(|(_, v)| v.as_slice())
}

#[test]
fn split_namespace_default() {
    let mut data = b"hello".to_vec();
    let ns = split_namespace(&mut data).unwrap();
    assert_eq!(ns, "/");
    assert_eq!(&data[..], b"hello");
}

#[test]
fn split_namespace_custom() {
    let mut data = b"/chat,payload".to_vec();
    let ns = split_namespace(&mut data).unwrap();
    assert_eq!(ns, "/chat");
    assert_eq!(&data[..], b"payload");
}

#[test]
fn split_namespace_missing_delimiter() {
    let mut data = b"/chat".to_vec();
    let err = split_namespace(&mut data).unwrap_err();
    assert!(matches!(err, ParseError::MissingNamespaceDelimiter));
}

#[test]
fn split_id_digits() {
    let mut data = b"42[\"hello\"]".to_vec();
    let id = split_id(&mut data).unwrap().unwrap();
    assert_eq!(id, 42);
    assert_eq!(&data[..], b"[\"hello\"]");
}

#[test]
fn split_id_no_digits() {
    let mut data = b"[\"hello\"]".to_vec();
    assert!(split_id(&mut data).is_none());
}

#[test]
fn split_id_overflow() {
    // u64::MAX + 1
    let mut data = b"99999999999999999999999[\"hello\"]".to_vec();
    let result = split_id(&mut data).unwrap();
    assert!(result.is_err());
}

#[test]
fn split_id_empty() {
    let mut data: Vec<u8> = Vec::new();
    assert!(split_id(&mut data).is_none());
}

#[test]
fn split_attachments_valid() {
    let mut data = b"3-payload".to_vec();
    let count = split_attachments(&mut data).unwrap().unwrap();
    assert_eq!(count, 3);
    assert_eq!(&data[..], b"payload");
}

#[test]
fn split_attachments_missing() {
    let mut data = b"payload".to_vec();
    assert!(split_attachments(&mut data).is_none());
}

#[test]
fn split_attachments_non_digit_prefix() {
    let mut data = b"abc-payload".to_vec();
    assert!(split_attachments(&mut data).is_none());
    assert_eq!(&data[..], b"abc-payload");
}

#[test]
fn split_attachments_namespace_with_hyphen() {
    let mut data = b"/admin-ns,[\"data\"]".to_vec();
    assert!(split_attachments(&mut data).is_none());
    assert_eq!(&data[..], b"/admin-ns,[\"data\"]");
}

#[test]
fn split_attachments_digits_without_dash() {
    let mut data = b"42[\"data\"]".to_vec();
    assert!(split_attachments(&mut data).is_none());
    assert_eq!(&data[..], b"42[\"data\"]");
}

#[test]
fn parse_connect_packet() {
    let ns_packet = decode(b"0{\"sid\":\"abc\"}").unwrap();
    assert_eq!(ns_packet.0, "/");
    match ns_packet.1 {
        SioPacket::Connect(c) => {
            assert_eq!(c.sid, "abc");
            assert!(c.extra.is_empty());
        }
        _ => panic!("expected Connect"),
    }
}

#[test]
fn parse_connect_packet_with_extra_fields() {
    let ns_packet = decode(br#"0{"sid":"abc","pid":"xyz","offset":"val"}"#).unwrap();
    match ns_packet.1 {
        SioPacket::Connect(c) => {
            assert_eq!(c.sid, "abc");
            assert_eq!(extra_value(&c.extra, "pid"), Some(&b"\"xyz\""[..]));
            assert_eq!(extra_value(&c.extra, "offset"), Some(&b"\"val\""[..]));
        }
        _ => panic!("expected Connect"),
    }
}

#[test]
fn parse_disconnect_packet() {
    let ns_packet = decode(b"1").unwrap();
    assert_eq!(ns_packet.0, "/");
    assert!(matches!(ns_packet.1, SioPacket::Disconnect));
}

#[test]
fn parse_event_packet() {
    let ns_packet = decode(b"2[\"hello\",\"world\"]").unwrap();
    assert_eq!(ns_packet.0, "/");
    match ns_packet.1 {
        SioPacket::Event { data, id, count } => {
            assert_eq!(&data[..], b"[\"hello\",\"world\"]");
            assert!(id.is_none());
            assert!(count.is_none());
        }
        _ => panic!("expected Event"),
    }
}

#[test]
fn parse_event_with_ack_id() {
    let ns_packet = decode(b"242[\"hello\"]").unwrap();
    match ns_packet.1 {
        SioPacket::Event { id, count, .. } => {
            assert_eq!(id, Some(42));
            assert!(count.is_none());
        }
        _ => panic!("expected Event"),
    }
}

#[test]
fn parse_ack_packet() {
    let ns_packet = decode(b"37[\"ok\"]").unwrap();
    match ns_packet.1 {
        SioPacket::Ack { id, data, count } => {
            assert_eq!(id, 7);
            assert_eq!(&data[..], b"[\"ok\"]");
            assert!(count.is_none());
        }
        _ => panic!("expected Ack"),
    }
}

#[test]
fn parse_connect_error_packet() {
    let ns_packet = decode(b"4{\"message\":\"forbidden\"}").unwrap();
    match ns_packet.1 {
        SioPacket::ConnectError(e) => {
            assert_eq!(e.message, "forbidden");
            assert!(e.extra.is_empty());
        }
        _ => panic!("expected ConnectError"),
    }
}

#[test]
fn parse_connect_error_with_data() {
    let ns_packet = decode(br#"4{"message":"bad","data":{"code":401}}"#).unwrap();
    match ns_packet.1 {
        SioPacket::ConnectError(e) => {
            assert_eq!(e.message, "bad");
            let data = extra_value(&e.extra, "data").unwrap();
            let value: serde_json::Value = serde_json::from_slice(data).unwrap();
            assert_eq!(value["code"], 401);
        }
        _ => panic!("expected ConnectError"),
    }
}

#[test]
fn parse_binary_event_packet() {
    let ns_packet = decode(b"52-[\"bin\"]").unwrap();
    match ns_packet.1 {
        SioPacket::Event { count, id, .. } => {
            assert_eq!(count, Some(2));
            assert!(id.is_none());
        }
        _ => panic!("expected Event (binary)"),
    }
}

#[test]
fn parse_binary_ack_packet() {
    let ns_packet = decode(b"61-5[\"ok\"]").unwrap();
    match ns_packet.1 {
        SioPacket::Ack { count, id, .. } => {
            assert_eq!(count, Some(1));
            assert_eq!(id, 5);
        }
        _ => panic!("expected Ack (binary)"),
    }
}

#[test]
fn parse_unknown_packet_type() {
    let err = decode(b"9");
    assert!(matches!(
        err.unwrap_err(),
        ParseError::UnknownPacketType { byte: b'9' }
    ));
}

#[test]
fn parse_empty_packet() {
    let err = decode(b"");
    assert!(matches!(err.unwrap_err(), ParseError::EmptyPacket));
}

#[test]
fn parse_event_with_custom_namespace() {
    let ns_packet = decode(b"2/chat,[\"msg\"]").unwrap();
    assert_eq!(ns_packet.0, "/chat");
    assert!(matches!(ns_packet.1, SioPacket::Event { .. }));
}

#[test]
fn parse_ack_missing_id() {
    let err = decode(b"3[\"ok\"]");
    assert!(matches!(err.unwrap_err(), ParseError::MissingAckId));
}

#[test]
fn parse_text_event_rejects_attachment_prefix() {
    let err = decode(b"21-[\"oops\"]");
    assert!(matches!(
        err.unwrap_err(),
        ParseError::UnexpectedAttachments { count: 1 }
    ));
}

#[test]
fn parse_event_with_hyphenated_namespace() {
    let ns_packet = decode(b"2/admin-ns,[\"msg\"]").unwrap();
    assert_eq!(ns_packet.0, "/admin-ns");
    match ns_packet.1 {
        SioPacket::Event { data, id, count } => {
            assert_eq!(&data[..], b"[\"msg\"]");
            assert!(id.is_none());
            assert!(count.is_none());
        }
        _ => panic!("expected Event"),
    }
}

#[test]
fn parse_binary_event_with_hyphenated_namespace() {
    let ns_packet = decode(b"51-/admin-ns,[\"bin\"]").unwrap();
    assert_eq!(ns_packet.0, "/admin-ns");
    match ns_packet.1 {
        SioPacket::Event { count, .. } => {
            assert_eq!(count, Some(1));
        }
        _ => panic!("expected binary Event"),
    }
}

#[test]
fn parse_binary_event_missing_attachment_count() {
    let err = decode(b"5[\"oops\"]");
    assert!(matches!(err.unwrap_err(), ParseError::MissingAttachmentCount));
}

#[test]
fn parse_binary_ack_missing_attachment_count() {
    let err = decode(b"65[\"ok\"]");
    assert!(matches!(err.unwrap_err(), ParseError::MissingAttachmentCount));
}

#[test]
fn namespace_size_default() {
    assert_eq!(namespace_size("/"), 0);
}

#[test]
fn namespace_size_custom() {
    // "/chat" is 5 chars + 1 comma = 6
    assert_eq!(namespace_size("/chat"), 6);
}

#[test]
fn write_namespace_default_is_noop() {
    let mut buf: Vec<u8> = Vec::new();
    write_namespace(&mut buf, "/");
    assert!(buf.is_empty());
}

#[test]
fn write_namespace_custom_appends_comma() {
    let mut buf: Vec<u8> = Vec::new();
    write_namespace(&mut buf, "/chat");
    assert_eq!(&buf[..], b"/chat,");
}

#[test]
fn write_id_formats_decimal() {
    let mut buf: Vec<u8> = Vec::new();
    write_id(&mut buf, 42);
    assert_eq!(&buf[..], b"42");
}

#[test]
fn write_data_appends_bytes() {
    let mut buf: Vec<u8> = Vec::new();
    write_data(&mut buf, b"[\"hello\"]");
    assert_eq!(&buf[..], b"[\"hello\"]");
}

#[test]
fn write_attachments_formats_count_dash() {
    let mut buf: Vec<u8> = Vec::new();
    write_attachments(&mut buf, 3);
    assert_eq!(&buf[..], b"3-");
}

// ---- further cases of the byte-level layer ----

#[test]
fn proto_connect_without_sid_is_payload_error() {
    assert!(matches!(decode(b"0{\"pid\":\"x\"}"), Err(ParseError::Payload(_))));
    assert!(matches!(decode(b"0not json"), Err(ParseError::Payload(_))));
    assert!(matches!(decode(b"0{\"sid\":5}"), Err(ParseError::Payload(_))));
}

#[test]
fn proto_connect_error_without_message_is_payload_error() {
    assert!(matches!(decode(b"4{\"code\":1}"), Err(ParseError::Payload(_))));
}

#[test]
fn proto_namespace_must_be_utf8() {
    let mut data = vec![b'/', 0xff, b',', b'x'];
    assert!(matches!(split_namespace(&mut data), Err(ParseError::Utf8)));
    assert_eq!(data, vec![b'/', 0xff, b',', b'x']);
    assert!(matches!(decode(&[b'1', b'/', 0xc3, b',']), Err(ParseError::Utf8)));
}

#[test]
fn proto_split_id_consumes_digits_even_on_overflow() {
    let mut data = b"99999999999999999999x".to_vec();
    assert!(matches!(split_id(&mut data), Some(Err(ParseError::InvalidAckId))));
    assert_eq!(&data[..], b"x");
}

#[test]
fn proto_split_id_all_digits() {
    let mut data = b"123".to_vec();
    assert_eq!(split_id(&mut data).unwrap().unwrap(), 123);
    assert!(data.is_empty());
}

#[test]
fn proto_parse_id_follows_str_parse() {
    assert_eq!(parse_id(b"18446744073709551615").unwrap(), u64::MAX);
    assert!(matches!(parse_id(b"18446744073709551616"), Err(ParseError::InvalidAckId)));
    assert_eq!(parse_id(b"+7").unwrap(), 7);
    assert!(matches!(parse_id(b""), Err(ParseError::InvalidAckId)));
    assert!(matches!(parse_id(b"+"), Err(ParseError::InvalidAckId)));
    assert!(matches!(parse_id(b"-1"), Err(ParseError::InvalidAckId)));
    assert!(matches!(parse_id(&[0xff]), Err(ParseError::Utf8)));
}

#[test]
fn proto_split_attachments_overflow_keeps_data() {
    let mut data = b"99999999999999999999999-[]".to_vec();
    assert!(matches!(
        split_attachments(&mut data),
        Some(Err(ParseError::InvalidAttachmentCount))
    ));
    assert_eq!(&data[..], b"99999999999999999999999-[]");
}

#[test]
fn proto_write_packet_fields_in_order() {
    let mut buf: Vec<u8> = Vec::new();
    write_packet(&mut buf, b'6', Some(2), "/chat", Some(17), Some(b"[\"ok\"]"));
    assert_eq!(&buf[..], b"62-/chat,17[\"ok\"]");
    let decoded = decode(&buf).unwrap();
    assert_eq!(decoded.0, "/chat");
    match decoded.1 {
        SioPacket::Ack { data, id, count } => {
            assert_eq!(&data[..], b"[\"ok\"]");
            assert_eq!(id, 17);
            assert_eq!(count, Some(2));
        }
        _ => panic!("expected binary Ack"),
    }
}

#[test]
fn proto_packet_size_hint_formula() {
    assert_eq!(packet_size_hint("/", false, false, None), 1);
    assert_eq!(packet_size_hint("/chat", true, true, Some(b"[1]")), 1 + 6 + 20 + 21 + 3);
}

#[test]
fn proto_command_type_ids() {
    assert_eq!(Command::Connect { data: None }.type_id(), b'0');
    assert_eq!(Command::Disconnect.type_id(), b'1');
    let event = Command::Event { data: b"[]".to_vec(), ack: false, attachments: None };
    assert_eq!(event.type_id(), b'2');
    let binary = Command::Event { data: b"[]".to_vec(), ack: true, attachments: Some(vec![vec![1]]) };
    assert_eq!(binary.type_id(), b'5');
    let ack = Command::Ack { data: b"[]".to_vec(), id: 3, attachments: None };
    assert_eq!(ack.type_id(), b'3');
    let binary_ack = Command::Ack { data: b"[]".to_vec(), id: 3, attachments: Some(Vec::new()) };
    assert_eq!(binary_ack.type_id(), b'6');
}

#[test]
fn proto_command_size_hint_bounds_frame() {
    let ack = Command::Ack { data: b"[\"ok\"]".to_vec(), id: u64::MAX, attachments: Some(vec![vec![0]]) };
    let hint = ack.size_hint("/chat");
    let mut buf: Vec<u8> = Vec::new();
    write_packet(&mut buf, ack.type_id(), Some(usize::MAX), "/chat", Some(u64::MAX), Some(b"[\"ok\"]"));
    assert!(buf.len() <= hint);
    let event = Command::Event { data: b"[1]".to_vec(), ack: true, attachments: None };
    assert_eq!(event.size_hint("/"), 1 + 20 + 3);
}

#[test]
fn proto_payload_error_carries_json_text() {
    match decode(b"0{\"pid\":1}") {
        Err(ParseError::Payload(e)) => assert_eq!(e.json.as_deref(), Some(&b"{\"pid\":1}"[..])),
        other => panic!("unexpected {other:?}"),
    }
}

#[test]
fn proto_write_packet_type_byte_raw() {
    let mut buf: Vec<u8> = Vec::new();
    write_packet(&mut buf, 200, None, "/", None, None);
    assert_eq!(buf, vec![200u8]);
}
