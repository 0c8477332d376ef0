use serde::de::DeserializeOwned;
use serde::Serialize;
use sioc::event::{deserialize_event, event_name, from_event, serialize_event, Event, EventError, Trailing};

// ---- typed events, written as the derives would expand them ----

fn field<T: Serialize>(value: &T) -> Vec<u8> {
    serde_json::to_vec(value).unwrap()
}

fn read<T: DeserializeOwned>(text: &[u8]) -> Result<T, EventError> {
    serde_json::from_slice(text).map_err(|_| EventError::Json)
}

/// An event type of the current wire format: a name, field texts, and how
/// trailing elements are treated.
trait Wire: Sized {
    const EXPLICIT: Option<&'static str>;
    const IDENT: &'static str;
    const FIELDS: usize;
    const TRAILING: Trailing;
    fn fields(&self) -> Vec<Vec<u8>>;
    fn from_fields(fields: Vec<Vec<u8>>) -> Result<Self, EventError>;
    fn name() -> String {
        event_name(Self::EXPLICIT, Self::IDENT)
    }
}

fn serialize<E: Wire>(value: &E) -> Result<Vec<u8>, EventError> {
    serialize_event(&E::name(), &value.fields())
}

fn deserialize<E: Wire>(payload: &[u8]) -> Result<E, EventError> {
    let fields = deserialize_event(payload, &E::name(), E::FIELDS, E::TRAILING)?;
    E::from_fields(fields)
}

fn roundtrip<E: Wire + PartialEq + std::fmt::Debug>(value: E) {
    let bytes = serialize(&value).unwrap();
    assert_eq!(deserialize::<E>(&bytes).unwrap(), value);
}

#[derive(Debug, PartialEq)]
struct Ping;

impl Wire for Ping {
    const EXPLICIT: Option<&'static str> = None;
    const IDENT: &'static str = "Ping";
    const FIELDS: usize = 0;
    const TRAILING: Trailing = Trailing::Discard;
    fn fields(&self) -> Vec<Vec<u8>> {
        Vec::new()
    }
    fn from_fields(_: Vec<Vec<u8>>) -> Result<Self, EventError> {
        Ok(Ping)
    }
}

#[derive(Debug, PartialEq)]
struct Moved(i32, i32);

impl Wire for Moved {
    const EXPLICIT: Option<&'static str> = None;
    const IDENT: &'static str = "Moved";
    const FIELDS: usize = 2;
    const TRAILING: Trailing = Trailing::Discard;
    fn fields(&self) -> Vec<Vec<u8>> {
        vec![field(&self.0), field(&self.1)]
    }
    fn from_fields(f: Vec<Vec<u8>>) -> Result<Self, EventError> {
        Ok(Moved(read(&f[0])?, read(&f[1])?))
    }
}

#[derive(Debug, PartialEq)]
struct Join {
    room: String,
    user: String,
}

impl Wire for Join {
    const EXPLICIT: Option<&'static str> = None;
    const IDENT: &'static str = "Join";
    const FIELDS: usize = 2;
    const TRAILING: Trailing = Trailing::Discard;
    fn fields(&self) -> Vec<Vec<u8>> {
        vec![field(&self.room), field(&self.user)]
    }
    fn from_fields(f: Vec<Vec<u8>>) -> Result<Self, EventError> {
        Ok(Join { room: read(&f[0])?, user: read(&f[1])? })
    }
}

/// Implicit name resolves to "auto_name".
#[derive(Debug, PartialEq)]
struct AutoName;

impl Wire for AutoName {
    const EXPLICIT: Option<&'static str> = None;
    const IDENT: &'static str = "AutoName";
    const FIELDS: usize = 0;
    const TRAILING: Trailing = Trailing::Discard;
    fn fields(&self) -> Vec<Vec<u8>> {
        Vec::new()
    }
    fn from_fields(_: Vec<Vec<u8>>) -> Result<Self, EventError> {
        Ok(AutoName)
    }
}

#[derive(Debug, PartialEq)]
struct Payload<T> {
    value: T,
}

impl<T: Serialize + DeserializeOwned> Wire for Payload<T> {
    const EXPLICIT: Option<&'static str> = None;
    const IDENT: &'static str = "Payload";
    const FIELDS: usize = 1;
    const TRAILING: Trailing = Trailing::Discard;
    fn fields(&self) -> Vec<Vec<u8>> {
        vec![field(&self.value)]
    }
    fn from_fields(f: Vec<Vec<u8>>) -> Result<Self, EventError> {
        Ok(Payload { value: read(&f[0])? })
    }
}

/// Strict: rejects trailing elements.
#[derive(Debug, PartialEq)]
struct Chat(String);

impl Wire for Chat {
    const EXPLICIT: Option<&'static str> = None;
    const IDENT: &'static str = "Chat";
    const FIELDS: usize = 1;
    const TRAILING: Trailing = Trailing::Strict;
    fn fields(&self) -> Vec<Vec<u8>> {
        vec![field(&self.0)]
    }
    fn from_fields(f: Vec<Vec<u8>>) -> Result<Self, EventError> {
        Ok(Chat(read(&f[0])?))
    }
}

/// Flatten: collects trailing elements into `tags`.
#[derive(Debug, PartialEq)]
struct Stream {
    id: String,
    tags: Vec<serde_json::Value>,
}

impl Wire for Stream {
    const EXPLICIT: Option<&'static str> = None;
    const IDENT: &'static str = "Stream";
    const FIELDS: usize = 1;
    const TRAILING: Trailing = Trailing::Collect;
    fn fields(&self) -> Vec<Vec<u8>> {
        let mut f = vec![field(&self.id)];
        f.extend(self.tags.iter().map(field));
        f
    }
    fn from_fields(f: Vec<Vec<u8>>) -> Result<Self, EventError> {
        let id = read(&f[0])?;
        let tags = f[1..].iter().map(|t| read(t)).collect::<Result<Vec<_>, _>>()?;
        Ok(Stream { id, tags })
    }
}

#[test]
fn name_explicit() {
    assert_eq!(Ping::name(), "ping");
    assert_eq!(Moved::name(), "moved");
    assert_eq!(Join::name(), "join");
}

#[test]
fn name_implicit() {
    assert_eq!(AutoName::name(), "auto_name");
}

#[test]
fn wire_unit() {
    assert_eq!(serialize(&Ping).unwrap(), b"[\"ping\"]");
}

#[test]
fn wire_tuple() {
    assert_eq!(serialize(&Moved(3, -7)).unwrap(), b"[\"moved\",3,-7]");
}

#[test]
fn wire_named() {
    assert_eq!(
        serialize(&Join { room: "lobby".into(), user: "alice".into() }).unwrap(),
        b"[\"join\",\"lobby\",\"alice\"]",
    );
}

#[test]
fn roundtrip_unit() {
    roundtrip(Ping);
}

#[test]
fn roundtrip_tuple() {
    roundtrip(Moved(-1, 99));
}

#[test]
fn roundtrip_named() {
    roundtrip(Join { room: "general".into(), user: "bob".into() });
}

#[test]
fn roundtrip_implicit_name() {
    roundtrip(AutoName);
}

#[test]
fn roundtrip_generic() {
    roundtrip(Payload { value: "sioc".to_string() });
}

#[test]
fn wrong_name_fails() {
    assert!(deserialize::<Ping>(b"[\"pong\"]").is_err());
}

#[test]
fn strict_rejects_trailing() {
    assert!(deserialize::<Chat>(b"[\"chat\",\"hi\",null]").is_err());
}

#[test]
fn flexible_discards_trailing() {
    assert_eq!(deserialize::<Ping>(b"[\"ping\",null,42]").unwrap(), Ping);
}

#[test]
fn flatten_collects() {
    let evt = deserialize::<Stream>(b"[\"stream\",\"s1\",\"rock\",\"jazz\"]").unwrap();
    assert_eq!(
        evt,
        Stream {
            id: "s1".into(),
            tags: vec![serde_json::Value::from("rock"), serde_json::Value::from("jazz")]
        }
    );
}

#[test]
fn flatten_roundtrip() {
    roundtrip(Stream { id: "s1".into(), tags: vec![serde_json::Value::from(42)] });
}

// ---- events implementing the library's `Event` trait ----

#[derive(Debug, PartialEq)]
enum TestEvents {
    Ping,
    Message(String),
    Complex { a: i32, b: String },
}

fn strict<E>(payload: &[u8], name: &str, n: usize, make: impl FnOnce(Vec<Vec<u8>>) -> Result<E, EventError>) -> Result<E, EventError> {
    make(deserialize_event(payload, name, n, Trailing::Strict)?)
}

impl Event for TestEvents {
    fn name(&self) -> String {
        let explicit = match self {
            TestEvents::Ping => "ping",
            TestEvents::Message(..) => "message",
            TestEvents::Complex { .. } => "complex",
        };
        event_name(Some(explicit), "TestEvents")
    }

    fn to_payload(&self) -> Result<Vec<u8>, EventError> {
        let fields = match self {
            TestEvents::Ping => Vec::new(),
            TestEvents::Message(m) => vec![field(m)],
            TestEvents::Complex { a, b } => vec![field(a), field(b)],
        };
        serialize_event(&self.name(), &fields)
    }

    fn from_payload(payload: &[u8]) -> Result<Self, EventError> {
        let attempts: [(&str, usize); 3] = [("ping", 0), ("message", 1), ("complex", 2)];
        for (name, n) in attempts {
            match deserialize_event(payload, name, n, Trailing::Strict) {
                Err(EventError::WrongName { .. }) => continue,
                Err(e) => return Err(e),
                Ok(f) => {
                    return match name {
                        "ping" => Ok(TestEvents::Ping),
                        "message" => Ok(TestEvents::Message(read(&f[0])?)),
                        _ => Ok(TestEvents::Complex { a: read(&f[0])?, b: read(&f[1])? }),
                    }
                }
            }
        }
        Err(EventError::Json)
    }
}

#[derive(Debug, PartialEq)]
struct UnitStruct;

impl Event for UnitStruct {
    fn name(&self) -> String {
        event_name(Some("struct_unit"), "UnitStruct")
    }
    fn to_payload(&self) -> Result<Vec<u8>, EventError> {
        serialize_event(&self.name(), &[])
    }
    fn from_payload(payload: &[u8]) -> Result<Self, EventError> {
        strict(payload, "struct_unit", 0, |_| Ok(UnitStruct))
    }
}

#[derive(Debug, PartialEq)]
struct MyWrapper(String, i32);

impl Event for MyWrapper {
    fn name(&self) -> String {
        event_name(Some("new_type"), "MyWrapper")
    }
    fn to_payload(&self) -> Result<Vec<u8>, EventError> {
        serialize_event(&self.name(), &[field(&self.0), field(&self.1)])
    }
    fn from_payload(payload: &[u8]) -> Result<Self, EventError> {
        strict(payload, "new_type", 2, |f| Ok(MyWrapper(read(&f[0])?, read(&f[1])?)))
    }
}

#[derive(Debug, PartialEq)]
struct MyStruct {
    foo: String,
    bar: i32,
}

impl Event for MyStruct {
    fn name(&self) -> String {
        event_name(Some("struct_event"), "MyStruct")
    }
    fn to_payload(&self) -> Result<Vec<u8>, EventError> {
        serialize_event(&self.name(), &[field(&self.foo), field(&self.bar)])
    }
    fn from_payload(payload: &[u8]) -> Result<Self, EventError> {
        strict(payload, "struct_event", 2, |f| Ok(MyStruct { foo: read(&f[0])?, bar: read(&f[1])? }))
    }
}

#[test]
fn test_ping_event() {
    let evt = TestEvents::Ping;
    assert_eq!(evt.name(), "ping");
    assert_eq!(evt.to_payload().unwrap().as_slice(), b"[\"ping\"]");
}

#[test]
fn test_message_event() {
    let msg = TestEvents::Message("hello".to_string());
    assert_eq!(msg.name(), "message");
    assert_eq!(msg.to_payload().unwrap().as_slice(), b"[\"message\",\"hello\"]");
}

#[test]
fn test_complex_event() {
    let complex = TestEvents::Complex { a: 42, b: "test".into() };
    assert_eq!(complex.name(), "complex");
    // Strictly Flattened: ["complex", 42, "test"]
    assert_eq!(complex.to_payload().unwrap().as_slice(), b"[\"complex\",42,\"test\"]");
}

#[test]
fn test_unit_struct() {
    let evt = UnitStruct;
    assert_eq!(evt.name(), "struct_unit");
    assert_eq!(evt.to_payload().unwrap().as_slice(), b"[\"struct_unit\"]");
}

#[test]
fn test_wrapper_event() {
    let w = MyWrapper("inner".into(), 99);
    assert_eq!(w.name(), "new_type");
    assert_eq!(w.to_payload().unwrap().as_slice(), b"[\"new_type\",\"inner\",99]");
}

#[test]
fn test_struct_event() {
    let s = MyStruct { foo: "a".into(), bar: 1 };
    assert_eq!(s.name(), "struct_event");
    // Strictly Flattened: ["struct_event", "a", 1]
    assert_eq!(s.to_payload().unwrap().as_slice(), b"[\"struct_event\",\"a\",1]");
}

#[test]
fn test_output_verification() {
    let ping_json = String::from_utf8(TestEvents::Ping.to_payload().unwrap()).unwrap();
    assert_eq!(ping_json, r#"["ping"]"#);

    let message = TestEvents::Message("hello".into());
    let message_json = String::from_utf8(message.to_payload().unwrap()).unwrap();
    assert_eq!(message_json, r#"["message","hello"]"#);

    let complex = TestEvents::Complex { a: 42, b: "test".into() };
    let complex_json = String::from_utf8(complex.to_payload().unwrap()).unwrap();
    assert_eq!(complex_json, r#"["complex",42,"test"]"#);

    let unit_json = String::from_utf8(UnitStruct.to_payload().unwrap()).unwrap();
    assert_eq!(unit_json, r#"["struct_unit"]"#);

    let wrapper = MyWrapper("inner".into(), 99);
    let wrapper_json = String::from_utf8(wrapper.to_payload().unwrap()).unwrap();
    assert_eq!(wrapper_json, r#"["new_type","inner",99]"#);

    let my_struct = MyStruct { foo: "a".into(), bar: 1 };
    let struct_json = String::from_utf8(my_struct.to_payload().unwrap()).unwrap();
    assert_eq!(struct_json, r#"["struct_event","a",1]"#);
}

#[test]
fn test_ping_serialize() {
    assert_eq!(TestEvents::Ping.to_payload().unwrap(), b"[\"ping\"]");
}

#[test]
fn test_message_serialize() {
    let msg = TestEvents::Message("hello".to_string());
    assert_eq!(msg.to_payload().unwrap(), b"[\"message\",\"hello\"]");
}

#[test]
fn test_complex_serialize() {
    let evt = TestEvents::Complex { a: 42, b: "test".into() };
    assert_eq!(evt.to_payload().unwrap(), b"[\"complex\",42,\"test\"]");
}

#[test]
fn test_unit_struct_serialize() {
    assert_eq!(UnitStruct.to_payload().unwrap(), b"[\"struct_unit\"]");
}

#[test]
fn test_wrapper_serialize() {
    let w = MyWrapper("inner".into(), 99);
    assert_eq!(w.to_payload().unwrap(), b"[\"new_type\",\"inner\",99]");
}

#[test]
fn test_struct_serialize() {
    let s = MyStruct { foo: "a".into(), bar: 1 };
    assert_eq!(s.to_payload().unwrap(), b"[\"struct_event\",\"a\",1]");
}

#[test]
fn test_ping_deserialize() {
    let evt = TestEvents::from_payload(b"[\"ping\"]").unwrap();
    assert_eq!(evt, TestEvents::Ping);
}

#[test]
fn test_message_deserialize() {
    let evt = TestEvents::from_payload(b"[\"message\",\"hello\"]").unwrap();
    assert_eq!(evt, TestEvents::Message("hello".into()));
}

#[test]
fn test_complex_deserialize() {
    let evt = TestEvents::from_payload(b"[\"complex\",42,\"test\"]").unwrap();
    assert_eq!(evt, TestEvents::Complex { a: 42, b: "test".into() });
}

#[test]
fn test_unit_struct_deserialize() {
    let evt: UnitStruct = from_event(b"[\"struct_unit\"]").unwrap();
    assert_eq!(evt, UnitStruct);
}

#[test]
fn test_wrapper_deserialize() {
    let evt = MyWrapper::from_payload(b"[\"new_type\",\"inner\",99]").unwrap();
    assert_eq!(evt, MyWrapper("inner".into(), 99));
}

#[test]
fn test_struct_deserialize() {
    let evt: MyStruct = from_event(b"[\"struct_event\",\"a\",1]").unwrap();
    assert_eq!(evt, MyStruct { foo: "a".into(), bar: 1 });
}

// ---- the wire format's error cases ----

#[test]
fn event_wire_errors() {
    assert!(matches!(deserialize_event(b"{}", "x", 0, Trailing::Strict), Err(EventError::Json)));
    assert!(matches!(deserialize_event(b"[]", "x", 0, Trailing::Strict), Err(EventError::EmptyArray)));
    assert!(matches!(deserialize_event(b"[1]", "x", 0, Trailing::Strict), Err(EventError::NameNotString)));
    match deserialize_event(b"[\"y\"]", "x", 0, Trailing::Strict) {
        Err(EventError::WrongName { expected, found }) => {
            assert_eq!(expected, "x");
            assert_eq!(found, "y");
        }
        other => panic!("unexpected {other:?}"),
    }
    assert!(matches!(
        deserialize_event(b"[\"x\",1]", "x", 2, Trailing::Discard),
        Err(EventError::MissingElements { expected: 2, found: 1 })
    ));
    assert!(matches!(
        deserialize_event(b"[\"x\",1,2]", "x", 1, Trailing::Strict),
        Err(EventError::TrailingElements { expected: 1, found: 2 })
    ));
}

#[test]
fn event_trailing_modes_return_field_texts() {
    let p = b"[\"x\",1,{\"a\":[2]},\"s\"]";
    assert_eq!(deserialize_event(p, "x", 1, Trailing::Discard).unwrap(), vec![b"1".to_vec()]);
    assert_eq!(
        deserialize_event(p, "x", 1, Trailing::Collect).unwrap(),
        vec![b"1".to_vec(), b"{\"a\":[2]}".to_vec(), b"\"s\"".to_vec()]
    );
    assert_eq!(deserialize_event(p, "x", 3, Trailing::Strict).unwrap().len(), 3);
}

#[test]
fn event_name_quoting_and_snake_case() {
    assert_eq!(serialize_event("a\"b", &[]).unwrap(), b"[\"a\\\"b\"]");
    assert_eq!(event_name(None, "HTTPRequestSent"), "http_request_sent");
    assert_eq!(event_name(Some("Keep-As-Is"), "Ignored"), "Keep-As-Is");
}

#[test]
fn event_serialize_always_frames() {
    assert_eq!(serialize_event("", &[]).unwrap(), b"[\"\"]");
    assert_eq!(serialize_event("é\n", &[b"null".to_vec()]).unwrap(), "[\"é\\n\",null]".as_bytes());
}
