//! Splitting and writing the fields of a byte-level packet.
//!
//! The splitters consume their field from the front of a byte buffer; the
//! writers append a field.  [`Ns::<SioPacket>::decode`](Ns) decodes a whole
//! text frame.

use crate::num::{all_digits, bounded_value, copy_range, count_digits, digit_run, lemma_digit_run, parse_u64};
use crate::proto::error::{ParseError, ParseErrorModel, PayloadType};
use crate::proto::packet::{
    message_key, object_spec, sid_key, Connect, ConnectError, Ns, SioPacket, SioPacketModel,
};
use crate::socket::parse::{
    hint_packet_size, hint_size_spec, namespace_size_spec, split_attachments_spec,
    split_namespace_spec, packet_fields,
};
use vstd::prelude::*;
use vstd::string::StringSliceAdditionalSpecFns;
use vstd::utf8::{decode_utf8, encode_utf8, pop_first_scalar, encode_utf8_decode_utf8, encode_utf8_valid_utf8, valid_utf8};

verus! {

#[verifier::external_type_specification]
#[verifier::external_body]
pub struct ExUtf8Error(std::str::Utf8Error);

/// Reads `bytes` as UTF-8 with `std::str::from_utf8`.
///
/// Trusted: as std documents, the call succeeds exactly on valid UTF-8, and
/// the string then holds the characters the bytes encode.
#[verifier::external_body]
fn str_from_utf8(bytes: &[u8]) -> (r: Result<&str, std::str::Utf8Error>)
    ensures
        match r {
            Ok(s) => valid_utf8(bytes@) && s@ == decode_utf8(bytes@),
            Err(_) => !valid_utf8(bytes@),
        },
{
    std::str::from_utf8(bytes)
}

/// The mathematical value of a parse outcome carrying `T`.
pub open spec fn outcome_view<T>(r: Result<T, ParseError>) -> Result<T, ParseErrorModel> {
    match r {
        Ok(v) => Ok(v),
        Err(e) => Err(e@),
    }
}

/// A namespace field read as text: the path of a leading `/path,`, or `"/"`.
pub open spec fn namespace_spec(s: Seq<u8>) -> Result<(Seq<char>, Seq<u8>), ParseErrorModel> {
    match split_namespace_spec(s) {
        Err(_) => Err(ParseErrorModel::MissingNamespaceDelimiter),
        Ok((ns, rest)) => {
            if valid_utf8(ns) {
                Ok((decode_utf8(ns), rest))
            } else {
                Err(ParseErrorModel::Utf8)
            }
        },
    }
}

/// What `str::parse::<u64>` makes of UTF-8 text: an optional `+`, then at
/// least one digit, with a value that fits in `u64`.
pub open spec fn parse_id_spec(s: Seq<u8>) -> Result<u64, ParseErrorModel> {
    if !valid_utf8(s) {
        Err(ParseErrorModel::Utf8)
    } else {
        let d = if s.len() > 0 && s[0] == 43u8 {
            s.drop_first()
        } else {
            s
        };
        if all_digits(d) {
            match bounded_value(d, u64::MAX as nat) {
                Some(v) => Ok(v as u64),
                None => Err(ParseErrorModel::InvalidAckId),
            }
        } else {
            Err(ParseErrorModel::InvalidAckId)
        }
    }
}

/// A leading run of digits read as an ID, and what follows; `None` when
/// `s` does not start with a digit.
pub open spec fn id_spec(s: Seq<u8>) -> Option<(Result<u64, ParseErrorModel>, Seq<u8>)> {
    let n = digit_run(s);
    if n == 0 {
        None
    } else {
        Some((parse_id_spec(s.take(n as int)), s.skip(n as int)))
    }
}

/// The namespace and optional ID that precede an event-like payload.
pub open spec fn ns_id_spec(s: Seq<u8>) -> Result<(Seq<char>, Option<u64>, Seq<u8>), ParseErrorModel> {
    match namespace_spec(s) {
        Err(e) => Err(e),
        Ok((ns, rest)) => match id_spec(rest) {
            None => Ok((ns, None, rest)),
            Some((Err(e), _)) => Err(e),
            Some((Ok(id), data)) => Ok((ns, Some(id), data)),
        },
    }
}

/// The decoding of a text frame given as bytes.
pub open spec fn decode_spec(s: Seq<u8>) -> Result<(Seq<char>, SioPacketModel), ParseErrorModel> {
    if s.len() == 0 {
        Err(ParseErrorModel::EmptyPacket)
    } else {
        let t = s[0];
        let body = s.drop_first();
        if t == 48u8 {
            match namespace_spec(body) {
                Err(e) => Err(e),
                Ok((ns, data)) => match object_spec(data, sid_key()) {
                    Some(c) => Ok((ns, SioPacketModel::Connect(c))),
                    None => Err(ParseErrorModel::Payload(PayloadType::Connect, Some(data))),
                },
            }
        } else if t == 49u8 {
            match namespace_spec(body) {
                Err(e) => Err(e),
                Ok((ns, _)) => Ok((ns, SioPacketModel::Disconnect)),
            }
        } else if t == 50u8 {
            match split_attachments_spec(body) {
                Err(_) => Err(ParseErrorModel::InvalidAttachmentCount),
                Ok((Some(count), _)) => Err(ParseErrorModel::UnexpectedAttachments(count)),
                Ok((None, rest)) => match ns_id_spec(rest) {
                    Err(e) => Err(e),
                    Ok((ns, id, data)) => Ok((ns, SioPacketModel::Event { data, id, count: None })),
                },
            }
        } else if t == 51u8 {
            match ns_id_spec(body) {
                Err(e) => Err(e),
                Ok((_, None, _)) => Err(ParseErrorModel::MissingAckId),
                Ok((ns, Some(id), data)) => Ok((ns, SioPacketModel::Ack { data, id, count: None })),
            }
        } else if t == 52u8 {
            match namespace_spec(body) {
                Err(e) => Err(e),
                Ok((ns, data)) => match object_spec(data, message_key()) {
                    Some(c) => Ok((ns, SioPacketModel::ConnectError(c))),
                    None => Err(ParseErrorModel::Payload(PayloadType::ConnectError, Some(data))),
                },
            }
        } else if t == 53u8 || t == 54u8 {
            match split_attachments_spec(body) {
                Err(_) => Err(ParseErrorModel::InvalidAttachmentCount),
                Ok((None, _)) => Err(ParseErrorModel::MissingAttachmentCount),
                Ok((Some(count), rest)) => match ns_id_spec(rest) {
                    Err(e) => Err(e),
                    Ok((ns, id, data)) => {
                        if t == 53u8 {
                            Ok((ns, SioPacketModel::Event { data, id, count: Some(count) }))
                        } else {
                            match id {
                                None => Err(ParseErrorModel::MissingAckId),
                                Some(id) => Ok(
                                    (ns, SioPacketModel::Ack { data, id, count: Some(count) }),
                                ),
                            }
                        }
                    },
                },
            }
        } else {
            Err(ParseErrorModel::UnknownPacketType(t))
        }
    }
}

/// Returns the encoded byte length of a namespace field (`0` for the default `"/"`).
pub fn namespace_size(ns: &str) -> (n: usize)
    requires
        ns.spec_bytes().len() < usize::MAX,
    ensures
        n == namespace_size_spec(ns.spec_bytes()),
{
    crate::socket::parse::namespace_size(ns.as_bytes())
}

/// Writes `<count>-` into `buffer`.
pub fn write_attachments(buffer: &mut Vec<u8>, count: usize)
    ensures
        final(buffer)@ == old(buffer)@ + crate::socket::parse::attachments_field(Some(count)),
{
    crate::socket::parse::write_attachments(buffer, count);
}

/// Writes the namespace followed by `,` — nothing for the default `"/"`.
pub fn write_namespace(buffer: &mut Vec<u8>, ns: &str)
    ensures
        final(buffer)@ == old(buffer)@ + crate::socket::parse::namespace_field(ns.spec_bytes()),
{
    crate::socket::parse::write_namespace(buffer, ns.as_bytes());
}

/// Writes a decimal ack ID.
pub fn write_id(buffer: &mut Vec<u8>, id: u64)
    ensures
        final(buffer)@ == old(buffer)@ + crate::socket::parse::id_field(Some(id)),
{
    crate::socket::parse::write_id(buffer, id);
}

/// Writes the packet data.
pub fn write_data(buffer: &mut Vec<u8>, data: &[u8])
    ensures
        final(buffer)@ == old(buffer)@ + data@,
{
    crate::socket::parse::write_data(buffer, data);
}

/// A conservative upper bound on the length of a packet with these fields:
/// the type byte, the namespace field, room for an ack ID when `ack`, for an
/// attachment count when `binary`, and the data.
pub fn packet_size_hint(ns: &str, binary: bool, ack: bool, data: Option<&[u8]>) -> (n: usize)
    requires
        ns.spec_bytes().len() + (match data {
            Some(d) => d@.len() as int,
            None => 0,
        }) + 43 <= usize::MAX,
    ensures
        n == hint_size_spec(
            ns.spec_bytes(),
            binary,
            ack,
            match data {
                Some(d) => Some(d@),
                None => None,
            },
        ),
{
    hint_packet_size(ns.as_bytes(), binary, ack, data)
}

/// The bytes [`write_packet`] appends: the type byte, then the fields.
pub open spec fn write_packet_spec(
    type_id: u8,
    count: Option<usize>,
    ns: Seq<u8>,
    id: Option<u64>,
    data: Option<Seq<u8>>,
) -> Seq<u8> {
    seq![type_id] + packet_fields(count, ns, id, data)
}

/// Writes a whole packet: type byte, attachment count, namespace, ack ID and data.
pub fn write_packet(
    buffer: &mut Vec<u8>,
    type_id: u8,
    count: Option<usize>,
    ns: &str,
    id: Option<u64>,
    data: Option<&[u8]>,
)
    ensures
        final(buffer)@ == old(buffer)@ + write_packet_spec(
            type_id,
            count,
            ns.spec_bytes(),
            id,
            match data {
                Some(d) => Some(d@),
                None => None,
            },
        ),
{
    buffer.push(type_id);
    crate::socket::parse::write_fields(buffer, count, ns.as_bytes(), id, data);
    proof {
        let d = match data {
            Some(d) => Some(d@),
            None => None,
        };
        assert(final(buffer)@ =~= old(buffer)@ + write_packet_spec(type_id, count, ns.spec_bytes(), id, d));
    }
}

/// Consumes a `<n>-` attachment count prefix from the front of `data`.
///
/// Only matches when the data starts with one or more ASCII digits
/// immediately followed by `-`, so a namespace holding a hyphen
/// (`/admin-ns,["data"]`) is never taken for a count.  Returns
/// `Some(Ok(count))` when the prefix is present and valid; `data` is left
/// as it was unless a count was consumed.
pub fn split_attachments(data: &mut Vec<u8>) -> (r: Option<Result<usize, ParseError>>)
    ensures
        match split_attachments_spec(old(data)@) {
            Ok((None, _)) => r is None && final(data)@ == old(data)@,
            Ok((Some(c), rest)) => (r matches Some(Ok(v)) && v == c) && final(data)@ == rest,
            Err(_) => (r matches Some(Err(e)) && e@ == ParseErrorModel::InvalidAttachmentCount)
                && final(data)@ == old(data)@,
        },
{
    match crate::socket::parse::split_attachments(data.as_slice()) {
        Ok((Some(count), rest)) => {
            *data = rest;
            Some(Ok(count))
        },
        Ok((None, _)) => None,
        Err(_) => Some(Err(ParseError::InvalidAttachmentCount)),
    }
}

/// Consumes a `/ns,` prefix and returns the namespace string; `"/"` for the
/// default namespace.  `data` is left as it was on an error.
pub fn split_namespace(data: &mut Vec<u8>) -> (r: Result<String, ParseError>)
    ensures
        match namespace_spec(old(data)@) {
            Ok((ns, rest)) => (r matches Ok(s) && s@ == ns) && final(data)@ == rest,
            Err(e) => (r matches Err(x) && x@ == e) && final(data)@ == old(data)@,
        },
{
    match crate::socket::parse::split_namespace(data.as_slice()) {
        Ok((ns, rest)) => {
            let text = match str_from_utf8(ns.as_slice()) {
                Ok(s) => s.to_owned(),
                Err(_) => {
                    return Err(ParseError::Utf8);
                },
            };
            *data = rest;
            Ok(text)
        },
        Err(_) => Err(ParseError::MissingNamespaceDelimiter),
    }
}

/// Consumes a run of leading ASCII digits from `data` as a `u64`.
///
/// Returns `None`, leaving `data` as it was, when `data` does not start with
/// a digit; otherwise the digits are consumed and `Some` holds their value,
/// or the error when it does not fit in `u64`.
pub fn split_id(data: &mut Vec<u8>) -> (r: Option<Result<u64, ParseError>>)
    ensures
        match id_spec(old(data)@) {
            None => r is None && final(data)@ == old(data)@,
            Some((res, rest)) => (r matches Some(x) && outcome_view(x) == res) && final(data)@
                == rest,
        },
{
    let n = count_digits(data.as_slice());
    proof {
        lemma_digit_run(data@);
    }
    if n == 0 {
        return None;
    }
    let digits = copy_range(data.as_slice(), 0, n);
    let rest = copy_range(data.as_slice(), n, data.len());
    proof {
        assert(digits@ =~= old(data)@.take(n as int));
        assert(rest@ =~= old(data)@.skip(n as int));
    }
    let id = parse_id(digits.as_slice());
    *data = rest;
    Some(id)
}

/// Reads UTF-8 text as a `u64`, as `str::parse` does.
pub fn parse_id(data: &[u8]) -> (r: Result<u64, ParseError>)
    ensures
        outcome_view(r) == parse_id_spec(data@),
{
    match str_from_utf8(data) {
        Err(_) => Err(ParseError::Utf8),
        Ok(_) => {
            let start: usize = if data.len() > 0 && data[0] == 43u8 {
                1
            } else {
                0
            };
            let d = &data[start..data.len()];
            proof {
                if start == 1 {
                    assert(d@ =~= data@.drop_first());
                } else {
                    assert(d@ =~= data@);
                }
            }
            let n = count_digits(d);
            proof {
                lemma_digit_run(d@);
            }
            if n == d.len() {
                proof {
                    assert(all_digits(d@));
                }
                match parse_u64(d) {
                    Some(v) => Ok(v),
                    None => Err(ParseError::InvalidAckId),
                }
            } else {
                proof {
                    assert(!crate::num::is_digit(d@[n as int]));
                }
                Err(ParseError::InvalidAckId)
            }
        },
    }
}

/// Splits the namespace and the optional ID that precede an event-like payload.
fn split_ns_id(data: &mut Vec<u8>) -> (r: Result<(String, Option<u64>), ParseError>)
    ensures
        match ns_id_spec(old(data)@) {
            Ok((ns, id, rest)) => (r matches Ok((s, i)) && s@ == ns && i == id) && final(data)@
                == rest,
            Err(e) => r matches Err(x) && x@ == e,
        },
{
    let ns = split_namespace(data)?;
    match split_id(data) {
        None => Ok((ns, None)),
        Some(Ok(id)) => Ok((ns, Some(id))),
        Some(Err(e)) => Err(e),
    }
}

impl Ns<SioPacket> {
    /// Decodes a text frame into its namespace and packet.
    pub fn decode(bytes: &[u8]) -> (r: Result<Ns<SioPacket>, ParseError>)
        ensures
            match decode_spec(bytes@) {
                Ok((ns, p)) => r matches Ok(x) && x.0@ == ns && x.1@ == p,
                Err(e) => r matches Err(x) && x@ == e,
            },
    {
        if bytes.len() == 0 {
            return Err(ParseError::EmptyPacket);
        }
        let t = bytes[0];
        let mut data = copy_range(bytes, 1, bytes.len());
        proof {
            assert(data@ =~= bytes@.drop_first());
        }
        if t == 48u8 {
            let ns = split_namespace(&mut data)?;
            match Connect::from_json(data.as_slice()) {
                Ok(c) => Ok(Ns(ns, SioPacket::Connect(c))),
                Err(e) => Err(ParseError::Payload(e)),
            }
        } else if t == 49u8 {
            let ns = split_namespace(&mut data)?;
            Ok(Ns(ns, SioPacket::Disconnect))
        } else if t == 50u8 {
            match split_attachments(&mut data) {
                Some(Ok(count)) => {
                    return Err(ParseError::UnexpectedAttachments { count });
                },
                Some(Err(e)) => {
                    return Err(e);
                },
                None => {},
            }
            let (ns, id) = split_ns_id(&mut data)?;
            Ok(Ns(ns, SioPacket::Event { data, id, count: None }))
        } else if t == 51u8 {
            let (ns, id) = split_ns_id(&mut data)?;
            match id {
                Some(id) => Ok(Ns(ns, SioPacket::Ack { data, id, count: None })),
                None => Err(ParseError::MissingAckId),
            }
        } else if t == 52u8 {
            let ns = split_namespace(&mut data)?;
            match ConnectError::from_json(data.as_slice()) {
                Ok(c) => Ok(Ns(ns, SioPacket::ConnectError(c))),
                Err(e) => Err(ParseError::Payload(e)),
            }
        } else if t == 53u8 || t == 54u8 {
            let count = match split_attachments(&mut data) {
                Some(Ok(count)) => count,
                Some(Err(e)) => {
                    return Err(e);
                },
                None => {
                    return Err(ParseError::MissingAttachmentCount);
                },
            };
            let (ns, id) = split_ns_id(&mut data)?;
            if t == 53u8 {
                Ok(Ns(ns, SioPacket::Event { data, id, count: Some(count) }))
            } else {
                match id {
                    Some(id) => Ok(Ns(ns, SioPacket::Ack { data, id, count: Some(count) })),
                    None => Err(ParseError::MissingAckId),
                }
            }
        } else {
            Err(ParseError::UnknownPacketType { byte: t })
        }
    }
}

/// A CONNECT frame is read as its namespace field followed by the JSON
/// object: for a namespace written as its field, the object is read from
/// exactly the bytes after that field, and a refusal carries those bytes.
pub proof fn lemma_connect_reads_after_namespace(ns: Seq<char>, d: Seq<u8>)
    requires
        crate::socket::parse::valid_namespace(encode_utf8(ns)),
        encode_utf8(ns) == crate::socket::parse::default_ns() ==> d.len() == 0 || d[0] != 47u8,
    ensures
        decode_spec(seq![48u8] + crate::socket::parse::namespace_field(encode_utf8(ns)) + d) == match object_spec(
            d,
            sid_key(),
        ) {
            Some(c) => Ok::<(Seq<char>, SioPacketModel), ParseErrorModel>((ns, SioPacketModel::Connect(c))),
            None => Err(ParseErrorModel::Payload(PayloadType::Connect, Some(d))),
        },
        decode_spec(seq![52u8] + crate::socket::parse::namespace_field(encode_utf8(ns)) + d) == match object_spec(
            d,
            message_key(),
        ) {
            Some(c) => Ok::<(Seq<char>, SioPacketModel), ParseErrorModel>((ns, SioPacketModel::ConnectError(c))),
            None => Err(ParseErrorModel::Payload(PayloadType::ConnectError, Some(d))),
        },
{
    let nb = encode_utf8(ns);
    crate::socket::parse::lemma_split_namespace_field(nb, d);
    encode_utf8_valid_utf8(ns);
    encode_utf8_decode_utf8(ns);
    let body = crate::socket::parse::namespace_field(nb) + d;
    assert((seq![48u8] + body).drop_first() =~= body);
    assert((seq![52u8] + body).drop_first() =~= body);
    assert(seq![48u8] + crate::socket::parse::namespace_field(nb) + d =~= seq![48u8] + body);
    assert(seq![52u8] + crate::socket::parse::namespace_field(nb) + d =~= seq![52u8] + body);
}

/// Bytes below 128 are valid UTF-8.
proof fn lemma_ascii_valid_utf8(s: Seq<u8>)
    requires
        forall|i: int| 0 <= i < s.len() ==> s[i] < 128,
    ensures
        valid_utf8(s),
    decreases s.len(),
{
    if s.len() > 0 {
        let b: u8 = s[0];
        assert(b < 128 ==> (b & 0x7f) as u32 <= 0x7f) by (bit_vector);
        assert(pop_first_scalar(s) =~= s.subrange(1, s.len() as int));
        lemma_ascii_valid_utf8(s.subrange(1, s.len() as int));
    }
}

/// The ID field reads back as the ID it was written for, when the data that
/// follows does not start with a digit.
proof fn lemma_id_field_read(id: Option<u64>, data: Seq<u8>)
    requires
        crate::socket::parse::valid_payload(data),
    ensures
        match id {
            None => id_spec(crate::socket::parse::id_field(id) + data) is None,
            Some(i) => id_spec(crate::socket::parse::id_field(id) + data) == Some(
                (Ok::<u64, ParseErrorModel>(i), data),
            ),
        },
{
    match id {
        None => {
            assert(crate::socket::parse::id_field(id) + data =~= data);
            crate::socket::parse::lemma_no_run(data);
        },
        Some(i) => {
            let d = crate::num::decimal_digits(i as nat);
            crate::num::lemma_decimal_digits(i as nat);
            crate::socket::parse::lemma_run_of_rendering(i as nat, data, u64::MAX as nat);
            assert(forall|k: int| 0 <= k < d.len() ==> #[trigger] d[k] < 128) by {
                assert forall|k: int| 0 <= k < d.len() implies #[trigger] d[k] < 128 by {
                    assert(crate::num::is_digit(d[k]));
                }
            }
            lemma_ascii_valid_utf8(d);
            assert(all_digits(d));
            assert(!(d.len() > 0 && d[0] == 43u8)) by {
                assert(crate::num::is_digit(d[0]));
            }
        },
    }
}

/// Decoding an event or ack frame as written gives back its namespace, data,
/// ID and attachment count: the byte-level decoder reads each field exactly
/// where the writer put it.
pub proof fn lemma_decode_written(
    t: u8,
    count: Option<usize>,
    ns: Seq<char>,
    id: Option<u64>,
    data: Seq<u8>,
)
    requires
        t == 50u8 || t == 51u8 || t == 53u8 || t == 54u8,
        (count is Some) == (t == 53u8 || t == 54u8),
        t == 51u8 || t == 54u8 ==> id is Some,
        crate::socket::parse::valid_namespace(encode_utf8(ns)),
        crate::socket::parse::valid_payload(data),
    ensures
        decode_spec(write_packet_spec(t, count, encode_utf8(ns), id, Some(data))) == Ok::<
            (Seq<char>, SioPacketModel),
            ParseErrorModel,
        >(
            (
                ns,
                if t == 50u8 || t == 53u8 {
                    SioPacketModel::Event { data, id, count }
                } else {
                    SioPacketModel::Ack { data, id: id->Some_0, count }
                },
            ),
        ),
{
    let nb = encode_utf8(ns);
    let rest = crate::socket::parse::id_field(id) + data;
    let after = crate::socket::parse::namespace_field(nb) + rest;
    let w = write_packet_spec(t, count, nb, id, Some(data));
    assert(w.drop_first() =~= crate::socket::parse::attachments_field(count) + after);
    assert(crate::socket::parse::namespace_field(nb) + crate::socket::parse::id_field(id) + data =~= after);
    encode_utf8_valid_utf8(ns);
    encode_utf8_decode_utf8(ns);
    if nb == crate::socket::parse::default_ns() && rest.len() > 0 {
        match id {
            Some(i) => {
                crate::num::lemma_decimal_digits(i as nat);
                assert(rest[0] == crate::num::decimal_digits(i as nat)[0]);
            },
            None => {
                assert(rest =~= data);
            },
        }
    }
    crate::socket::parse::lemma_split_namespace_field(nb, rest);
    lemma_id_field_read(id, data);
    match count {
        Some(c) => {
            crate::socket::parse::lemma_split_count(c, after);
        },
        None => {
            crate::socket::parse::lemma_no_count(nb, id, data);
            assert(crate::socket::parse::attachments_field(count) + after =~= after);
        },
    }
}

} // verus!
