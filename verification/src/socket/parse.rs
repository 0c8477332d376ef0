//! Wire-level Socket.IO packet parsing and serialisation.
//!
//! Splits inbound text frames into their fields ([`split_attachments`],
//! [`split_namespace`], [`split_id`]), decodes a whole frame
//! ([`Ns::decode`](crate::socket::packet::Ns)) and writes outbound packets
//! ([`write_packet`]).

use crate::num::{
    all_digits, is_digit, lemma_decimal_digits, lemma_digit_run_unique, bounded_value, copy_range, count_digits, decimal_digits, digit_run, lemma_digit_run, parse_u64,
    parse_usize, push_bytes, push_decimal,
};
use crate::socket::error::PacketError;
use crate::socket::packet::{encode_spec, packet_payload, Ns, Packet, PacketModel};
use vstd::prelude::*;

verus! {

/// The default namespace `"/"`.
pub open spec fn default_ns() -> Seq<u8> {
    seq![47u8]
}

/// Most decimal digits of a `u64`.
pub const U64_MAX_LEN: usize = 20;

/// Bytes reserved for an ack ID.
pub open spec fn ack_size_hint_spec() -> int {
    20
}

/// Bytes reserved for an attachment count and its `-`.
pub open spec fn binary_size_hint_spec() -> int {
    21
}

/// Encoded length of a namespace field: `0` for `"/"`, else the path and its `,`.
pub open spec fn namespace_size_spec(ns: Seq<u8>) -> int {
    if ns == default_ns() {
        0
    } else {
        ns.len() + 1int
    }
}

/// The size hint formula of [`hint_packet_size`].
pub open spec fn hint_size_spec(ns: Seq<u8>, binary: bool, ack: bool, data: Option<Seq<u8>>) -> int {
    1 + namespace_size_spec(ns) + (if ack {
        ack_size_hint_spec()
    } else {
        0
    }) + (if binary {
        binary_size_hint_spec()
    } else {
        0
    }) + (match data {
        Some(d) => d.len() as int,
        None => 0,
    })
}

/// The namespace field as written: nothing for `"/"`, else the path and `,`.
pub open spec fn namespace_field(ns: Seq<u8>) -> Seq<u8> {
    if ns == default_ns() {
        Seq::empty()
    } else {
        ns.push(44u8)
    }
}

/// The attachment field as written: `<count>-`.
pub open spec fn attachments_field(count: Option<usize>) -> Seq<u8> {
    match count {
        Some(c) => decimal_digits(c as nat).push(45u8),
        None => Seq::empty(),
    }
}

/// The ack ID field as written: its decimal digits.
pub open spec fn id_field(id: Option<u64>) -> Seq<u8> {
    match id {
        Some(i) => decimal_digits(i as nat),
        None => Seq::empty(),
    }
}

/// The data field as written.
pub open spec fn data_field(data: Option<Seq<u8>>) -> Seq<u8> {
    match data {
        Some(d) => d,
        None => Seq::empty(),
    }
}

/// The UTF-8 encoding of the character with code `b`: the byte itself
/// below 128, two bytes otherwise.
pub open spec fn char_utf8(b: u8) -> Seq<u8> {
    if b < 128 {
        seq![b]
    } else {
        seq![(192 + b / 64) as u8, (128 + b % 64) as u8]
    }
}

/// The fields that follow the type of a packet: attachment count, namespace,
/// ack ID and data.
pub open spec fn packet_fields(
    count: Option<usize>,
    ns: Seq<u8>,
    id: Option<u64>,
    data: Option<Seq<u8>>,
) -> Seq<u8> {
    attachments_field(count) + namespace_field(ns) + id_field(id) + data_field(data)
}

/// The bytes [`write_packet`] appends: the type as a character, then the fields.
pub open spec fn write_packet_spec(
    type_id: u8,
    count: Option<usize>,
    ns: Seq<u8>,
    id: Option<u64>,
    data: Option<Seq<u8>>,
) -> Seq<u8> {
    char_utf8(type_id) + packet_fields(count, ns, id, data)
}

/// What [`split_attachments`] returns: a `<digits>-` prefix is consumed as a count.
pub open spec fn split_attachments_spec(s: Seq<u8>) -> Result<(Option<usize>, Seq<u8>), PacketError> {
    let n = digit_run(s);
    if n > 0 && n < s.len() && s[n as int] == 45u8 {
        match bounded_value(s.take(n as int), usize::MAX as nat) {
            Some(v) => Ok((Some(v as usize), s.skip(n + 1int))),
            None => Err(PacketError::InvalidAttachmentCount),
        }
    } else {
        Ok((None, s))
    }
}

/// What [`split_namespace`] returns: a leading `/path,` is consumed as the namespace.
pub open spec fn split_namespace_spec(s: Seq<u8>) -> Result<(Seq<u8>, Seq<u8>), PacketError> {
    if s.len() > 0 && s[0] == 47u8 {
        match s.index_of_first(44u8) {
            Some(k) => Ok((s.take(k), s.skip(k + 1))),
            None => Err(PacketError::MissingNamespaceDelimiter),
        }
    } else {
        Ok((default_ns(), s))
    }
}

/// What [`split_id`] returns: a leading run of digits is consumed as a `u64`.
pub open spec fn split_id_spec(s: Seq<u8>) -> Result<(Option<u64>, Seq<u8>), PacketError> {
    let n = digit_run(s);
    if n > 0 {
        match bounded_value(s.take(n as int), u64::MAX as nat) {
            Some(v) => Ok((Some(v as u64), s.skip(n as int))),
            None => Err(PacketError::InvalidAckId),
        }
    } else {
        Ok((None, s))
    }
}

/// The namespace and event fields that follow the type byte of an event-like packet.
pub open spec fn ns_id_spec(s: Seq<u8>) -> Result<(Seq<u8>, Option<u64>, Seq<u8>), PacketError> {
    match split_namespace_spec(s) {
        Err(e) => Err(e),
        Ok((ns, rest)) => match split_id_spec(rest) {
            Err(e) => Err(e),
            Ok((id, data)) => Ok((ns, id, data)),
        },
    }
}

/// The decoding of a text frame into a namespace and a packet.
pub open spec fn decode_spec(s: Seq<u8>) -> Result<(Seq<u8>, PacketModel), PacketError> {
    if s.len() == 0 {
        Err(PacketError::Empty)
    } else {
        let t = s[0];
        let body = s.drop_first();
        if t == 48u8 {
            match split_namespace_spec(body) {
                Err(e) => Err(e),
                Ok((ns, data)) => Ok((ns, PacketModel::Connect(data))),
            }
        } else if t == 49u8 {
            match split_namespace_spec(body) {
                Err(e) => Err(e),
                Ok((ns, _)) => Ok((ns, PacketModel::Disconnect)),
            }
        } else if t == 50u8 {
            match split_attachments_spec(body) {
                Err(e) => Err(e),
                Ok((Some(count), _)) => Err(PacketError::UnexpectedAttachments { count }),
                Ok((None, rest)) => match ns_id_spec(rest) {
                    Err(e) => Err(e),
                    Ok((ns, id, data)) => Ok((ns, PacketModel::Event { payload: data, id })),
                },
            }
        } else if t == 51u8 {
            match ns_id_spec(body) {
                Err(e) => Err(e),
                Ok((_, None, _)) => Err(PacketError::MissingAckId),
                Ok((ns, Some(id), data)) => Ok((ns, PacketModel::Ack { payload: data, id })),
            }
        } else if t == 52u8 {
            match split_namespace_spec(body) {
                Err(e) => Err(e),
                Ok((ns, data)) => Ok((ns, PacketModel::ConnectError(data))),
            }
        } else if t == 53u8 {
            match split_attachments_spec(body) {
                Err(e) => Err(e),
                Ok((None, _)) => Err(PacketError::MissingAttachmentCount),
                Ok((Some(count), rest)) => match ns_id_spec(rest) {
                    Err(e) => Err(e),
                    Ok((ns, id, data)) => Ok(
                        (ns, PacketModel::BinaryEvent { payload: data, id, count }),
                    ),
                },
            }
        } else if t == 54u8 {
            match split_attachments_spec(body) {
                Err(e) => Err(e),
                Ok((None, _)) => Err(PacketError::MissingAttachmentCount),
                Ok((Some(count), rest)) => match ns_id_spec(rest) {
                    Err(e) => Err(e),
                    Ok((_, None, _)) => Err(PacketError::MissingAckId),
                    Ok((ns, Some(id), data)) => Ok(
                        (ns, PacketModel::BinaryAck { payload: data, id, count }),
                    ),
                },
            }
        } else {
            Err(PacketError::InvalidId { id: t })
        }
    }
}

/// Bytes reserved for an ack ID (the digits of `u64::MAX`).
pub fn ack_size_hint() -> (n: usize)
    ensures
        n == ack_size_hint_spec(),
{
    U64_MAX_LEN
}

/// Bytes reserved for an attachment count and its `-` separator.
pub fn binary_size_hint() -> (n: usize)
    ensures
        n == binary_size_hint_spec(),
{
    U64_MAX_LEN + 1
}

/// True when `ns` is the default namespace `"/"`.
pub fn is_default_ns(ns: &[u8]) -> (r: bool)
    ensures
        r == (ns@ == default_ns()),
{
    let r = ns.len() == 1 && ns[0] == 47u8;
    proof {
        if ns@.len() == 1 && ns@[0] == 47u8 {
            assert(ns@ =~= default_ns());
        }
    }
    r
}

/// Returns the encoded byte length of a namespace field (`0` for the default `"/"`).
pub fn namespace_size(ns: &[u8]) -> (n: usize)
    requires
        ns.len() < usize::MAX,
    ensures
        n == namespace_size_spec(ns@),
{
    if is_default_ns(ns) {
        0
    } else {
        ns.len() + 1
    }
}

/// Returns a conservative upper bound on the length of a packet with these fields.
pub fn hint_packet_size(ns: &[u8], binary: bool, ack: bool, data: Option<&[u8]>) -> (n: usize)
    requires
        ns.len() + (match data {
            Some(d) => d@.len() as int,
            None => 0,
        }) + 43 <= usize::MAX,
    ensures
        n == hint_size_spec(
            ns@,
            binary,
            ack,
            match data {
                Some(d) => Some(d@),
                None => None,
            },
        ),
{
    let mut n: usize = 1 + namespace_size(ns);
    if ack {
        n = n + ack_size_hint();
    }
    if binary {
        n = n + binary_size_hint();
    }
    if let Some(data) = data {
        n = n + data.len();
    }
    n
}

/// Writes `<count>-` into `buffer`.
pub fn write_attachments(buffer: &mut Vec<u8>, count: usize)
    ensures
        final(buffer)@ == old(buffer)@ + attachments_field(Some(count)),
{
    push_decimal(buffer, count as u64);
    buffer.push(45u8);
    proof {
        assert(final(buffer)@ =~= old(buffer)@ + attachments_field(Some(count)));
    }
}

/// Writes the namespace followed by `,` — nothing for the default `"/"`.
pub fn write_namespace(buffer: &mut Vec<u8>, ns: &[u8])
    ensures
        final(buffer)@ == old(buffer)@ + namespace_field(ns@),
{
    if !is_default_ns(ns) {
        push_bytes(buffer, ns);
        buffer.push(44u8);
    }
    proof {
        assert(final(buffer)@ =~= old(buffer)@ + namespace_field(ns@));
    }
}

/// Writes a decimal ack ID.
pub fn write_id(buffer: &mut Vec<u8>, id: u64)
    ensures
        final(buffer)@ == old(buffer)@ + id_field(Some(id)),
{
    push_decimal(buffer, id);
}

/// Writes the packet data.
pub fn write_data(buffer: &mut Vec<u8>, data: &[u8])
    ensures
        final(buffer)@ == old(buffer)@ + data@,
{
    push_bytes(buffer, data);
}

/// Writes a whole packet: type, attachment count, namespace, ack ID and data.
pub fn write_packet(
    buffer: &mut Vec<u8>,
    type_id: u8,
    count: Option<usize>,
    ns: &[u8],
    id: Option<u64>,
    data: Option<&[u8]>,
)
    ensures
        final(buffer)@ == old(buffer)@ + write_packet_spec(
            type_id,
            count,
            ns@,
            id,
            match data {
                Some(d) => Some(d@),
                None => None,
            },
        ),
{
    write_type(buffer, type_id);
    write_fields(buffer, count, ns, id, data);
    proof {
        let d = match data {
            Some(d) => Some(d@),
            None => None,
        };
        assert(final(buffer)@ =~= old(buffer)@ + write_packet_spec(type_id, count, ns@, id, d));
    }
}

/// Writes the type as a character (UTF-8 encoded).
fn write_type(buffer: &mut Vec<u8>, type_id: u8)
    ensures
        final(buffer)@ == old(buffer)@ + char_utf8(type_id),
{
    if type_id < 128 {
        buffer.push(type_id);
    } else {
        buffer.push(192u8 + type_id / 64);
        buffer.push(128u8 + type_id % 64);
    }
    proof {
        assert(final(buffer)@ =~= old(buffer)@ + char_utf8(type_id));
    }
}

/// Writes the fields that follow the type: count, namespace, ack ID and data.
pub fn write_fields(
    buffer: &mut Vec<u8>,
    count: Option<usize>,
    ns: &[u8],
    id: Option<u64>,
    data: Option<&[u8]>,
)
    ensures
        final(buffer)@ == old(buffer)@ + packet_fields(
            count,
            ns@,
            id,
            match data {
                Some(d) => Some(d@),
                None => None,
            },
        ),
{
    if let Some(count) = count {
        write_attachments(buffer, count);
    }
    write_namespace(buffer, ns);
    if let Some(id) = id {
        write_id(buffer, id);
    }
    if let Some(data) = data {
        write_data(buffer, data);
    }
    proof {
        let d = match data {
            Some(d) => Some(d@),
            None => None,
        };
        assert(final(buffer)@ =~= old(buffer)@ + packet_fields(count, ns@, id, d));
    }
}

/// Consumes a `<n>-` attachment count prefix.
///
/// Only matches when the data starts with one or more ASCII digits immediately
/// followed by `-`, so a namespace holding a hyphen (`/admin-ns,`) is never
/// taken for a count.  Returns `(Some(count), rest)` when the prefix is present,
/// `(None, bytes)` when absent.
pub fn split_attachments(bytes: &[u8]) -> (r: Result<(Option<usize>, Vec<u8>), PacketError>)
    ensures
        match r {
            Ok((c, rest)) => split_attachments_spec(bytes@) == Ok::<(Option<usize>, Seq<u8>), PacketError>((c, rest@)),
            Err(e) => split_attachments_spec(bytes@) == Err::<(Option<usize>, Seq<u8>), PacketError>(e),
        },
{
    let n = count_digits(bytes);
    proof {
        lemma_digit_run(bytes@);
    }
    if n > 0 && n < bytes.len() && bytes[n] == 45u8 {
        let digits = &bytes[0..n];
        proof {
            assert(digits@ =~= bytes@.take(n as int));
        }
        match parse_usize(digits) {
            Some(count) => {
                let rest = copy_range(bytes, n + 1, bytes.len());
                proof {
                    assert(rest@ =~= bytes@.skip(n + 1));
                }
                Ok((Some(count), rest))
            },
            None => Err(PacketError::InvalidAttachmentCount),
        }
    } else {
        let rest = copy_range(bytes, 0, bytes.len());
        proof {
            assert(rest@ =~= bytes@);
        }
        Ok((None, rest))
    }
}

/// Consumes a `/ns,` prefix and returns `(namespace, rest)`; `"/"` for the default namespace.
pub fn split_namespace(bytes: &[u8]) -> (r: Result<(Vec<u8>, Vec<u8>), PacketError>)
    ensures
        match r {
            Ok((ns, rest)) => split_namespace_spec(bytes@) == Ok::<(Seq<u8>, Seq<u8>), PacketError>((ns@, rest@)),
            Err(e) => split_namespace_spec(bytes@) == Err::<(Seq<u8>, Seq<u8>), PacketError>(e),
        },
{
    if bytes.len() > 0 && bytes[0] == 47u8 {
        let mut k: usize = 0;
        while k < bytes.len() && bytes[k] != 44u8
            invariant
                k <= bytes.len(),
                forall|j: int| 0 <= j < k ==> bytes@[j] != 44u8,
            decreases bytes.len() - k,
        {
            k = k + 1;
        }
        proof {
            bytes@.index_of_first_ensures(44u8);
        }
        if k < bytes.len() {
            proof {
                assert(bytes@.contains(44u8));
                let f = bytes@.index_of_first(44u8).unwrap();
                assert(f == k as int);
            }
            let ns = copy_range(bytes, 0, k);
            let rest = copy_range(bytes, k + 1, bytes.len());
            proof {
                assert(ns@ =~= bytes@.take(k as int));
                assert(rest@ =~= bytes@.skip(k + 1));
            }
            Ok((ns, rest))
        } else {
            proof {
                assert(!bytes@.contains(44u8));
            }
            Err(PacketError::MissingNamespaceDelimiter)
        }
    } else {
        let rest = copy_range(bytes, 0, bytes.len());
        let ns: Vec<u8> = vec![47u8];
        proof {
            assert(rest@ =~= bytes@);
            assert(ns@ =~= default_ns());
        }
        Ok((ns, rest))
    }
}

/// Consumes a run of leading ASCII digits as a `u64`.
///
/// Returns `(Some(id), rest)` when digits are present and fit in `u64`,
/// `(None, bytes)` when no leading digit is found or the input is empty.
pub fn split_id(bytes: &[u8]) -> (r: Result<(Option<u64>, Vec<u8>), PacketError>)
    ensures
        match r {
            Ok((id, rest)) => split_id_spec(bytes@) == Ok::<(Option<u64>, Seq<u8>), PacketError>((id, rest@)),
            Err(e) => split_id_spec(bytes@) == Err::<(Option<u64>, Seq<u8>), PacketError>(e),
        },
{
    let n = count_digits(bytes);
    proof {
        lemma_digit_run(bytes@);
    }
    if n > 0 {
        let digits = &bytes[0..n];
        proof {
            assert(digits@ =~= bytes@.take(n as int));
        }
        match parse_u64(digits) {
            Some(id) => {
                let rest = copy_range(bytes, n, bytes.len());
                proof {
                    assert(rest@ =~= bytes@.skip(n as int));
                }
                Ok((Some(id), rest))
            },
            None => Err(PacketError::InvalidAckId),
        }
    } else {
        let rest = copy_range(bytes, 0, bytes.len());
        proof {
            assert(rest@ =~= bytes@);
        }
        Ok((None, rest))
    }
}

/// Splits the namespace and the ack ID that precede an event-like payload.
fn split_ns_id(bytes: &[u8]) -> (r: Result<(Vec<u8>, Option<u64>, Vec<u8>), PacketError>)
    ensures
        match r {
            Ok((ns, id, data)) => ns_id_spec(bytes@) == Ok::<(Seq<u8>, Option<u64>, Seq<u8>), PacketError>((ns@, id, data@)),
            Err(e) => ns_id_spec(bytes@) == Err::<(Seq<u8>, Option<u64>, Seq<u8>), PacketError>(e),
        },
{
    let (ns, rest) = split_namespace(bytes)?;
    let (id, data) = split_id(rest.as_slice())?;
    Ok((ns, id, data))
}

impl Ns<Packet> {
    /// Decodes a text frame into its namespace and packet.
    pub fn decode(bytes: &[u8]) -> (r: Result<Ns<Packet>, PacketError>)
        ensures
            match r {
                Ok(p) => decode_spec(bytes@) == Ok::<(Seq<u8>, PacketModel), PacketError>((p.0@, p.1@)),
                Err(e) => decode_spec(bytes@) == Err::<(Seq<u8>, PacketModel), PacketError>(e),
            },
    {
        if bytes.len() == 0 {
            return Err(PacketError::Empty);
        }
        let t = bytes[0];
        let body = &bytes[1..bytes.len()];
        proof {
            assert(body@ =~= bytes@.drop_first());
        }
        if t == 48u8 {
            let (ns, data) = split_namespace(body)?;
            Ok(Ns(ns, Packet::Connect(data)))
        } else if t == 49u8 {
            let (ns, _) = split_namespace(body)?;
            Ok(Ns(ns, Packet::Disconnect))
        } else if t == 50u8 {
            let (count, rest) = split_attachments(body)?;
            if let Some(count) = count {
                return Err(PacketError::UnexpectedAttachments { count });
            }
            let (ns, id, data) = split_ns_id(rest.as_slice())?;
            Ok(Ns(ns, Packet::Event { payload: data, id }))
        } else if t == 51u8 {
            let (ns, id, data) = split_ns_id(body)?;
            match id {
                Some(id) => Ok(Ns(ns, Packet::Ack { payload: data, id })),
                None => Err(PacketError::MissingAckId),
            }
        } else if t == 52u8 {
            let (ns, data) = split_namespace(body)?;
            Ok(Ns(ns, Packet::ConnectError(data)))
        } else if t == 53u8 {
            let (count, rest) = split_attachments(body)?;
            match count {
                None => Err(PacketError::MissingAttachmentCount),
                Some(count) => {
                    let (ns, id, data) = split_ns_id(rest.as_slice())?;
                    Ok(Ns(ns, Packet::BinaryEvent { payload: data, id, count }))
                },
            }
        } else if t == 54u8 {
            let (count, rest) = split_attachments(body)?;
            match count {
                None => Err(PacketError::MissingAttachmentCount),
                Some(count) => {
                    let (ns, id, data) = split_ns_id(rest.as_slice())?;
                    match id {
                        Some(id) => Ok(Ns(ns, Packet::BinaryAck { payload: data, id, count })),
                        None => Err(PacketError::MissingAckId),
                    }
                },
            }
        } else {
            Err(PacketError::InvalidId { id: t })
        }
    }
}

/// The size hint bounds what `write_packet` writes: for an ASCII type, with
/// room for a count when one is written and for an ID when one is written,
/// the written packet is never longer than the hint.
pub proof fn lemma_write_within_hint(
    type_id: u8,
    count: Option<usize>,
    ns: Seq<u8>,
    id: Option<u64>,
    data: Option<Seq<u8>>,
)
    requires
        type_id < 128,
    ensures
        write_packet_spec(type_id, count, ns, id, data).len() <= hint_size_spec(
            ns,
            count is Some,
            id is Some,
            data,
        ),
{
    if let Some(c) = count {
        crate::num::lemma_u64_digits(c as u64);
    }
    if let Some(i) = id {
        crate::num::lemma_u64_digits(i);
    }
}

/// A namespace that survives encoding: `"/"`, or a `/`-prefixed path without `,`.
pub open spec fn valid_namespace(ns: Seq<u8>) -> bool {
    ns == default_ns() || (ns.len() > 0 && ns[0] == 47u8 && !ns.contains(44u8))
}

/// A payload whose first byte cannot be taken for a header field:
/// empty, or not starting with a digit, `-` or `/` (JSON starts with `[` or `{`).
pub open spec fn valid_payload(d: Seq<u8>) -> bool {
    d.len() == 0 || !(is_digit(d[0]) || d[0] == 45u8 || d[0] == 47u8)
}

pub(crate) proof fn lemma_run_of_rendering(n: nat, rest: Seq<u8>, limit: nat)
    requires
        rest.len() == 0 || !is_digit(rest[0]),
        n <= limit,
    ensures
        digit_run(decimal_digits(n) + rest) == decimal_digits(n).len(),
        (decimal_digits(n) + rest).take(decimal_digits(n).len() as int) == decimal_digits(n),
        (decimal_digits(n) + rest).skip(decimal_digits(n).len() as int) == rest,
        bounded_value(decimal_digits(n), limit) == Some(n),
{
    lemma_decimal_digits(n);
    let d = decimal_digits(n);
    let s = d + rest;
    assert forall|i: int| 0 <= i < d.len() implies is_digit(#[trigger] s[i]) by {
        assert(s[i] == d[i]);
    }
    if d.len() < s.len() {
        assert(s[d.len() as int] == rest[0]);
    }
    lemma_digit_run_unique(s, d.len());
    assert(s.take(d.len() as int) =~= d);
    assert(s.skip(d.len() as int) =~= rest);
}

pub(crate) proof fn lemma_no_run(s: Seq<u8>)
    requires
        s.len() == 0 || !is_digit(s[0]),
    ensures
        digit_run(s) == 0,
{
    lemma_digit_run_unique(s, 0);
}

pub(crate) proof fn lemma_split_namespace_field(ns: Seq<u8>, rest: Seq<u8>)
    requires
        valid_namespace(ns),
        ns == default_ns() ==> rest.len() == 0 || rest[0] != 47u8,
    ensures
        split_namespace_spec(namespace_field(ns) + rest) == Ok::<(Seq<u8>, Seq<u8>), PacketError>((ns, rest)),
{
    let s = namespace_field(ns) + rest;
    if ns == default_ns() {
        assert(s =~= rest);
    } else {
        let k = ns.len() as int;
        assert(s[0] == ns[0]);
        assert(s[k] == 44u8);
        s.index_of_first_ensures(44u8);
        assert(s.contains(44u8));
        let f = s.index_of_first(44u8).unwrap();
        if f < k {
            assert(s[f] == ns[f]);
            assert(ns.contains(44u8));
        }
        assert(f == k);
        assert(s.take(k) =~= ns);
        assert(s.skip(k + 1) =~= rest);
    }
}

proof fn lemma_split_id_field(id: Option<u64>, data: Seq<u8>)
    requires
        valid_payload(data),
    ensures
        split_id_spec(id_field(id) + data) == Ok::<(Option<u64>, Seq<u8>), PacketError>((id, data)),
{
    match id {
        Some(i) => {
            lemma_run_of_rendering(i as nat, data, u64::MAX as nat);
        },
        None => {
            assert(id_field(id) + data =~= data);
            lemma_no_run(data);
        },
    }
}

proof fn lemma_ns_id(ns: Seq<u8>, id: Option<u64>, data: Seq<u8>)
    requires
        valid_namespace(ns),
        valid_payload(data),
    ensures
        ns_id_spec(namespace_field(ns) + id_field(id) + data) == Ok::<(Seq<u8>, Option<u64>, Seq<u8>), PacketError>((ns, id, data)),
{
    let rest = id_field(id) + data;
    assert(namespace_field(ns) + id_field(id) + data =~= namespace_field(ns) + rest);
    if ns == default_ns() && rest.len() > 0 {
        match id {
            Some(i) => {
                lemma_decimal_digits(i as nat);
                assert(rest[0] == decimal_digits(i as nat)[0]);
            },
            None => {
                assert(rest =~= data);
            },
        }
    }
    lemma_split_namespace_field(ns, rest);
    lemma_split_id_field(id, data);
}

pub(crate) proof fn lemma_split_count(c: usize, rest: Seq<u8>)
    ensures
        split_attachments_spec(attachments_field(Some(c)) + rest) == Ok::<(Option<usize>, Seq<u8>), PacketError>((Some(c), rest)),
{
    lemma_decimal_digits(c as nat);
    let d = decimal_digits(c as nat);
    let tail = seq![45u8] + rest;
    lemma_run_of_rendering(c as nat, tail, usize::MAX as nat);
    assert(attachments_field(Some(c)) + rest =~= d + tail);
    assert((d + tail)[d.len() as int] == 45u8);
    assert((d + tail).skip(d.len() + 1int) =~= rest);
}

pub(crate) proof fn lemma_no_count(ns: Seq<u8>, id: Option<u64>, data: Seq<u8>)
    requires
        valid_namespace(ns),
        valid_payload(data),
    ensures
        split_attachments_spec(namespace_field(ns) + id_field(id) + data) == Ok::<(Option<usize>, Seq<u8>), PacketError>((None, namespace_field(ns) + id_field(id) + data)),
{
    let s = namespace_field(ns) + id_field(id) + data;
    if ns != default_ns() {
        assert(s[0] == 47u8);
        lemma_no_run(s);
    } else {
        assert(s =~= id_field(id) + data);
        match id {
            Some(i) => {
                lemma_run_of_rendering(i as nat, data, u64::MAX as nat);
                let n = decimal_digits(i as nat).len();
                if n < s.len() {
                    assert(s[n as int] == data[0]);
                }
            },
            None => {
                assert(s =~= data);
                lemma_no_run(s);
            },
        }
    }
}

/// Decoding the encoding of a packet gives back its namespace and the packet.
///
/// Holds for every namespace that is `"/"` or a `/`-path without `,`, and
/// every payload that is empty or does not start with a digit, `-` or `/`
/// (every JSON array or object qualifies).
pub proof fn lemma_decode_encode(p: PacketModel, ns: Seq<u8>)
    requires
        valid_namespace(ns),
        valid_payload(packet_payload(p)),
    ensures
        decode_spec(encode_spec(p, ns)) == Ok::<(Seq<u8>, PacketModel), PacketError>((ns, p)),
{
    let s = encode_spec(p, ns);
    assert(s.drop_first() =~= attachments_field(
        match p {
            PacketModel::BinaryEvent { count, .. } => Some(count),
            PacketModel::BinaryAck { count, .. } => Some(count),
            _ => None,
        },
    ) + namespace_field(ns) + id_field(
        match p {
            PacketModel::Event { id, .. } => id,
            PacketModel::Ack { id, .. } => Some(id),
            PacketModel::BinaryEvent { id, .. } => id,
            PacketModel::BinaryAck { id, .. } => Some(id),
            _ => None,
        },
    ) + data_field(
        match p {
            PacketModel::Disconnect => None,
            _ => Some(packet_payload(p)),
        },
    ));
    match p {
        PacketModel::Connect(d) => {
            assert(s.drop_first() =~= namespace_field(ns) + d);
            lemma_split_namespace_field(ns, d);
        },
        PacketModel::Disconnect => {
            assert(s.drop_first() =~= namespace_field(ns) + Seq::<u8>::empty());
            lemma_split_namespace_field(ns, Seq::<u8>::empty());
        },
        PacketModel::Event { payload, id } => {
            assert(s.drop_first() =~= namespace_field(ns) + id_field(id) + payload);
            lemma_no_count(ns, id, payload);
            lemma_ns_id(ns, id, payload);
        },
        PacketModel::Ack { payload, id } => {
            assert(s.drop_first() =~= namespace_field(ns) + id_field(Some(id)) + payload);
            lemma_ns_id(ns, Some(id), payload);
        },
        PacketModel::ConnectError(d) => {
            assert(s.drop_first() =~= namespace_field(ns) + d);
            lemma_split_namespace_field(ns, d);
        },
        PacketModel::BinaryEvent { payload, id, count } => {
            let rest = namespace_field(ns) + id_field(id) + payload;
            assert(s.drop_first() =~= attachments_field(Some(count)) + rest);
            lemma_split_count(count, rest);
            lemma_ns_id(ns, id, payload);
        },
        PacketModel::BinaryAck { payload, id, count } => {
            let rest = namespace_field(ns) + id_field(Some(id)) + payload;
            assert(s.drop_first() =~= attachments_field(Some(count)) + rest);
            lemma_split_count(count, rest);
            lemma_ns_id(ns, Some(id), payload);
        },
    }
}

} // verus!
