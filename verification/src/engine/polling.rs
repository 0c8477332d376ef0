//! HTTP long-polling payload framing.
//!
//! A polling request or response body carries several frames joined by the
//! record separator `0x1e`.  A text frame is an encoded Engine.IO packet; a
//! binary frame is `b` followed by the standard base64 encoding of its bytes.

use crate::engine::packet::{
    client_packet, decode_spec, encode_spec, Frame, FrameModel, Packet, PacketError,
    PacketErrorModel, PacketModel,
};
use crate::num::{blobs_view, copy_range, push_bytes};
use base64::prelude::BASE64_STANDARD;
use base64::Engine;
use vstd::prelude::*;

verus! {

/// The separator between frames of a polling payload.
pub const SEPARATOR: u8 = 30u8;

#[verifier::external_type_specification]
#[verifier::external_body]
pub struct ExDecodeError(base64::DecodeError);

/// The symbol of the standard base64 alphabet for a 6-bit value:
/// `A-Z`, `a-z`, `0-9`, `+`, `/`.
pub open spec fn base64_symbol(v: int) -> u8 {
    if v < 26 {
        (65 + v) as u8
    } else if v < 52 {
        (97 + v - 26) as u8
    } else if v < 62 {
        (48 + v - 52) as u8
    } else if v == 62 {
        43u8
    } else {
        47u8
    }
}

/// The padded standard-alphabet base64 encoding of `bytes` (RFC 4648): each
/// group of three bytes becomes four symbols of six bits each; a final group
/// of one or two bytes is filled with zero bits and padded with `=`.
pub open spec fn base64_encoded(bytes: Seq<u8>) -> Seq<u8>
    decreases bytes.len(),
{
    if bytes.len() == 0 {
        Seq::empty()
    } else if bytes.len() == 1 {
        let n = bytes[0] as int;
        seq![base64_symbol(n / 4), base64_symbol((n % 4) * 16), 61u8, 61u8]
    } else if bytes.len() == 2 {
        let n = bytes[0] as int * 256 + bytes[1] as int;
        seq![base64_symbol(n / 1024), base64_symbol((n / 16) % 64), base64_symbol((n % 16) * 4), 61u8]
    } else {
        let n = bytes[0] as int * 65536 + bytes[1] as int * 256 + bytes[2] as int;
        seq![
            base64_symbol(n / 262144),
            base64_symbol((n / 4096) % 64),
            base64_symbol((n / 64) % 64),
            base64_symbol(n % 64),
        ] + base64_encoded(bytes.skip(3))
    }
}

/// What standard base64 decoding of `text` yields, as `base64` computes it.
pub uninterp spec fn base64_decoded(text: Seq<u8>) -> Option<Seq<u8>>;

/// A symbol of the padded standard base64 alphabet: `A-Z`, `a-z`, `0-9`, `+`, `/`, `=`.
pub open spec fn is_base64_symbol(b: u8) -> bool {
    (65 <= b <= 90) || (97 <= b <= 122) || (48 <= b <= 57) || b == 43 || b == 47 || b == 61
}

/// The largest input whose base64 encoding length fits in `usize`.
pub open spec fn base64_input_limit() -> int {
    (usize::MAX / 4) * 3
}

/// Encodes with `base64`'s `STANDARD` engine (`Engine::encode`).
///
/// Trusted: the result is the padded standard-alphabet encoding, and
/// decoding it gives `bytes` back.
/// `Engine::encode` panics when the encoded length overflows `usize`; the
/// precondition excludes that.
#[verifier::external_body]
fn base64_encode(bytes: &[u8]) -> (r: Vec<u8>)
    requires
        bytes@.len() <= base64_input_limit(),
    ensures
        r@ == base64_encoded(bytes@),
        base64_decoded(r@) == Some(bytes@),
{
    BASE64_STANDARD.encode(bytes).into_bytes()
}

/// Every byte of a base64 encoding is a symbol of the padded alphabet.
pub proof fn lemma_base64_symbols(bytes: Seq<u8>)
    ensures
        forall|i: int| 0 <= i < base64_encoded(bytes).len() ==> is_base64_symbol(#[trigger] base64_encoded(bytes)[i]),
    decreases bytes.len(),
{
    let e = base64_encoded(bytes);
    if bytes.len() >= 3 {
        lemma_base64_symbols(bytes.skip(3));
        let n = bytes[0] as int * 65536 + bytes[1] as int * 256 + bytes[2] as int;
        assert(0 <= n < 16777216);
        assert(0 <= n / 262144 < 64);
        let head = seq![
            base64_symbol(n / 262144),
            base64_symbol((n / 4096) % 64),
            base64_symbol((n / 64) % 64),
            base64_symbol(n % 64),
        ];
        assert forall|i: int| 0 <= i < e.len() implies is_base64_symbol(#[trigger] e[i]) by {
            if i >= 4 {
                assert(e[i] == base64_encoded(bytes.skip(3))[i - 4]);
            }
        }
    } else if bytes.len() == 2 {
        let n = bytes[0] as int * 256 + bytes[1] as int;
        assert(0 <= n < 65536);
        assert(0 <= n / 1024 < 64);
    } else if bytes.len() == 1 {
        let n = bytes[0] as int;
        assert(0 <= n / 4 < 64);
    }
}

/// Decodes with `base64`'s `STANDARD` engine (`Engine::decode`).
///
/// Trusted: the outcome depends on `text` alone (it is named, not described).
#[verifier::external_body]
fn base64_decode(text: &[u8]) -> (r: Result<Vec<u8>, base64::DecodeError>)
    ensures
        match r {
            Ok(v) => base64_decoded(text@) == Some(v@),
            Err(_) => base64_decoded(text@) is None,
        },
{
    BASE64_STANDARD.decode(text)
}

/// Errors from decoding a polling payload.
#[derive(Debug)]
pub enum FrameError {
    /// A text frame is not a valid Engine.IO packet.
    Packet(PacketError),
    /// A binary frame is not valid base64.
    Base64,
}

/// The mathematical value of a [`FrameError`].
pub enum FrameErrorModel {
    Packet(PacketErrorModel),
    Base64,
}

impl View for FrameError {
    type V = FrameErrorModel;

    open spec fn view(&self) -> FrameErrorModel {
        match self {
            FrameError::Packet(e) => FrameErrorModel::Packet(e@),
            FrameError::Base64 => FrameErrorModel::Base64,
        }
    }
}

/// A frame that can be written: a client packet, or binary data whose encoding fits in memory.
pub open spec fn writable_frame(f: FrameModel) -> bool {
    match f {
        FrameModel::Packet(p) => client_packet(p),
        FrameModel::Binary(b) => b.len() <= base64_input_limit(),
    }
}

/// The text of one frame in a polling payload.
pub open spec fn frame_text_spec(f: FrameModel) -> Seq<u8> {
    match f {
        FrameModel::Packet(p) => encode_spec(p),
        FrameModel::Binary(b) => seq![98u8] + base64_encoded(b),
    }
}

/// The decoding of one frame of a polling payload.
pub open spec fn decode_frame_spec(s: Seq<u8>) -> Result<FrameModel, FrameErrorModel> {
    if s.len() > 0 && s[0] == 98u8 {
        match base64_decoded(s.drop_first()) {
            Some(b) => Ok(FrameModel::Binary(b)),
            None => Err(FrameErrorModel::Base64),
        }
    } else {
        match decode_spec(s) {
            Ok(p) => Ok(FrameModel::Packet(p)),
            Err(e) => Err(FrameErrorModel::Packet(e)),
        }
    }
}

/// The pieces of `s` between separators (one piece when there is none).
pub open spec fn split_spec(s: Seq<u8>) -> Seq<Seq<u8>>
    decreases s.len(),
{
    if s.len() == 0 {
        seq![Seq::empty()]
    } else {
        let r = split_spec(s.drop_last());
        if s.last() == SEPARATOR {
            r.push(Seq::empty())
        } else {
            r.update(r.len() - 1, r.last().push(s.last()))
        }
    }
}

/// The pieces joined by separators.
pub open spec fn join_spec(parts: Seq<Seq<u8>>) -> Seq<u8>
    decreases parts.len(),
{
    if parts.len() == 0 {
        Seq::empty()
    } else if parts.len() == 1 {
        parts[0]
    } else {
        join_spec(parts.drop_last()) + seq![SEPARATOR] + parts.last()
    }
}

/// Decodes every piece in order; the first failure wins.
pub open spec fn decode_all_spec(parts: Seq<Seq<u8>>) -> Result<Seq<FrameModel>, FrameErrorModel>
    decreases parts.len(),
{
    if parts.len() == 0 {
        Ok(Seq::empty())
    } else {
        match decode_all_spec(parts.drop_last()) {
            Err(e) => Err(e),
            Ok(fs) => match decode_frame_spec(parts.last()) {
                Ok(f) => Ok(fs.push(f)),
                Err(e) => Err(e),
            },
        }
    }
}

/// The decoding of a polling payload.
pub open spec fn decode_frames_spec(s: Seq<u8>) -> Result<Seq<FrameModel>, FrameErrorModel> {
    decode_all_spec(split_spec(s))
}

/// The polling payload carrying `frames`.
pub open spec fn encode_frames_spec(frames: Seq<FrameModel>) -> Seq<u8> {
    join_spec(frames.map_values(|f: FrameModel| frame_text_spec(f)))
}

/// The base64 text of `b` holds no separator and decodes back to `b`.
pub open spec fn binary_text_sound(b: Seq<u8>) -> bool {
    &&& !base64_encoded(b).contains(SEPARATOR)
    &&& base64_decoded(base64_encoded(b)) == Some(b)
}

/// A frame that a polling payload carries intact: a binary frame, or a
/// client packet whose payload holds no separator.
pub open spec fn framable(f: FrameModel) -> bool {
    match f {
        FrameModel::Packet(p) => client_packet(p) && !encode_spec(p).contains(SEPARATOR),
        FrameModel::Binary(b) => b.len() <= base64_input_limit(),
    }
}

/// The mathematical value of a list of frames.
pub open spec fn frames_view(v: Seq<Frame>) -> Seq<FrameModel> {
    v.map_values(|f: Frame| f@)
}

/// Decodes one frame of a polling payload.
pub fn decode_frame(bytes: &[u8]) -> (r: Result<Frame, FrameError>)
    ensures
        match r {
            Ok(f) => decode_frame_spec(bytes@) == Ok::<FrameModel, FrameErrorModel>(f@),
            Err(e) => decode_frame_spec(bytes@) == Err::<FrameModel, FrameErrorModel>(e@),
        },
{
    if bytes.len() > 0 && bytes[0] == 98u8 {
        let rest = &bytes[1..bytes.len()];
        proof {
            assert(rest@ =~= bytes@.drop_first());
        }
        match base64_decode(rest) {
            Ok(data) => Ok(Frame::Binary(data)),
            Err(_) => Err(FrameError::Base64),
        }
    } else {
        match Packet::decode(bytes) {
            Ok(p) => Ok(Frame::Packet(p)),
            Err(e) => Err(FrameError::Packet(e)),
        }
    }
}

/// Appends the text of one frame to `buffer`.
pub fn write_frame(frame: &Frame, buffer: &mut Vec<u8>)
    requires
        writable_frame(frame@),
    ensures
        final(buffer)@ == old(buffer)@ + frame_text_spec(frame@),
        frame@ is Binary ==> binary_text_sound(frame@->Binary_0),
{
    match frame {
        Frame::Packet(packet) => packet.write(buffer),
        Frame::Binary(bytes) => {
            buffer.push(98u8);
            let text = base64_encode(bytes.as_slice());
            push_bytes(buffer, text.as_slice());
            proof {
                lemma_base64_symbols(bytes@);
                assert forall|i: int| 0 <= i < text@.len() implies #[trigger] text@[i] != SEPARATOR by {
                    assert(is_base64_symbol(text@[i]));
                }
            }
        },
    }
    proof {
        assert(final(buffer)@ =~= old(buffer)@ + frame_text_spec(frame@));
    }
}

/// Splits a payload at its separators.
pub fn split_payload(s: &[u8]) -> (r: Vec<Vec<u8>>)
    ensures
        blobs_view(r@) == split_spec(s@),
{
    let mut done: Vec<Vec<u8>> = Vec::new();
    let mut start: usize = 0;
    let mut i: usize = 0;
    proof {
        assert(s@.take(0) =~= Seq::<u8>::empty());
        assert(blobs_view(done@).push(s@.subrange(0, 0)) =~= seq![Seq::<u8>::empty()]);
    }
    while i < s.len()
        invariant
            start <= i <= s.len(),
            blobs_view(done@).push(s@.subrange(start as int, i as int)) == split_spec(s@.take(i as int)),
        decreases s.len() - i,
    {
        let ghost prev = s@.take(i as int);
        proof {
            assert(s@.take(i + 1).drop_last() =~= prev);
            assert(s@.take(i + 1).last() == s@[i as int]);
        }
        if s[i] == SEPARATOR {
            let piece = copy_range(s, start, i);
            let ghost done0 = done@;
            done.push(piece);
            proof {
                assert(blobs_view(done@) =~= blobs_view(done0).push(s@.subrange(start as int, i as int)));
            }
            start = i + 1;
            proof {
                assert(s@.subrange(start as int, i + 1) =~= Seq::<u8>::empty());
                assert(blobs_view(done@).push(s@.subrange(start as int, i + 1)) =~= split_spec(
                    s@.take(i + 1),
                ));
            }
        } else {
            proof {
                let r = split_spec(prev);
                assert(s@.subrange(start as int, i + 1) =~= s@.subrange(start as int, i as int).push(
                    s@[i as int],
                ));
                assert(blobs_view(done@).push(s@.subrange(start as int, i + 1)) =~= r.update(
                    r.len() - 1,
                    r.last().push(s@[i as int]),
                ));
            }
        }
        i = i + 1;
    }
    let last = copy_range(s, start, s.len());
    done.push(last);
    proof {
        assert(s@.take(s@.len() as int) =~= s@);
        assert(blobs_view(done@) =~= split_spec(s@));
    }
    done
}

/// Decodes a polling payload into its frames; the first undecodable frame is the error.
pub fn decode_frames(bytes: &[u8]) -> (r: Result<Vec<Frame>, FrameError>)
    ensures
        match r {
            Ok(v) => decode_frames_spec(bytes@) == Ok::<Seq<FrameModel>, FrameErrorModel>(frames_view(v@)),
            Err(e) => decode_frames_spec(bytes@) == Err::<Seq<FrameModel>, FrameErrorModel>(e@),
        },
{
    let parts = split_payload(bytes);
    let ghost pv = blobs_view(parts@);
    let mut frames: Vec<Frame> = Vec::new();
    let mut i: usize = 0;
    proof {
        assert(pv.take(0) =~= Seq::<Seq<u8>>::empty());
        assert(frames_view(frames@) =~= Seq::<FrameModel>::empty());
    }
    while i < parts.len()
        invariant
            i <= parts@.len(),
            pv == blobs_view(parts@),
            pv == split_spec(bytes@),
            decode_all_spec(pv.take(i as int)) == Ok::<Seq<FrameModel>, FrameErrorModel>(frames_view(frames@)),
        decreases parts@.len() - i,
    {
        proof {
            assert(pv.take(i + 1).drop_last() =~= pv.take(i as int));
            assert(pv.take(i + 1).last() == parts@[i as int]@);
        }
        match decode_frame(parts[i].as_slice()) {
            Ok(f) => {
                let ghost before = frames@;
                frames.push(f);
                proof {
                    assert(frames_view(frames@) =~= frames_view(before).push(f@));
                }
            },
            Err(e) => {
                proof {
                    assert(decode_all_spec(pv.take(i + 1)) == Err::<Seq<FrameModel>, FrameErrorModel>(e@));
                    lemma_decode_all_error_persists(pv, i as int + 1);
                }
                return Err(e);
            },
        }
        i = i + 1;
    }
    proof {
        assert(pv.take(parts@.len() as int) =~= pv);
    }
    Ok(frames)
}

/// Once a prefix of the pieces fails to decode, the whole list fails the same way.
proof fn lemma_decode_all_error_persists(parts: Seq<Seq<u8>>, k: int)
    requires
        0 <= k <= parts.len(),
        decode_all_spec(parts.take(k)) is Err,
    ensures
        decode_all_spec(parts) == decode_all_spec(parts.take(k)),
    decreases parts.len() - k,
{
    if k < parts.len() {
        assert(parts.take(k + 1).drop_last() =~= parts.take(k));
        lemma_decode_all_error_persists(parts, k + 1);
    } else {
        assert(parts.take(k) =~= parts);
    }
}

/// Encodes frames into a polling payload, separated by `0x1e`.
///
/// A non-empty list of frames, each a binary frame or a client packet whose
/// text holds no separator, decodes back to the same frames.
pub fn encode_frames(frames: &[Frame]) -> (out: Vec<u8>)
    requires
        forall|i: int| 0 <= i < frames@.len() ==> writable_frame(#[trigger] frames@[i]@),
    ensures
        out@ == encode_frames_spec(frames_view(frames@)),
        frames@.len() >= 1 && (forall|i: int| 0 <= i < frames@.len() ==> framable(#[trigger] frames@[i]@))
            ==> decode_frames_spec(out@) == Ok::<Seq<FrameModel>, FrameErrorModel>(frames_view(frames@)),
{
    let ghost texts = frames_view(frames@).map_values(|f: FrameModel| frame_text_spec(f));
    let mut buffer: Vec<u8> = Vec::new();
    let mut i: usize = 0;
    while i < frames.len()
        invariant
            i <= frames@.len(),
            forall|j: int| 0 <= j < frames@.len() ==> writable_frame(#[trigger] frames@[j]@),
            texts == frames_view(frames@).map_values(|f: FrameModel| frame_text_spec(f)),
            buffer@ == join_spec(texts.take(i as int)),
            forall|j: int| 0 <= j < i ==> (#[trigger] frames@[j]@ is Binary ==> binary_text_sound(
                frames@[j]@->Binary_0,
            )),
        decreases frames@.len() - i,
    {
        if i > 0 {
            buffer.push(SEPARATOR);
        }
        let ghost before = buffer@;
        write_frame(&frames[i], &mut buffer);
        proof {
            assert(texts.take(i + 1).drop_last() =~= texts.take(i as int));
            assert(texts.take(i + 1).last() == frame_text_spec(frames@[i as int]@));
            if i == 0 {
                assert(texts.take(1) =~= seq![texts[0]]);
                assert(buffer@ =~= texts[0]);
            } else {
                assert(buffer@ =~= join_spec(texts.take(i as int)) + seq![SEPARATOR] + frame_text_spec(
                    frames@[i as int]@,
                ));
            }
        }
        i = i + 1;
    }
    proof {
        assert(texts.take(frames@.len() as int) =~= texts);
        let fs = frames_view(frames@);
        if frames@.len() >= 1 && (forall|i: int| 0 <= i < frames@.len() ==> framable(#[trigger] frames@[i]@)) {
            assert forall|i: int| 0 <= i < fs.len() implies #[trigger] framable(fs[i]) && (fs[i] is Binary
                ==> binary_text_sound(fs[i]->Binary_0)) by {
                assert(fs[i] == frames@[i]@);
            }
            lemma_frames_roundtrip(fs);
        }
    }
    buffer
}

/// Splitting text that ends in a separator-free piece extends the last piece.
proof fn lemma_split_append(a: Seq<u8>, b: Seq<u8>)
    requires
        !b.contains(SEPARATOR),
    ensures
        split_spec(a + b) == split_spec(a).update(
            split_spec(a).len() - 1,
            split_spec(a).last() + b,
        ),
        split_spec(a + b).len() == split_spec(a).len(),
    decreases b.len(),
{
    lemma_split_nonempty(a);
    if b.len() == 0 {
        assert(a + b =~= a);
        assert(split_spec(a).last() + b =~= split_spec(a).last());
        assert(split_spec(a).update(split_spec(a).len() - 1, split_spec(a).last()) =~= split_spec(a));
    } else {
        let b0 = b.drop_last();
        assert(!b0.contains(SEPARATOR)) by {
            if b0.contains(SEPARATOR) {
                let k = choose|k: int| 0 <= k < b0.len() && b0[k] == SEPARATOR;
                assert(b[k] == SEPARATOR);
            }
        }
        lemma_split_append(a, b0);
        assert((a + b).drop_last() =~= a + b0);
        assert((a + b).last() == b.last());
        assert(b.last() != SEPARATOR) by {
            assert(b[b.len() - 1] == b.last());
        }
        let r = split_spec(a);
        assert(r.last() + b0 + seq![b.last()] =~= r.last() + b);
        assert((r.last() + b0).push(b.last()) =~= r.last() + b);
        assert(split_spec(a + b) =~= r.update(r.len() - 1, r.last() + b));
    }
}

proof fn lemma_split_nonempty(a: Seq<u8>)
    ensures
        split_spec(a).len() >= 1,
    decreases a.len(),
{
    if a.len() > 0 {
        lemma_split_nonempty(a.drop_last());
    }
}

/// Splitting the joined pieces gives the pieces back when none holds a separator.
proof fn lemma_split_join(parts: Seq<Seq<u8>>)
    requires
        parts.len() >= 1,
        forall|i: int| 0 <= i < parts.len() ==> !(#[trigger] parts[i]).contains(SEPARATOR),
    ensures
        split_spec(join_spec(parts)) == parts,
    decreases parts.len(),
{
    if parts.len() == 1 {
        assert(split_spec(Seq::<u8>::empty()) == seq![Seq::<u8>::empty()]);
        lemma_split_append(Seq::<u8>::empty(), parts[0]);
        assert(Seq::<u8>::empty() + parts[0] =~= parts[0]);
        assert(Seq::<u8>::empty() + parts[0] =~= parts[0]);
        assert(seq![Seq::<u8>::empty()].update(0, Seq::<u8>::empty() + parts[0]) =~= parts);
    } else {
        let init = parts.drop_last();
        assert forall|i: int| 0 <= i < init.len() implies !(#[trigger] init[i]).contains(SEPARATOR) by {
            assert(init[i] == parts[i]);
        }
        lemma_split_join(init);
        let j = join_spec(init);
        let withsep = j + seq![SEPARATOR];
        assert(withsep.drop_last() =~= j);
        assert(split_spec(withsep) == init.push(Seq::<u8>::empty()));
        assert(!parts.last().contains(SEPARATOR)) by {
            assert(parts.last() == parts[parts.len() - 1]);
        }
        lemma_split_append(withsep, parts.last());
        assert(join_spec(parts) =~= withsep + parts.last());
        assert(Seq::<u8>::empty() + parts.last() =~= parts.last());
        assert(init.push(Seq::<u8>::empty()).update(init.len() as int, Seq::<u8>::empty() + parts.last()) =~= parts);
    }
}

/// Each frame's text decodes back to the frame.
proof fn lemma_frame_roundtrip(f: FrameModel)
    requires
        framable(f),
        f is Binary ==> binary_text_sound(f->Binary_0),
    ensures
        decode_frame_spec(frame_text_spec(f)) == Ok::<FrameModel, FrameErrorModel>(f),
{
    match f {
        FrameModel::Packet(p) => {
            crate::engine::packet::lemma_decode_encode(p);
            assert(encode_spec(p)[0] != 98u8);
        },
        FrameModel::Binary(b) => {
            let t = seq![98u8] + base64_encoded(b);
            assert(t.drop_first() =~= base64_encoded(b));
        },
    }
}

/// A non-empty list of framable frames survives a polling payload.
proof fn lemma_frames_roundtrip(fs: Seq<FrameModel>)
    requires
        fs.len() >= 1,
        forall|i: int| 0 <= i < fs.len() ==> #[trigger] framable(fs[i]) && (fs[i] is Binary
            ==> binary_text_sound(fs[i]->Binary_0)),
    ensures
        decode_frames_spec(encode_frames_spec(fs)) == Ok::<Seq<FrameModel>, FrameErrorModel>(fs),
{
    let texts = fs.map_values(|f: FrameModel| frame_text_spec(f));
    assert forall|i: int| 0 <= i < texts.len() implies !(#[trigger] texts[i]).contains(SEPARATOR) by {
        assert(framable(fs[i]));
        match fs[i] {
            FrameModel::Packet(p) => {},
            FrameModel::Binary(b) => {
                if texts[i].contains(SEPARATOR) {
                    let k = choose|k: int| 0 <= k < texts[i].len() && texts[i][k] == SEPARATOR;
                    assert(k > 0);
                    assert(texts[i][k] == base64_encoded(b)[k - 1]);
                }
            },
        }
    }
    lemma_split_join(texts);
    lemma_decode_all_texts(fs);
}

proof fn lemma_decode_all_texts(fs: Seq<FrameModel>)
    requires
        forall|i: int| 0 <= i < fs.len() ==> #[trigger] framable(fs[i]) && (fs[i] is Binary
            ==> binary_text_sound(fs[i]->Binary_0)),
    ensures
        decode_all_spec(fs.map_values(|f: FrameModel| frame_text_spec(f))) == Ok::<Seq<FrameModel>, FrameErrorModel>(fs),
    decreases fs.len(),
{
    let texts = fs.map_values(|f: FrameModel| frame_text_spec(f));
    if fs.len() > 0 {
        let init = fs.drop_last();
        assert forall|i: int| 0 <= i < init.len() implies #[trigger] framable(init[i]) && (init[i] is Binary
            ==> binary_text_sound(init[i]->Binary_0)) by {
            assert(init[i] == fs[i]);
        }
        lemma_decode_all_texts(init);
        assert(texts.drop_last() =~= init.map_values(|f: FrameModel| frame_text_spec(f)));
        assert(framable(fs[fs.len() - 1]));
        lemma_frame_roundtrip(fs.last());
        assert(init.push(fs.last()) =~= fs);
    } else {
        assert(fs =~= Seq::<FrameModel>::empty());
    }
}

} // verus!
