//! The frame envelope: what one QR code carries.
//!
//! A frame is the magic `AX`, the protocol version, the kind, the payload's
//! length, the payload, and a CRC-32 over all of that. Numbers are big-endian.
use crate::error::{Error, ErrorView, Result};
use crate::wire;
use vstd::prelude::*;

verus! {

pub const PROTOCOL_VERSION: u8 = 1;

pub const ROLE_RECV: u8 = 2;

pub const FAIL_HASH: u8 = 1;

pub const FAIL_DISK: u8 = 2;

pub const FAIL_PROTOCOL: u8 = 3;

pub const FAIL_ABORTED: u8 = 4;

pub const ENVELOPE_OVERHEAD: usize = 10;

pub const KIND_HELLO: u8 = 1;

pub const KIND_PROBE: u8 = 2;

pub const KIND_LINK: u8 = 3;

pub const KIND_GO: u8 = 4;

pub const KIND_DATA: u8 = 5;

pub const KIND_ACK: u8 = 6;

pub const KIND_FIN: u8 = 7;

pub const KIND_OK: u8 = 8;

pub const KIND_FAIL: u8 = 9;

/// What a frame is for.
#[derive(Clone, Copy, Debug, PartialEq, Eq, Structural)]
pub enum Kind {
    Hello,
    Probe,
    Link,
    Go,
    Data,
    Ack,
    Fin,
    Okay,
    Fail,
}

/// The byte that stands for `kind` in an envelope.
pub open spec fn code_of(kind: Kind) -> u8 {
    match kind {
        Kind::Hello => KIND_HELLO,
        Kind::Probe => KIND_PROBE,
        Kind::Link => KIND_LINK,
        Kind::Go => KIND_GO,
        Kind::Data => KIND_DATA,
        Kind::Ack => KIND_ACK,
        Kind::Fin => KIND_FIN,
        Kind::Okay => KIND_OK,
        Kind::Fail => KIND_FAIL,
    }
}

impl Kind {
    /// The kind that `v` stands for, if it stands for one.
    pub fn from_u8(v: u8) -> (kind: Option<Self>)
        ensures
            match kind {
                Some(k) => code_of(k) == v,
                None => v < KIND_HELLO || v > KIND_FAIL,
            },
    {
        match v {
            1 => Some(Kind::Hello),
            2 => Some(Kind::Probe),
            3 => Some(Kind::Link),
            4 => Some(Kind::Go),
            5 => Some(Kind::Data),
            6 => Some(Kind::Ack),
            7 => Some(Kind::Fin),
            8 => Some(Kind::Okay),
            9 => Some(Kind::Fail),
            _ => None,
        }
    }

    pub fn as_u8(self) -> (code: u8)
        ensures
            code == code_of(self),
    {
        match self {
            Kind::Hello => KIND_HELLO,
            Kind::Probe => KIND_PROBE,
            Kind::Link => KIND_LINK,
            Kind::Go => KIND_GO,
            Kind::Data => KIND_DATA,
            Kind::Ack => KIND_ACK,
            Kind::Fin => KIND_FIN,
            Kind::Okay => KIND_OK,
            Kind::Fail => KIND_FAIL,
        }
    }
}

/// What a frame says.
#[derive(Debug)]
pub enum Payload {
    Hello { protocol_ver: u8, role: u8 },
    Probe { id: u8, qr_version: u8, dwell_ms: u16, last: bool },
    Link { qr_version: u8, dwell_ms: u16, probe_loss: u8 },
    Go {
        basename: String,
        uncompressed_hint: u64,
        compressed_size: u64,
        chunk_count: u32,
        sha256: [u8; 32],
    },
    Data { seq: u32, chunk: Vec<u8> },
    Ack { window_base: u32, bitmap: u32 },
    Fin { sha256: [u8; 32] },
    Okay,
    Fail { reason: u8 },
}

/// A [`Payload`] as mathematical data.
#[verifier::ext_equal]
pub enum PayloadView {
    Hello { protocol_ver: u8, role: u8 },
    Probe { id: u8, qr_version: u8, dwell_ms: u16, last: bool },
    Link { qr_version: u8, dwell_ms: u16, probe_loss: u8 },
    Go {
        basename: Seq<char>,
        uncompressed_hint: u64,
        compressed_size: u64,
        chunk_count: u32,
        sha256: Seq<u8>,
    },
    Data { seq: u32, chunk: Seq<u8> },
    Ack { window_base: u32, bitmap: u32 },
    Fin { sha256: Seq<u8> },
    Okay,
    Fail { reason: u8 },
}

impl View for Payload {
    type V = PayloadView;

    open spec fn view(&self) -> PayloadView {
        match *self {
            Payload::Hello { protocol_ver, role } => PayloadView::Hello { protocol_ver, role },
            Payload::Probe { id, qr_version, dwell_ms, last } => PayloadView::Probe {
                id,
                qr_version,
                dwell_ms,
                last,
            },
            Payload::Link { qr_version, dwell_ms, probe_loss } => PayloadView::Link {
                qr_version,
                dwell_ms,
                probe_loss,
            },
            Payload::Go { basename, uncompressed_hint, compressed_size, chunk_count, sha256 } =>
                PayloadView::Go {
                    basename: basename@,
                    uncompressed_hint,
                    compressed_size,
                    chunk_count,
                    sha256: sha256@,
                },
            Payload::Data { seq, chunk } => PayloadView::Data { seq, chunk: chunk@ },
            Payload::Ack { window_base, bitmap } => PayloadView::Ack { window_base, bitmap },
            Payload::Fin { sha256 } => PayloadView::Fin { sha256: sha256@ },
            Payload::Okay => PayloadView::Okay,
            Payload::Fail { reason } => PayloadView::Fail { reason },
        }
    }
}

/// The optional payload that `polled` holds, as mathematical data.
pub open spec fn payload_option(polled: Option<Payload>) -> Option<PayloadView> {
    match polled {
        Some(payload) => Some(payload@),
        None => None,
    }
}

/// Whether two byte strings are the same.
pub fn same_bytes(a: &[u8], b: &[u8]) -> (same: bool)
    ensures
        same == (a@ == b@),
{
    if a.len() != b.len() {
        return false;
    }
    let mut i: usize = 0;
    while i < a.len()
        invariant
            a@.len() == b@.len(),
            i <= a@.len(),
            forall|k: int| 0 <= k < i ==> a@[k] == b@[k],
        decreases a@.len() - i,
    {
        if a[i] != b[i] {
            assert(a@[i as int] != b@[i as int]);
            return false;
        }
        i = i + 1;
    }
    assert(a@ =~= b@);
    true
}

impl Clone for Payload {
    fn clone(&self) -> (copy: Self)
        ensures
            copy@ == self@,
    {
        match self {
            Payload::Hello { protocol_ver, role } => Payload::Hello {
                protocol_ver: *protocol_ver,
                role: *role,
            },
            Payload::Probe { id, qr_version, dwell_ms, last } => Payload::Probe {
                id: *id,
                qr_version: *qr_version,
                dwell_ms: *dwell_ms,
                last: *last,
            },
            Payload::Link { qr_version, dwell_ms, probe_loss } => Payload::Link {
                qr_version: *qr_version,
                dwell_ms: *dwell_ms,
                probe_loss: *probe_loss,
            },
            Payload::Go { basename, uncompressed_hint, compressed_size, chunk_count, sha256 } =>
                Payload::Go {
                    basename: basename.clone(),
                    uncompressed_hint: *uncompressed_hint,
                    compressed_size: *compressed_size,
                    chunk_count: *chunk_count,
                    sha256: *sha256,
                },
            Payload::Data { seq, chunk } => Payload::Data {
                seq: *seq,
                chunk: copy_bytes(chunk.as_slice()),
            },
            Payload::Ack { window_base, bitmap } => Payload::Ack {
                window_base: *window_base,
                bitmap: *bitmap,
            },
            Payload::Fin { sha256 } => Payload::Fin { sha256: *sha256 },
            Payload::Okay => Payload::Okay,
            Payload::Fail { reason } => Payload::Fail { reason: *reason },
        }
    }
}

impl PartialEq for Payload {
    fn eq(&self, other: &Self) -> (same: bool) {
        match (self, other) {
            (
                Payload::Hello { protocol_ver: a, role: b },
                Payload::Hello { protocol_ver: c, role: d },
            ) => *a == *c && *b == *d,
            (
                Payload::Probe { id: a, qr_version: b, dwell_ms: c, last: d },
                Payload::Probe { id: e, qr_version: f, dwell_ms: g, last: h },
            ) => *a == *e && *b == *f && *c == *g && *d == *h,
            (
                Payload::Link { qr_version: a, dwell_ms: b, probe_loss: c },
                Payload::Link { qr_version: d, dwell_ms: e, probe_loss: f },
            ) => *a == *d && *b == *e && *c == *f,
            (
                Payload::Go {
                    basename: a,
                    uncompressed_hint: b,
                    compressed_size: c,
                    chunk_count: d,
                    sha256: e,
                },
                Payload::Go {
                    basename: f,
                    uncompressed_hint: g,
                    compressed_size: h,
                    chunk_count: i,
                    sha256: j,
                },
            ) => *a == *f && *b == *g && *c == *h && *d == *i && same_bytes(
                e.as_slice(),
                j.as_slice(),
            ),
            (Payload::Data { seq: a, chunk: b }, Payload::Data { seq: c, chunk: d }) => *a == *c
                && same_bytes(b.as_slice(), d.as_slice()),
            (
                Payload::Ack { window_base: a, bitmap: b },
                Payload::Ack { window_base: c, bitmap: d },
            ) => *a == *c && *b == *d,
            (Payload::Fin { sha256: a }, Payload::Fin { sha256: b }) => same_bytes(
                a.as_slice(),
                b.as_slice(),
            ),
            (Payload::Okay, Payload::Okay) => true,
            (Payload::Fail { reason: a }, Payload::Fail { reason: b }) => *a == *b,
            _ => false,
        }
    }
}

impl vstd::std_specs::cmp::PartialEqSpecImpl for Payload {
    open spec fn obeys_eq_spec() -> bool {
        true
    }

    open spec fn eq_spec(&self, other: &Self) -> bool {
        self@ == other@
    }
}

impl Eq for Payload {
}

/// Byte-mode capacity of a QR code at quartile error correction, for the
/// versions the link uses.
pub open spec fn quartile_bytes(version: u8) -> nat {
    if version == 10 {
        151
    } else if version == 15 {
        292
    } else if version == 20 {
        482
    } else if version == 25 {
        715
    } else if version == 30 {
        982
    } else if version == 40 {
        1663
    } else {
        0
    }
}

/// How many frame bytes a code of `version` carries: its byte-mode capacity
/// less a few bytes of headroom.
pub open spec fn frame_room(version: u8) -> nat {
    if quartile_bytes(version) >= 8 {
        (quartile_bytes(version) - 8) as nat
    } else {
        0
    }
}

/// How many file bytes a full DATA frame of `version` carries.
pub open spec fn chunk_room(version: u8) -> nat {
    if frame_room(version) >= 14 {
        (frame_room(version) - 14) as nat
    } else {
        0
    }
}

/// Binary (byte-mode) payload capacity at quartile error correction, minus a
/// few bytes of headroom so a full DATA envelope cannot miss the encoder's
/// bit budget.
pub fn qr_byte_capacity(version: u8) -> (bytes: usize)
    ensures
        bytes == frame_room(version),
{
    let raw: usize = match version {
        10 => 151,
        15 => 292,
        20 => 482,
        25 => 715,
        30 => 982,
        40 => 1663,
        _ => 0,
    };
    raw.saturating_sub(8)
}

/// How much of the file one DATA frame of `version` carries.
pub fn data_chunk_size(version: u8) -> (bytes: usize)
    ensures
        bytes == chunk_room(version),
{
    qr_byte_capacity(version).saturating_sub(ENVELOPE_OVERHEAD + 4)
}

/// The kind of a payload.
pub open spec fn kind_of_view(p: PayloadView) -> Kind {
    match p {
        PayloadView::Hello { .. } => Kind::Hello,
        PayloadView::Probe { .. } => Kind::Probe,
        PayloadView::Link { .. } => Kind::Link,
        PayloadView::Go { .. } => Kind::Go,
        PayloadView::Data { .. } => Kind::Data,
        PayloadView::Ack { .. } => Kind::Ack,
        PayloadView::Fin { .. } => Kind::Fin,
        PayloadView::Okay => Kind::Okay,
        PayloadView::Fail { .. } => Kind::Fail,
    }
}

/// The bytes of a payload inside its envelope.
pub open spec fn payload_bytes(p: PayloadView) -> Seq<u8> {
    match p {
        PayloadView::Hello { protocol_ver, role } => seq![protocol_ver, role],
        PayloadView::Probe { id, qr_version, dwell_ms, last } => seq![id, qr_version] + wire::be_bytes(
            dwell_ms as nat,
            2,
        ) + seq![
            if last {
                1u8
            } else {
                0u8
            },
        ],
        PayloadView::Link { qr_version, dwell_ms, probe_loss } => seq![qr_version] + wire::be_bytes(
            dwell_ms as nat,
            2,
        ) + seq![probe_loss],
        PayloadView::Go { basename, uncompressed_hint, compressed_size, chunk_count, sha256 } => {
            let name = vstd::utf8::encode_utf8(basename);
            wire::be_bytes(name.len(), 2) + name + wire::be_bytes(uncompressed_hint as nat, 8) + wire::be_bytes(
                compressed_size as nat,
                8,
            ) + wire::be_bytes(chunk_count as nat, 4) + sha256
        },
        PayloadView::Data { seq, chunk } => wire::be_bytes(seq as nat, 4) + chunk,
        PayloadView::Ack { window_base, bitmap } => wire::be_bytes(window_base as nat, 4) + wire::be_bytes(
            bitmap as nat,
            4,
        ),
        PayloadView::Fin { sha256 } => sha256,
        PayloadView::Okay => Seq::empty(),
        PayloadView::Fail { reason } => seq![reason],
    }
}

/// The CRC-32 that the crc32fast crate computes over `bytes`.
pub uninterp spec fn crc32_of(bytes: Seq<u8>) -> u32;

/// Runs `bytes` through crc32fast's `Hasher`: `new`, one `update`,
/// `finalize`. Taken on trust: the checksum depends on the bytes alone.
#[verifier::external_body]
fn crc32(bytes: &[u8]) -> (crc: u32)
    ensures
        crc == crc32_of(bytes@),
{
    let mut hasher = crc32fast::Hasher::new();
    hasher.update(bytes);
    hasher.finalize()
}

/// The envelope around `body` up to its checksum.
pub open spec fn unsigned_frame(kind: u8, body: Seq<u8>) -> Seq<u8> {
    seq![0x41u8, 0x58u8, PROTOCOL_VERSION, kind] + wire::be_bytes(body.len(), 2) + body
}

/// The whole frame that carries `p`.
pub open spec fn frame_bytes(p: PayloadView) -> Seq<u8> {
    let head = unsigned_frame(code_of(kind_of_view(p)), payload_bytes(p));
    head + wire::be_bytes(crc32_of(head) as nat, 4)
}

fn kind_of(p: &Payload) -> (code: u8)
    ensures
        code == code_of(kind_of_view(p@)),
{
    match p {
        Payload::Hello { .. } => Kind::Hello.as_u8(),
        Payload::Probe { .. } => Kind::Probe.as_u8(),
        Payload::Link { .. } => Kind::Link.as_u8(),
        Payload::Go { .. } => Kind::Go.as_u8(),
        Payload::Data { .. } => Kind::Data.as_u8(),
        Payload::Ack { .. } => Kind::Ack.as_u8(),
        Payload::Fin { .. } => Kind::Fin.as_u8(),
        Payload::Okay => Kind::Okay.as_u8(),
        Payload::Fail { .. } => Kind::Fail.as_u8(),
    }
}

/// Whether `p` is small enough to be framed: its length field has 16 bits.
pub open spec fn frameable(p: PayloadView) -> bool {
    payload_bytes(p).len() <= u16::MAX
}

fn put_payload(p: &Payload, out: &mut Vec<u8>)
    ensures
        final(out)@ == old(out)@ + payload_bytes(p@),
{
    match p {
        Payload::Hello { protocol_ver, role } => {
            out.push(*protocol_ver);
            out.push(*role);
        },
        Payload::Probe { id, qr_version, dwell_ms, last } => {
            out.push(*id);
            out.push(*qr_version);
            wire::put_be(out, *dwell_ms as u64, 2);
            out.push(if *last { 1 } else { 0 });
        },
        Payload::Link { qr_version, dwell_ms, probe_loss } => {
            out.push(*qr_version);
            wire::put_be(out, *dwell_ms as u64, 2);
            out.push(*probe_loss);
        },
        Payload::Go { basename, uncompressed_hint, compressed_size, chunk_count, sha256 } => {
            let name = basename.as_str().as_bytes();
            wire::put_be(out, name.len() as u64, 2);
            out.extend_from_slice(name);
            wire::put_be(out, *uncompressed_hint, 8);
            wire::put_be(out, *compressed_size, 8);
            wire::put_be(out, *chunk_count as u64, 4);
            out.extend_from_slice(sha256.as_slice());
        },
        Payload::Data { seq, chunk } => {
            wire::put_be(out, *seq as u64, 4);
            out.extend_from_slice(chunk.as_slice());
        },
        Payload::Ack { window_base, bitmap } => {
            wire::put_be(out, *window_base as u64, 4);
            wire::put_be(out, *bitmap as u64, 4);
        },
        Payload::Fin { sha256 } => out.extend_from_slice(sha256.as_slice()),
        Payload::Okay => {},
        Payload::Fail { reason } => out.push(*reason),
    }
}

/// The frame that carries `p`, unless `p` is too long for one.
pub fn encode(p: &Payload) -> (frame: Result<Vec<u8>>)
    ensures
        match frame {
            Ok(bytes) => frameable(p@) && bytes@ == frame_bytes(p@),
            Err(e) => !frameable(p@) && e@ == ErrorView::BadFrame,
        },
{
    let mut inner: Vec<u8> = Vec::new();
    put_payload(p, &mut inner);
    if inner.len() > 0xffff {
        return Err(Error::BadFrame);
    }
    let mut out: Vec<u8> = Vec::with_capacity(ENVELOPE_OVERHEAD + inner.len());
    out.push(0x41);
    out.push(0x58);
    out.push(PROTOCOL_VERSION);
    out.push(kind_of(p));
    wire::put_be(&mut out, inner.len() as u64, 2);
    out.extend_from_slice(inner.as_slice());
    let ghost head: Seq<u8> = unsigned_frame(code_of(kind_of_view(p@)), payload_bytes(p@));
    assert(out@ == head);
    let crc: u32 = crc32(out.as_slice());
    wire::put_be(&mut out, crc as u64, 4);
    Ok(out)
}

/// The payload of kind `kind` that `body` holds, if it holds one.
pub open spec fn parse_body(kind: u8, body: Seq<u8>) -> Option<PayloadView> {
    if kind == KIND_HELLO && body.len() == 2 {
        Some(PayloadView::Hello { protocol_ver: body[0], role: body[1] })
    } else if kind == KIND_PROBE && body.len() == 5 {
        Some(
            PayloadView::Probe {
                id: body[0],
                qr_version: body[1],
                dwell_ms: wire::be_value(body.subrange(2, 4)) as u16,
                last: body[4] == 1,
            },
        )
    } else if kind == KIND_LINK && body.len() == 4 {
        Some(
            PayloadView::Link {
                qr_version: body[0],
                dwell_ms: wire::be_value(body.subrange(1, 3)) as u16,
                probe_loss: body[3],
            },
        )
    } else if kind == KIND_GO {
        parse_go(body)
    } else if kind == KIND_DATA && body.len() >= 4 {
        Some(
            PayloadView::Data {
                seq: wire::be_value(body.subrange(0, 4)) as u32,
                chunk: body.subrange(4, body.len() as int),
            },
        )
    } else if kind == KIND_ACK && body.len() == 8 {
        Some(
            PayloadView::Ack {
                window_base: wire::be_value(body.subrange(0, 4)) as u32,
                bitmap: wire::be_value(body.subrange(4, 8)) as u32,
            },
        )
    } else if kind == KIND_FIN && body.len() == 32 {
        Some(PayloadView::Fin { sha256: body })
    } else if kind == KIND_OK && body.len() == 0 {
        Some(PayloadView::Okay)
    } else if kind == KIND_FAIL && body.len() == 1 {
        Some(PayloadView::Fail { reason: body[0] })
    } else {
        None
    }
}

/// The GO payload that `body` holds: a length-prefixed UTF-8 name and the
/// fixed-width fields after it, with nothing left over.
pub open spec fn parse_go(body: Seq<u8>) -> Option<PayloadView> {
    let n = wire::be_value(body.subrange(0, 2)) as int;
    let name = body.subrange(2, 2 + n);
    if body.len() >= 54 && body.len() == 54 + n && vstd::utf8::valid_utf8(name) {
        Some(
            PayloadView::Go {
                basename: vstd::utf8::decode_utf8(name),
                uncompressed_hint: wire::be_value(body.subrange(2 + n, 10 + n)) as u64,
                compressed_size: wire::be_value(body.subrange(10 + n, 18 + n)) as u64,
                chunk_count: wire::be_value(body.subrange(18 + n, 22 + n)) as u32,
                sha256: body.subrange(22 + n, 54 + n),
            },
        )
    } else {
        None
    }
}

/// The payload that a received frame holds, if its magic, version, length and
/// checksum are right and its body parses.
pub open spec fn parse_frame(bytes: Seq<u8>) -> Option<PayloadView> {
    let len = bytes.len() - 10;
    let head = bytes.take(6 + len);
    if len >= 0 && bytes[0] == 0x41 && bytes[1] == 0x58 && bytes[2] == PROTOCOL_VERSION
        && wire::be_value(bytes.subrange(4, 6)) == len && wire::be_value(bytes.skip(6 + len))
        == crc32_of(head) {
        parse_body(bytes[3], head.skip(6))
    } else {
        None
    }
}

/// Calls `String::from_utf8` of std. Taken on trust: it accepts exactly the
/// valid UTF-8 byte strings, and the string it gives back encodes to them.
#[verifier::external_body]
fn utf8_string(bytes: Vec<u8>) -> (text: Option<String>)
    ensures
        text is Some <==> vstd::utf8::valid_utf8(bytes@),
        text matches Some(s) ==> vstd::utf8::encode_utf8(s@) == bytes@,
{
    String::from_utf8(bytes).ok()
}

pub(crate) fn bytes_32(bytes: &[u8]) -> (array: [u8; 32])
    requires
        bytes@.len() == 32,
    ensures
        array@ == bytes@,
{
    let mut array: [u8; 32] = [0u8; 32];
    let mut i: usize = 0;
    while i < 32
        invariant
            bytes@.len() == 32,
            i <= 32,
            forall|k: int| 0 <= k < i ==> array@[k] == bytes@[k],
        decreases 32 - i,
    {
        array[i] = bytes[i];
        i = i + 1;
    }
    assert(array@ =~= bytes@);
    array
}

pub(crate) fn copy_bytes(bytes: &[u8]) -> (copy: Vec<u8>)
    ensures
        copy@ == bytes@,
{
    let mut copy: Vec<u8> = Vec::with_capacity(bytes.len());
    copy.extend_from_slice(bytes);
    copy
}

fn decode_go(body: &[u8]) -> (payload: Option<Payload>)
    ensures
        payload_option(payload) == parse_go(body@),
{
    if body.len() < 54 {
        return None;
    }
    let n: usize = wire::get_be(&body[0..2]) as usize;
    proof {
        wire::be_bytes_of_value(body@.subrange(0, 2));
        wire::be_ranges();
    }
    if body.len() != 54 + n {
        return None;
    }
    let name: Vec<u8> = copy_bytes(&body[2..2 + n]);
    let basename: String = match utf8_string(name) {
        Some(text) => text,
        None => return None,
    };
    proof {
        vstd::utf8::encode_utf8_decode_utf8(basename@);
        wire::be_bytes_of_value(body@.subrange(2 + n, 10 + n));
        wire::be_bytes_of_value(body@.subrange(10 + n, 18 + n));
        wire::be_bytes_of_value(body@.subrange(18 + n, 22 + n));
    }
    Some(
        Payload::Go {
            basename,
            uncompressed_hint: wire::get_be(&body[2 + n..10 + n]),
            compressed_size: wire::get_be(&body[10 + n..18 + n]),
            chunk_count: wire::get_be(&body[18 + n..22 + n]) as u32,
            sha256: bytes_32(&body[22 + n..54 + n]),
        },
    )
}

fn decode_body(kind: Kind, body: &[u8]) -> (payload: Option<Payload>)
    ensures
        payload_option(payload) == parse_body(code_of(kind), body@),
{
    match kind {
        Kind::Hello if body.len() == 2 => Some(
            Payload::Hello { protocol_ver: body[0], role: body[1] },
        ),
        Kind::Probe if body.len() == 5 => Some(
            Payload::Probe {
                id: body[0],
                qr_version: body[1],
                dwell_ms: wire::get_be(&body[2..4]) as u16,
                last: body[4] == 1,
            },
        ),
        Kind::Link if body.len() == 4 => Some(
            Payload::Link {
                qr_version: body[0],
                dwell_ms: wire::get_be(&body[1..3]) as u16,
                probe_loss: body[3],
            },
        ),
        Kind::Go => decode_go(body),
        Kind::Data if body.len() >= 4 => Some(
            Payload::Data {
                seq: wire::get_be(&body[0..4]) as u32,
                chunk: copy_bytes(&body[4..body.len()]),
            },
        ),
        Kind::Ack if body.len() == 8 => Some(
            Payload::Ack {
                window_base: wire::get_be(&body[0..4]) as u32,
                bitmap: wire::get_be(&body[4..8]) as u32,
            },
        ),
        Kind::Fin if body.len() == 32 => Some(Payload::Fin { sha256: bytes_32(body) }),
        Kind::Okay if body.len() == 0 => Some(Payload::Okay),
        Kind::Fail if body.len() == 1 => Some(Payload::Fail { reason: body[0] }),
        _ => None,
    }
}

/// Reads one frame. Anything but a frame with the right magic, version,
/// length, checksum and a body of its kind is a [`Error::BadFrame`].
pub fn decode(bytes: &[u8]) -> (payload: Result<Payload>)
    ensures
        match payload {
            Ok(p) => parse_frame(bytes@) == Some(p@),
            Err(e) => parse_frame(bytes@) is None && e@ == ErrorView::BadFrame,
        },
{
    if bytes.len() < ENVELOPE_OVERHEAD || bytes[0] != 0x41 || bytes[1] != 0x58 {
        return Err(Error::BadFrame);
    }
    let ver: u8 = bytes[2];
    let kind: u8 = bytes[3];
    let len: usize = wire::get_be(&bytes[4..6]) as usize;
    proof {
        wire::be_bytes_of_value(bytes@.subrange(4, 6));
        wire::be_ranges();
    }
    if ver != PROTOCOL_VERSION {
        return Err(Error::BadFrame);
    }
    let crc_off: usize = 6 + len;
    if bytes.len() != crc_off + 4 {
        return Err(Error::BadFrame);
    }
    let head: &[u8] = &bytes[0..crc_off];
    let got: u64 = wire::get_be(&bytes[crc_off..bytes.len()]);
    if crc32(head) as u64 != got {
        return Err(Error::BadFrame);
    }
    let body: &[u8] = &bytes[6..crc_off];
    assert(body@ == head@.skip(6));
    assert(head@ == bytes@.take(6 + len as int));
    assert(bytes@.skip(crc_off as int) == bytes@.subrange(crc_off as int, bytes@.len() as int));
    let payload: Option<Payload> = match Kind::from_u8(kind) {
        Some(known) => decode_body(known, body),
        None => None,
    };
    match payload {
        Some(payload) => Ok(payload),
        None => Err(Error::BadFrame),
    }
}

/// What holds of every payload value: a digest is 32 bytes long.
pub open spec fn digest_sized(p: PayloadView) -> bool {
    match p {
        PayloadView::Go { sha256, .. } => sha256.len() == 32,
        PayloadView::Fin { sha256 } => sha256.len() == 32,
        _ => true,
    }
}

/// An envelope adds exactly [`ENVELOPE_OVERHEAD`] bytes to its payload.
pub proof fn law_frame_length(p: PayloadView)
    ensures
        frame_bytes(p).len() == payload_bytes(p).len() + ENVELOPE_OVERHEAD,
{
    broadcast use wire::be_bytes_width;

}

proof fn body_parses(p: PayloadView)
    requires
        frameable(p),
        digest_sized(p),
    ensures
        parse_body(code_of(kind_of_view(p)), payload_bytes(p)) == Some(p),
{
    broadcast use wire::be_bytes_width;

    wire::be_ranges();
    let body = payload_bytes(p);
    match p {
        PayloadView::Hello { .. } => {},
        PayloadView::Probe { dwell_ms, .. } => {
            wire::be_value_of_bytes(dwell_ms as nat, 2);
            assert(body.subrange(2, 4) == wire::be_bytes(dwell_ms as nat, 2));
        },
        PayloadView::Link { dwell_ms, .. } => {
            wire::be_value_of_bytes(dwell_ms as nat, 2);
            assert(body.subrange(1, 3) == wire::be_bytes(dwell_ms as nat, 2));
        },
        PayloadView::Go { basename, uncompressed_hint, compressed_size, chunk_count, sha256 } => {
            let name = vstd::utf8::encode_utf8(basename);
            let n = name.len() as int;
            assert(body.len() == 54 + n);
            wire::be_value_of_bytes(name.len(), 2);
            wire::be_value_of_bytes(uncompressed_hint as nat, 8);
            wire::be_value_of_bytes(compressed_size as nat, 8);
            wire::be_value_of_bytes(chunk_count as nat, 4);
            assert(body.subrange(0, 2) == wire::be_bytes(name.len(), 2));
            assert(body.subrange(2, 2 + n) == name);
            assert(body.subrange(2 + n, 10 + n) == wire::be_bytes(uncompressed_hint as nat, 8));
            assert(body.subrange(10 + n, 18 + n) == wire::be_bytes(compressed_size as nat, 8));
            assert(body.subrange(18 + n, 22 + n) == wire::be_bytes(chunk_count as nat, 4));
            assert(body.subrange(22 + n, 54 + n) == sha256);
            vstd::utf8::encode_utf8_valid_utf8(basename);
            vstd::utf8::encode_utf8_decode_utf8(basename);
        },
        PayloadView::Data { seq, chunk } => {
            wire::be_value_of_bytes(seq as nat, 4);
            assert(body.subrange(0, 4) == wire::be_bytes(seq as nat, 4));
            assert(body.subrange(4, body.len() as int) == chunk);
        },
        PayloadView::Ack { window_base, bitmap } => {
            wire::be_value_of_bytes(window_base as nat, 4);
            wire::be_value_of_bytes(bitmap as nat, 4);
            assert(body.subrange(0, 4) == wire::be_bytes(window_base as nat, 4));
            assert(body.subrange(4, 8) == wire::be_bytes(bitmap as nat, 4));
        },
        PayloadView::Fin { .. } => {},
        PayloadView::Okay => {},
        PayloadView::Fail { .. } => {},
    }
}

/// Reading back the frame that [`encode`] wrote gives the payload.
pub proof fn law_decode_inverts_encode(p: PayloadView)
    requires
        frameable(p),
        digest_sized(p),
    ensures
        parse_frame(frame_bytes(p)) == Some(p),
{
    broadcast use wire::be_bytes_width;

    wire::be_ranges();
    let body = payload_bytes(p);
    let head = unsigned_frame(code_of(kind_of_view(p)), body);
    let bytes = frame_bytes(p);
    let len = bytes.len() - 10;
    assert(len == body.len());
    assert(bytes.take(6 + len) == head);
    assert(head.skip(6) == body);
    assert(bytes.subrange(4, 6) == wire::be_bytes(body.len(), 2));
    assert(bytes.skip(6 + len) == wire::be_bytes(crc32_of(head) as nat, 4));
    wire::be_value_of_bytes(body.len(), 2);
    wire::be_value_of_bytes(crc32_of(head) as nat, 4);
    body_parses(p);
}

/// Two payloads that are framed alike are the same payload.
pub proof fn law_frames_tell_payloads_apart(p: PayloadView, q: PayloadView)
    requires
        frameable(p),
        frameable(q),
        digest_sized(p),
        digest_sized(q),
        frame_bytes(p) == frame_bytes(q),
    ensures
        p == q,
{
    law_decode_inverts_encode(p);
    law_decode_inverts_encode(q);
}

proof fn parsed_body_bytes(kind: u8, body: Seq<u8>)
    requires
        parse_body(kind, body) is Some,
        kind == KIND_PROBE ==> body[4] <= 1,
        body.len() <= u16::MAX,
    ensures
        payload_bytes(parse_body(kind, body)->0) == body,
        code_of(kind_of_view(parse_body(kind, body)->0)) == kind,
        digest_sized(parse_body(kind, body)->0),
{
    broadcast use wire::be_bytes_width;

    wire::be_ranges();
    let p = parse_body(kind, body)->0;
    let written = payload_bytes(p);
    if kind == KIND_PROBE {
        wire::be_bytes_of_value(body.subrange(2, 4));
        assert(written =~= body);
    } else if kind == KIND_LINK {
        wire::be_bytes_of_value(body.subrange(1, 3));
        assert(written =~= body);
    } else if kind == KIND_GO {
        wire::be_bytes_of_value(body.subrange(0, 2));
        let n = wire::be_value(body.subrange(0, 2)) as int;
        let name = body.subrange(2, 2 + n);
        vstd::utf8::decode_utf8_encode_utf8(name);
        wire::be_bytes_of_value(body.subrange(2 + n, 10 + n));
        wire::be_bytes_of_value(body.subrange(10 + n, 18 + n));
        wire::be_bytes_of_value(body.subrange(18 + n, 22 + n));
        assert(written =~= body);
    } else if kind == KIND_DATA {
        wire::be_bytes_of_value(body.subrange(0, 4));
        assert(written =~= body);
    } else if kind == KIND_ACK {
        wire::be_bytes_of_value(body.subrange(0, 4));
        wire::be_bytes_of_value(body.subrange(4, 8));
        assert(written =~= body);
    } else {
        assert(written =~= body);
    }
}

/// A frame that [`decode`] accepts is the one that [`encode`] writes for the
/// payload read from it, except that a PROBE whose `last` byte is neither 0
/// nor 1 is read as "not last" and would be written with a 0.
pub proof fn law_encode_inverts_decode(bytes: Seq<u8>)
    requires
        parse_frame(bytes) is Some,
        bytes[3] == KIND_PROBE ==> bytes[10] <= 1,
    ensures
        frameable(parse_frame(bytes)->0),
        frame_bytes(parse_frame(bytes)->0) == bytes,
{
    broadcast use wire::be_bytes_width;

    wire::be_ranges();
    let len = bytes.len() - 10;
    let head = bytes.take(6 + len);
    let body = head.skip(6);
    wire::be_bytes_of_value(bytes.subrange(4, 6));
    wire::be_bytes_of_value(bytes.skip(6 + len));
    parsed_body_bytes(bytes[3], body);
    assert(unsigned_frame(bytes[3], body) =~= head);
    assert(frame_bytes(parse_frame(bytes)->0) =~= bytes);
}

/// A DATA frame whose chunk is no longer than [`data_chunk_size`] fits the
/// capacity of its QR version, and a full chunk fills that capacity.
pub proof fn law_data_frame_fits(version: u8, seq: u32, chunk: Seq<u8>)
    requires
        chunk_room(version) > 0,
        chunk.len() <= chunk_room(version),
    ensures
        frameable(PayloadView::Data { seq, chunk }),
        frame_bytes(PayloadView::Data { seq, chunk }).len() <= frame_room(version),
        frame_room(version) + 8 == quartile_bytes(version),
        chunk.len() == chunk_room(version) ==> frame_bytes(PayloadView::Data { seq, chunk }).len()
            == frame_room(version),
{
    broadcast use wire::be_bytes_width;

    law_frame_length(PayloadView::Data { seq, chunk });
}

/// The number that names the kind of `p` in its frame.
pub open spec fn kind_number(p: PayloadView) -> u8 {
    match p {
        PayloadView::Hello { .. } => 1,
        PayloadView::Probe { .. } => 2,
        PayloadView::Link { .. } => 3,
        PayloadView::Go { .. } => 4,
        PayloadView::Data { .. } => 5,
        PayloadView::Ack { .. } => 6,
        PayloadView::Fin { .. } => 7,
        PayloadView::Okay => 8,
        PayloadView::Fail { .. } => 9,
    }
}

/// Where each part of a payload stands in its frame, the first byte of which is
/// number 0; the last four are the checksum.
pub open spec fn laid_out(p: PayloadView, frame: Seq<u8>) -> bool {
    let n = frame.len() as int;
    match p {
        PayloadView::Hello { protocol_ver, role } => n == 12 && frame[6] == protocol_ver && frame[7]
            == role,
        PayloadView::Probe { id, qr_version, dwell_ms, last } => n == 15 && frame[6] == id
            && frame[7] == qr_version && wire::be_value(frame.subrange(8, 10)) == dwell_ms
            && frame[10] == (if last {
            1u8
        } else {
            0u8
        }),
        PayloadView::Link { qr_version, dwell_ms, probe_loss } => n == 14 && frame[6] == qr_version
            && wire::be_value(frame.subrange(7, 9)) == dwell_ms && frame[9] == probe_loss,
        PayloadView::Go { basename, uncompressed_hint, compressed_size, chunk_count, sha256 } => {
            let end = n - 56;
            &&& n >= 64
            &&& wire::be_value(frame.subrange(6, 8)) == end - 8
            &&& frame.subrange(8, end) == vstd::utf8::encode_utf8(basename)
            &&& wire::be_value(frame.subrange(end, end + 8)) == uncompressed_hint
            &&& wire::be_value(frame.subrange(end + 8, end + 16)) == compressed_size
            &&& wire::be_value(frame.subrange(end + 16, end + 20)) == chunk_count
            &&& frame.subrange(end + 20, end + 52) == sha256
        },
        PayloadView::Data { seq, chunk } => n >= 14 && wire::be_value(frame.subrange(6, 10)) == seq
            && frame.subrange(10, n - 4) == chunk,
        PayloadView::Ack { window_base, bitmap } => n == 18 && wire::be_value(frame.subrange(6, 10))
            == window_base && wire::be_value(frame.subrange(10, 14)) == bitmap,
        PayloadView::Fin { sha256 } => n == 42 && frame.subrange(6, 38) == sha256,
        PayloadView::Okay => n == 10,
        PayloadView::Fail { reason } => n == 11 && frame[6] == reason,
    }
}

/// What a frame looks like: `AX`, the version 1, the number of its kind, the
/// length of its payload in two bytes, the payload, and in four bytes the CRC-32
/// of all that.
pub proof fn law_what_is_in_a_frame(p: PayloadView)
    requires
        frameable(p),
        digest_sized(p),
    ensures
        ({
            let frame = frame_bytes(p);
            let n = frame.len() as int;
            &&& n >= 10
            &&& frame[0] == 0x41
            &&& frame[1] == 0x58
            &&& frame[2] == 1
            &&& frame[3] == kind_number(p)
            &&& wire::be_value(frame.subrange(4, 6)) == n - 10
            &&& wire::be_value(frame.subrange(n - 4, n)) == crc32_of(frame.take(n - 4))
            &&& laid_out(p, frame)
        }),
{
    broadcast use wire::be_bytes_width;

    wire::be_ranges();
    let frame = frame_bytes(p);
    let n = frame.len() as int;
    let body = payload_bytes(p);
    let head = unsigned_frame(code_of(kind_of_view(p)), body);
    assert(frame.take(n - 4) =~= head);
    assert(frame.subrange(4, 6) =~= wire::be_bytes(body.len(), 2));
    assert(frame.subrange(n - 4, n) =~= wire::be_bytes(crc32_of(head) as nat, 4));
    wire::be_value_of_bytes(body.len(), 2);
    wire::be_value_of_bytes(crc32_of(head) as nat, 4);
    match p {
        PayloadView::Hello { .. } => {},
        PayloadView::Probe { dwell_ms, .. } => {
            wire::be_value_of_bytes(dwell_ms as nat, 2);
            assert(frame.subrange(8, 10) =~= wire::be_bytes(dwell_ms as nat, 2));
        },
        PayloadView::Link { dwell_ms, .. } => {
            wire::be_value_of_bytes(dwell_ms as nat, 2);
            assert(frame.subrange(7, 9) =~= wire::be_bytes(dwell_ms as nat, 2));
        },
        PayloadView::Go { basename, uncompressed_hint, compressed_size, chunk_count, sha256 } => {
            let name = vstd::utf8::encode_utf8(basename);
            let end = n - 56;
            wire::be_value_of_bytes(name.len(), 2);
            wire::be_value_of_bytes(uncompressed_hint as nat, 8);
            wire::be_value_of_bytes(compressed_size as nat, 8);
            wire::be_value_of_bytes(chunk_count as nat, 4);
            assert(frame.subrange(6, 8) =~= wire::be_bytes(name.len(), 2));
            assert(frame.subrange(8, end) =~= name);
            assert(frame.subrange(end, end + 8) =~= wire::be_bytes(uncompressed_hint as nat, 8));
            assert(frame.subrange(end + 8, end + 16) =~= wire::be_bytes(
                compressed_size as nat,
                8,
            ));
            assert(frame.subrange(end + 16, end + 20) =~= wire::be_bytes(chunk_count as nat, 4));
            assert(frame.subrange(end + 20, end + 52) =~= sha256);
        },
        PayloadView::Data { seq, chunk } => {
            wire::be_value_of_bytes(seq as nat, 4);
            assert(frame.subrange(6, 10) =~= wire::be_bytes(seq as nat, 4));
            assert(frame.subrange(10, n - 4) =~= chunk);
        },
        PayloadView::Ack { window_base, bitmap } => {
            wire::be_value_of_bytes(window_base as nat, 4);
            wire::be_value_of_bytes(bitmap as nat, 4);
            assert(frame.subrange(6, 10) =~= wire::be_bytes(window_base as nat, 4));
            assert(frame.subrange(10, 14) =~= wire::be_bytes(bitmap as nat, 4));
        },
        PayloadView::Fin { sha256 } => {
            assert(frame.subrange(6, 38) =~= sha256);
        },
        PayloadView::Okay => {},
        PayloadView::Fail { .. } => {},
    }
}

/// Only a chunk or a name can be too long for a frame, and only beyond what its
/// length field can say.
pub proof fn law_what_fits_a_frame(p: PayloadView)
    requires
        digest_sized(p),
    ensures
        frameable(p) <==> match p {
            PayloadView::Go { basename, .. } => vstd::utf8::encode_utf8(basename).len() <= 65481,
            PayloadView::Data { chunk, .. } => chunk.len() <= 65531,
            _ => true,
        },
{
    broadcast use wire::be_bytes_width;

}

/// Bytes that are no frame are read as none: whatever is read has the magic, the
/// version, a known kind, the length it says, and the checksum of its bytes.
pub proof fn law_what_is_no_frame(bytes: Seq<u8>)
    requires
        parse_frame(bytes) is Some,
    ensures
        ({
            let n = bytes.len() as int;
            &&& n >= 10
            &&& bytes[0] == 0x41
            &&& bytes[1] == 0x58
            &&& bytes[2] == 1
            &&& bytes[3] == kind_number(parse_frame(bytes)->0)
            &&& wire::be_value(bytes.subrange(4, 6)) == n - 10
            &&& wire::be_value(bytes.subrange(n - 4, n)) == crc32_of(bytes.take(n - 4))
        }),
{
    let n = bytes.len() as int;
    assert(bytes.subrange(n - 4, n) =~= bytes.skip(n - 4));
}

/// A PROBE is flagged as the last by a 1, and by nothing else.
pub proof fn law_what_flags_a_probe(bytes: Seq<u8>)
    requires
        parse_frame(bytes) is Some,
        bytes[3] == 2,
    ensures
        bytes.len() == 15,
        parse_frame(bytes) == Some(
            PayloadView::Probe {
                id: bytes[6],
                qr_version: bytes[7],
                dwell_ms: wire::be_value(bytes.subrange(8, 10)) as u16,
                last: bytes[10] == 1,
            },
        ),
{
    let body = bytes.take(bytes.len() - 4).skip(6);
    assert(body.subrange(2, 4) =~= bytes.subrange(8, 10));
}

/// A full DATA frame of each version carries so many bytes of the file; of no
/// other version any. That is what the version holds at quartile error
/// correction, less 8 bytes of headroom, the 10 of the envelope, and the 4 of the
/// chunk's number.
pub proof fn law_what_each_version_carries(version: u8)
    ensures
        version == 10 ==> chunk_room(version) == 151 - 22,
        version == 15 ==> chunk_room(version) == 292 - 22,
        version == 20 ==> chunk_room(version) == 482 - 22,
        version == 25 ==> chunk_room(version) == 715 - 22,
        version == 30 ==> chunk_room(version) == 982 - 22,
        version == 40 ==> chunk_room(version) == 1663 - 22,
        chunk_room(version) > 0 ==> frame_room(version) == chunk_room(version) + 14,
        chunk_room(version) > 0 <==> version == 10 || version == 15 || version == 20 || version
            == 25 || version == 30 || version == 40,
        chunk_room(version) == 0 ==> frame_room(version) == 0,
{
}

} // verus!
