//! Media framing: QUIC variable-length integers (RFC 9000, section 16), MoQ
//! SUBGROUP_HEADER streams, MoQ objects with LOC extension headers, and audio
//! datagrams.
//!
//! Readers work on the bytes received so far. They either deliver a value and
//! the number of bytes it took, or say how many more bytes to fetch.
use crate::pool::{bytes_content, BufPool, SharedBuf};
use crate::wire::{
    append_bytes, be_bytes, be_value, lemma_be_bytes_len, lemma_be_digits, lemma_be_roundtrip,
    lemma_be_value_small, pow256,
};
use vstd::prelude::*;
use vstd::slice::slice_subrange;

verus! {

/// MoQ SUBGROUP_HEADER stream type tag.
pub const STREAM_TYPE_SUBGROUP: u64 = 0x4;

/// Track alias of audio (used in place of MoQ track_alias).
pub const TRACK_AUDIO: u64 = 0;

/// Track alias of video.
pub const TRACK_VIDEO: u64 = 1;

/// Publisher priority of audio (MoQ: lower = more important).
pub const PRIORITY_AUDIO: u8 = 0;

/// Publisher priority of video.
pub const PRIORITY_VIDEO: u8 = 1;

/// QUIC stream priority of audio (higher = more important).
pub const QUIC_PRIORITY_AUDIO: i32 = 1;

/// QUIC stream priority of video.
pub const QUIC_PRIORITY_VIDEO: i32 = 0;

/// LOC extension header type for Capture Timestamp.
pub const LOC_EXT_CAPTURE_TIMESTAMP: u64 = 2;

/// LOC extension header type for Codec identifier.
pub const LOC_EXT_CODEC: u64 = 4;

/// Longest extension block that a reader accepts, in bytes.
pub const MAX_EXTENSION_LEN: u64 = 64;

/// Status of an object that exists and has no payload.
pub const OBJECT_STATUS_NORMAL: u64 = 0;

/// Codec identifiers carried in the Codec extension.
#[derive(Debug, Clone, Copy, PartialEq, Eq, Structural)]
pub enum Codec {
    Av1,
    Hevc,
}

impl Codec {
    /// The number that stands for this codec on the wire.
    pub open spec fn id(self) -> u64 {
        match self {
            Codec::Av1 => 0,
            Codec::Hevc => 1,
        }
    }

    /// The codec with the number `v`, if there is one.
    pub open spec fn of_id(v: u64) -> Option<Codec> {
        if v == 0 {
            Some(Codec::Av1)
        } else if v == 1 {
            Some(Codec::Hevc)
        } else {
            None
        }
    }

    pub fn from_u64(v: u64) -> (codec: Option<Codec>)
        ensures
            codec == Codec::of_id(v),
    {
        if v == 0 {
            Some(Codec::Av1)
        } else if v == 1 {
            Some(Codec::Hevc)
        } else {
            None
        }
    }

    /// The number that stands for this codec on the wire.
    pub fn to_u64(self) -> (v: u64)
        ensures
            v == self.id(),
    {
        match self {
            Codec::Av1 => 0,
            Codec::Hevc => 1,
        }
    }
}

/// What is wrong with received bytes.
#[derive(Debug, Clone, Copy, PartialEq, Eq, Structural)]
pub enum ProtocolError {
    /// A varint was expected where the bytes end.
    UnexpectedEnd,
    /// The bytes end inside a varint.
    VarintTruncated,
    /// An extension header claims more bytes than there are.
    ExtensionTruncated,
    /// The extension block claims this many bytes, which is too many.
    ExtensionsTooLarge(u64),
    /// The stream starts with this type instead of SUBGROUP_HEADER.
    NotSubgroupHeader(u64),
}

/// What a reader makes of the bytes received so far.
#[derive(Debug)]
pub enum Read<T> {
    /// A complete value, held by the first `used` bytes.
    Done { value: T, used: usize },
    /// At least `need` more bytes are missing.
    More { need: u64 },
}

// ---------------------------------------------------------------------------
// Varints
// ---------------------------------------------------------------------------

/// First value that does not fit in a varint.
pub const VARINT_LIMIT: u64 = 0x4000_0000_0000_0000;

/// Size of a varint, told by its first byte.
pub open spec fn varint_size(first: u8) -> nat {
    if first < 0x40 {
        1
    } else if first < 0x80 {
        2
    } else if first < 0xC0 {
        4
    } else {
        8
    }
}

/// How many values a varint of `n` bytes can tell apart.
pub open spec fn varint_range(n: nat) -> nat {
    if n == 1 {
        0x40
    } else if n == 2 {
        0x4000
    } else if n == 4 {
        0x4000_0000
    } else {
        0x4000_0000_0000_0000
    }
}

/// The varint at the front of `s`: its value and its size. `None` if `s` ends
/// before the varint does.
pub open spec fn parse_varint(s: Seq<u8>) -> Option<(u64, nat)> {
    if s.len() == 0 || s.len() < varint_size(s[0]) {
        None
    } else {
        let n = varint_size(s[0]);
        Some(((be_value(s.take(n as int)) % varint_range(n)) as u64, n))
    }
}

/// How many bytes are missing at least, where `parse_varint(s)` is `None`.
pub open spec fn varint_missing(s: Seq<u8>) -> nat {
    if s.len() == 0 {
        1
    } else {
        (varint_size(s[0]) - s.len()) as nat
    }
}

/// The error of a slice that holds no complete varint.
pub open spec fn varint_error(s: Seq<u8>) -> ProtocolError {
    if s.len() == 0 {
        ProtocolError::UnexpectedEnd
    } else {
        ProtocolError::VarintTruncated
    }
}

/// The shortest varint of `v`. A value of [`VARINT_LIMIT`] or more loses its
/// two top bits.
pub open spec fn varint_bytes(v: u64) -> Seq<u8> {
    if v < 0x40 {
        seq![v as u8]
    } else if v < 0x4000 {
        be_bytes((v + 0x4000) as nat, 2)
    } else if v < 0x4000_0000 {
        be_bytes((v + 0x8000_0000) as nat, 4)
    } else {
        be_bytes((v % 0x4000_0000_0000_0000 + 0xC000_0000_0000_0000) as nat, 8)
    }
}

/// Law: what [`encode_varint`] writes, a reader reads back, whatever follows it.
pub proof fn law_varint_roundtrip(v: u64, rest: Seq<u8>)
    requires
        v < VARINT_LIMIT,
    ensures
        parse_varint(varint_bytes(v) + rest) == Some((v, varint_bytes(v).len())),
{
    let s = varint_bytes(v) + rest;
    reveal_with_fuel(pow256, 9);
    if v < 0x40 {
        assert(s.take(1) =~= varint_bytes(v));
        lemma_be_value_small(s.take(1));
    } else if v < 0x4000 {
        let w = (v + 0x4000) as u64;
        lemma_be_digits(w);
        lemma_be_roundtrip(w as nat, 2);
        assert(s.take(2) =~= varint_bytes(v));
        assert(s[0] == w / 0x100);
    } else if v < 0x4000_0000 {
        let w = (v + 0x8000_0000) as u64;
        lemma_be_digits(w);
        lemma_be_roundtrip(w as nat, 4);
        assert(s.take(4) =~= varint_bytes(v));
        assert(s[0] == w / 0x100_0000);
    } else {
        let w = (v % 0x4000_0000_0000_0000 + 0xC000_0000_0000_0000) as u64;
        lemma_be_digits(w);
        lemma_be_roundtrip(w as nat, 8);
        assert(s.take(8) =~= varint_bytes(v));
        assert(s[0] == w / 0x100_0000_0000_0000);
    }
}

/// Encode a u64 as a QUIC varint into a stack buffer.
/// Returns `(bytes, len)` where `bytes[..len]` is the encoded varint.
pub fn encode_varint(val: u64) -> (r: ([u8; 8], usize))
    ensures
        1 <= r.1 <= 8,
        r.0@.take(r.1 as int) == varint_bytes(val),
        forall|i: int| r.1 <= i < 8 ==> r.0@[i] == 0,
{
    if val <= 0x3F {
        let buf: [u8; 8] = [val as u8, 0, 0, 0, 0, 0, 0, 0];
        assert(buf@.take(1) =~= varint_bytes(val));
        (buf, 1)
    } else if val <= 0x3FFF {
        let v: u64 = val + 0x4000;
        let buf: [u8; 8] = [((v / 0x100) % 0x100) as u8, (v % 0x100) as u8, 0, 0, 0, 0, 0, 0];
        proof {
            lemma_be_digits(v);
        }
        assert(buf@.take(2) =~= varint_bytes(val));
        (buf, 2)
    } else if val <= 0x3FFF_FFFF {
        let v: u64 = val + 0x8000_0000;
        let buf: [u8; 8] = [
            ((v / 0x100_0000) % 0x100) as u8,
            ((v / 0x1_0000) % 0x100) as u8,
            ((v / 0x100) % 0x100) as u8,
            (v % 0x100) as u8,
            0,
            0,
            0,
            0,
        ];
        proof {
            lemma_be_digits(v);
        }
        assert(buf@.take(4) =~= varint_bytes(val));
        (buf, 4)
    } else {
        let v: u64 = val % 0x4000_0000_0000_0000 + 0xC000_0000_0000_0000;
        let buf: [u8; 8] = [
            ((v / 0x100_0000_0000_0000) % 0x100) as u8,
            ((v / 0x1_0000_0000_0000) % 0x100) as u8,
            ((v / 0x100_0000_0000) % 0x100) as u8,
            ((v / 0x1_0000_0000) % 0x100) as u8,
            ((v / 0x100_0000) % 0x100) as u8,
            ((v / 0x1_0000) % 0x100) as u8,
            ((v / 0x100) % 0x100) as u8,
            (v % 0x100) as u8,
        ];
        proof {
            lemma_be_digits(v);
        }
        assert(buf@.take(8) =~= varint_bytes(val));
        (buf, 8)
    }
}

/// Append a QUIC varint to `out`.
pub fn write_varint(out: &mut Vec<u8>, val: u64)
    ensures
        final(out)@ == old(out)@ + varint_bytes(val),
{
    let (buf, len) = encode_varint(val);
    append_bytes(out, slice_subrange(buf.as_slice(), 0, len));
    proof {
        assert(buf@.subrange(0, len as int) =~= buf@.take(len as int));
    }
}

/// Read a QUIC varint from the front of the bytes received so far.
pub fn read_varint(data: &[u8]) -> (r: Read<u64>)
    ensures
        match parse_varint(data@) {
            Some((v, n)) => r matches Read::Done { value, used } && value == v && used == n,
            None => r matches Read::More { need } && need == varint_missing(data@),
        },
{
    if data.len() == 0 {
        return Read::More { need: 1 };
    }
    let first: u8 = data[0];
    let n: usize = if first < 0x40 {
        1
    } else if first < 0x80 {
        2
    } else if first < 0xC0 {
        4
    } else {
        8
    };
    if data.len() < n {
        return Read::More { need: (n - data.len()) as u64 };
    }
    let high: u64 = (first % 0x40) as u64;
    proof {
        lemma_be_value_small(data@.take(n as int));
    }
    let value: u64 = if n == 1 {
        high
    } else if n == 2 {
        high * 0x100 + data[1] as u64
    } else if n == 4 {
        high * 0x100_0000 + data[1] as u64 * 0x1_0000 + data[2] as u64 * 0x100 + data[3] as u64
    } else {
        high * 0x100_0000_0000_0000 + data[1] as u64 * 0x1_0000_0000_0000 + data[2] as u64
            * 0x100_0000_0000 + data[3] as u64 * 0x1_0000_0000 + data[4] as u64 * 0x100_0000
            + data[5] as u64 * 0x1_0000 + data[6] as u64 * 0x100 + data[7] as u64
    };
    Read::Done { value, used: n }
}

/// Decode a QUIC varint from the front of a byte slice, returning
/// `(value, remaining)`.
pub fn decode_varint_from_slice(data: &[u8]) -> (r: Result<(u64, &[u8]), ProtocolError>)
    ensures
        match parse_varint(data@) {
            Some((v, n)) => r matches Ok((value, rest)) && value == v && rest@ == data@.skip(n as int),
            None => r matches Err(e) && e == varint_error(data@),
        },
{
    match read_varint(data) {
        Read::Done { value, used } => {
            let rest = slice_subrange(data, used, data.len());
            proof {
                assert(rest@ =~= data@.skip(used as int));
            }
            Ok((value, rest))
        },
        Read::More { need: _ } => {
            if data.len() == 0 {
                Err(ProtocolError::UnexpectedEnd)
            } else {
                Err(ProtocolError::VarintTruncated)
            }
        },
    }
}

// ---------------------------------------------------------------------------
// Subgroup headers
// ---------------------------------------------------------------------------
/// Subgroup header fields (after reading from a stream).
#[derive(Debug, Clone, Copy, PartialEq, Eq, Structural)]
pub struct SubgroupHeader {
    pub track_alias: u64,
    pub group_id: u64,
    pub subgroup_id: u64,
    pub publisher_priority: u8,
}

impl SubgroupHeader {
    /// Whether every field fits on the wire without loss.
    pub open spec fn fits(self) -> bool {
        self.track_alias < VARINT_LIMIT && self.group_id < VARINT_LIMIT && self.subgroup_id
            < VARINT_LIMIT
    }

    /// The header on the wire.
    pub open spec fn bytes(self) -> Seq<u8> {
        varint_bytes(STREAM_TYPE_SUBGROUP) + varint_bytes(self.track_alias) + varint_bytes(
            self.group_id,
        ) + varint_bytes(self.subgroup_id) + seq![self.publisher_priority]
    }
}

/// What can be made of the varint that starts at offset `at` of `s`.
pub open spec fn varint_at(s: Seq<u8>, at: nat) -> Read<u64> {
    match parse_varint(s.skip(at as int)) {
        Some((v, n)) => Read::Done { value: v, used: (at + n) as usize },
        None => Read::More { need: varint_missing(s.skip(at as int)) as u64 },
    }
}

/// What can be made of a subgroup stream of which `s` has arrived.
pub open spec fn subgroup_header_of(s: Seq<u8>) -> Result<Read<SubgroupHeader>, ProtocolError> {
    match varint_at(s, 0) {
        Read::More { need } => Ok(Read::More { need }),
        Read::Done { value: stream_type, used: a } => if stream_type != STREAM_TYPE_SUBGROUP {
            Err(ProtocolError::NotSubgroupHeader(stream_type))
        } else {
            match varint_at(s, a as nat) {
                Read::More { need } => Ok(Read::More { need }),
                Read::Done { value: track_alias, used: b } => match varint_at(s, b as nat) {
                    Read::More { need } => Ok(Read::More { need }),
                    Read::Done { value: group_id, used: c } => match varint_at(s, c as nat) {
                        Read::More { need } => Ok(Read::More { need }),
                        Read::Done { value: subgroup_id, used: d } => if s.len() <= d {
                            Ok(Read::More { need: 1 })
                        } else {
                            Ok(
                                Read::Done {
                                    value: SubgroupHeader {
                                        track_alias,
                                        group_id,
                                        subgroup_id,
                                        publisher_priority: s[d as int],
                                    },
                                    used: (d + 1) as usize,
                                },
                            )
                        },
                    },
                },
            }
        },
    }
}

/// The varint at offset `at`; `used` counts from the front of `data`.
fn read_varint_at(data: &[u8], at: usize) -> (r: Read<u64>)
    requires
        at <= data@.len(),
    ensures
        r == varint_at(data@, at as nat),
        r matches Read::Done { value, used } ==> at < used <= data@.len() && value < VARINT_LIMIT,
{
    let rest = slice_subrange(data, at, data.len());
    proof {
        assert(rest@ =~= data@.skip(at as int));
    }
    match read_varint(rest) {
        Read::Done { value, used } => Read::Done { value, used: at + used },
        Read::More { need } => Read::More { need },
    }
}

/// Append a SUBGROUP_HEADER to `out`.
pub fn write_subgroup_header(
    out: &mut Vec<u8>,
    track_alias: u64,
    group_id: u64,
    subgroup_id: u64,
    publisher_priority: u8,
)
    ensures
        final(out)@ == old(out)@ + (SubgroupHeader {
            track_alias,
            group_id,
            subgroup_id,
            publisher_priority,
        }).bytes(),
{
    let ghost before = out@;
    write_varint(out, STREAM_TYPE_SUBGROUP);
    write_varint(out, track_alias);
    write_varint(out, group_id);
    write_varint(out, subgroup_id);
    out.push(publisher_priority);
    proof {
        let h = SubgroupHeader { track_alias, group_id, subgroup_id, publisher_priority };
        assert(out@ =~= before + h.bytes());
    }
}

/// Read a SUBGROUP_HEADER from the bytes received so far.
/// Validates that the stream type is SUBGROUP_HEADER.
pub fn read_subgroup_header(data: &[u8]) -> (r: Result<Read<SubgroupHeader>, ProtocolError>)
    ensures
        r == subgroup_header_of(data@),
{
    let a: usize = match read_varint_at(data, 0) {
        Read::More { need } => {
            return Ok(Read::More { need });
        },
        Read::Done { value, used } => {
            if value != STREAM_TYPE_SUBGROUP {
                return Err(ProtocolError::NotSubgroupHeader(value));
            }
            used
        },
    };
    let (track_alias, b) = match read_varint_at(data, a) {
        Read::More { need } => {
            return Ok(Read::More { need });
        },
        Read::Done { value, used } => (value, used),
    };
    let (group_id, c) = match read_varint_at(data, b) {
        Read::More { need } => {
            return Ok(Read::More { need });
        },
        Read::Done { value, used } => (value, used),
    };
    let (subgroup_id, d) = match read_varint_at(data, c) {
        Read::More { need } => {
            return Ok(Read::More { need });
        },
        Read::Done { value, used } => (value, used),
    };
    if data.len() <= d {
        return Ok(Read::More { need: 1 });
    }
    Ok(
        Read::Done {
            value: SubgroupHeader {
                track_alias,
                group_id,
                subgroup_id,
                publisher_priority: data[d],
            },
            used: d + 1,
        },
    )
}

/// A varint written at offset `at` is read there.
proof fn lemma_varint_at(s: Seq<u8>, at: nat, v: u64, rest: Seq<u8>)
    requires
        v < VARINT_LIMIT,
        at <= s.len() <= usize::MAX,
        s.skip(at as int) == varint_bytes(v) + rest,
    ensures
        varint_at(s, at) == (Read::Done { value: v, used: (at + varint_bytes(v).len()) as usize }),
        at + varint_bytes(v).len() <= s.len(),
        s.skip((at + varint_bytes(v).len()) as int) == rest,
{
    law_varint_roundtrip(v, rest);
    let n = varint_bytes(v).len();
    assert(s.skip(at as int).len() == n + rest.len());
    assert(s.skip((at + n) as int) =~= s.skip(at as int).skip(n as int));
    assert((varint_bytes(v) + rest).skip(n as int) =~= rest);
}

/// A subgroup header takes between five and 33 bytes.
pub proof fn lemma_subgroup_header_len(h: SubgroupHeader)
    ensures
        5 <= h.bytes().len() <= 33,
{
    lemma_varint_bytes_len(STREAM_TYPE_SUBGROUP);
    lemma_varint_bytes_len(h.track_alias);
    lemma_varint_bytes_len(h.group_id);
    lemma_varint_bytes_len(h.subgroup_id);
}

/// Law: a subgroup header that was written is read back, and the reader stops
/// right behind it.
pub proof fn law_subgroup_header_roundtrip(h: SubgroupHeader, rest: Seq<u8>)
    requires
        h.fits(),
        h.bytes().len() + rest.len() <= usize::MAX,
    ensures
        subgroup_header_of(h.bytes() + rest) == Ok::<_, ProtocolError>(
            Read::Done { value: h, used: h.bytes().len() as usize },
        ),
{
    let s = h.bytes() + rest;
    let t4 = seq![h.publisher_priority] + rest;
    let t3 = varint_bytes(h.subgroup_id) + t4;
    let t2 = varint_bytes(h.group_id) + t3;
    let t1 = varint_bytes(h.track_alias) + t2;
    assert(s.skip(0) =~= varint_bytes(STREAM_TYPE_SUBGROUP) + t1);
    lemma_varint_at(s, 0, STREAM_TYPE_SUBGROUP, t1);
    let a = varint_bytes(STREAM_TYPE_SUBGROUP).len();
    lemma_varint_at(s, a, h.track_alias, t2);
    let b = a + varint_bytes(h.track_alias).len();
    lemma_varint_at(s, b, h.group_id, t3);
    let c = b + varint_bytes(h.group_id).len();
    lemma_varint_at(s, c, h.subgroup_id, t4);
    let d = c + varint_bytes(h.subgroup_id).len();
    assert(s[d as int] == s.skip(d as int)[0]);
}

// ---------------------------------------------------------------------------
// Objects with LOC extensions
// ---------------------------------------------------------------------------
//
// On-wire layout per object within a subgroup stream:
//
//   Object ID (varint)
//   Extension Headers Length (varint)
//   [Extension Headers (...)]
//   Object Payload Length (varint)
//   [Object Status (varint)]   only if payload length is 0
//   Object Payload (..)
//
// Even-typed extensions use: Header Type (varint) + Header Value (varint).
/// The extension block: Capture Timestamp, then Codec where there is one.
pub open spec fn extension_bytes(capture_timestamp_us: u64, codec: Option<Codec>) -> Seq<u8> {
    varint_bytes(LOC_EXT_CAPTURE_TIMESTAMP) + varint_bytes(capture_timestamp_us) + (match codec {
        Some(c) => varint_bytes(LOC_EXT_CODEC) + varint_bytes(c.id()),
        None => Seq::empty(),
    })
}

/// The payload length of an object, and the status that goes with a length of
/// zero.
pub open spec fn length_bytes(len: nat) -> Seq<u8> {
    if len == 0 {
        varint_bytes(0) + varint_bytes(OBJECT_STATUS_NORMAL)
    } else {
        varint_bytes(len as u64)
    }
}

/// One object on the wire.
pub open spec fn object_bytes(
    object_id: u64,
    capture_timestamp_us: u64,
    codec: Option<Codec>,
    payload: Seq<u8>,
) -> Seq<u8> {
    let ext = extension_bytes(capture_timestamp_us, codec);
    varint_bytes(object_id) + varint_bytes(ext.len() as u64) + ext + length_bytes(payload.len())
        + payload
}

/// Build the serialised extension headers block (Capture Timestamp + Codec).
pub fn build_extension_headers(capture_timestamp_us: u64, codec: Option<Codec>) -> (ext: Vec<u8>)
    ensures
        ext@ == extension_bytes(capture_timestamp_us, codec),
        ext@.len() <= 32,
{
    let mut ext: Vec<u8> = Vec::with_capacity(32);
    write_varint(&mut ext, LOC_EXT_CAPTURE_TIMESTAMP);
    write_varint(&mut ext, capture_timestamp_us);
    proof {
        lemma_varint_bytes_len(LOC_EXT_CAPTURE_TIMESTAMP);
        lemma_varint_bytes_len(capture_timestamp_us);
    }
    match codec {
        Some(c) => {
            let id: u64 = c.to_u64();
            write_varint(&mut ext, LOC_EXT_CODEC);
            write_varint(&mut ext, id);
            proof {
                lemma_varint_bytes_len(LOC_EXT_CODEC);
                lemma_varint_bytes_len(id);
            }
        },
        None => {},
    }
    assert(ext@ =~= extension_bytes(capture_timestamp_us, codec));
    ext
}

pub proof fn lemma_varint_bytes_len(v: u64)
    ensures
        1 <= varint_bytes(v).len() <= 8,
{
    lemma_be_bytes_len((v + 0x4000) as nat, 2);
    lemma_be_bytes_len((v + 0x8000_0000) as nat, 4);
    lemma_be_bytes_len((v % 0x4000_0000_0000_0000 + 0xC000_0000_0000_0000) as nat, 8);
}

/// Append one object with LOC Capture Timestamp and optional Codec extension.
/// An object without a payload carries a status behind its payload length.
pub fn write_object(
    out: &mut Vec<u8>,
    object_id: u64,
    capture_timestamp_us: u64,
    codec: Option<Codec>,
    payload: &[u8],
)
    ensures
        final(out)@ == old(out)@ + object_bytes(object_id, capture_timestamp_us, codec, payload@),
{
    let ghost before = out@;
    write_varint(out, object_id);
    let ext = build_extension_headers(capture_timestamp_us, codec);
    write_varint(out, ext.len() as u64);
    append_bytes(out, ext.as_slice());
    write_varint(out, payload.len() as u64);
    if payload.len() == 0 {
        write_varint(out, OBJECT_STATUS_NORMAL);
    }
    append_bytes(out, payload);
    assert(out@ =~= before + object_bytes(object_id, capture_timestamp_us, codec, payload@));
}

/// Parsed extension header values.
#[derive(Debug, Clone, Copy, PartialEq, Eq, Structural)]
pub struct ExtensionValues {
    pub capture_timestamp_us: u64,
    pub codec: Option<Codec>,
}

/// The values that the extension block `s` carries on top of `vals`: the last
/// header of a known type counts, unknown headers are skipped.
pub open spec fn extensions_of(s: Seq<u8>, vals: ExtensionValues) -> Result<
    ExtensionValues,
    ProtocolError,
>
    decreases s.len(),
{
    if s.len() == 0 {
        Ok(vals)
    } else {
        match parse_varint(s) {
            None => Err(varint_error(s)),
            Some((header_type, n)) => {
                let rest = s.skip(n as int);
                match parse_varint(rest) {
                    None => Err(varint_error(rest)),
                    Some((value, m)) => {
                        let tail = rest.skip(m as int);
                        if header_type % 2 == 0 {
                            extensions_of(
                                tail,
                                if header_type == LOC_EXT_CAPTURE_TIMESTAMP {
                                    ExtensionValues { capture_timestamp_us: value, ..vals }
                                } else if header_type == LOC_EXT_CODEC {
                                    ExtensionValues { codec: Codec::of_id(value), ..vals }
                                } else {
                                    vals
                                },
                            )
                        } else if tail.len() < value {
                            Err(ProtocolError::ExtensionTruncated)
                        } else {
                            extensions_of(tail.skip(value as int), vals)
                        }
                    },
                }
            },
        }
    }
}

/// The values of an object without extensions.
pub open spec fn no_extensions() -> ExtensionValues {
    ExtensionValues { capture_timestamp_us: 0, codec: None }
}

/// Parse extension headers from a byte slice, extracting known LOC extensions.
/// Unknown extensions are skipped.
pub fn parse_extension_headers(data: &[u8]) -> (r: Result<ExtensionValues, ProtocolError>)
    ensures
        r == extensions_of(data@, no_extensions()),
{
    let mut vals = ExtensionValues { capture_timestamp_us: 0, codec: None };
    let mut left = data;
    while left.len() != 0
        invariant
            extensions_of(data@, no_extensions()) == extensions_of(left@, vals),
        decreases left@.len(),
    {
        let (header_type, rest) = match decode_varint_from_slice(left) {
            Ok(x) => x,
            Err(e) => {
                return Err(e);
            },
        };
        let (value, tail) = match decode_varint_from_slice(rest) {
            Ok(x) => x,
            Err(e) => {
                return Err(e);
            },
        };
        if header_type % 2 == 0 {
            if header_type == LOC_EXT_CAPTURE_TIMESTAMP {
                vals.capture_timestamp_us = value;
            } else if header_type == LOC_EXT_CODEC {
                vals.codec = Codec::from_u64(value);
            }
            left = tail;
        } else {
            if (tail.len() as u64) < value {
                return Err(ProtocolError::ExtensionTruncated);
            }
            let next = slice_subrange(tail, value as usize, tail.len());
            proof {
                assert(next@ =~= tail@.skip(value as int));
            }
            left = next;
        }
    }
    Ok(vals)
}

/// The fields of an object that come before its payload.
#[derive(Debug, Clone, Copy, PartialEq, Eq, Structural)]
pub struct ObjectHeader {
    pub object_id: u64,
    pub capture_timestamp_us: u64,
    pub codec: Option<Codec>,
    pub payload_len: u64,
}

/// What follows the extension block, which ends at offset `at`.
pub open spec fn object_header_tail(
    s: Seq<u8>,
    at: nat,
    object_id: u64,
    exts: ExtensionValues,
) -> Read<ObjectHeader> {
    match varint_at(s, at) {
        Read::More { need } => Read::More { need },
        Read::Done { value: payload_len, used: c } => {
            let header = ObjectHeader {
                object_id,
                capture_timestamp_us: exts.capture_timestamp_us,
                codec: exts.codec,
                payload_len,
            };
            if payload_len != 0 {
                Read::Done { value: header, used: c }
            } else {
                match varint_at(s, c as nat) {
                    Read::More { need } => Read::More { need },
                    Read::Done { value: _, used: d } => Read::Done { value: header, used: d },
                }
            }
        },
    }
}

/// What can be made of an object of which `s` has arrived, up to its payload.
/// The status that follows a payload length of zero is read and discarded.
pub open spec fn object_header_of(s: Seq<u8>) -> Result<Read<ObjectHeader>, ProtocolError> {
    match varint_at(s, 0) {
        Read::More { need } => Ok(Read::More { need }),
        Read::Done { value: object_id, used: a } => match varint_at(s, a as nat) {
            Read::More { need } => Ok(Read::More { need }),
            Read::Done { value: ext_len, used: b } => if ext_len > MAX_EXTENSION_LEN {
                Err(ProtocolError::ExtensionsTooLarge(ext_len))
            } else if s.len() < b + ext_len {
                Ok(Read::More { need: (b + ext_len - s.len()) as u64 })
            } else {
                match extensions_of(s.subrange(b as int, b + ext_len), no_extensions()) {
                    Err(e) => Err(e),
                    Ok(exts) => Ok(object_header_tail(s, (b + ext_len) as nat, object_id, exts)),
                }
            },
        },
    }
}

/// Read the fields of an object that come before its payload.
pub fn read_object_header(data: &[u8]) -> (r: Result<Read<ObjectHeader>, ProtocolError>)
    ensures
        r == object_header_of(data@),
        r matches Ok(Read::Done { value, used }) ==> used <= data@.len() && value.payload_len
            < VARINT_LIMIT,
{
    let (object_id, a) = match read_varint_at(data, 0) {
        Read::More { need } => {
            return Ok(Read::More { need });
        },
        Read::Done { value, used } => (value, used),
    };
    let (ext_len, b) = match read_varint_at(data, a) {
        Read::More { need } => {
            return Ok(Read::More { need });
        },
        Read::Done { value, used } => (value, used),
    };
    if ext_len > MAX_EXTENSION_LEN {
        return Err(ProtocolError::ExtensionsTooLarge(ext_len));
    }
    if data.len() - b < ext_len as usize {
        return Ok(Read::More { need: ext_len - (data.len() - b) as u64 });
    }
    let ext_end: usize = b + ext_len as usize;
    let exts = match parse_extension_headers(slice_subrange(data, b, ext_end)) {
        Ok(x) => x,
        Err(e) => {
            return Err(e);
        },
    };
    let (payload_len, c) = match read_varint_at(data, ext_end) {
        Read::More { need } => {
            return Ok(Read::More { need });
        },
        Read::Done { value, used } => (value, used),
    };
    let header = ObjectHeader {
        object_id,
        capture_timestamp_us: exts.capture_timestamp_us,
        codec: exts.codec,
        payload_len,
    };
    if payload_len != 0 {
        return Ok(Read::Done { value: header, used: c });
    }
    match read_varint_at(data, c) {
        Read::More { need } => Ok(Read::More { need }),
        Read::Done { value: _, used } => Ok(Read::Done { value: header, used }),
    }
}

/// Parsed fields from a single MoQ object.
pub struct ObjectData {
    pub object_id: u64,
    pub capture_timestamp_us: u64,
    pub codec: Option<Codec>,
    pub payload: SharedBuf<u8>,
}

impl ObjectData {
    /// Whether this object has the fields of `header` and the payload `payload`.
    pub open spec fn holds(self, header: ObjectHeader, payload: Seq<u8>) -> bool {
        &&& self.object_id == header.object_id
        &&& self.capture_timestamp_us == header.capture_timestamp_us
        &&& self.codec == header.codec
        &&& self.payload@ == payload
    }
}

/// Read one MoQ object (with extension headers) from the bytes received so far.
///
/// The payload is copied into a buffer from `payload_pool`, eliminating
/// per-frame heap allocations in steady state. A stream that ends before the
/// first byte of an object has no more objects.
pub fn read_object(data: &[u8], payload_pool: &BufPool<u8>) -> (r: Result<
    Read<ObjectData>,
    ProtocolError,
>)
    ensures
        match object_header_of(data@) {
            Err(e) => r == Err::<Read<ObjectData>, ProtocolError>(e),
            Ok(Read::More { need }) => r matches Ok(Read::More { need: n }) && n == need,
            Ok(Read::Done { value: h, used: at }) => if data@.len() - at < h.payload_len {
                r matches Ok(Read::More { need: n }) && n == h.payload_len - (data@.len() - at)
            } else {
                &&& r matches Ok(Read::Done { value, used })
                &&& used == at + h.payload_len
                &&& value.holds(h, data@.subrange(at as int, at + h.payload_len))
            },
        },
{
    match read_object_header(data) {
        Err(e) => Err(e),
        Ok(Read::More { need }) => Ok(Read::More { need }),
        Ok(Read::Done { value: h, used: at }) => {
            let present: u64 = (data.len() - at) as u64;
            if present < h.payload_len {
                return Ok(Read::More { need: h.payload_len - present });
            }
            let end: usize = at + h.payload_len as usize;
            let mut buf = payload_pool.checkout_empty();
            buf.push_slice(slice_subrange(data, at, end));
            let payload = buf.share();
            proof {
                assert(payload@ =~= data@.subrange(at as int, end as int));
            }
            Ok(
                Read::Done {
                    value: ObjectData {
                        object_id: h.object_id,
                        capture_timestamp_us: h.capture_timestamp_us,
                        codec: h.codec,
                        payload,
                    },
                    used: end,
                },
            )
        },
    }
}

/// The block that [`build_extension_headers`] builds carries its two values.
proof fn lemma_extensions_roundtrip(capture_timestamp_us: u64, codec: Option<Codec>)
    requires
        capture_timestamp_us < VARINT_LIMIT,
    ensures
        extensions_of(extension_bytes(capture_timestamp_us, codec), no_extensions()) == Ok::<
            _,
            ProtocolError,
        >(ExtensionValues { capture_timestamp_us, codec }),
{
    reveal_with_fuel(extensions_of, 3);
    let s = extension_bytes(capture_timestamp_us, codec);
    let t2 = match codec {
        Some(c) => varint_bytes(LOC_EXT_CODEC) + varint_bytes(c.id()),
        None => Seq::empty(),
    };
    let t1 = varint_bytes(capture_timestamp_us) + t2;
    assert(s =~= varint_bytes(LOC_EXT_CAPTURE_TIMESTAMP) + t1);
    law_varint_roundtrip(LOC_EXT_CAPTURE_TIMESTAMP, t1);
    assert(s.skip(varint_bytes(LOC_EXT_CAPTURE_TIMESTAMP).len() as int) =~= t1);
    law_varint_roundtrip(capture_timestamp_us, t2);
    assert(t1.skip(varint_bytes(capture_timestamp_us).len() as int) =~= t2);
    match codec {
        Some(c) => {
            let t3 = varint_bytes(c.id());
            law_varint_roundtrip(LOC_EXT_CODEC, t3);
            assert(t2.skip(varint_bytes(LOC_EXT_CODEC).len() as int) =~= t3);
            law_varint_roundtrip(c.id(), Seq::empty());
            assert(t3 + Seq::<u8>::empty() =~= t3);
            assert(t3.skip(varint_bytes(c.id()).len() as int) =~= Seq::empty());
        },
        None => {},
    }
}

/// Five pieces laid end to end, and what is found at the start of each.
proof fn lemma_five_parts(
    p0: Seq<u8>,
    p1: Seq<u8>,
    p2: Seq<u8>,
    p3: Seq<u8>,
    p4: Seq<u8>,
    rest: Seq<u8>,
)
    ensures
        ({
            let s = p0 + p1 + p2 + p3 + p4 + rest;
            let a = p0.len() as int;
            let b = a + p1.len();
            let c = b + p2.len();
            let d = c + p3.len();
            &&& s.skip(0) == p0 + (p1 + (p2 + (p3 + (p4 + rest))))
            &&& s.skip(a) == p1 + (p2 + (p3 + (p4 + rest)))
            &&& s.subrange(b, c) == p2
            &&& s.skip(c) == p3 + (p4 + rest)
            &&& s.subrange(d, d + p4.len()) == p4
        }),
{
    let s = p0 + p1 + p2 + p3 + p4 + rest;
    let a = p0.len() as int;
    let b = a + p1.len();
    let c = b + p2.len();
    let d = c + p3.len();
    assert(s.skip(0) =~= p0 + (p1 + (p2 + (p3 + (p4 + rest)))));
    assert(s.skip(a) =~= p1 + (p2 + (p3 + (p4 + rest))));
    assert(s.subrange(b, c) =~= p2);
    assert(s.skip(c) =~= p3 + (p4 + rest));
    assert(s.subrange(d, d + p4.len()) =~= p4);
}

/// The extension block is short.
proof fn lemma_extension_bytes_len(capture_timestamp_us: u64, codec: Option<Codec>)
    ensures
        extension_bytes(capture_timestamp_us, codec).len() <= 32,
{
    lemma_varint_bytes_len(LOC_EXT_CAPTURE_TIMESTAMP);
    lemma_varint_bytes_len(capture_timestamp_us);
    lemma_varint_bytes_len(LOC_EXT_CODEC);
    match codec {
        Some(c) => lemma_varint_bytes_len(c.id()),
        None => {},
    }
}

/// Law: an object that was written is read back: its header tells the fields,
/// and the payload, which may be empty, is what follows.
pub proof fn law_object_roundtrip(
    object_id: u64,
    capture_timestamp_us: u64,
    codec: Option<Codec>,
    payload: Seq<u8>,
    rest: Seq<u8>,
)
    requires
        object_id < VARINT_LIMIT,
        capture_timestamp_us < VARINT_LIMIT,
        payload.len() < VARINT_LIMIT,
        object_bytes(object_id, capture_timestamp_us, codec, payload).len() + rest.len()
            <= usize::MAX,
    ensures
        ({
            let w = object_bytes(object_id, capture_timestamp_us, codec, payload);
            let at = w.len() - payload.len();
            &&& object_header_of(w + rest) == Ok::<_, ProtocolError>(
                Read::Done {
                    value: ObjectHeader {
                        object_id,
                        capture_timestamp_us,
                        codec,
                        payload_len: payload.len() as u64,
                    },
                    used: at as usize,
                },
            )
            &&& (w + rest).subrange(at, at + payload.len()) == payload
        }),
{
    let ext = extension_bytes(capture_timestamp_us, codec);
    let w = object_bytes(object_id, capture_timestamp_us, codec, payload);
    let s = w + rest;
    lemma_extension_bytes_len(capture_timestamp_us, codec);
    let id_bytes = varint_bytes(object_id);
    let ext_len_bytes = varint_bytes(ext.len() as u64);
    let len_bytes = length_bytes(payload.len());
    lemma_five_parts(id_bytes, ext_len_bytes, ext, len_bytes, payload, rest);
    let a = id_bytes.len();
    let b = a + ext_len_bytes.len();
    let e = b + ext.len();
    lemma_varint_at(s, 0, object_id, ext_len_bytes + (ext + (len_bytes + (payload + rest))));
    lemma_varint_at(s, a, ext.len() as u64, ext + (len_bytes + (payload + rest)));
    if payload.len() == 0 {
        let status = varint_bytes(OBJECT_STATUS_NORMAL);
        let tail = status + (payload + rest);
        assert(len_bytes + (payload + rest) =~= varint_bytes(0) + tail);
        lemma_varint_at(s, e, 0, tail);
        let f = e + varint_bytes(0).len();
        assert(s.skip(f as int) =~= s.skip(e as int).skip(varint_bytes(0).len() as int));
        assert(s.skip(f as int) =~= tail);
        lemma_varint_at(s, f, OBJECT_STATUS_NORMAL, payload + rest);
    } else {
        lemma_varint_at(s, e, payload.len() as u64, payload + rest);
    }
    lemma_extensions_roundtrip(capture_timestamp_us, codec);
}

// ---------------------------------------------------------------------------
// Audio datagrams
// ---------------------------------------------------------------------------
//
// Audio uses QUIC datagrams (unreliable, no stream overhead, no HoL blocking).
// Wire format:
//   capture_timestamp_us (varint)
//   opus payload (remaining bytes)
/// A received media object with MoQ group/subgroup/object IDs and LOC capture
/// timestamp.
///
/// The payload is backed by a [`SharedBuf`] from a pool: when the last
/// consumer drops it, the buffer returns to the pool rather than being freed.
pub struct MediaObject {
    pub group_id: u64,
    /// Subgroup 0 = independently decodable (keyframe for video).
    pub subgroup_id: u64,
    pub object_id: u64,
    pub capture_timestamp_us: u64,
    pub codec: Option<Codec>,
    pub payload: SharedBuf<u8>,
}

/// An audio frame as a datagram payload.
pub open spec fn audio_datagram(capture_timestamp_us: u64, payload: Seq<u8>) -> Seq<u8> {
    varint_bytes(capture_timestamp_us) + payload
}

/// Encode an audio frame as a datagram payload into a caller-provided buffer.
/// Clears `buf` first, then writes the timestamp varint + payload.
/// Reuse the same `Vec` across calls to avoid per-frame allocations.
pub fn encode_audio_datagram_into(capture_timestamp_us: u64, payload: &[u8], buf: &mut Vec<u8>)
    ensures
        final(buf)@ == audio_datagram(capture_timestamp_us, payload@),
{
    buf.clear();
    write_varint(buf, capture_timestamp_us);
    append_bytes(buf, payload);
    assert(buf@ =~= audio_datagram(capture_timestamp_us, payload@));
}

/// Decode an audio datagram payload into a MediaObject.
///
/// Uses `audio_pool` to avoid per-packet heap allocations for the payload.
pub fn decode_audio_datagram(data: &[u8], audio_pool: &BufPool<u8>) -> (r: Result<
    MediaObject,
    ProtocolError,
>)
    ensures
        match parse_varint(data@) {
            None => r == Err::<MediaObject, ProtocolError>(varint_error(data@)),
            Some((ts, n)) => {
                &&& r matches Ok(obj)
                &&& obj.group_id == 0
                &&& obj.subgroup_id == 0
                &&& obj.object_id == 0
                &&& obj.capture_timestamp_us == ts
                &&& obj.codec is None
                &&& obj.payload@ == data@.skip(n as int)
            },
        },
{
    match decode_varint_from_slice(data) {
        Err(e) => Err(e),
        Ok((capture_timestamp_us, rest)) => {
            let mut buf = audio_pool.checkout_empty();
            buf.push_slice(rest);
            let payload = buf.share();
            proof {
                assert(payload@ =~= rest@);
            }
            Ok(
                MediaObject {
                    group_id: 0,
                    subgroup_id: 0,
                    object_id: 0,
                    capture_timestamp_us,
                    codec: None,
                    payload,
                },
            )
        },
    }
}

/// Encode an audio frame into a pooled `Bytes` ready to be sent.
///
/// The returned `Bytes` wraps a pooled buffer: zero copy, and when the QUIC
/// stack (and any clones) drop it the buffer returns to the pool.
pub fn encode_audio_datagram(
    capture_timestamp_us: u64,
    payload: &[u8],
    pool: &BufPool<u8>,
) -> (datagram: bytes::Bytes)
    ensures
        bytes_content(datagram) == audio_datagram(capture_timestamp_us, payload@),
{
    let (ts, ts_len) = encode_varint(capture_timestamp_us);
    let mut buf = pool.checkout_empty();
    buf.push_slice(slice_subrange(ts.as_slice(), 0, ts_len));
    buf.push_slice(payload);
    proof {
        assert(ts@.subrange(0, ts_len as int) =~= ts@.take(ts_len as int));
        assert(buf@ =~= audio_datagram(capture_timestamp_us, payload@));
    }
    buf.share().into_bytes()
}

/// Law: decoding an audio datagram gives back the timestamp and the payload that
/// were encoded.
pub proof fn law_audio_datagram_roundtrip(capture_timestamp_us: u64, payload: Seq<u8>)
    requires
        capture_timestamp_us < VARINT_LIMIT,
    ensures
        ({
            let d = audio_datagram(capture_timestamp_us, payload);
            &&& parse_varint(d) matches Some((ts, n))
            &&& ts == capture_timestamp_us
            &&& d.skip(n as int) == payload
        }),
{
    law_varint_roundtrip(capture_timestamp_us, payload);
    let d = audio_datagram(capture_timestamp_us, payload);
    assert(d.skip(varint_bytes(capture_timestamp_us).len() as int) =~= payload);
}

/// Law: two audio frames whose datagrams agree have the same timestamp and the
/// same payload.
pub proof fn law_audio_datagram_unambiguous(ts1: u64, payload1: Seq<u8>, ts2: u64, payload2: Seq<u8>)
    requires
        ts1 < VARINT_LIMIT,
        ts2 < VARINT_LIMIT,
        audio_datagram(ts1, payload1) == audio_datagram(ts2, payload2),
    ensures
        ts1 == ts2,
        payload1 == payload2,
{
    law_audio_datagram_roundtrip(ts1, payload1);
    law_audio_datagram_roundtrip(ts2, payload2);
}

// ---------------------------------------------------------------------------
// Laws of the wire format
// ---------------------------------------------------------------------------
/// Law: the numbers that both sides of a connection have to agree on.
pub proof fn law_wire_numbers()
    ensures
        STREAM_TYPE_SUBGROUP == 4,
        TRACK_AUDIO == 0,
        TRACK_VIDEO == 1,
        PRIORITY_AUDIO == 0,
        PRIORITY_VIDEO == 1,
        QUIC_PRIORITY_AUDIO == 1,
        QUIC_PRIORITY_VIDEO == 0,
        LOC_EXT_CAPTURE_TIMESTAMP == 2,
        LOC_EXT_CODEC == 4,
        MAX_EXTENSION_LEN == 64,
        OBJECT_STATUS_NORMAL == 0,
        VARINT_LIMIT == 0x4000_0000_0000_0000,
        Codec::Av1.id() == 0,
        Codec::Hevc.id() == 1,
        Codec::of_id(0) == Some(Codec::Av1),
        Codec::of_id(1) == Some(Codec::Hevc),
        forall|v: u64| v > 1 ==> #[trigger] Codec::of_id(v) is None,
{
}

/// Law: a varint has the fewest bytes of one, two, four and eight that can hold the
/// value in all but their two top bits; these tell the number of bytes.
pub proof fn law_varint_written(v: u64)
    ensures
        ({
            let s = varint_bytes(v);
            &&& v < 64 ==> s.len() == 1 && s[0] == v
            &&& 64 <= v < 16_384 ==> s.len() == 2 && s[0] * 0x100 + s[1] == v + 0x4000
            &&& 16_384 <= v < 1_073_741_824 ==> s.len() == 4 && s[0] * 0x100_0000 + s[1] * 0x1_0000
                + s[2] * 0x100 + s[3] == v + 0x8000_0000
            &&& 1_073_741_824 <= v ==> s.len() == 8 && s[0] * 0x100_0000_0000_0000 + s[1]
                * 0x1_0000_0000_0000 + s[2] * 0x100_0000_0000 + s[3] * 0x1_0000_0000 + s[4]
                * 0x100_0000 + s[5] * 0x1_0000 + s[6] * 0x100 + s[7] == v % 0x4000_0000_0000_0000
                + 0xC000_0000_0000_0000
        }),
{
    reveal_with_fuel(pow256, 9);
    let s = varint_bytes(v);
    lemma_be_bytes_len((v + 0x4000) as nat, 2);
    lemma_be_bytes_len((v + 0x8000_0000) as nat, 4);
    lemma_be_bytes_len((v % 0x4000_0000_0000_0000 + 0xC000_0000_0000_0000) as nat, 8);
    lemma_be_value_small(s);
    if 64 <= v < 16_384 {
        lemma_be_roundtrip((v + 0x4000) as nat, 2);
    } else if 16_384 <= v < 1_073_741_824 {
        lemma_be_roundtrip((v + 0x8000_0000) as nat, 4);
    } else if 1_073_741_824 <= v {
        lemma_be_roundtrip((v % 0x4000_0000_0000_0000 + 0xC000_0000_0000_0000) as nat, 8);
    }
}

/// Law: the two top bits of the first byte tell how many bytes a varint has, and
/// the others are its value, the most significant first. A reader that has fewer
/// bytes asks for exactly those that are missing.
pub proof fn law_varint_read(s: Seq<u8>)
    ensures
        s.len() == 0 ==> parse_varint(s) is None && varint_missing(s) == 1 && varint_error(s)
            == ProtocolError::UnexpectedEnd,
        s.len() > 0 ==> {
            let size: int = if s[0] < 0x40 {
                1
            } else if s[0] < 0x80 {
                2
            } else if s[0] < 0xC0 {
                4
            } else {
                8
            };
            let top = s[0] % 0x40;
            if s.len() < size {
                &&& parse_varint(s) is None
                &&& varint_missing(s) == size - s.len()
                &&& varint_error(s) == ProtocolError::VarintTruncated
            } else {
                let (value, used) = parse_varint(s)->0;
                &&& parse_varint(s) is Some
                &&& used == size
                &&& size == 1 ==> value == top
                &&& size == 2 ==> value == top * 0x100 + s[1]
                &&& size == 4 ==> value == top * 0x100_0000 + s[1] * 0x1_0000 + s[2]
                    * 0x100 + s[3]
                &&& size == 8 ==> value == top * 0x100_0000_0000_0000 + s[1]
                    * 0x1_0000_0000_0000 + s[2] * 0x100_0000_0000 + s[3] * 0x1_0000_0000 + s[4]
                    * 0x100_0000 + s[5] * 0x1_0000 + s[6] * 0x100 + s[7]
            }
        },
{
    if s.len() > 0 {
        let n = varint_size(s[0]);
        if s.len() >= n {
            let t = s.take(n as int);
            lemma_be_value_small(t);
            assert(forall|i: int| 0 <= i < n ==> #[trigger] t[i] == s[i]);
            let (first, top) = (s[0] as int, s[0] as int % 0x40);
            assert(n == 2 ==> first == top + 0x40);
            assert(n == 4 ==> first == top + 0x80);
            assert(n == 8 ==> first == top + 0xC0);
        }
    }
}

/// Law: the fields of a subgroup header stand in this order behind the stream type.
pub proof fn law_subgroup_header_layout(h: SubgroupHeader)
    ensures
        h.bytes() == seq![4u8] + varint_bytes(h.track_alias) + varint_bytes(h.group_id)
            + varint_bytes(h.subgroup_id) + seq![h.publisher_priority],
        h.fits() <==> h.track_alias < 0x4000_0000_0000_0000 && h.group_id < 0x4000_0000_0000_0000
            && h.subgroup_id < 0x4000_0000_0000_0000,
{
    assert(varint_bytes(STREAM_TYPE_SUBGROUP) =~= seq![4u8]);
}

/// Law: a stream of another type is refused, and the error tells its type.
pub proof fn law_other_streams_are_refused(stream_type: u64, rest: Seq<u8>)
    requires
        stream_type != 4,
        stream_type < 0x4000_0000_0000_0000,
        rest.len() + 8 <= usize::MAX,
    ensures
        subgroup_header_of(varint_bytes(stream_type) + rest) == Err::<Read<SubgroupHeader>, _>(
            ProtocolError::NotSubgroupHeader(stream_type),
        ),
{
    let s = varint_bytes(stream_type) + rest;
    lemma_varint_bytes_len(stream_type);
    assert(s.skip(0) =~= s);
    lemma_varint_at(s, 0, stream_type, rest);
}

/// What a reader makes of a varint of which only a part has arrived.
proof fn lemma_varint_part(s: Seq<u8>, k: nat, at: nat)
    requires
        at <= k <= s.len() <= usize::MAX,
        varint_at(s, at) is Done,
    ensures
        ({
            let used = varint_at(s, at)->used;
            &&& at < used <= s.len()
            &&& used <= k ==> varint_at(s.take(k as int), at) == varint_at(s, at)
            &&& used > k ==> varint_at(s.take(k as int), at) is More
            &&& used > k ==> 1 <= varint_at(s.take(k as int), at)->need <= used - k
        }),
{
    let part = s.take(k as int);
    let (a, b) = (s.skip(at as int), part.skip(at as int));
    assert(b =~= a.take(k - at));
    let n = varint_size(a[0]);
    if at + n <= k {
        assert(a.take(n as int) =~= b.take(n as int));
    }
    if k > at {
        assert(a[0] == b[0]);
    }
}

/// Law: as long as a part of a subgroup header is missing, the reader asks for more
/// bytes, and never for more than the header has.
pub proof fn law_partial_subgroup_header(h: SubgroupHeader, k: nat)
    requires
        h.fits(),
        k < h.bytes().len(),
    ensures
        ({
            let r = subgroup_header_of(h.bytes().take(k as int));
            &&& r is Ok
            &&& r->Ok_0 is More
            &&& 1 <= r->Ok_0->need <= h.bytes().len() - k
        }),
{
    let s = h.bytes();
    lemma_subgroup_header_len(h);
    let t4 = seq![h.publisher_priority];
    let t3 = varint_bytes(h.subgroup_id) + t4;
    let t2 = varint_bytes(h.group_id) + t3;
    let t1 = varint_bytes(h.track_alias) + t2;
    assert(s.skip(0) =~= varint_bytes(STREAM_TYPE_SUBGROUP) + t1);
    lemma_varint_at(s, 0, STREAM_TYPE_SUBGROUP, t1);
    let a = varint_bytes(STREAM_TYPE_SUBGROUP).len();
    lemma_varint_at(s, a, h.track_alias, t2);
    let b = a + varint_bytes(h.track_alias).len();
    lemma_varint_at(s, b, h.group_id, t3);
    let c = b + varint_bytes(h.group_id).len();
    lemma_varint_at(s, c, h.subgroup_id, t4);
    let d = c + varint_bytes(h.subgroup_id).len();
    lemma_varint_part(s, k, 0);
    if a <= k {
        lemma_varint_part(s, k, a);
    }
    if b <= k {
        lemma_varint_part(s, k, b);
    }
    if c <= k {
        lemma_varint_part(s, k, c);
    }
}

/// Law: the fields of an object stand in this order. The extensions are the capture
/// timestamp, of type two, and the codec where there is one, of type four; an object
/// without payload has a status of zero behind its length.
pub proof fn law_object_layout(
    object_id: u64,
    capture_timestamp_us: u64,
    codec: Option<Codec>,
    payload: Seq<u8>,
)
    ensures
        ({
            let ts = varint_bytes(capture_timestamp_us);
            let codec_bytes = match codec {
                Some(Codec::Av1) => seq![4u8, 0u8],
                Some(Codec::Hevc) => seq![4u8, 1u8],
                None => Seq::<u8>::empty(),
            };
            let ext_len = 1 + ts.len() + codec_bytes.len();
            let length = if payload.len() == 0 {
                seq![0u8, 0u8]
            } else {
                varint_bytes(payload.len() as u64)
            };
            &&& object_bytes(object_id, capture_timestamp_us, codec, payload) == varint_bytes(
                object_id,
            ) + seq![ext_len as u8] + seq![2u8] + ts + codec_bytes + length + payload
            &&& ext_len <= 11
        }),
{
    let ts = varint_bytes(capture_timestamp_us);
    lemma_varint_bytes_len(capture_timestamp_us);
    let codec_bytes = match codec {
        Some(Codec::Av1) => seq![4u8, 0u8],
        Some(Codec::Hevc) => seq![4u8, 1u8],
        None => Seq::<u8>::empty(),
    };
    let ext = extension_bytes(capture_timestamp_us, codec);
    assert(varint_bytes(LOC_EXT_CAPTURE_TIMESTAMP) =~= seq![2u8]);
    assert(varint_bytes(LOC_EXT_CODEC) =~= seq![4u8]);
    assert(codec is Some ==> varint_bytes(LOC_EXT_CODEC) + varint_bytes(codec->0.id())
        =~= codec_bytes);
    assert(ext =~= seq![2u8] + ts + codec_bytes);
    assert(varint_bytes(ext.len() as u64) =~= seq![ext.len() as u8]);
    assert(varint_bytes(0) + varint_bytes(OBJECT_STATUS_NORMAL) =~= seq![0u8, 0u8]);
    let length = if payload.len() == 0 {
        seq![0u8, 0u8]
    } else {
        varint_bytes(payload.len() as u64)
    };
    assert(object_bytes(object_id, capture_timestamp_us, codec, payload) =~= varint_bytes(object_id)
        + seq![ext.len() as u8] + seq![2u8] + ts + codec_bytes + length + payload);
}

/// Law: what an extension of an even type does. A capture timestamp and a codec take
/// the place of what was read before, a codec that is not known counts as none, and
/// every other type is passed over.
pub proof fn law_even_extensions(header_type: u64, value: u64, rest: Seq<u8>, vals: ExtensionValues)
    requires
        header_type < 0x4000_0000_0000_0000,
        value < 0x4000_0000_0000_0000,
        header_type % 2 == 0,
    ensures
        ({
            let s = varint_bytes(header_type) + varint_bytes(value) + rest;
            let codec = if value == 0 {
                Some(Codec::Av1)
            } else if value == 1 {
                Some(Codec::Hevc)
            } else {
                None
            };
            &&& header_type == 2 ==> extensions_of(s, vals) == extensions_of(
                rest,
                ExtensionValues { capture_timestamp_us: value, codec: vals.codec },
            )
            &&& header_type == 4 ==> extensions_of(s, vals) == extensions_of(
                rest,
                ExtensionValues { capture_timestamp_us: vals.capture_timestamp_us, codec },
            )
            &&& header_type != 2 && header_type != 4 ==> extensions_of(s, vals) == extensions_of(
                rest,
                vals,
            )
        }),
{
    let s = varint_bytes(header_type) + varint_bytes(value) + rest;
    let tail = varint_bytes(value) + rest;
    assert(s =~= varint_bytes(header_type) + tail);
    lemma_varint_bytes_len(header_type);
    lemma_varint_bytes_len(value);
    law_varint_roundtrip(header_type, tail);
    law_varint_roundtrip(value, rest);
    assert(s.skip(varint_bytes(header_type).len() as int) =~= tail);
    assert(tail.skip(varint_bytes(value).len() as int) =~= rest);
}

/// Law: an extension of an odd type is passed over, with as many bytes as it says it
/// has; one that says more than there are is refused.
pub proof fn law_odd_extensions(
    header_type: u64,
    value: Seq<u8>,
    missing: nat,
    rest: Seq<u8>,
    vals: ExtensionValues,
)
    requires
        header_type < 0x4000_0000_0000_0000,
        value.len() + missing < 0x4000_0000_0000_0000,
        header_type % 2 == 1,
        missing > 0 ==> rest.len() == 0,
    ensures
        ({
            let s = varint_bytes(header_type) + varint_bytes((value.len() + missing) as u64) + value
                + rest;
            if missing == 0 {
                extensions_of(s, vals) == extensions_of(rest, vals)
            } else {
                extensions_of(s, vals) == Err::<ExtensionValues, _>(
                    ProtocolError::ExtensionTruncated,
                )
            }
        }),
{
    let n = (value.len() + missing) as u64;
    let s = varint_bytes(header_type) + varint_bytes(n) + value + rest;
    let tail = varint_bytes(n) + (value + rest);
    assert(s =~= varint_bytes(header_type) + tail);
    lemma_varint_bytes_len(header_type);
    lemma_varint_bytes_len(n);
    law_varint_roundtrip(header_type, tail);
    law_varint_roundtrip(n, value + rest);
    assert(s.skip(varint_bytes(header_type).len() as int) =~= tail);
    assert(tail.skip(varint_bytes(n).len() as int) =~= value + rest);
    if missing == 0 {
        assert((value + rest).skip(value.len() as int) =~= rest);
    }
}

/// Law: without extensions an object has no timestamp and no codec, and an extension
/// block that breaks off inside a varint is refused.
pub proof fn law_extension_block_ends(vals: ExtensionValues, header_type: u64, k: nat)
    requires
        header_type < 0x4000_0000_0000_0000,
        0 < k < varint_bytes(header_type).len(),
    ensures
        extensions_of(Seq::empty(), vals) == Ok::<_, ProtocolError>(vals),
        no_extensions().capture_timestamp_us == 0,
        no_extensions().codec is None,
        extensions_of(varint_bytes(header_type), vals) == Err::<ExtensionValues, _>(
            ProtocolError::UnexpectedEnd,
        ),
        extensions_of(varint_bytes(header_type).take(k as int), vals) == Err::<ExtensionValues, _>(
            ProtocolError::VarintTruncated,
        ),
{
    let s = varint_bytes(header_type);
    lemma_varint_bytes_len(header_type);
    law_varint_roundtrip(header_type, Seq::empty());
    assert(s + Seq::<u8>::empty() =~= s);
    assert(s.skip(s.len() as int) =~= Seq::empty());
    let part = s.take(k as int);
    assert(part[0] == s[0]);
}

/// Law: an object whose extensions take more than 64 bytes is refused, and so is one
/// with broken extensions; one whose extensions have not arrived yet is not judged.
pub proof fn law_extension_limit(object_id: u64, ext_len: u64, rest: Seq<u8>)
    requires
        object_id < 0x4000_0000_0000_0000,
        ext_len < 0x4000_0000_0000_0000,
        rest.len() + 16 <= usize::MAX,
    ensures
        ({
            let r = object_header_of(varint_bytes(object_id) + varint_bytes(ext_len) + rest);
            &&& ext_len > 64 ==> r == Err::<Read<ObjectHeader>, _>(
                ProtocolError::ExtensionsTooLarge(ext_len),
            )
            &&& ext_len <= 64 && rest.len() < ext_len ==> r == Ok::<_, ProtocolError>(
                Read::<ObjectHeader>::More { need: (ext_len - rest.len()) as u64 },
            )
            &&& ext_len <= 64 && rest.len() >= ext_len ==> {
                let exts = extensions_of(rest.take(ext_len as int), no_extensions());
                &&& exts is Err ==> r == Err::<Read<ObjectHeader>, _>(exts->Err_0)
                &&& exts is Ok ==> r is Ok
                &&& r is Ok && r->Ok_0 is Done ==> {
                    &&& r->Ok_0->value.object_id == object_id
                    &&& r->Ok_0->value.capture_timestamp_us == exts->Ok_0.capture_timestamp_us
                    &&& r->Ok_0->value.codec == exts->Ok_0.codec
                }
            }
        }),
{
    let (p, q) = (varint_bytes(object_id), varint_bytes(ext_len));
    let s = p + q + rest;
    lemma_varint_bytes_len(object_id);
    lemma_varint_bytes_len(ext_len);
    assert(s.skip(0) =~= p + (q + rest));
    lemma_varint_at(s, 0, object_id, q + rest);
    lemma_varint_at(s, p.len(), ext_len, rest);
    let b = (p.len() + q.len()) as int;
    if rest.len() >= ext_len {
        assert(s.subrange(b, b + ext_len) =~= rest.take(ext_len as int));
    }
}

/// Law: as long as a part of what stands before the payload of an object is missing,
/// the reader asks for more bytes, and never for more than there are.
pub proof fn law_partial_object(
    object_id: u64,
    capture_timestamp_us: u64,
    codec: Option<Codec>,
    payload: Seq<u8>,
    k: nat,
)
    requires
        object_id < 0x4000_0000_0000_0000,
        capture_timestamp_us < 0x4000_0000_0000_0000,
        payload.len() < 0x4000_0000_0000_0000,
        object_bytes(object_id, capture_timestamp_us, codec, payload).len() <= usize::MAX,
        k < object_bytes(object_id, capture_timestamp_us, codec, payload).len() - payload.len(),
    ensures
        ({
            let w = object_bytes(object_id, capture_timestamp_us, codec, payload);
            let r = object_header_of(w.take(k as int));
            &&& r is Ok
            &&& r->Ok_0 is More
            &&& 1 <= r->Ok_0->need <= w.len() - payload.len() - k
        }),
{
    let ext = extension_bytes(capture_timestamp_us, codec);
    let s = object_bytes(object_id, capture_timestamp_us, codec, payload);
    lemma_extension_bytes_len(capture_timestamp_us, codec);
    let p = varint_bytes(object_id);
    let q = varint_bytes(ext.len() as u64);
    let len_bytes = length_bytes(payload.len());
    let none = Seq::<u8>::empty();
    lemma_five_parts(p, q, ext, len_bytes, payload, none);
    assert(p + q + ext + len_bytes + payload + none =~= s);
    assert(payload + none =~= payload);
    let a = p.len();
    let b = a + q.len();
    let e = b + ext.len();
    lemma_varint_at(s, 0, object_id, q + (ext + (len_bytes + payload)));
    lemma_varint_at(s, a, ext.len() as u64, ext + (len_bytes + payload));
    lemma_varint_part(s, k, 0);
    if a <= k {
        lemma_varint_part(s, k, a);
    }
    let part = s.take(k as int);
    if e <= k {
        lemma_extensions_roundtrip(capture_timestamp_us, codec);
        assert(part.subrange(b as int, e as int) =~= ext);
        if payload.len() == 0 {
            let status = varint_bytes(OBJECT_STATUS_NORMAL);
            assert(len_bytes + payload =~= varint_bytes(0) + (status + payload));
            lemma_varint_at(s, e, 0, status + payload);
            let f = e + varint_bytes(0).len();
            lemma_varint_at(s, f, OBJECT_STATUS_NORMAL, payload);
            lemma_varint_part(s, k, e);
            if f <= k {
                lemma_varint_part(s, k, f);
            }
        } else {
            lemma_varint_at(s, e, payload.len() as u64, payload);
            lemma_varint_part(s, k, e);
        }
    }
}

/// Law: an extension whose value breaks off is refused, whatever its type.
pub proof fn law_value_breaks_off(header_type: u64, value: u64, k: nat, vals: ExtensionValues)
    requires
        header_type < 0x4000_0000_0000_0000,
        value < 0x4000_0000_0000_0000,
        0 < k < varint_bytes(value).len(),
    ensures
        extensions_of(varint_bytes(header_type) + varint_bytes(value).take(k as int), vals) == Err::<
            ExtensionValues,
            _,
        >(ProtocolError::VarintTruncated),
{
    let part = varint_bytes(value).take(k as int);
    let s = varint_bytes(header_type) + part;
    lemma_varint_bytes_len(header_type);
    lemma_varint_bytes_len(value);
    law_varint_roundtrip(header_type, part);
    law_varint_roundtrip(value, Seq::empty());
    assert(varint_bytes(value) + Seq::<u8>::empty() =~= varint_bytes(value));
    assert(s.skip(varint_bytes(header_type).len() as int) =~= part);
    assert(part[0] == varint_bytes(value)[0]);
}

/// Law: an object without extensions has neither timestamp nor codec, and the status
/// of one without payload may be any: it is passed over.
pub proof fn law_plain_object(object_id: u64, payload_len: u64, status: u64, rest: Seq<u8>)
    requires
        object_id < 0x4000_0000_0000_0000,
        payload_len < 0x4000_0000_0000_0000,
        status < 0x4000_0000_0000_0000,
        rest.len() + 25 <= usize::MAX,
    ensures
        ({
            let length = if payload_len == 0 {
                varint_bytes(0) + varint_bytes(status)
            } else {
                varint_bytes(payload_len)
            };
            let head = varint_bytes(object_id) + seq![0u8] + length;
            object_header_of(head + rest) == Ok::<_, ProtocolError>(
                Read::Done {
                    value: ObjectHeader {
                        object_id,
                        capture_timestamp_us: 0,
                        codec: None,
                        payload_len,
                    },
                    used: head.len() as usize,
                },
            )
        }),
{
    let p = varint_bytes(object_id);
    let q = varint_bytes(0);
    let length = if payload_len == 0 {
        q + varint_bytes(status)
    } else {
        varint_bytes(payload_len)
    };
    let head = p + seq![0u8] + length;
    let s = head + rest;
    assert(q =~= seq![0u8]);
    lemma_varint_bytes_len(object_id);
    lemma_varint_bytes_len(payload_len);
    lemma_varint_bytes_len(status);
    assert(s.skip(0) =~= p + (q + (length + rest)));
    lemma_varint_at(s, 0, object_id, q + (length + rest));
    let a = p.len();
    lemma_varint_at(s, a, 0, length + rest);
    let b = a + 1;
    assert(s.subrange(b as int, b as int) =~= Seq::empty());
    if payload_len == 0 {
        assert(length + rest =~= q + (varint_bytes(status) + rest));
        lemma_varint_at(s, b, 0, varint_bytes(status) + rest);
        lemma_varint_at(s, b + 1, status, rest);
    } else {
        lemma_varint_at(s, b, payload_len, rest);
    }
}

} // verus!
