//! Sending side of the video path: Annex B extraction, frame numbering, and
//! when the compression session has to change.

use vstd::prelude::*;
use vstd::slice::slice_subrange;

use crate::bandwidth::{ladder, quality_preset, EncoderConfig, QUALITY_LEVELS};
use crate::pool::{BufPool, SharedBuf};
use crate::protocol::{
    law_object_layout, law_object_roundtrip, law_subgroup_header_layout,
    law_subgroup_header_roundtrip, law_varint_written, lemma_subgroup_header_len, object_bytes,
    object_header_of, subgroup_header_of, varint_bytes, write_object, write_subgroup_header, Codec,
    ObjectHeader, Read, SubgroupHeader, PRIORITY_AUDIO, PRIORITY_VIDEO, QUIC_PRIORITY_AUDIO,
    QUIC_PRIORITY_VIDEO, TRACK_VIDEO, VARINT_LIMIT,
};
use crate::video_decode::{
    annex_b_of, hvcc_of, is_clean, is_gap, is_param_set, law_annex_b_units,
    law_next_frame_is_decoded, nalu_bytes, nalus, start_code, units_at, GateState, PacketAction,
    Span,
};
use crate::wire::{
    be_bytes, be_u16_at, be_u32_at, be_value, lemma_be_bytes_len, lemma_be_roundtrip,
    lemma_be_value_small, pow256,
};

verus! {

/// An encoded packet with its capture timestamp.
///
/// The payload is backed by a [`SharedBuf`] from a pool: when the last
/// reference drops the buffer returns to the pool (not freed).
pub struct EncodedPacket {
    pub data: SharedBuf<u8>,
    /// Wall-clock capture time in microseconds since Unix epoch.
    pub capture_timestamp_us: u64,
    /// Whether this packet contains a keyframe (independently decodable).
    pub is_keyframe: bool,
}

// ---------------------------------------------------------------------------
// Annex B extraction
// ---------------------------------------------------------------------------
/// Why an encoded sample could not be extracted.
#[derive(Debug, Clone, Copy, PartialEq, Eq, Structural)]
pub enum ExtractError {
    /// The output would take more bytes than the estimate.
    ExceedsEstimate,
    /// NAL unit lengths take this many bytes, which is not 4, 2 or 1.
    UnsupportedHeaderLength(usize),
    /// A NAL unit claims more bytes than there are.
    NaluBeyondBuffer,
}

/// Bytes allowed for parameter sets and start codes on top of the sample.
pub const ESTIMATE_SLACK: usize = 256;

/// Put `unit` behind a start code at the end of `out`, within `limit` bytes.
pub open spec fn with_unit(out: Seq<u8>, unit: Seq<u8>, limit: int) -> Result<
    Seq<u8>,
    ExtractError,
> {
    if out.len() + 4 + unit.len() > limit {
        Err(ExtractError::ExceedsEstimate)
    } else {
        Ok(out + start_code() + unit)
    }
}

/// Put `units` at the end of `out`, one after the other.
pub open spec fn with_units(out: Seq<u8>, units: Seq<Seq<u8>>, limit: int) -> Result<
    Seq<u8>,
    ExtractError,
>
    decreases units.len(),
{
    if units.len() == 0 {
        Ok(out)
    } else {
        match with_unit(out, units[0], limit) {
            Ok(o) => with_units(o, units.skip(1), limit),
            Err(e) => Err(e),
        }
    }
}

/// Put the length-prefixed units of `data` from `at` on at the end of `out`.
/// Bytes at the end that are too few for a length are ignored.
pub open spec fn with_prefixed(
    out: Seq<u8>,
    data: Seq<u8>,
    at: int,
    header_len: int,
    limit: int,
) -> Result<Seq<u8>, ExtractError>
    decreases data.len() - at,
{
    if data.len() - at < header_len {
        Ok(out)
    } else if header_len != 4 && header_len != 2 && header_len != 1 {
        Err(ExtractError::UnsupportedHeaderLength(header_len as usize))
    } else {
        let a = at + header_len;
        let n = be_value(data.subrange(at, a));
        if a + n > data.len() {
            Err(ExtractError::NaluBeyondBuffer)
        } else {
            match with_unit(out, data.subrange(a, a + n), limit) {
                Ok(o) => with_prefixed(o, data, a + n, header_len, limit),
                Err(e) => Err(e),
            }
        }
    }
}

/// The Annex B stream of an encoded sample: the parameter sets of a keyframe,
/// then the units of the sample.
pub open spec fn annex_b_sample(
    param_sets: Seq<Seq<u8>>,
    data: Seq<u8>,
    header_len: int,
) -> Result<Seq<u8>, ExtractError> {
    let limit = data.len() + ESTIMATE_SLACK;
    match with_units(Seq::empty(), param_sets, limit) {
        Ok(out) => with_prefixed(out, data, 0, header_len, limit),
        Err(e) => Err(e),
    }
}

/// The contents of a list of byte strings.
pub open spec fn contents(v: Seq<Vec<u8>>) -> Seq<Seq<u8>> {
    v.map(|_i: int, b: Vec<u8>| b@)
}

/// Append `unit` behind a start code, unless `limit` is passed.
fn push_unit(out: &mut crate::pool::PoolBuf<u8>, unit: &[u8], limit: usize) -> (r: Result<
    (),
    ExtractError,
>)
    requires
        old(out)@.len() <= limit,
    ensures
        match with_unit(old(out)@, unit@, limit as int) {
            Ok(o) => r is Ok && final(out)@ == o,
            Err(e) => r == Err::<(), ExtractError>(e),
        },
{
    let used: usize = out.len();
    if limit - used < 4 || limit - used - 4 < unit.len() {
        return Err(ExtractError::ExceedsEstimate);
    }
    let code: [u8; 4] = [0, 0, 0, 1];
    out.push_slice(code.as_slice());
    out.push_slice(unit);
    proof {
        assert(code@ =~= start_code());
    }
    Ok(())
}

/// The length that stands in the `header_len` bytes from `at` on.
fn nalu_len_at(data: &[u8], at: usize, header_len: usize) -> (n: usize)
    requires
        header_len == 4 || header_len == 2 || header_len == 1,
        at + header_len <= data@.len(),
    ensures
        n == be_value(data@.subrange(at as int, at + header_len)),
{
    if header_len == 4 {
        be_u32_at(data, at) as usize
    } else if header_len == 2 {
        be_u16_at(data, at) as usize
    } else {
        proof {
            lemma_be_value_small(data@.subrange(at as int, at + 1));
        }
        data[at] as usize
    }
}

/// Extract an Annex B byte stream from an encoded sample into a pooled buffer.
///
/// `param_sets` are the parameter sets of a keyframe (none otherwise), `data` is
/// the sample with its NAL units behind lengths of `nal_header_len` bytes.
pub fn extract_annex_b(
    param_sets: &Vec<Vec<u8>>,
    data: &[u8],
    nal_header_len: usize,
    pool: &BufPool<u8>,
) -> (r: Result<SharedBuf<u8>, ExtractError>)
    requires
        data@.len() + ESTIMATE_SLACK <= usize::MAX,
    ensures
        match annex_b_sample(contents(param_sets@), data@, nal_header_len as int) {
            Ok(bytes) => r matches Ok(buf) && buf@ == bytes,
            Err(e) => r == Err::<SharedBuf<u8>, ExtractError>(e),
        },
{
    let total_len: usize = data.len();
    let limit: usize = total_len + ESTIMATE_SLACK;
    let mut buf = pool.checkout_empty();
    let ghost sets = contents(param_sets@);
    let ghost goal = annex_b_sample(sets, data@, nal_header_len as int);
    let mut i: usize = 0;
    proof {
        assert(sets.skip(0) =~= sets);
        assert(buf@ =~= Seq::empty());
    }
    while i < param_sets.len()
        invariant
            i <= param_sets@.len(),
            sets == contents(param_sets@),
            limit == data@.len() + ESTIMATE_SLACK,
            buf@.len() <= limit,
            goal == annex_b_sample(sets, data@, nal_header_len as int),
            with_units(Seq::empty(), sets, limit as int) == with_units(
                buf@,
                sets.skip(i as int),
                limit as int,
            ),
        decreases param_sets@.len() - i,
    {
        let unit = param_sets[i].as_slice();
        proof {
            assert(sets.skip(i as int)[0] == unit@);
            assert(sets.skip(i as int).skip(1) =~= sets.skip(i + 1));
        }
        match push_unit(&mut buf, unit, limit) {
            Ok(()) => {},
            Err(e) => {
                return Err(e);
            },
        }
        i = i + 1;
    }
    let mut offset: usize = 0;
    while total_len - offset >= nal_header_len
        invariant
            total_len == data@.len(),
            offset <= total_len,
            limit == data@.len() + ESTIMATE_SLACK,
            buf@.len() <= limit,
            goal == annex_b_sample(contents(param_sets@), data@, nal_header_len as int),
            goal == with_prefixed(
                buf@,
                data@,
                offset as int,
                nal_header_len as int,
                limit as int,
            ),
        decreases total_len - offset,
    {
        if nal_header_len != 4 && nal_header_len != 2 && nal_header_len != 1 {
            return Err(ExtractError::UnsupportedHeaderLength(nal_header_len));
        }
        let nalu_len: usize = nalu_len_at(data, offset, nal_header_len);
        let start: usize = offset + nal_header_len;
        if total_len - start < nalu_len {
            return Err(ExtractError::NaluBeyondBuffer);
        }
        let end: usize = start + nalu_len;
        match push_unit(&mut buf, slice_subrange(data, start, end), limit) {
            Ok(()) => {},
            Err(e) => {
                return Err(e);
            },
        }
        offset = end;
    }
    Ok(buf.share())
}

/// `units` with each one behind its length in four bytes.
pub open spec fn prefixed(units: Seq<Seq<u8>>) -> Seq<u8>
    decreases units.len(),
{
    if units.len() == 0 {
        Seq::empty()
    } else {
        be_bytes(units[0].len(), 4) + units[0] + prefixed(units.skip(1))
    }
}

/// Whether a unit's length fits in four bytes.
pub open spec fn has_short_units(units: Seq<Seq<u8>>) -> bool {
    forall|k: int| 0 <= k < units.len() ==> (#[trigger] units[k]).len() < 0x1_0000_0000
}

/// A start code takes as many bytes as a length.
proof fn lemma_same_len(units: Seq<Seq<u8>>)
    ensures
        prefixed(units).len() == annex_b_of(units).len(),
    decreases units.len(),
{
    if units.len() > 0 {
        lemma_be_bytes_len(units[0].len(), 4);
        lemma_same_len(units.skip(1));
    }
}

/// Units that fit are all appended.
proof fn lemma_units_fit(out: Seq<u8>, units: Seq<Seq<u8>>, limit: int)
    requires
        out.len() + annex_b_of(units).len() <= limit,
    ensures
        with_units(out, units, limit) == Ok::<_, ExtractError>(out + annex_b_of(units)),
    decreases units.len(),
{
    if units.len() == 0 {
        assert(out + annex_b_of(units) =~= out);
    } else {
        let o = out + start_code() + units[0];
        lemma_units_fit(o, units.skip(1), limit);
        assert(o + annex_b_of(units.skip(1)) =~= out + annex_b_of(units));
    }
}

/// Reading length-prefixed units gives those units.
proof fn lemma_prefixed(out: Seq<u8>, pre: Seq<u8>, units: Seq<Seq<u8>>, limit: int)
    requires
        has_short_units(units),
    ensures
        with_prefixed(out, pre + prefixed(units), pre.len() as int, 4, limit) == with_units(
            out,
            units,
            limit,
        ),
    decreases units.len(),
{
    let data = pre + prefixed(units);
    if units.len() > 0 {
        let u = units[0];
        let rest = units.skip(1);
        let len_bytes = be_bytes(u.len(), 4);
        lemma_be_bytes_len(u.len(), 4);
        assert(pow256(4) == 0x1_0000_0000) by {
            reveal_with_fuel(pow256, 5);
        }
        lemma_be_roundtrip(u.len(), 4);
        let at = pre.len() as int;
        let pre2 = pre + len_bytes + u;
        assert(data =~= pre2 + prefixed(rest));
        assert(data.subrange(at, at + 4) =~= len_bytes);
        assert(data.subrange(at + 4, at + 4 + u.len()) =~= u);
        assert(has_short_units(rest)) by {
            assert forall|k: int| 0 <= k < rest.len() implies (#[trigger] rest[k]).len()
                < 0x1_0000_0000 by {
                assert(rest[k] == units[k + 1]);
            }
        }
        match with_unit(out, u, limit) {
            Ok(o) => {
                lemma_prefixed(o, pre2, rest, limit);
            },
            Err(_) => {},
        }
    }
}

/// What [`hvcc_of`] makes of units, wherever they stand.
spec fn hvcc_units(units: Seq<Seq<u8>>) -> Seq<u8>
    decreases units.len(),
{
    if units.len() == 0 {
        Seq::empty()
    } else {
        let n = units[0];
        (if n.len() < 2 || is_param_set(n) {
            Seq::empty()
        } else {
            be_bytes(n.len() % 0x1_0000_0000, 4) + n
        }) + hvcc_units(units.skip(1))
    }
}

proof fn lemma_hvcc_units(s: Seq<u8>, spans: Seq<Span>)
    ensures
        hvcc_of(s, spans) == hvcc_units(units_at(s, spans)),
    decreases spans.len(),
{
    if spans.len() > 0 {
        lemma_hvcc_units(s, spans.skip(1));
        assert(units_at(s, spans).skip(1) =~= units_at(s, spans.skip(1)));
        assert(units_at(s, spans)[0] == nalu_bytes(s, spans[0]));
    }
}

proof fn lemma_hvcc_is_prefixed(units: Seq<Seq<u8>>)
    requires
        has_short_units(units),
        forall|k: int|
            0 <= k < units.len() ==> (#[trigger] units[k]).len() >= 2 && !is_param_set(units[k]),
    ensures
        hvcc_units(units) == prefixed(units),
    decreases units.len(),
{
    if units.len() > 0 {
        let rest = units.skip(1);
        assert forall|k: int| 0 <= k < rest.len() implies (#[trigger] rest[k]).len() >= 2
            && !is_param_set(rest[k]) && rest[k].len() < 0x1_0000_0000 by {
            assert(rest[k] == units[k + 1]);
        }
        lemma_hvcc_is_prefixed(rest);
        assert(units[0].len() >= 2);
    }
}

/// Law: a sample that is extracted on one side comes out on the other as it
/// was. Extraction turns the lengths of its NAL units into start codes without
/// fail, and the conversion before decoding turns them back.
pub proof fn law_sample_roundtrip(units: Seq<Seq<u8>>)
    requires
        has_short_units(units),
        forall|k: int|
            0 <= k < units.len() ==> is_clean(#[trigger] units[k]) && units[k].len() >= 2
                && !is_param_set(units[k]),
        prefixed(units).len() <= usize::MAX,
    ensures
        annex_b_sample(Seq::empty(), prefixed(units), 4) == Ok::<_, ExtractError>(
            annex_b_of(units),
        ),
        hvcc_of(annex_b_of(units), nalus(annex_b_of(units), 0)) == prefixed(units),
{
    let data = prefixed(units);
    let limit = data.len() + ESTIMATE_SLACK;
    let none = Seq::<u8>::empty();
    lemma_same_len(units);
    lemma_units_fit(none, units, limit);
    assert(none + annex_b_of(units) =~= annex_b_of(units));
    lemma_prefixed(none, none, units, limit);
    assert(none + prefixed(units) =~= prefixed(units));
    law_annex_b_units(units);
    lemma_hvcc_units(annex_b_of(units), nalus(annex_b_of(units), 0));
    lemma_hvcc_is_prefixed(units);
}

/// Law: with lengths of four bytes the estimate suffices for a keyframe whose
/// parameter sets take no more than the slack, start codes included.
pub proof fn law_estimate_suffices(param_sets: Seq<Seq<u8>>, units: Seq<Seq<u8>>)
    requires
        has_short_units(units),
        annex_b_of(param_sets).len() <= ESTIMATE_SLACK,
    ensures
        annex_b_sample(param_sets, prefixed(units), 4) == Ok::<_, ExtractError>(
            annex_b_of(param_sets) + annex_b_of(units),
        ),
{
    let data = prefixed(units);
    let limit = data.len() + ESTIMATE_SLACK;
    let none = Seq::<u8>::empty();
    lemma_same_len(units);
    lemma_units_fit(none, param_sets, limit);
    let sets = annex_b_of(param_sets);
    assert(none + sets =~= sets);
    lemma_prefixed(sets, none, units, limit);
    assert(none + data =~= data);
    lemma_units_fit(sets, units, limit);
}

// ---------------------------------------------------------------------------
// Numbering of frames
// ---------------------------------------------------------------------------
/// What to do with an encoded packet.
#[derive(Debug, Clone, Copy, PartialEq, Eq, Structural)]
pub enum SendAction {
    /// There is nobody to send to; sends under way are given up.
    Discard,
    /// Send it to every peer.
    Send {
        group_id: u64,
        /// 0 for a keyframe, 1 for a delta frame.
        subgroup_id: u64,
        quic_priority: i32,
        /// A keyframe makes every send under way useless.
        abort_in_flight: bool,
        /// Time to sample the round trip times (about every 2 s at 15 fps).
        poll_rtt: bool,
    },
}

/// Frames from one sample of the round trip times to the next.
pub const RTT_POLL_FRAMES: u64 = 30;

/// Numbers the frames that are broadcast. Each frame is a group of its own.
#[derive(Debug, Clone, Copy, PartialEq, Eq, Structural)]
pub struct FrameSequencer {
    /// Frames sent so far.
    pub frame_seq: u64,
    /// Keyframes sent so far.
    pub current_gop: u64,
}

/// QUIC priority of the stream of frame `n`: newer frames are more important, and
/// none more than video may be.
pub open spec fn stream_priority(n: u64) -> i32 {
    if n > i32::MAX {
        QUIC_PRIORITY_VIDEO
    } else {
        (QUIC_PRIORITY_VIDEO - (i32::MAX - n)) as i32
    }
}

/// The action for the frame that is sent as number `n`.
pub open spec fn send_action(n: u64, is_keyframe: bool) -> SendAction {
    SendAction::Send {
        group_id: n,
        subgroup_id: if is_keyframe {
            0
        } else {
            1
        },
        quic_priority: stream_priority(n),
        abort_in_flight: is_keyframe,
        poll_rtt: n % RTT_POLL_FRAMES == 0,
    }
}

impl FrameSequencer {
    pub open spec fn wf(self) -> bool {
        self.current_gop <= self.frame_seq
    }

    /// The numbers after a packet came while `peer_count` peers are connected.
    pub open spec fn after(self, peer_count: nat, is_keyframe: bool) -> FrameSequencer {
        if peer_count == 0 {
            self
        } else {
            FrameSequencer {
                frame_seq: (self.frame_seq + 1) as u64,
                current_gop: if is_keyframe {
                    (self.current_gop + 1) as u64
                } else {
                    self.current_gop
                },
            }
        }
    }

    /// The numbers after some packets, of which `keys` says whether they are
    /// keyframes, were sent.
    pub open spec fn after_all(self, keys: Seq<bool>) -> FrameSequencer
        decreases keys.len(),
    {
        if keys.len() == 0 {
            self
        } else {
            self.after_all(keys.drop_last()).after(1, keys.last())
        }
    }

    pub fn new() -> (r: FrameSequencer)
        ensures
            r == (FrameSequencer { frame_seq: 0, current_gop: 0 }),
            r.wf(),
    {
        FrameSequencer { frame_seq: 0, current_gop: 0 }
    }

    /// Decide about a packet while `peer_count` peers are connected.
    pub fn next(&mut self, peer_count: usize, is_keyframe: bool) -> (action: SendAction)
        requires
            old(self).wf(),
            old(self).frame_seq < u64::MAX,
        ensures
            final(self).wf(),
            if peer_count == 0 {
                &&& action == SendAction::Discard
                &&& *final(self) == *old(self)
            } else {
                &&& action == send_action((old(self).frame_seq + 1) as u64, is_keyframe)
                &&& final(self).frame_seq == old(self).frame_seq + 1
                &&& final(self).current_gop == old(self).current_gop + (if is_keyframe {
                    1int
                } else {
                    0int
                })
            },
            *final(self) == old(self).after(peer_count as nat, is_keyframe),
    {
        if peer_count == 0 {
            return SendAction::Discard;
        }
        self.frame_seq = self.frame_seq + 1;
        if is_keyframe {
            self.current_gop = self.current_gop + 1;
        }
        let newer_frames: i32 = if self.frame_seq > 0x7FFF_FFFF {
            0
        } else {
            0x7FFF_FFFF - self.frame_seq as i32
        };
        let quic_priority: i32 = QUIC_PRIORITY_VIDEO - newer_frames;
        SendAction::Send {
            group_id: self.frame_seq,
            subgroup_id: if is_keyframe {
                0
            } else {
                1
            },
            quic_priority,
            abort_in_flight: is_keyframe,
            poll_rtt: self.frame_seq % RTT_POLL_FRAMES == 0,
        }
    }
}

/// Law: of two frames sent one after the other the second has the next group,
/// so a receiver that decoded the first sees no gap, and its stream is at least
/// as urgent.
pub proof fn law_no_gap_without_loss(n: u64, first_key: bool, second_key: bool)
    requires
        n < u64::MAX,
    ensures
        send_action(n, first_key)->group_id == n,
        send_action((n + 1) as u64, second_key)->group_id == n + 1,
        !is_gap(n, (n + 1) as u64),
        send_action(n, first_key)->quic_priority <= send_action(
            (n + 1) as u64,
            second_key,
        )->quic_priority,
{
}

/// A video frame on its stream: the subgroup header and its only object.
pub open spec fn video_frame_bytes(
    group_id: u64,
    subgroup_id: u64,
    capture_timestamp_us: u64,
    payload: Seq<u8>,
) -> Seq<u8> {
    (SubgroupHeader {
        track_alias: TRACK_VIDEO,
        group_id,
        subgroup_id,
        publisher_priority: PRIORITY_VIDEO,
    }).bytes() + object_bytes(0, capture_timestamp_us, Some(Codec::Hevc), payload)
}

/// Append what is sent on the stream of a video frame to `out`.
pub fn write_video_frame(
    out: &mut Vec<u8>,
    group_id: u64,
    subgroup_id: u64,
    capture_timestamp_us: u64,
    payload: &[u8],
)
    ensures
        final(out)@ == old(out)@ + video_frame_bytes(
            group_id,
            subgroup_id,
            capture_timestamp_us,
            payload@,
        ),
{
    let ghost before = out@;
    write_subgroup_header(out, TRACK_VIDEO, group_id, subgroup_id, PRIORITY_VIDEO);
    write_object(out, 0, capture_timestamp_us, Some(Codec::Hevc), payload);
    assert(out@ =~= before + video_frame_bytes(
        group_id,
        subgroup_id,
        capture_timestamp_us,
        payload@,
    ));
}

/// Law: a receiver reads a video frame as it was sent: the header, then behind
/// it the timestamp, the codec and the payload, and then the stream ends.
pub proof fn law_video_frame_roundtrip(
    group_id: u64,
    subgroup_id: u64,
    capture_timestamp_us: u64,
    payload: Seq<u8>,
)
    requires
        group_id < VARINT_LIMIT,
        subgroup_id < VARINT_LIMIT,
        capture_timestamp_us < VARINT_LIMIT,
        payload.len() < VARINT_LIMIT,
        video_frame_bytes(group_id, subgroup_id, capture_timestamp_us, payload).len()
            <= usize::MAX,
    ensures
        ({
            let s = video_frame_bytes(group_id, subgroup_id, capture_timestamp_us, payload);
            &&& subgroup_header_of(s) matches Ok(Read::Done { value, used })
            &&& value == (SubgroupHeader {
                track_alias: TRACK_VIDEO,
                group_id,
                subgroup_id,
                publisher_priority: PRIORITY_VIDEO,
            })
            &&& object_header_of(s.skip(used as int)) matches Ok(Read::Done { value: o, used: at })
            &&& o == (ObjectHeader {
                object_id: 0,
                capture_timestamp_us,
                codec: Some(Codec::Hevc),
                payload_len: payload.len() as u64,
            })
            &&& s.skip(used as int).skip(at as int) == payload
        }),
{
    let h = SubgroupHeader {
        track_alias: TRACK_VIDEO,
        group_id,
        subgroup_id,
        publisher_priority: PRIORITY_VIDEO,
    };
    let o = object_bytes(0, capture_timestamp_us, Some(Codec::Hevc), payload);
    let s = video_frame_bytes(group_id, subgroup_id, capture_timestamp_us, payload);
    lemma_subgroup_header_len(h);
    law_subgroup_header_roundtrip(h, o);
    assert(s.skip(h.bytes().len() as int) =~= o);
    law_object_roundtrip(0, capture_timestamp_us, Some(Codec::Hevc), payload, Seq::empty());
    assert(o + Seq::<u8>::empty() =~= o);
    let at = o.len() - payload.len();
    assert(o.skip(at) =~= o.subrange(at, at + payload.len()));
}

/// Law: video is ranked behind audio. The stream of every video frame has a QUIC
/// priority below that of audio, of which a higher one is more important, and a
/// publisher priority in its header above that of audio, of which a lower one is.
pub proof fn law_audio_first(
    group_id: u64,
    subgroup_id: u64,
    capture_timestamp_us: u64,
    payload: Seq<u8>,
)
    requires
        group_id < VARINT_LIMIT,
        subgroup_id < VARINT_LIMIT,
        capture_timestamp_us < VARINT_LIMIT,
        payload.len() < VARINT_LIMIT,
        video_frame_bytes(group_id, subgroup_id, capture_timestamp_us, payload).len()
            <= usize::MAX,
    ensures
        subgroup_header_of(
            video_frame_bytes(group_id, subgroup_id, capture_timestamp_us, payload),
        ) matches Ok(Read::Done { value, .. }) && PRIORITY_AUDIO < value.publisher_priority,
        stream_priority(group_id) <= QUIC_PRIORITY_VIDEO < QUIC_PRIORITY_AUDIO,
{
    law_video_frame_roundtrip(group_id, subgroup_id, capture_timestamp_us, payload);
}

// ---------------------------------------------------------------------------
// Session changes
// ---------------------------------------------------------------------------
/// What the encode loop has to do before the next frame.
#[derive(Debug, Clone, Copy, PartialEq, Eq, Structural)]
pub struct ConfigChange {
    /// Replace the compression session and force a keyframe, so that the
    /// decoder can pick up the new parameters.
    pub recreate: bool,
    /// Set the average bitrate of the session.
    pub set_bitrate: Option<u32>,
}

/// The settings of the compression session in use.
#[derive(Debug, Clone, Copy, PartialEq, Eq, Structural)]
pub struct EncoderControl {
    pub width: u32,
    pub height: u32,
    pub fps: u32,
    /// Bitrate that the session was created with.
    pub bitrate: u32,
    /// Bitrate that is in force.
    pub applied_bitrate: u32,
    /// Frames since the session was created.
    pub frame_count: u64,
}

impl EncoderControl {
    /// Settings of the first session: those of `config`, or the highest preset.
    pub fn new(config: Option<&EncoderConfig>) -> (r: EncoderControl)
        ensures
            r.frame_count == 0,
            r.applied_bitrate == r.bitrate,
            match config {
                Some(c) => {
                    &&& r.width == c.target_width
                    &&& r.height == c.target_height
                    &&& r.fps == c.target_fps
                    &&& r.bitrate == c.target_bitrate
                },
                None => {
                    &&& r.width == ladder().last().width
                    &&& r.height == ladder().last().height
                    &&& r.fps == ladder().last().fps
                    &&& r.bitrate == ladder().last().bitrate_bps
                },
            },
    {
        match config {
            Some(c) => EncoderControl {
                width: c.target_width,
                height: c.target_height,
                fps: c.target_fps,
                bitrate: c.target_bitrate,
                applied_bitrate: c.target_bitrate,
                frame_count: 0,
            },
            None => {
                let preset = quality_preset(QUALITY_LEVELS - 1);
                EncoderControl {
                    width: preset.width,
                    height: preset.height,
                    fps: preset.fps,
                    bitrate: preset.bitrate_bps,
                    applied_bitrate: preset.bitrate_bps,
                    frame_count: 0,
                }
            },
        }
    }

    /// Whether `config` asks for another session: its resolution or frame rate
    /// were changed, and differ from the session's.
    pub open spec fn outdated(self, config: EncoderConfig) -> bool {
        &&& config.quality_changed
        &&& config.target_width != self.width || config.target_height != self.height
            || config.target_fps != self.fps
    }

    /// The settings after `config` was taken over.
    pub open spec fn adopted(self, config: EncoderConfig) -> EncoderControl {
        if self.outdated(config) {
            EncoderControl {
                width: config.target_width,
                height: config.target_height,
                fps: config.target_fps,
                bitrate: config.target_bitrate,
                applied_bitrate: config.target_bitrate,
                frame_count: 0,
            }
        } else {
            EncoderControl { applied_bitrate: config.target_bitrate, ..self }
        }
    }

    /// Take over what changed in `config`; the note of a change is cleared.
    pub fn check_config(&mut self, config: &mut EncoderConfig) -> (change: ConfigChange)
        ensures
            *final(config) == (EncoderConfig { quality_changed: false, ..*old(config) }),
            change.recreate == old(self).outdated(*old(config)),
            if change.recreate {
                &&& change.set_bitrate is None
                &&& *final(self) == (EncoderControl {
                    width: old(config).target_width,
                    height: old(config).target_height,
                    fps: old(config).target_fps,
                    bitrate: old(config).target_bitrate,
                    applied_bitrate: old(config).target_bitrate,
                    frame_count: 0,
                })
            } else {
                &&& change.set_bitrate == (if old(config).target_bitrate != old(
                    self,
                ).applied_bitrate {
                    Some(old(config).target_bitrate)
                } else {
                    None
                })
                &&& *final(self) == (EncoderControl {
                    applied_bitrate: old(config).target_bitrate,
                    ..*old(self)
                })
            },
            *final(self) == old(self).adopted(*old(config)),
    {
        let mut recreate = false;
        if config.quality_changed {
            config.quality_changed = false;
            if config.target_width != self.width || config.target_height != self.height
                || config.target_fps != self.fps {
                recreate = true;
                self.width = config.target_width;
                self.height = config.target_height;
                self.fps = config.target_fps;
                self.bitrate = config.target_bitrate;
                self.applied_bitrate = config.target_bitrate;
                self.frame_count = 0;
            }
        }
        let mut set_bitrate: Option<u32> = None;
        if config.target_bitrate != self.applied_bitrate {
            self.applied_bitrate = config.target_bitrate;
            set_bitrate = Some(config.target_bitrate);
        }
        ConfigChange { recreate, set_bitrate }
    }

    /// Whether a frame of this size has to be scaled before it is encoded.
    pub fn needs_scaling(&self, width: u32, height: u32) -> (r: bool)
        ensures
            r == (width != self.width || height != self.height),
    {
        !(width == self.width && height == self.height)
    }

    /// Sizes of the luma plane and of the interleaved chroma plane that a frame
    /// is scaled into.
    pub fn scaled_plane_sizes(&self) -> (r: (u64, u64))
        ensures
            r.0 == self.width * self.height,
            r.1 == self.width * (self.height as int / 2),
    {
        let w: u64 = self.width as u64;
        let h: u64 = self.height as u64;
        assert(w * h <= u64::MAX) by (nonlinear_arith)
            requires
                w <= u32::MAX,
                h <= u32::MAX,
        ;
        assert(w * (h / 2) <= u64::MAX) by (nonlinear_arith)
            requires
                w <= u32::MAX,
                h <= u32::MAX,
        ;
        (w * h, w * (h / 2))
    }

    /// Count a frame. Returns its presentation time in units of the frame rate.
    pub fn count_frame(&mut self) -> (pts: u64)
        requires
            old(self).frame_count < u64::MAX,
        ensures
            pts == old(self).frame_count + 1,
            *final(self) == (EncoderControl { frame_count: pts, ..*old(self) }),
    {
        self.frame_count = self.frame_count + 1;
        self.frame_count
    }
}

/// Whether an encoded sample is a keyframe: every sample is one that is not
/// marked as depending on others.
pub fn is_sample_keyframe(not_sync: Option<bool>) -> (r: bool)
    ensures
        r == (not_sync != Some(true)),
{
    match not_sync {
        Some(v) => !v,
        None => true,
    }
}

// ---------------------------------------------------------------------------
// Laws of the sending side
// ---------------------------------------------------------------------------
/// Law: a unit is appended whole behind the bytes 0, 0, 0, 1 if it fits within the
/// limit with them, and refused otherwise.
pub proof fn law_unit_appended(out: Seq<u8>, unit: Seq<u8>, limit: int)
    ensures
        out.len() + 4 + unit.len() <= limit ==> with_unit(out, unit, limit) == Ok::<_, ExtractError>(
            out + seq![0u8, 0u8, 0u8, 1u8] + unit,
        ),
        out.len() + 4 + unit.len() > limit ==> with_unit(out, unit, limit) == Err::<Seq<u8>, _>(
            ExtractError::ExceedsEstimate,
        ),
{
    assert(start_code() =~= seq![0u8, 0u8, 0u8, 1u8]);
}

/// Law: one step through a sample. Each length is read from one, two or four bytes,
/// the most significant first, and as many bytes behind it are one unit; the next
/// length stands behind that. A length beyond the sample is an error, and so is one
/// in any other number of bytes; too few bytes for a length end the sample.
pub proof fn law_sample_step(
    out: Seq<u8>,
    data: Seq<u8>,
    at: int,
    header_len: int,
    limit: int,
)
    requires
        0 <= at <= data.len(),
        header_len >= 0,
    ensures
        ({
            let r = with_prefixed(out, data, at, header_len, limit);
            let n: int = if header_len == 1 {
                data[at] as int
            } else if header_len == 2 {
                data[at] * 0x100 + data[at + 1]
            } else {
                data[at] * 0x100_0000 + data[at + 1] * 0x1_0000 + data[at + 2] * 0x100 + data[at
                    + 3]
            };
            let start = at + header_len;
            if data.len() < start {
                r == Ok::<_, ExtractError>(out)
            } else if header_len != 1 && header_len != 2 && header_len != 4 {
                r == Err::<Seq<u8>, _>(ExtractError::UnsupportedHeaderLength(header_len as usize))
            } else if data.len() < start + n {
                r == Err::<Seq<u8>, _>(ExtractError::NaluBeyondBuffer)
            } else if out.len() + 4 + n > limit {
                r == Err::<Seq<u8>, _>(ExtractError::ExceedsEstimate)
            } else {
                r == with_prefixed(
                    out + seq![0u8, 0u8, 0u8, 1u8] + data.subrange(start, start + n),
                    data,
                    start + n,
                    header_len,
                    limit,
                )
            }
        }),
{
    let start = at + header_len;
    if data.len() >= start {
        lemma_be_value_small(data.subrange(at, start));
        if header_len == 1 || header_len == 2 || header_len == 4 {
            let n = be_value(data.subrange(at, start));
            if start + n <= data.len() {
                law_unit_appended(out, data.subrange(start, start + n), limit);
            }
        }
    }
}

/// Law: a frame takes no more than 256 bytes on top of its sample; one whose
/// parameter sets alone take more is refused, and otherwise they stand in front.
pub proof fn law_estimate(param_sets: Seq<Seq<u8>>, data: Seq<u8>, header_len: int)
    ensures
        ({
            let sets = annex_b_of(param_sets);
            let r = annex_b_sample(param_sets, data, header_len);
            if sets.len() > data.len() + 256 {
                r == Err::<Seq<u8>, _>(ExtractError::ExceedsEstimate)
            } else {
                r == with_prefixed(sets, data, 0, header_len, data.len() as int + 256)
            }
        }),
{
    let none = Seq::<u8>::empty();
    let limit = data.len() + 256;
    assert(none + annex_b_of(param_sets) =~= annex_b_of(param_sets));
    if annex_b_of(param_sets).len() > limit {
        lemma_units_do_not_fit(none, param_sets, limit as int);
    } else {
        lemma_units_fit(none, param_sets, limit as int);
    }
}

/// Units that do not all fit are refused.
proof fn lemma_units_do_not_fit(out: Seq<u8>, units: Seq<Seq<u8>>, limit: int)
    requires
        out.len() <= limit < out.len() + annex_b_of(units).len(),
    ensures
        with_units(out, units, limit) == Err::<Seq<u8>, _>(ExtractError::ExceedsEstimate),
    decreases units.len(),
{
    if units.len() > 0 && out.len() + 4 + units[0].len() <= limit {
        lemma_units_do_not_fit(out + start_code() + units[0], units.skip(1), limit);
    }
}

/// Law: how a frame is sent. A keyframe opens subgroup zero of its group and makes
/// what is under way useless; every other frame is in subgroup one and leaves it
/// alone. The round trip times are looked at every 30 frames. Each frame is more
/// urgent than the one before, until the highest urgency that video can have.
pub proof fn law_how_frames_are_sent(n: u64)
    ensures
        ({
            let (key, delta) = (send_action(n, true), send_action(n, false));
            &&& key is Send && delta is Send
            &&& key->group_id == n && delta->group_id == n
            &&& key->subgroup_id == 0 && delta->subgroup_id == 1
            &&& key->abort_in_flight && !delta->abort_in_flight
            &&& key->poll_rtt == (n % 30 == 0) && delta->poll_rtt == (n % 30 == 0)
            &&& key->quic_priority == delta->quic_priority
            &&& n <= 0x7FFF_FFFF ==> key->quic_priority == n - 0x7FFF_FFFF
            &&& n > 0x7FFF_FFFF ==> key->quic_priority == 0
        }),
{
}

/// Law: frames are numbered without gaps. After any number of packets were sent, the
/// next one has the next number, and the keyframes among them are counted; a packet
/// that nobody gets is not.
pub proof fn law_frames_are_numbered(s: FrameSequencer, keys: Seq<bool>)
    requires
        s.current_gop <= s.frame_seq,
        s.frame_seq + keys.len() <= u64::MAX,
    ensures
        s.after_all(keys).frame_seq == s.frame_seq + keys.len(),
        s.current_gop <= s.after_all(keys).current_gop <= s.current_gop + keys.len(),
        keys.len() > 0 ==> s.after_all(keys).current_gop == s.after_all(
            keys.drop_last(),
        ).current_gop + (if keys.last() {
            1int
        } else {
            0
        }),
        forall|key: bool| #[trigger] s.after(0, key) == s,
    decreases keys.len(),
{
    if keys.len() > 0 {
        law_frames_are_numbered(s, keys.drop_last());
    }
}

/// Law: once the encoder has taken over what was asked for, nothing is left to do:
/// the bitrate is in force, and where the quality was changed the size and the frame
/// rate are too.
pub proof fn law_config_taken_over(c: EncoderControl, config: EncoderConfig)
    ensures
        ({
            let after = c.adopted(config);
            &&& after.applied_bitrate == config.target_bitrate
            &&& !after.outdated(config)
            &&& after.adopted(config) == after
            &&& config.quality_changed ==> after.width == config.target_width && after.height
                == config.target_height && after.fps == config.target_fps
            &&& !config.quality_changed ==> after.width == c.width && after.height == c.height
                && after.fps == c.fps && after.frame_count == c.frame_count
            &&& c.outdated(config) ==> after.frame_count == 0 && after.bitrate
                == config.target_bitrate
            &&& !c.outdated(config) ==> after.frame_count == c.frame_count && after.bitrate
                == c.bitrate
        }),
{
}

/// Law: what one side numbers, the other decodes. A receiver that has decoded the
/// frame with some number decodes the next one that is sent.
pub proof fn law_next_frame_arrives(s: GateState, n: u64, payload: Seq<u8>)
    requires
        n < u64::MAX,
        s.got_keyframe,
        s.last_decoded_group == n,
    ensures
        ({
            let sent = send_action((n + 1) as u64, false);
            s.action(sent->group_id, sent->subgroup_id, payload) == PacketAction::Decode
        }),
{
    law_next_frame_is_decoded(s, (n + 1) as u64, 1, payload);
}

/// Law: how a video frame looks on its stream: stream type four, track one, group
/// and subgroup, priority one, and an object with number zero that carries the
/// timestamp and codec one.
pub proof fn law_video_frame_layout(
    group_id: u64,
    subgroup_id: u64,
    capture_timestamp_us: u64,
    payload: Seq<u8>,
)
    ensures
        ({
            let ts = varint_bytes(capture_timestamp_us);
            let length = if payload.len() == 0 {
                seq![0u8, 0u8]
            } else {
                varint_bytes(payload.len() as u64)
            };
            video_frame_bytes(group_id, subgroup_id, capture_timestamp_us, payload) == seq![4u8, 1u8]
                + varint_bytes(group_id) + varint_bytes(subgroup_id) + seq![1u8] + seq![
                0u8,
                (3 + ts.len()) as u8,
                2u8,
            ] + ts + seq![4u8, 1u8] + length + payload
        }),
{
    let h = SubgroupHeader {
        track_alias: TRACK_VIDEO,
        group_id,
        subgroup_id,
        publisher_priority: PRIORITY_VIDEO,
    };
    law_subgroup_header_layout(h);
    law_object_layout(0, capture_timestamp_us, Some(Codec::Hevc), payload);
    law_varint_written(TRACK_VIDEO);
    law_varint_written(0);
    assert(varint_bytes(TRACK_VIDEO) =~= seq![1u8]);
    assert(varint_bytes(0) =~= seq![0u8]);
    let ts = varint_bytes(capture_timestamp_us);
    let length = if payload.len() == 0 {
        seq![0u8, 0u8]
    } else {
        varint_bytes(payload.len() as u64)
    };
    assert(video_frame_bytes(group_id, subgroup_id, capture_timestamp_us, payload) =~= seq![4u8, 1u8]
        + varint_bytes(group_id) + varint_bytes(subgroup_id) + seq![1u8] + seq![
        0u8,
        (3 + ts.len()) as u8,
        2u8,
    ] + ts + seq![4u8, 1u8] + length + payload);
}

/// Law: a session is replaced exactly if a change of quality is noted and any of its
/// width, its height and its frame rate is another one.
pub proof fn law_session_replaced(c: EncoderControl, config: EncoderConfig)
    ensures
        c.outdated(config) <==> config.quality_changed && !(config.target_width == c.width
            && config.target_height == c.height && config.target_fps == c.fps),
{
}

} // verus!
