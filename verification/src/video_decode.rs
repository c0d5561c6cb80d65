//! Receiving side of the video path: Annex B byte streams, and which frames may
//! be handed to the HEVC decoder.

use vstd::prelude::*;
use vstd::slice::slice_subrange;

use crate::pool::SharedBuf;
use crate::wire::{
    append_bytes, be_bytes, lemma_be_bytes_len, lemma_be_roundtrip, lemma_be_value_small, pow256,
    push_be_u32, same_bytes,
};

verus! {

/// A frame ready for display, with MoQ/LOC metadata preserved.
///
/// Pixels are packed `0x00RRGGBB` u32 values (one per pixel, row-major),
/// suitable for direct blitting into a window buffer.
pub struct RgbFrame {
    pub group_id: u64,
    /// Wall-clock capture time in microseconds since Unix epoch (LOC Capture Timestamp).
    pub capture_timestamp_us: u64,
    pub width: u32,
    pub height: u32,
    pub data: SharedBuf<u32>,
}

// ---------------------------------------------------------------------------
// Annex B parsing
// ---------------------------------------------------------------------------
/// Length of the start code at `i`: `00 00 00 01` or `00 00 01`, zero if none.
pub open spec fn start_code_len(s: Seq<u8>, i: int) -> int {
    if i + 4 <= s.len() && s[i] == 0 && s[i + 1] == 0 && s[i + 2] == 0 && s[i + 3] == 1 {
        4
    } else if i + 3 <= s.len() && s[i] == 0 && s[i + 1] == 0 && s[i + 2] == 1 {
        3
    } else {
        0
    }
}

/// Where the first start code at `i` or later begins; the end of `s` if none.
pub open spec fn next_start(s: Seq<u8>, i: int) -> int
    decreases s.len() - i,
{
    if i >= s.len() || start_code_len(s, i) > 0 {
        i
    } else {
        next_start(s, i + 1)
    }
}

/// Start and end of a NAL unit.
pub type Span = (usize, usize);

/// The NAL units that follow the start codes at `i` and later. Two start codes
/// with nothing in between hold none.
pub open spec fn nalus(s: Seq<u8>, i: int) -> Seq<Span>
    decreases s.len() - i,
{
    let at = next_start(s, i);
    let a = at + start_code_len(s, at);
    let b = next_start(s, a);
    if i < 0 || at >= s.len() || b <= i || b > s.len() {
        Seq::empty()
    } else if a < b {
        seq![(a as usize, b as usize)] + nalus(s, b)
    } else {
        nalus(s, b)
    }
}

/// The bytes of a NAL unit.
pub open spec fn nalu_bytes(s: Seq<u8>, n: Span) -> Seq<u8> {
    s.subrange(n.0 as int, n.1 as int)
}

/// Whether a NAL unit is a VPS, SPS or PPS (types 32, 33 and 34). The type is
/// in bits 1 to 6 of the first byte; a unit of one byte has no full header.
pub open spec fn is_param_set(nalu: Seq<u8>) -> bool {
    nalu.len() >= 2 && 32 <= nalu[0] / 2 % 64 <= 34
}

proof fn lemma_next_start(s: Seq<u8>, i: int)
    requires
        0 <= i <= s.len(),
    ensures
        i <= next_start(s, i) <= s.len(),
        next_start(s, i) < s.len() ==> start_code_len(s, next_start(s, i)) > 0,
        forall|k: int| i <= k < next_start(s, i) ==> start_code_len(s, k) == 0,
    decreases s.len() - i,
{
    if i < s.len() && start_code_len(s, i) == 0 {
        lemma_next_start(s, i + 1);
    }
}

/// [`next_start`] is told by what stands before it.
proof fn lemma_next_start_is(s: Seq<u8>, i: int, at: int)
    requires
        0 <= i <= at <= s.len(),
        forall|k: int| i <= k < at ==> start_code_len(s, k) == 0,
        at < s.len() ==> start_code_len(s, at) > 0,
    ensures
        next_start(s, i) == at,
    decreases at - i,
{
    if i < at {
        lemma_next_start_is(s, i + 1, at);
    }
}

/// Law: every unit that is found lies inside the stream and is not empty.
pub proof fn law_nalus_inside(s: Seq<u8>, i: int)
    requires
        0 <= i <= s.len() <= usize::MAX,
    ensures
        forall|k: int|
            0 <= k < nalus(s, i).len() ==> (#[trigger] nalus(s, i)[k]).0 < nalus(s, i)[k].1
                <= s.len(),
    decreases s.len() - i,
{
    lemma_next_start(s, i);
    let at = next_start(s, i);
    if at < s.len() {
        let a = at + start_code_len(s, at);
        lemma_next_start(s, a);
        let b = next_start(s, a);
        law_nalus_inside(s, b);
        let rest = nalus(s, b);
        if a < b {
            assert forall|k: int| 0 <= k < nalus(s, i).len() implies (
            #[trigger] nalus(s, i)[k]).0 < nalus(s, i)[k].1 <= s.len() by {
                if k > 0 {
                    assert(nalus(s, i)[k] == rest[k - 1]);
                }
            }
        }
    }
}

/// Walks over the NAL units of an Annex B byte stream without allocating.
///
/// Yields `(start, end)` byte offset pairs into the original data slice.
pub struct AnnexBNalus<'a> {
    data: &'a [u8],
    pos: usize,
}

/// The NAL units of an Annex B byte stream (without start codes).
pub fn parse_annex_b_nalus(data: &[u8]) -> (r: AnnexBNalus<'_>)
    ensures
        r.wf(),
        r.data() == data@,
        r@ == nalus(data@, 0),
{
    AnnexBNalus { data, pos: 0 }
}

impl<'a> View for AnnexBNalus<'a> {
    type V = Seq<Span>;

    /// The units that are still to come.
    closed spec fn view(&self) -> Seq<Span> {
        nalus(self.data@, self.pos as int)
    }
}

/// Find the next start code at `from` or later.
fn find_start(data: &[u8], from: usize) -> (r: (usize, usize))
    requires
        from <= data@.len(),
    ensures
        r.0 == next_start(data@, from as int),
        from <= r.0 <= data@.len(),
        r.1 == (if r.0 < data@.len() {
            start_code_len(data@, r.0 as int)
        } else {
            0
        }),
        r.0 + r.1 <= data@.len(),
        r.0 < data@.len() ==> r.1 > 0,
{
    let n = data.len();
    let mut i: usize = from;
    while i < n
        invariant
            n == data@.len(),
            from <= i <= n,
            next_start(data@, from as int) == next_start(data@, i as int),
        decreases n - i,
    {
        if n - i >= 3 && data[i] == 0 && data[i + 1] == 0 {
            if n - i >= 4 && data[i + 2] == 0 && data[i + 3] == 1 {
                return (i, 4);
            } else if data[i + 2] == 1 {
                return (i, 3);
            }
        }
        i = i + 1;
    }
    (i, 0)
}

impl<'a> AnnexBNalus<'a> {
    pub closed spec fn data(self) -> Seq<u8> {
        self.data@
    }

    pub closed spec fn wf(self) -> bool {
        self.pos <= self.data@.len()
    }

    /// The next NAL unit, if there is one.
    pub fn next(&mut self) -> (r: Option<Span>)
        requires
            old(self).wf(),
        ensures
            final(self).wf(),
            final(self).data() == old(self).data(),
            match r {
                Some(n) => {
                    &&& old(self)@.len() > 0
                    &&& n == old(self)@[0]
                    &&& final(self)@ == old(self)@.skip(1)
                    &&& n.0 < n.1 <= old(self).data().len()
                },
                None => old(self)@.len() == 0 && final(self)@.len() == 0,
            },
    {
        let ghost whole = self@;
        loop
            invariant
                self.wf(),
                self.data@ == old(self).data@,
                self@ == whole,
                whole == old(self)@,
            decreases self.data@.len() - self.pos,
        {
            let (at, code_len) = find_start(self.data, self.pos);
            if at == self.data.len() {
                self.pos = at;
                return None;
            }
            let start: usize = at + code_len;
            let (end, _) = find_start(self.data, start);
            let ghost rest = nalus(self.data@, end as int);
            proof {
                if start < end {
                    assert((seq![(start, end)] + rest).skip(1) =~= rest);
                }
            }
            self.pos = end;
            if start < end {
                return Some((start, end));
            }
        }
    }
}

/// The units of `list` that are parameter sets, end to end.
pub open spec fn param_set_concat(s: Seq<u8>, list: Seq<Span>) -> Seq<u8>
    decreases list.len(),
{
    if list.len() == 0 {
        Seq::empty()
    } else {
        (if is_param_set(nalu_bytes(s, list[0])) {
            nalu_bytes(s, list[0])
        } else {
            Seq::empty()
        }) + param_set_concat(s, list.skip(1))
    }
}

/// The units of `list` that are parameter sets.
pub open spec fn param_sets_in(s: Seq<u8>, list: Seq<Span>) -> Seq<Span>
    decreases list.len(),
{
    if list.len() == 0 {
        Seq::empty()
    } else {
        (if is_param_set(nalu_bytes(s, list[0])) {
            seq![list[0]]
        } else {
            Seq::empty()
        }) + param_sets_in(s, list.skip(1))
    }
}

/// The units of `list` that are neither parameter sets nor too short, each
/// behind its length in four bytes.
pub open spec fn hvcc_of(s: Seq<u8>, list: Seq<Span>) -> Seq<u8>
    decreases list.len(),
{
    if list.len() == 0 {
        Seq::empty()
    } else {
        let n = nalu_bytes(s, list[0]);
        (if n.len() < 2 || is_param_set(n) {
            Seq::empty()
        } else {
            be_bytes(n.len() % 0x1_0000_0000, 4) + n
        }) + hvcc_of(s, list.skip(1))
    }
}

fn nalu_is_param_set(nalu: &[u8]) -> (r: bool)
    ensures
        r == is_param_set(nalu@),
{
    if nalu.len() < 2 {
        return false;
    }
    let nalu_type: u8 = nalu[0] / 2 % 64;
    nalu_type == 32 || nalu_type == 33 || nalu_type == 34
}

/// Concatenate VPS/SPS/PPS parameter set bytes from an Annex B keyframe
/// into `out`. Used for fast equality comparison across keyframes.
pub fn collect_param_set_bytes(annex_b: &[u8], out: &mut Vec<u8>)
    ensures
        final(out)@ == param_set_concat(annex_b@, nalus(annex_b@, 0)),
{
    out.clear();
    let mut units = parse_annex_b_nalus(annex_b);
    let ghost goal = param_set_concat(annex_b@, units@);
    assert(out@ + goal =~= goal);
    loop
        invariant
            units.wf(),
            units.data() == annex_b@,
            goal == param_set_concat(annex_b@, nalus(annex_b@, 0)),
            out@ + param_set_concat(annex_b@, units@) == goal,
        ensures
            out@ == goal,
        decreases units@.len(),
    {
        let ghost before = out@;
        let ghost left = units@;
        match units.next() {
            Some((start, end)) => {
                let nalu = slice_subrange(annex_b, start, end);
                if nalu_is_param_set(nalu) {
                    append_bytes(out, nalu);
                }
                assert(out@ + param_set_concat(annex_b@, units@) =~= before + param_set_concat(
                    annex_b@,
                    left,
                ));
            },
            None => {
                assert(out@ + Seq::<u8>::empty() =~= out@);
                break ;
            },
        }
    }
}

/// Where the parameter sets of an Annex B keyframe stand: VPS (type 32), SPS
/// (type 33), PPS (type 34).
pub fn param_sets(annex_b: &[u8]) -> (r: Vec<Span>)
    ensures
        r@ == param_sets_in(annex_b@, nalus(annex_b@, 0)),
        forall|i: int|
            0 <= i < r@.len() ==> (#[trigger] r@[i]).0 < r@[i].1 <= annex_b@.len(),
{
    let mut out: Vec<Span> = Vec::new();
    let mut units = parse_annex_b_nalus(annex_b);
    let ghost goal = param_sets_in(annex_b@, units@);
    assert(out@ + goal =~= goal);
    loop
        invariant
            units.wf(),
            units.data() == annex_b@,
            goal == param_sets_in(annex_b@, nalus(annex_b@, 0)),
            out@ + param_sets_in(annex_b@, units@) == goal,
            forall|i: int|
                0 <= i < out@.len() ==> (#[trigger] out@[i]).0 < out@[i].1 <= annex_b@.len(),
        ensures
            out@ == goal,
        decreases units@.len(),
    {
        let ghost before = out@;
        let ghost left = units@;
        match units.next() {
            Some((start, end)) => {
                if nalu_is_param_set(slice_subrange(annex_b, start, end)) {
                    out.push((start, end));
                }
                assert(out@ + param_sets_in(annex_b@, units@) =~= before + param_sets_in(
                    annex_b@,
                    left,
                ));
            },
            None => {
                assert(out@ + Seq::<Span>::empty() =~= out@);
                break ;
            },
        }
    }
    out
}

/// Convert Annex B NALUs to HVCC format (4-byte length prefix) into `output`.
/// Skips parameter set NALUs (VPS/SPS/PPS) as they're in the format description.
/// Reuses the `output` buffer's allocation across calls.
pub fn annex_b_to_hvcc_into(annex_b: &[u8], output: &mut Vec<u8>)
    ensures
        final(output)@ == hvcc_of(annex_b@, nalus(annex_b@, 0)),
{
    output.clear();
    let mut units = parse_annex_b_nalus(annex_b);
    let ghost goal = hvcc_of(annex_b@, units@);
    assert(output@ + goal =~= goal);
    loop
        invariant
            units.wf(),
            units.data() == annex_b@,
            goal == hvcc_of(annex_b@, nalus(annex_b@, 0)),
            output@ + hvcc_of(annex_b@, units@) == goal,
        ensures
            output@ == goal,
        decreases units@.len(),
    {
        let ghost before = output@;
        let ghost left = units@;
        match units.next() {
            Some((start, end)) => {
                let nalu = slice_subrange(annex_b, start, end);
                if nalu.len() >= 2 && !nalu_is_param_set(nalu) {
                    let len: u32 = (nalu.len() as u64 % 0x1_0000_0000) as u32;
                    push_be_u32(output, len);
                    append_bytes(output, nalu);
                }
                assert(output@ + hvcc_of(annex_b@, units@) =~= before + hvcc_of(annex_b@, left));
            },
            None => {
                assert(output@ + Seq::<u8>::empty() =~= output@);
                break ;
            },
        }
    }
}

// ---------------------------------------------------------------------------
// Writing units and finding them again
// ---------------------------------------------------------------------------
/// The four byte start code.
pub open spec fn start_code() -> Seq<u8> {
    seq![0u8, 0u8, 0u8, 1u8]
}

/// `units` as an Annex B stream: each behind a four byte start code.
pub open spec fn annex_b_of(units: Seq<Seq<u8>>) -> Seq<u8>
    decreases units.len(),
{
    if units.len() == 0 {
        Seq::empty()
    } else {
        start_code() + units[0] + annex_b_of(units.skip(1))
    }
}

/// Whether `u` can stand in a byte stream as HEVC demands: it is not empty,
/// holds no start code, and does not end in a zero byte.
pub open spec fn is_clean(u: Seq<u8>) -> bool {
    &&& u.len() > 0
    &&& u.last() != 0
    &&& forall|k: int| 0 <= k < u.len() ==> start_code_len(u, k) == 0
}

/// The bytes of the units at `spans`.
pub open spec fn units_at(s: Seq<u8>, spans: Seq<Span>) -> Seq<Seq<u8>> {
    spans.map(|_i: int, n: Span| nalu_bytes(s, n))
}

proof fn lemma_units_found(pre: Seq<u8>, units: Seq<Seq<u8>>)
    requires
        forall|k: int| 0 <= k < units.len() ==> is_clean(#[trigger] units[k]),
        (pre + annex_b_of(units)).len() <= usize::MAX,
    ensures
        units_at(pre + annex_b_of(units), nalus(pre + annex_b_of(units), pre.len() as int))
            == units,
    decreases units.len(),
{
    let s = pre + annex_b_of(units);
    let i = pre.len() as int;
    if units.len() == 0 {
        assert(units_at(s, nalus(s, i)) =~= units);
    } else {
        let u = units[0];
        let rest = units.skip(1);
        let tail = annex_b_of(rest);
        let a = i + 4;
        let b = a + u.len();
        let pre2 = pre + start_code() + u;
        assert(s =~= pre2 + tail);
        assert(is_clean(u));
        assert(s[i] == 0 && s[i + 1] == 0 && s[i + 2] == 0 && s[i + 3] == 1);
        assert(start_code_len(s, i) == 4);
        assert forall|k: int| a <= k < b implies start_code_len(s, k) == 0 by {
            assert(start_code_len(u, k - a) == 0);
            assert(forall|d: int| a <= d < b ==> s[d] == #[trigger] u[d - a]);
            assert(s[b - 1] == u.last());
            assert(s[k] == u[k - a]);
            if k + 1 < b {
                assert(s[k + 1] == u[k + 1 - a]);
            }
            if k + 2 < b {
                assert(s[k + 2] == u[k + 2 - a]);
            }
            if k + 3 < b {
                assert(s[k + 3] == u[k + 3 - a]);
            }
        }
        if b < s.len() {
            assert(rest.len() > 0);
            assert(s[b] == tail[0]);
            assert(s[b + 1] == tail[1]);
            assert(s[b + 2] == tail[2]);
            assert(s[b + 3] == tail[3]);
            assert(start_code_len(s, b) == 4);
        }
        lemma_next_start_is(s, i, i);
        lemma_next_start_is(s, a, b);
        assert(nalus(s, i) == seq![(a as usize, b as usize)] + nalus(s, b));
        assert forall|k: int| 0 <= k < rest.len() implies is_clean(#[trigger] rest[k]) by {
            assert(rest[k] == units[k + 1]);
        }
        lemma_units_found(pre2, rest);
        let spans = nalus(s, b);
        assert(units_at(s, spans) == rest);
        assert(nalu_bytes(s, (a as usize, b as usize)) =~= u);
        let all = units_at(s, nalus(s, i));
        assert forall|k: int| 0 <= k < units.len() implies all[k] == units[k] by {
            if k > 0 {
                assert(nalus(s, i)[k] == spans[k - 1]);
                assert(units_at(s, spans)[k - 1] == rest[k - 1]);
            }
        }
        assert(units_at(s, spans).len() == rest.len());
        assert(all =~= units);
    }
}

/// Law: the NAL units found in an Annex B stream are those it was put together
/// from, in order.
pub proof fn law_annex_b_units(units: Seq<Seq<u8>>)
    requires
        forall|k: int| 0 <= k < units.len() ==> is_clean(#[trigger] units[k]),
        annex_b_of(units).len() <= usize::MAX,
    ensures
        units_at(annex_b_of(units), nalus(annex_b_of(units), 0)) == units,
{
    let none = Seq::<u8>::empty();
    assert(none + annex_b_of(units) =~= annex_b_of(units));
    lemma_units_found(none, units);
}

// ---------------------------------------------------------------------------
// Which frames are decoded
// ---------------------------------------------------------------------------
/// What to do with a packet.
#[derive(Debug, Clone, Copy, PartialEq, Eq, Structural)]
pub enum PacketAction {
    /// Do not decode it. With `reset` the decoder session is torn down.
    Skip { reset: bool },
    /// Create a decoder session from its parameter sets, report with
    /// [`DecoderGate::session_created`], then decode it.
    NewSession,
    /// Decode it with the session at hand.
    Decode,
}

/// What came of handing a packet to the decoder.
#[derive(Debug, Clone, Copy, PartialEq, Eq, Structural)]
pub enum DecodeOutcome {
    Frame,
    /// Decoder didn't produce output (e.g. buffering).
    NoOutput,
    Failed,
}

/// Decides which packets of a peer reach the decoder: after a loss nothing is
/// decoded until the next keyframe, and the decoder session is replaced only
/// when the parameter sets change.
pub struct DecoderGate {
    got_keyframe: bool,
    keyframe_group: u64,
    last_decoded_group: u64,
    /// Parameter set bytes that the session was created with, while there is one.
    session_params: Option<Vec<u8>>,
}

/// The state of a [`DecoderGate`].
#[verifier::ext_equal]
pub struct GateState {
    /// Whether delta frames may be decoded.
    pub got_keyframe: bool,
    /// Group of the newest keyframe.
    pub keyframe_group: u64,
    pub last_decoded_group: u64,
    pub session_params: Option<Seq<u8>>,
}

/// The parameter sets of a packet, as they are compared.
pub open spec fn params_of(payload: Seq<u8>) -> Seq<u8> {
    param_set_concat(payload, nalus(payload, 0))
}

/// Whether a packet of group `group` does not follow right after `last`.
pub open spec fn is_gap(last: u64, group: u64) -> bool {
    group != (if last == u64::MAX {
        0
    } else {
        last + 1
    })
}

impl GateState {
    /// Delta frames are only let through while there is a session.
    pub open spec fn wf(self) -> bool {
        self.got_keyframe ==> self.session_params is Some
    }

    /// What is done with a packet.
    pub open spec fn action(self, group_id: u64, subgroup_id: u64, payload: Seq<u8>) -> PacketAction {
        if subgroup_id != 0 {
            if !self.got_keyframe {
                PacketAction::Skip { reset: false }
            } else if is_gap(self.last_decoded_group, group_id) {
                PacketAction::Skip { reset: true }
            } else {
                PacketAction::Decode
            }
        } else if self.session_params == Some(params_of(payload)) {
            PacketAction::Decode
        } else if params_of(payload).len() == 0 {
            PacketAction::Skip { reset: false }
        } else {
            PacketAction::NewSession
        }
    }

    /// How many drops are counted for a packet: one if it is not decoded.
    pub open spec fn drops(self, group_id: u64, subgroup_id: u64, payload: Seq<u8>) -> u64 {
        match self.action(group_id, subgroup_id, payload) {
            PacketAction::Skip { .. } => 1,
            _ => 0,
        }
    }

    /// The state after a packet was looked at. A keyframe with parameter sets
    /// starts the decoding, one that has none and no session to go with stops it.
    pub open spec fn after_packet(
        self,
        group_id: u64,
        subgroup_id: u64,
        payload: Seq<u8>,
    ) -> GateState {
        let action = self.action(group_id, subgroup_id, payload);
        let newest = if subgroup_id == 0 && (!self.got_keyframe || group_id > self.keyframe_group) {
            group_id
        } else {
            self.keyframe_group
        };
        GateState {
            got_keyframe: action is Decode,
            keyframe_group: newest,
            session_params: if action == (PacketAction::Skip { reset: true }) {
                None
            } else {
                self.session_params
            },
            ..self
        }
    }

    /// The state after it was tried to create a session from the keyframe `payload`.
    pub open spec fn after_session(self, payload: Seq<u8>, ok: bool) -> GateState {
        if ok {
            GateState {
                got_keyframe: true,
                session_params: Some(params_of(payload)),
                ..self
            }
        } else {
            GateState { got_keyframe: false, ..self }
        }
    }

    /// The state after it was tried to decode a packet of a group.
    pub open spec fn after_decode(self, group_id: u64, outcome: DecodeOutcome) -> GateState {
        if outcome is Failed {
            GateState { got_keyframe: false, session_params: None, ..self }
        } else {
            GateState { last_decoded_group: group_id, ..self }
        }
    }
}

impl View for DecoderGate {
    type V = GateState;

    closed spec fn view(&self) -> GateState {
        GateState {
            got_keyframe: self.got_keyframe,
            keyframe_group: self.keyframe_group,
            last_decoded_group: self.last_decoded_group,
            session_params: match self.session_params {
                Some(v) => Some(v@),
                None => None,
            },
        }
    }
}

impl DecoderGate {
    pub fn new() -> (r: DecoderGate)
        ensures
            r@ == (GateState {
                got_keyframe: false,
                keyframe_group: 0,
                last_decoded_group: 0,
                session_params: None,
            }),
            r@.wf(),
    {
        DecoderGate {
            got_keyframe: false,
            keyframe_group: 0,
            last_decoded_group: 0,
            session_params: None,
        }
    }

    /// Whether the parameter sets in `annex_b` match the ones that the session
    /// was created with (i.e. no session rebuild needed).
    pub fn params_match(&self, annex_b: &[u8]) -> (r: bool)
        ensures
            r == (self@.session_params == Some(params_of(annex_b@))),
    {
        match &self.session_params {
            Some(params) => {
                let mut scratch: Vec<u8> = Vec::new();
                collect_param_set_bytes(annex_b, &mut scratch);
                same_bytes(scratch.as_slice(), params.as_slice())
            },
            None => false,
        }
    }

    /// Decide about a packet. Returns what to do and how many drops to count.
    pub fn on_packet(&mut self, group_id: u64, subgroup_id: u64, payload: &[u8]) -> (r: (
        PacketAction,
        u64,
    ))
        requires
            old(self)@.wf(),
        ensures
            final(self)@.wf(),
            r.0 == old(self)@.action(group_id, subgroup_id, payload@),
            r.1 == old(self)@.drops(group_id, subgroup_id, payload@),
            final(self)@ == old(self)@.after_packet(group_id, subgroup_id, payload@),
    {
        let is_keyframe = subgroup_id == 0;
        if !is_keyframe {
            if !self.got_keyframe {
                return (PacketAction::Skip { reset: false }, 1);
            }
            if group_id != self.last_decoded_group.wrapping_add(1) {
                self.got_keyframe = false;
                self.session_params = None;
                return (PacketAction::Skip { reset: true }, 1);
            }
            return (PacketAction::Decode, 0);
        }
        if !self.got_keyframe || group_id > self.keyframe_group {
            self.keyframe_group = group_id;
        }
        if self.params_match(payload) {
            self.got_keyframe = true;
            return (PacketAction::Decode, 0);
        }
        self.got_keyframe = false;
        let mut params: Vec<u8> = Vec::new();
        collect_param_set_bytes(payload, &mut params);
        if params.len() == 0 {
            (PacketAction::Skip { reset: false }, 1)
        } else {
            (PacketAction::NewSession, 0)
        }
    }

    /// Note whether a session could be created from the keyframe `payload`.
    /// Returns how many drops to count; without a session it is skipped.
    pub fn session_created(&mut self, payload: &[u8], ok: bool) -> (drops: u64)
        requires
            old(self)@.wf(),
        ensures
            final(self)@.wf(),
            drops == if ok {
                0u64
            } else {
                1u64
            },
            final(self)@ == (GateState {
                got_keyframe: ok,
                session_params: if ok {
                    Some(params_of(payload@))
                } else {
                    old(self)@.session_params
                },
                ..old(self)@
            }),
            final(self)@ == old(self)@.after_session(payload@, ok),
    {
        if ok {
            let mut params: Vec<u8> = Vec::new();
            collect_param_set_bytes(payload, &mut params);
            self.session_params = Some(params);
            self.got_keyframe = true;
            0
        } else {
            self.got_keyframe = false;
            1
        }
    }

    /// Note what came of decoding a packet of group `group_id`. After a failure
    /// the session is gone. Returns how many drops to count.
    pub fn decoded(&mut self, group_id: u64, outcome: DecodeOutcome) -> (drops: u64)
        requires
            old(self)@.wf(),
        ensures
            final(self)@.wf(),
            match outcome {
                DecodeOutcome::Failed => {
                    &&& drops == 1
                    &&& final(self)@ == (GateState {
                        got_keyframe: false,
                        session_params: None,
                        ..old(self)@
                    })
                },
                _ => {
                    &&& drops == 0
                    &&& final(self)@ == (GateState { last_decoded_group: group_id, ..old(self)@ })
                },
            },
            final(self)@ == old(self)@.after_decode(group_id, outcome),
    {
        match outcome {
            DecodeOutcome::Failed => {
                self.got_keyframe = false;
                self.session_params = None;
                1
            },
            _ => {
                self.last_decoded_group = group_id;
                0
            },
        }
    }
}

/// Law: a delta frame is decoded only right after the frame before it, with a
/// session at hand.
pub proof fn law_delta_needs_predecessor(s: GateState, group_id: u64, subgroup_id: u64, payload: Seq<u8>)
    requires
        s.wf(),
        subgroup_id != 0,
        s.action(group_id, subgroup_id, payload) is Decode,
    ensures
        s.session_params is Some,
        !is_gap(s.last_decoded_group, group_id),
{
}

/// Law: after a gap every delta frame is skipped, until a keyframe comes.
pub proof fn law_gap_closes_gate(
    s: GateState,
    group_id: u64,
    subgroup_id: u64,
    payload: Seq<u8>,
    later_group: u64,
    later_subgroup: u64,
    later_payload: Seq<u8>,
)
    requires
        s.wf(),
        s.got_keyframe,
        subgroup_id != 0,
        is_gap(s.last_decoded_group, group_id),
        later_subgroup != 0,
    ensures
        s.after_packet(group_id, subgroup_id, payload).action(
            later_group,
            later_subgroup,
            later_payload,
        ) == (PacketAction::Skip { reset: false }),
        s.after_packet(group_id, subgroup_id, payload).after_packet(
            later_group,
            later_subgroup,
            later_payload,
        ).got_keyframe == false,
{
}

/// Law: while the parameter sets stay the same, no keyframe asks for a new
/// session.
pub proof fn law_session_is_reused(s: GateState, group_id: u64, payload: Seq<u8>)
    requires
        s.session_params == Some(params_of(payload)),
    ensures
        s.action(group_id, 0, payload) is Decode,
        s.after_packet(group_id, 0, payload).session_params == s.session_params,
{
}

/// Law: while nothing is lost, everything is decoded. A delta frame that follows
/// right after the last decoded one goes to the decoder, no drop is counted, and
/// frames go on being taken with the session at hand.
pub proof fn law_next_frame_is_decoded(
    s: GateState,
    group_id: u64,
    subgroup_id: u64,
    payload: Seq<u8>,
)
    requires
        s.got_keyframe,
        subgroup_id != 0,
        group_id == s.last_decoded_group + 1 || (group_id == 0 && s.last_decoded_group
            == 0xFFFF_FFFF_FFFF_FFFF),
    ensures
        s.action(group_id, subgroup_id, payload) == PacketAction::Decode,
        s.drops(group_id, subgroup_id, payload) == 0,
        s.after_packet(group_id, subgroup_id, payload).got_keyframe,
        s.after_packet(group_id, subgroup_id, payload).session_params == s.session_params,
        s.after_packet(group_id, subgroup_id, payload).last_decoded_group == s.last_decoded_group,
        s.after_packet(group_id, subgroup_id, payload).keyframe_group == s.keyframe_group,
{
}

/// The state after `payloads` came in as delta frames of consecutive groups, right
/// after the last decoded one, and each was decoded.
pub open spec fn after_stream(s: GateState, subgroup_id: u64, payloads: Seq<Seq<u8>>) -> GateState
    decreases payloads.len(),
{
    if payloads.len() == 0 {
        s
    } else {
        let before = after_stream(s, subgroup_id, payloads.drop_last());
        let group_id = (s.last_decoded_group + payloads.len()) as u64;
        GateState {
            last_decoded_group: group_id,
            ..before.after_packet(group_id, subgroup_id, payloads.last())
        }
    }
}

/// Law: a stream of delta frames without loss after a keyframe is decoded
/// completely, however long it is, and the next frame behind it is decoded too.
pub proof fn law_stream_without_loss(
    s: GateState,
    subgroup_id: u64,
    payloads: Seq<Seq<u8>>,
    next: Seq<u8>,
)
    requires
        s.got_keyframe,
        subgroup_id != 0,
        s.last_decoded_group + payloads.len() < u64::MAX,
    ensures
        after_stream(s, subgroup_id, payloads).got_keyframe,
        after_stream(s, subgroup_id, payloads).last_decoded_group == s.last_decoded_group
            + payloads.len(),
        after_stream(s, subgroup_id, payloads).session_params == s.session_params,
        after_stream(s, subgroup_id, payloads).action(
            (s.last_decoded_group + payloads.len() + 1) as u64,
            subgroup_id,
            next,
        ) == PacketAction::Decode,
    decreases payloads.len(),
{
    if payloads.len() > 0 {
        law_stream_without_loss(s, subgroup_id, payloads.drop_last(), payloads.last());
        let before = after_stream(s, subgroup_id, payloads.drop_last());
        let group_id = (s.last_decoded_group + payloads.len()) as u64;
        law_next_frame_is_decoded(before, group_id, subgroup_id, payloads.last());
    }
    let all = after_stream(s, subgroup_id, payloads);
    law_next_frame_is_decoded(all, (all.last_decoded_group + 1) as u64, subgroup_id, next);
}

/// Law: a delta frame of any other group is dropped once, the session with it, and
/// so is every delta frame before the first keyframe.
pub proof fn law_other_delta_frames_are_dropped(
    s: GateState,
    group_id: u64,
    subgroup_id: u64,
    payload: Seq<u8>,
)
    requires
        subgroup_id != 0,
        s.last_decoded_group < u64::MAX,
        !s.got_keyframe || group_id != s.last_decoded_group + 1,
    ensures
        s.action(group_id, subgroup_id, payload) == (PacketAction::Skip { reset: s.got_keyframe }),
        s.drops(group_id, subgroup_id, payload) == 1,
        !s.after_packet(group_id, subgroup_id, payload).got_keyframe,
        s.after_packet(group_id, subgroup_id, payload).last_decoded_group == s.last_decoded_group,
        s.after_packet(group_id, subgroup_id, payload).keyframe_group == s.keyframe_group,
        s.got_keyframe ==> s.after_packet(group_id, subgroup_id, payload).session_params is None,
        !s.got_keyframe ==> s.after_packet(group_id, subgroup_id, payload).session_params
            == s.session_params,
{
}

/// Law: every keyframe that can be decoded is. One whose parameter sets are those
/// of the session goes straight to the decoder, one with other parameter sets gets
/// a session of its own, and only one that has none is dropped.
pub proof fn law_keyframes(s: GateState, group_id: u64, payload: Seq<u8>)
    ensures
        ({
            let sets = param_set_concat(payload, nalus(payload, 0));
            let after = s.after_packet(group_id, 0, payload);
            if s.session_params == Some(sets) {
                &&& s.action(group_id, 0, payload) == PacketAction::Decode
                &&& s.drops(group_id, 0, payload) == 0
                &&& after.got_keyframe
            } else if sets.len() > 0 {
                &&& s.action(group_id, 0, payload) == PacketAction::NewSession
                &&& s.drops(group_id, 0, payload) == 0
            } else {
                &&& s.action(group_id, 0, payload) == (PacketAction::Skip { reset: false })
                &&& s.drops(group_id, 0, payload) == 1
                &&& !after.got_keyframe
            }
        }),
        s.after_packet(group_id, 0, payload).session_params == s.session_params,
        s.after_packet(group_id, 0, payload).last_decoded_group == s.last_decoded_group,
        !s.got_keyframe || group_id >= s.keyframe_group ==> s.after_packet(
            group_id,
            0,
            payload,
        ).keyframe_group == group_id,
        s.got_keyframe && group_id <= s.keyframe_group ==> s.after_packet(
            group_id,
            0,
            payload,
        ).keyframe_group == s.keyframe_group,
{
}

/// Law: a stream starts with any keyframe that has parameter sets, whatever came
/// before it: once a session was created for it and it was decoded, the delta frame
/// after it is decoded too.
pub proof fn law_stream_starts(
    s: GateState,
    group_id: u64,
    payload: Seq<u8>,
    outcome: DecodeOutcome,
    next: Seq<u8>,
)
    requires
        param_set_concat(payload, nalus(payload, 0)).len() > 0,
        group_id < u64::MAX,
        !(outcome is Failed),
    ensures
        ({
            let sets = param_set_concat(payload, nalus(payload, 0));
            let seen = s.after_packet(group_id, 0, payload);
            let ready = if s.action(group_id, 0, payload) == PacketAction::NewSession {
                seen.after_session(payload, true)
            } else {
                seen
            };
            let decoded = ready.after_decode(group_id, outcome);
            &&& ready.got_keyframe
            &&& ready.session_params == Some(sets)
            &&& decoded.last_decoded_group == group_id
            &&& decoded.action((group_id + 1) as u64, 1, next) == PacketAction::Decode
        }),
{
}

/// Law: after a failure nothing is decoded until the next keyframe, whether a session
/// could not be created or a packet not be decoded; after the latter the next keyframe
/// gets a new session.
pub proof fn law_failure_waits_for_keyframe(
    s: GateState,
    payload: Seq<u8>,
    failed_group: u64,
    group_id: u64,
    next: Seq<u8>,
)
    ensures
        ({
            let refused = s.after_session(payload, false);
            let failed = s.after_decode(failed_group, DecodeOutcome::Failed);
            &&& refused.action(group_id, 1, next) == (PacketAction::Skip { reset: false })
            &&& failed.action(group_id, 1, next) == (PacketAction::Skip { reset: false })
            &&& refused.session_params == s.session_params
            &&& failed.session_params is None
            &&& failed.action(group_id, 0, next) != PacketAction::Decode
            &&& failed.last_decoded_group == s.last_decoded_group
            &&& refused.last_decoded_group == s.last_decoded_group
            &&& failed.keyframe_group == s.keyframe_group
            &&& refused.keyframe_group == s.keyframe_group
        }),
{
}

/// Law: parameter sets are the units of types 32, 33 and 34, told by the first of
/// at least two bytes.
pub proof fn law_param_set_types(nalu: Seq<u8>)
    ensures
        is_param_set(nalu) == (nalu.len() >= 2 && (64 <= nalu[0] <= 69 || 192 <= nalu[0] <= 197)),
{
}

/// Law: the units of two parts of a stream are converted one part after the other.
pub proof fn law_units_in_sequence(s: Seq<u8>, a: Seq<Span>, b: Seq<Span>)
    ensures
        hvcc_of(s, a + b) == hvcc_of(s, a) + hvcc_of(s, b),
        param_set_concat(s, a + b) == param_set_concat(s, a) + param_set_concat(s, b),
        param_sets_in(s, a + b) == param_sets_in(s, a) + param_sets_in(s, b),
    decreases a.len(),
{
    if a.len() == 0 {
        assert(a + b =~= b);
        assert(hvcc_of(s, a) + hvcc_of(s, b) =~= hvcc_of(s, b));
        assert(param_set_concat(s, a) + param_set_concat(s, b) =~= param_set_concat(s, b));
        assert(param_sets_in(s, a) + param_sets_in(s, b) =~= param_sets_in(s, b));
    } else {
        law_units_in_sequence(s, a.skip(1), b);
        assert((a + b).skip(1) =~= a.skip(1) + b);
        assert(hvcc_of(s, a + b) =~= hvcc_of(s, a) + hvcc_of(s, b));
        assert(param_set_concat(s, a + b) =~= param_set_concat(s, a) + param_set_concat(s, b));
        assert(param_sets_in(s, a + b) =~= param_sets_in(s, a) + param_sets_in(s, b));
    }
}

/// Law: a single unit is handed to the decoder unchanged, behind its length in four
/// bytes, the most significant first; a parameter set is collected in place of
/// that; and a unit without a full header is left out.
pub proof fn law_single_unit(s: Seq<u8>, unit: Span)
    requires
        unit.0 < unit.1 <= s.len() < 0x1_0000_0000,
    ensures
        ({
            let bytes = s.subrange(unit.0 as int, unit.1 as int);
            let first = bytes[0];
            let is_set = 64 <= first <= 69 || 192 <= first <= 197;
            let out = hvcc_of(s, seq![unit]);
            &&& bytes.len() < 2 ==> out.len() == 0 && param_set_concat(s, seq![unit]).len() == 0
                && param_sets_in(s, seq![unit]).len() == 0
            &&& bytes.len() >= 2 && is_set ==> out.len() == 0 && param_set_concat(s, seq![unit])
                == bytes && param_sets_in(s, seq![unit]) == seq![unit]
            &&& bytes.len() >= 2 && !is_set ==> {
                &&& out.len() == 4 + bytes.len()
                &&& out[0] * 0x100_0000 + out[1] * 0x1_0000 + out[2] * 0x100 + out[3]
                    == bytes.len()
                &&& out.skip(4) == bytes
                &&& param_set_concat(s, seq![unit]).len() == 0
                &&& param_sets_in(s, seq![unit]).len() == 0
            }
        }),
{
    let bytes = s.subrange(unit.0 as int, unit.1 as int);
    let list = seq![unit];
    reveal_with_fuel(hvcc_of, 2);
    reveal_with_fuel(param_set_concat, 2);
    reveal_with_fuel(param_sets_in, 2);
    assert(list.skip(1).len() == 0);
    let n = bytes.len();
    let len = be_bytes(n % 0x1_0000_0000, 4);
    lemma_be_bytes_len(n % 0x1_0000_0000, 4);
    assert(param_set_concat(s, list) =~= if is_param_set(bytes) {
        bytes
    } else {
        Seq::empty()
    });
    assert(param_sets_in(s, list) =~= if is_param_set(bytes) {
        list
    } else {
        Seq::empty()
    });
    if n >= 2 && !is_param_set(bytes) {
        assert(hvcc_of(s, list) =~= len + bytes);
        assert((len + bytes).skip(4) =~= bytes);
        assert(pow256(4) == 0x1_0000_0000) by {
            reveal_with_fuel(pow256, 5);
        }
        lemma_be_roundtrip(n % 0x1_0000_0000, 4);
        lemma_be_value_small(len);
    }
}

/// Law: units stand between start codes. Each follows the bytes 0, 0, 1, holds no
/// start code, and ends where the stream ends or the next start code begins.
pub proof fn law_unit_boundaries(s: Seq<u8>, i: int, k: int)
    requires
        0 <= i <= s.len() <= usize::MAX,
        0 <= k < nalus(s, i).len(),
    ensures
        ({
            let (a, b) = (nalus(s, i)[k].0 as int, nalus(s, i)[k].1 as int);
            &&& i + 3 <= a < b <= s.len()
            &&& s[a - 3] == 0 && s[a - 2] == 0 && s[a - 1] == 1
            &&& forall|p: int|
                #![trigger s[p]]
                a <= p && p + 3 <= b ==> !(s[p] == 0 && s[p + 1] == 0 && s[p + 2] == 1)
            &&& b == s.len() || (b + 3 <= s.len() && s[b] == 0 && s[b + 1] == 0 && (s[b + 2] == 1
                || (b + 4 <= s.len() && s[b + 2] == 0 && s[b + 3] == 1)))
        }),
    decreases s.len() - i,
{
    lemma_next_start(s, i);
    let at = next_start(s, i);
    let a = at + start_code_len(s, at);
    lemma_next_start(s, a);
    let b = next_start(s, a);
    let rest = nalus(s, b);
    if a < b {
        if k == 0 {
            assert forall|p: int|
                #![trigger s[p]]
                a <= p && p + 3 <= b implies !(s[p] == 0 && s[p + 1] == 0 && s[p + 2] == 1) by {
                assert(start_code_len(s, p) == 0);
            }
        } else {
            assert(nalus(s, i)[k] == rest[k - 1]);
            law_unit_boundaries(s, b, k - 1);
        }
    } else {
        law_unit_boundaries(s, b, k);
    }
}

/// Law: no unit is missed. Wherever the bytes 0, 0, 1 stand and something other
/// than another start code follows, a unit begins.
pub proof fn law_no_unit_is_missed(s: Seq<u8>, i: int, p: int)
    requires
        0 <= i <= p,
        p + 3 < s.len() <= usize::MAX,
        s[p] == 0 && s[p + 1] == 0 && s[p + 2] == 1,
        !(p + 6 <= s.len() && s[p + 3] == 0 && s[p + 4] == 0 && s[p + 5] == 1),
        !(p + 7 <= s.len() && s[p + 3] == 0 && s[p + 4] == 0 && s[p + 5] == 0 && s[p + 6] == 1),
    ensures
        exists|k: int| 0 <= k < nalus(s, i).len() && (#[trigger] nalus(s, i)[k]).0 == p + 3,
    decreases s.len() - i,
{
    lemma_next_start(s, i);
    let at = next_start(s, i);
    let a = at + start_code_len(s, at);
    assert(start_code_len(s, p) > 0);
    lemma_next_start(s, a);
    let b = next_start(s, a);
    let rest = nalus(s, b);
    if a == p + 3 {
        assert(start_code_len(s, a) == 0);
        assert(a < b);
        assert(nalus(s, i)[0] == (a as usize, b as usize));
    } else {
        assert(a <= p);
        assert(b <= p);
        law_no_unit_is_missed(s, b, p);
        let k = choose|k: int| 0 <= k < rest.len() && (#[trigger] rest[k]).0 == p + 3;
        if a < b {
            assert(nalus(s, i)[k + 1] == rest[k]);
        } else {
            assert(nalus(s, i)[k] == rest[k]);
        }
    }
}

} // verus!
