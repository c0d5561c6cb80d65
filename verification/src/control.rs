//! Control messages between peers, and their framing.

use vstd::prelude::*;

use crate::protocol::Read;
use crate::wire::{
    append_bytes, be_bytes, be_u32_at, be_value, lemma_be_bytes_len, lemma_be_roundtrip,
    lemma_be_value_small, pow256, push_be_u32,
};

verus! {

/// Stream type tag for control streams (bidirectional).
/// Distinguished from MoQ media streams which start with varint 0x4.
pub const STREAM_TYPE_CONTROL: u8 = 0x01;

/// Longest control message that is accepted, in bytes.
pub const MAX_CONTROL_LEN: usize = 1_000_000;

/// A message on a control stream.
#[derive(Debug, Clone)]
pub enum ControlMessage {
    /// Sent by the connecting peer upon joining.
    Hello {
        addr: String,
        /// Display name of the peer (typically the OS username).
        name: String,
    },
    /// Full peer list. Sent in response to Hello, and periodically
    /// thereafter so that all peers converge on the same membership.
    PeerList { peers: Vec<PeerInfo> },
    /// Receiver-side congestion feedback, sent periodically to the peer
    /// whose video we are receiving.  Fields are modelled on RTCP Receiver
    /// Reports (RFC 3550, section 6.4.1).
    CongestionFeedback {
        /// Video frames received in the reporting interval.
        received: u64,
        /// Video frames dropped (late, duplicate, decode failure) in the
        /// reporting interval.
        dropped: u64,
        /// Fraction of frames lost (0.0 to 1.0), as the bits of a double.
        fraction_lost_bits: u64,
        /// Observed inter-arrival jitter in microseconds.
        jitter_us: u64,
    },
}

/// An entry of a peer list.
#[derive(Debug, Clone)]
pub struct PeerInfo {
    pub peer_id: String,
    pub addr: String,
    /// Display name of the peer.
    pub name: String,
}

// ---------------------------------------------------------------------------
// Framing
// ---------------------------------------------------------------------------
/// Why a control message is refused.
#[derive(Debug, Clone, Copy, PartialEq, Eq, Structural)]
pub enum ControlError {
    /// The message claims this many bytes, which is too many.
    TooLarge(usize),
}

/// A message on the wire: its length in four bytes, then the message.
pub open spec fn control_frame(json: Seq<u8>) -> Seq<u8> {
    be_bytes(json.len() % 0x1_0000_0000, 4) + json
}

/// Append a length-prefixed JSON control message to `out`.
pub fn write_control_msg(out: &mut Vec<u8>, json: &[u8])
    ensures
        final(out)@ == old(out)@ + control_frame(json@),
{
    let ghost before = out@;
    let len: u32 = (json.len() as u64 % 0x1_0000_0000) as u32;
    push_be_u32(out, len);
    append_bytes(out, json);
    assert(out@ =~= before + control_frame(json@));
}

/// What can be made of a control stream of which `s` has arrived: the length
/// of the first message, which starts at offset four, and the end of it.
pub open spec fn control_msg_of(s: Seq<u8>) -> Result<Read<usize>, ControlError> {
    if s.len() < 4 {
        Ok(Read::More { need: (4 - s.len()) as u64 })
    } else {
        let n = be_value(s.take(4));
        if n > MAX_CONTROL_LEN {
            Err(ControlError::TooLarge(n as usize))
        } else if s.len() - 4 < n {
            Ok(Read::More { need: (n - (s.len() - 4)) as u64 })
        } else {
            Ok(Read::Done { value: n as usize, used: (4 + n) as usize })
        }
    }
}

/// Read a length-prefixed JSON control message from the bytes received so far.
/// Delivers the length of the JSON, which stands behind the first four bytes.
pub fn read_control_msg(data: &[u8]) -> (r: Result<Read<usize>, ControlError>)
    ensures
        r == control_msg_of(data@),
        r matches Ok(Read::Done { value, used }) ==> used == 4 + value && used <= data@.len(),
{
    if data.len() < 4 {
        return Ok(Read::More { need: (4 - data.len()) as u64 });
    }
    assert(data@.subrange(0, 4) =~= data@.take(4));
    let len: usize = be_u32_at(data, 0) as usize;
    if len > MAX_CONTROL_LEN {
        return Err(ControlError::TooLarge(len));
    }
    let present: usize = data.len() - 4;
    if present < len {
        return Ok(Read::More { need: (len - present) as u64 });
    }
    Ok(Read::Done { value: len, used: 4 + len })
}

/// Law: a message that was written is read back, and the reader stops right
/// behind it. Messages over the limit are left out: they are written, and
/// refused by the reader.
pub proof fn law_control_roundtrip(json: Seq<u8>, rest: Seq<u8>)
    requires
        json.len() <= MAX_CONTROL_LEN,
    ensures
        control_msg_of(control_frame(json) + rest) == Ok::<_, ControlError>(
            Read::Done { value: json.len() as usize, used: (4 + json.len()) as usize },
        ),
        (control_frame(json) + rest).subrange(4, 4 + json.len() as int) == json,
{
    let s = control_frame(json) + rest;
    lemma_be_bytes_len(json.len(), 4);
    assert(pow256(4) == 0x1_0000_0000) by {
        reveal_with_fuel(pow256, 5);
    }
    lemma_be_roundtrip(json.len(), 4);
    assert(s.take(4) =~= be_bytes(json.len(), 4));
    assert(s.subrange(4, 4 + json.len() as int) =~= json);
}

/// Law: a message over the limit is refused.
pub proof fn law_control_limit(json: Seq<u8>, rest: Seq<u8>)
    requires
        MAX_CONTROL_LEN < json.len() < 0x1_0000_0000,
    ensures
        control_msg_of(control_frame(json) + rest) == Err::<Read<usize>, _>(
            ControlError::TooLarge(json.len() as usize),
        ),
{
    let s = control_frame(json) + rest;
    lemma_be_bytes_len(json.len(), 4);
    assert(pow256(4) == 0x1_0000_0000) by {
        reveal_with_fuel(pow256, 5);
    }
    lemma_be_roundtrip(json.len(), 4);
    assert(s.take(4) =~= be_bytes(json.len(), 4));
}

// ---------------------------------------------------------------------------
// Congestion feedback
// ---------------------------------------------------------------------------
/// Turns running totals of received and dropped frames into the numbers of one
/// reporting interval.
#[derive(Debug, Clone, Copy, PartialEq, Eq, Structural)]
pub struct FeedbackTracker {
    pub prev_received: u64,
    pub prev_dropped: u64,
}

/// `a` minus `b`, not under zero.
pub open spec fn saturating_diff(a: u64, b: u64) -> u64 {
    if a >= b {
        (a - b) as u64
    } else {
        0
    }
}

impl FeedbackTracker {
    pub fn new() -> (r: FeedbackTracker)
        ensures
            r == (FeedbackTracker { prev_received: 0, prev_dropped: 0 }),
    {
        FeedbackTracker { prev_received: 0, prev_dropped: 0 }
    }

    /// Frames received and dropped since the last report.
    pub fn report(&mut self, received: u64, dropped: u64) -> (r: (u64, u64))
        ensures
            r.0 == saturating_diff(received, old(self).prev_received),
            r.1 == saturating_diff(dropped, old(self).prev_dropped),
            *final(self) == (FeedbackTracker { prev_received: received, prev_dropped: dropped }),
    {
        let delta_received = received.saturating_sub(self.prev_received);
        let delta_dropped = dropped.saturating_sub(self.prev_dropped);
        self.prev_received = received;
        self.prev_dropped = dropped;
        (delta_received, delta_dropped)
    }
}

/// Law: while the totals grow, the numbers of two intervals add up to the
/// growth over both, so no frame is reported twice or left out.
pub proof fn law_reports_add_up(start: u64, middle: u64, end: u64)
    requires
        start <= middle <= end,
    ensures
        saturating_diff(middle, start) + saturating_diff(end, middle) == end - start,
{
}

/// Law: how a message looks on its stream: its length in four bytes, the most
/// significant first, and then the message.
pub proof fn law_control_layout(json: Seq<u8>)
    requires
        json.len() < 0x1_0000_0000,
    ensures
        ({
            let s = control_frame(json);
            &&& s.len() == 4 + json.len()
            &&& s[0] * 0x100_0000 + s[1] * 0x1_0000 + s[2] * 0x100 + s[3] == json.len()
            &&& s.skip(4) == json
        }),
        STREAM_TYPE_CONTROL == 1,
        MAX_CONTROL_LEN == 1_000_000,
{
    let s = control_frame(json);
    let len = be_bytes(json.len(), 4);
    lemma_be_bytes_len(json.len(), 4);
    assert(pow256(4) == 0x1_0000_0000) by {
        reveal_with_fuel(pow256, 5);
    }
    lemma_be_roundtrip(json.len(), 4);
    lemma_be_value_small(len);
    assert(s =~= len + json);
    assert(s.skip(4) =~= json);
}

/// Law: what a reader makes of any bytes. It asks for what is missing of the length,
/// refuses a length of more than a million bytes, asks for what is missing of the
/// message, and then delivers it.
pub proof fn law_control_read(s: Seq<u8>)
    ensures
        ({
            let n = s[0] * 0x100_0000 + s[1] * 0x1_0000 + s[2] * 0x100 + s[3];
            if s.len() < 4 {
                control_msg_of(s) == Ok::<_, ControlError>(
                    Read::<usize>::More { need: (4 - s.len()) as u64 },
                )
            } else if n > 1_000_000 {
                control_msg_of(s) == Err::<Read<usize>, _>(ControlError::TooLarge(n as usize))
            } else if s.len() < 4 + n {
                control_msg_of(s) == Ok::<_, ControlError>(
                    Read::<usize>::More { need: (4 + n - s.len()) as u64 },
                )
            } else {
                control_msg_of(s) == Ok::<_, ControlError>(
                    Read::Done { value: n as usize, used: (4 + n) as usize },
                )
            }
        }),
{
    if s.len() >= 4 {
        lemma_be_value_small(s.take(4));
    }
}

/// Law: a report counts what was added since the last one, and nothing if the totals
/// have started anew.
pub proof fn law_report(before: u64, total: u64)
    ensures
        total >= before ==> before + saturating_diff(total, before) == total,
        total < before ==> saturating_diff(total, before) == 0,
{
}

} // verus!
