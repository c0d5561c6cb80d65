//! The peers that encoded media is sent to.

use vstd::prelude::*;

use crate::peer_map::{has_key, in_order, lookup, Entries, PeerMap};
use crate::pool::{bytes_content, BufPool};
use crate::protocol::{audio_datagram, encode_audio_datagram};
use crate::room::PeerId;

verus! {

/// Maximum send age for audio frames (microseconds). Frames older than this
/// at send time are dropped to save bandwidth.
pub const MAX_SEND_AGE_AUDIO_US: u64 = 60_000;

/// Whether an audio frame captured at `ts` is too old to be sent at `now`. One
/// without timestamp never is, nor one from the future.
pub open spec fn is_stale(ts: u64, now: u64) -> bool {
    ts > 0 && now - ts > MAX_SEND_AGE_AUDIO_US
}

/// The currently connected peers, each with its connection.
///
/// The room adds/removes peers, the encoder sends data.
pub struct Broadcaster<C> {
    peers: PeerMap<C>,
    /// Whether a keyframe is due whenever a peer is added (video only).
    force_keyframe: bool,
}

impl<C> View for Broadcaster<C> {
    type V = Entries<C>;

    closed spec fn view(&self) -> Entries<C> {
        self.peers@
    }
}

impl<C> Broadcaster<C> {
    pub open spec fn wf(self) -> bool {
        in_order(self@)
    }

    pub closed spec fn triggers_keyframe(self) -> bool {
        self.force_keyframe
    }

    /// Create a broadcaster (for audio: no keyframes).
    pub fn new() -> (r: Broadcaster<C>)
        ensures
            r.wf(),
            r@.len() == 0,
            !r.triggers_keyframe(),
    {
        Broadcaster { peers: PeerMap::new(), force_keyframe: false }
    }

    /// Create a broadcaster that triggers keyframes when peers are added (for video).
    pub fn new_with_keyframe() -> (r: Broadcaster<C>)
        ensures
            r.wf(),
            r@.len() == 0,
            r.triggers_keyframe(),
    {
        Broadcaster { peers: PeerMap::new(), force_keyframe: true }
    }

    /// Register a peer to receive broadcast packets. Returns whether the
    /// encoder has to produce a keyframe for it.
    pub fn add_peer(&mut self, id: PeerId, conn: C) -> (keyframe: bool)
        requires
            old(self).wf(),
        ensures
            final(self).wf(),
            final(self).triggers_keyframe() == old(self).triggers_keyframe(),
            keyframe == old(self).triggers_keyframe(),
            final(self)@.len() == old(self)@.len() + (if has_key(old(self)@, id@) {
                0int
            } else {
                1int
            }),
            forall|k: Seq<u8>| #[trigger]
                lookup(final(self)@, k) == (if k == id@ {
                    Some(conn)
                } else {
                    lookup(old(self)@, k)
                }),
    {
        self.peers.insert(id, conn);
        self.force_keyframe
    }

    /// Remove a peer.
    pub fn remove_peer(&mut self, id: &PeerId)
        requires
            old(self).wf(),
        ensures
            final(self).wf(),
            final(self).triggers_keyframe() == old(self).triggers_keyframe(),
            final(self)@.len() == old(self)@.len() - (if has_key(old(self)@, id@) {
                1int
            } else {
                0int
            }),
            forall|k: Seq<u8>| #[trigger]
                lookup(final(self)@, k) == (if k == id@ {
                    None
                } else {
                    lookup(old(self)@, k)
                }),
    {
        self.peers.remove(id);
    }

    /// Number of registered peers.
    pub fn peer_count(&self) -> (n: usize)
        ensures
            n == self@.len(),
    {
        self.peers.len()
    }

    /// The registered peers, one by one.
    pub fn peer_at(&self, i: usize) -> (r: (PeerId, &C))
        requires
            i < self@.len(),
        ensures
            r.0@ == self@[i as int].0,
            *r.1 == self@[i as int].1,
    {
        (self.peers.key_at(i), self.peers.value_at(i))
    }
}

/// The datagram to send to all peers at `now` for an audio frame. Applies the
/// sender-side staleness check.
///
/// `pool` provides reusable buffers: the encoded datagram is written
/// into a pooled buffer and converted to `Bytes` once for all peers.
pub fn audio_datagram_to_send(
    capture_timestamp_us: u64,
    payload: &[u8],
    now_us: u64,
    pool: &BufPool<u8>,
) -> (r: Option<bytes::Bytes>)
    ensures
        match r {
            Some(d) => !is_stale(capture_timestamp_us, now_us) && bytes_content(d)
                == audio_datagram(capture_timestamp_us, payload@),
            None => is_stale(capture_timestamp_us, now_us),
        },
{
    if capture_timestamp_us > 0 {
        let age_us = now_us.saturating_sub(capture_timestamp_us);
        if age_us > MAX_SEND_AGE_AUDIO_US {
            return None;
        }
    }
    Some(encode_audio_datagram(capture_timestamp_us, payload, pool))
}

/// Law: an audio frame is sent until it is 60 ms old. One without timestamp, and one
/// whose timestamp is not in the past, is always sent.
pub proof fn law_stale(ts: u64, now: u64)
    ensures
        ts == 0 ==> !is_stale(ts, now),
        now <= ts ==> !is_stale(ts, now),
        0 < ts && now <= ts + 60_000 ==> !is_stale(ts, now),
        0 < ts && now > ts + 60_000 ==> is_stale(ts, now),
{
}

} // verus!
