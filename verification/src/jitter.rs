//! Jitter buffer: holds back media objects until their playout time.

use vstd::arithmetic::div_mod::{lemma_add_mod_noop_right, lemma_mod_add_multiples_vanish};
use vstd::prelude::*;

use crate::pool::SharedBuf;
use crate::protocol::MediaObject;

verus! {

/// Configuration for a jitter buffer instance.
#[derive(Clone, Copy, Debug)]
pub struct JitterBufferConfig {
    /// Target playout delay added to each packet's timestamp (microseconds).
    /// This is the amount of jitter the buffer can absorb.
    pub target_delay_us: u64,
    /// Maximum age of a packet (relative to playout clock) before it is
    /// discarded on arrival. Packets older than this are too late to play.
    pub max_late_us: u64,
    /// How quickly the clock offset adapts to drift, in thousandths.
    /// Lower = more stable, higher = faster adaptation.
    pub drift_alpha_per_mille: u32,
    /// Label for logging (e.g. "audio" or "video").
    pub label: &'static str,
}

/// Delay of the audio jitter buffer: three Opus frames.
pub const AUDIO_TARGET_DELAY_US: u64 = 60_000;

/// Time from one audio frame to the next.
pub const AUDIO_FRAME_US: u64 = 20_000;

/// Default audio jitter buffer configuration.
pub fn audio_config() -> (config: JitterBufferConfig)
    ensures
        config.target_delay_us == AUDIO_TARGET_DELAY_US,
        config.max_late_us == 40_000,
        config.drift_alpha_per_mille == 5,
        config.label@ == "audio"@,
{
    JitterBufferConfig {
        target_delay_us: AUDIO_TARGET_DELAY_US,
        max_late_us: 40_000,
        drift_alpha_per_mille: 5,
        label: "audio",
    }
}

/// Default video jitter buffer configuration.
pub fn video_config() -> (config: JitterBufferConfig)
    ensures
        config.target_delay_us == 40_000,
        config.max_late_us == 80_000,
        config.drift_alpha_per_mille == 10,
        config.label@ == "video"@,
{
    JitterBufferConfig {
        target_delay_us: 40_000,
        max_late_us: 80_000,
        drift_alpha_per_mille: 10,
        label: "video",
    }
}

// ---------------------------------------------------------------------------
// Clock arithmetic
// ---------------------------------------------------------------------------
//
// Timestamps are unsigned microseconds, offsets between two clocks are signed.
// Sums of the two are taken modulo 2^64.
/// `x` modulo 2^64.
pub open spec fn wrap_u64(x: int) -> u64 {
    (x % 0x1_0000_0000_0000_0000) as u64
}

/// The signed number that agrees with `x` modulo 2^64.
pub open spec fn wrap_i64(x: int) -> i64 {
    let u = x % 0x1_0000_0000_0000_0000;
    if u < 0x8000_0000_0000_0000 {
        u as i64
    } else {
        (u - 0x1_0000_0000_0000_0000) as i64
    }
}

/// Local playout time of a packet captured at `ts`.
pub open spec fn playout(ts: u64, offset: i64) -> u64 {
    wrap_u64(ts + offset)
}

/// Whether it is more than `max_late` past `due`.
pub open spec fn is_late(due: u64, max_late: u64, now: u64) -> bool {
    now > wrap_u64(due + max_late)
}

/// Time from `now` until `due`; zero once that has passed.
pub open spec fn until(due: u64, now: u64) -> u64 {
    if due > now {
        (due - now) as u64
    } else {
        0
    }
}

fn fold_i64(u: u64) -> (r: i64)
    ensures
        r == wrap_i64(u as int),
{
    if u < 0x8000_0000_0000_0000 {
        u as i64
    } else {
        -((u64::MAX - u) as i64) - 1
    }
}

fn playout_us(ts: u64, offset: i64) -> (r: u64)
    ensures
        r == playout(ts, offset),
{
    if offset >= 0 {
        ts.wrapping_add(offset as u64)
    } else {
        let back: u64 = (-(offset + 1)) as u64 + 1;
        ts.wrapping_sub(back)
    }
}

/// The clock offset that one packet suggests: captured at `ts`, arrived at
/// `now`, to be played `target_delay` later.
pub fn instantaneous_offset(ts: u64, now: u64, target_delay: u64) -> (r: i64)
    ensures
        r == wrap_i64(now - ts + target_delay),
{
    fold_i64(now.wrapping_sub(ts).wrapping_add(target_delay))
}

/// The offset that video takes over from audio: same mapping, own delay.
fn follow_offset(shared: i64, target_delay: u64) -> (r: i64)
    ensures
        r == wrap_i64(shared - AUDIO_TARGET_DELAY_US + target_delay),
{
    fold_i64(playout_us(target_delay, shared).wrapping_sub(AUDIO_TARGET_DELAY_US))
}

// ---------------------------------------------------------------------------
// Shared clock
// ---------------------------------------------------------------------------
/// Shared clock offset per peer, driven by audio, read by video.
/// Ensures A/V sync by using the same time mapping for both media types. There is
/// one per peer: it cannot be copied, only shared.
#[derive(Debug, PartialEq, Eq, Structural)]
pub struct PeerClock {
    /// Smoothed offset: local_us - remote_us (signed).
    offset_us: i64,
    /// Whether the offset has been initialised.
    initialised: bool,
}

impl View for PeerClock {
    type V = Option<i64>;

    closed spec fn view(&self) -> Option<i64> {
        if self.initialised {
            Some(self.offset_us)
        } else {
            None
        }
    }
}

impl PeerClock {
    /// What [`PeerClock::offset_us`] reads: zero before the first update.
    pub closed spec fn reading(self) -> i64 {
        self.offset_us
    }

    pub fn new() -> (clock: PeerClock)
        ensures
            clock@ is None,
            clock.reading() == 0,
    {
        PeerClock { offset_us: 0, initialised: false }
    }

    /// Update the clock offset (called by the audio jitter buffer).
    pub fn update(&mut self, offset_us: i64)
        ensures
            final(self)@ == Some(offset_us),
            final(self).reading() == offset_us,
    {
        self.offset_us = offset_us;
        self.initialised = true;
    }

    /// Read the current clock offset.
    pub fn offset_us(&self) -> (r: i64)
        ensures
            r == self.reading(),
            self@ matches Some(o) ==> r == o,
    {
        self.offset_us
    }

    /// Whether the clock has been initialised with at least one sample.
    pub fn is_initialised(&self) -> (r: bool)
        ensures
            r == self@ is Some,
    {
        self.initialised
    }
}

/// Jitter buffer statistics.
#[derive(Debug, Clone, Copy, PartialEq, Eq, Structural)]
pub struct JitterStats {
    pub received: u64,
    pub played: u64,
    pub dropped_late: u64,
    pub dropped_duplicate: u64,
}

impl Default for JitterStats {
    fn default() -> (r: JitterStats)
        ensures
            r == (JitterStats { received: 0, played: 0, dropped_late: 0, dropped_duplicate: 0 }),
    {
        JitterStats { received: 0, played: 0, dropped_late: 0, dropped_duplicate: 0 }
    }
}

/// Sentinel value for a PLC (packet loss concealment) frame, audio only.
/// When the jitter buffer emits this, the decoder should generate a PLC frame.
pub const PLC_SENTINEL_TIMESTAMP: u64 = u64::MAX;

/// Whether `obj` asks the decoder to conceal a lost packet.
pub open spec fn is_plc_sentinel(obj: MediaObject) -> bool {
    &&& obj.group_id == 0
    &&& obj.subgroup_id == 0
    &&& obj.object_id == 0
    &&& obj.capture_timestamp_us == PLC_SENTINEL_TIMESTAMP
    &&& obj.codec is None
    &&& obj.payload@ == Seq::<u8>::empty()
}

/// Create a PLC sentinel MediaObject (empty payload, special timestamp).
pub fn plc_sentinel() -> (obj: MediaObject)
    ensures
        is_plc_sentinel(obj),
{
    MediaObject {
        group_id: 0,
        subgroup_id: 0,
        object_id: 0,
        capture_timestamp_us: PLC_SENTINEL_TIMESTAMP,
        codec: None,
        payload: SharedBuf::from_vec(Vec::new()),
    }
}

// ---------------------------------------------------------------------------
// The buffer
// ---------------------------------------------------------------------------
/// The state of a jitter buffer, as its contracts see it.
#[verifier::ext_equal]
pub struct JitterState {
    /// Packets that wait for their playout time, earliest first.
    pub queue: Seq<MediaObject>,
    /// Local time minus remote time, with the target delay in it.
    pub clock_offset_us: Option<i64>,
    pub last_emitted_ts: Option<u64>,
    pub stats: JitterStats,
}

/// Whether the timestamps of `q` grow strictly.
pub open spec fn increasing(q: Seq<MediaObject>) -> bool {
    forall|i: int, j: int|
        0 <= i < j < q.len() ==> (#[trigger] q[i]).capture_timestamp_us < (
        #[trigger] q[j]).capture_timestamp_us
}

/// Whether `q` holds a packet captured at `ts`.
pub open spec fn holds_ts(q: Seq<MediaObject>, ts: u64) -> bool {
    exists|i: int| 0 <= i < q.len() && (#[trigger] q[i]).capture_timestamp_us == ts
}

/// Where a packet captured at `ts` belongs in `q`: behind all that are older.
pub open spec fn place(q: Seq<MediaObject>, ts: u64) -> nat
    decreases q.len(),
{
    if q.len() == 0 || q.last().capture_timestamp_us < ts {
        q.len()
    } else {
        place(q.drop_last(), ts)
    }
}

/// How many packets at the front of `q` have reached their playout time.
pub open spec fn ready(q: Seq<MediaObject>, offset: i64, now: u64) -> nat
    decreases q.len(),
{
    if q.len() == 0 || playout(q[0].capture_timestamp_us, offset) > now {
        0
    } else {
        1 + ready(q.skip(1), offset, now)
    }
}

/// The packets of `q` that are not too late to be played.
pub open spec fn in_time(q: Seq<MediaObject>, offset: i64, max_late: u64, now: u64) -> Seq<
    MediaObject,
>
    decreases q.len(),
{
    if q.len() == 0 {
        Seq::empty()
    } else {
        let before = in_time(q.drop_last(), offset, max_late, now);
        if is_late(playout(q.last().capture_timestamp_us, offset), max_late, now) {
            before
        } else {
            before.push(q.last())
        }
    }
}

impl JitterState {
    /// The queue is in strict timestamp order, and every received packet is
    /// accounted for: played, dropped, or waiting.
    pub open spec fn wf(self) -> bool {
        &&& increasing(self.queue)
        &&& self.stats.received == self.stats.played + self.stats.dropped_late
            + self.stats.dropped_duplicate + self.queue.len()
    }

    /// Nothing that waits is older than what was last emitted.
    pub open spec fn ahead(self) -> bool {
        self.last_emitted_ts matches Some(l) ==> forall|i: int|
            0 <= i < self.queue.len() ==> l < (#[trigger] self.queue[i]).capture_timestamp_us
    }

    /// The clock offset after a packet captured at `ts` arrived at `now`;
    /// `blended` is the smoothed offset that a clock master goes on with.
    pub open spec fn offset_after(
        self,
        config: JitterBufferConfig,
        is_clock_master: bool,
        clock: Option<i64>,
        ts: u64,
        now: u64,
        blended: i64,
    ) -> i64 {
        match self.clock_offset_us {
            None => wrap_i64(now - ts + config.target_delay_us),
            Some(offset) => if is_clock_master {
                blended
            } else {
                match clock {
                    Some(shared) => wrap_i64(shared - AUDIO_TARGET_DELAY_US + config.target_delay_us),
                    None => offset,
                }
            },
        }
    }

    /// What becomes of a packet captured at `ts` that arrives at `now`, once
    /// the clock offset is `offset`.
    pub open spec fn verdict(self, config: JitterBufferConfig, ts: u64, now: u64, offset: i64) -> Verdict {
        if ts == 0 {
            Verdict::PassThrough
        } else if is_late(playout(ts, offset), config.max_late_us, now) {
            Verdict::DroppedLate
        } else if (self.last_emitted_ts matches Some(l) && ts <= l) || holds_ts(self.queue, ts) {
            Verdict::DroppedDuplicate
        } else {
            Verdict::Queued
        }
    }

    /// How many packets leave the queue at `now`.
    pub open spec fn due(self, now: u64) -> nat {
        match self.clock_offset_us {
            Some(offset) => ready(self.queue, offset, now),
            None => 0,
        }
    }

    /// The packets that are played at `now`, in order.
    pub open spec fn played_at(self, config: JitterBufferConfig, now: u64) -> Seq<MediaObject> {
        match self.clock_offset_us {
            Some(offset) => in_time(
                self.queue.take(self.due(now) as int),
                offset,
                config.max_late_us,
                now,
            ),
            None => Seq::empty(),
        }
    }

    /// When the next frame after the last emitted one is to be played, where it
    /// can still be concealed.
    pub open spec fn next_concealment(
        self,
        config: JitterBufferConfig,
        emit_plc: bool,
        now: u64,
    ) -> Option<u64> {
        match (self.clock_offset_us, self.last_emitted_ts) {
            (Some(offset), Some(last)) => {
                let due = playout(wrap_u64(last + AUDIO_FRAME_US), offset);
                if emit_plc && now < wrap_u64(due + config.max_late_us) {
                    Some(due)
                } else {
                    None
                }
            },
            _ => None,
        }
    }

    /// How long nothing happens from `now` on: until the front of the queue is
    /// due, or 5 ms where nothing waits, but no longer than until the next
    /// frame would have to be concealed.
    pub open spec fn idle_us(self, config: JitterBufferConfig, emit_plc: bool, now: u64) -> u64 {
        let wait = match self.clock_offset_us {
            Some(offset) if self.queue.len() > 0 => until(
                playout(self.queue[0].capture_timestamp_us, offset),
                now,
            ),
            _ => 5_000,
        };
        match self.next_concealment(config, emit_plc, now) {
            Some(due) if until(due, now) < wait => until(due, now),
            _ => wait,
        }
    }

    /// The timestamp of the packet that is concealed at `now`, if one is: the
    /// next frame after the last emitted one is due and nothing was played.
    pub open spec fn concealed_at(self, config: JitterBufferConfig, emit_plc: bool, now: u64) -> Option<
        u64,
    > {
        match (self.clock_offset_us, self.last_emitted_ts) {
            (Some(offset), Some(last)) => {
                let expected = wrap_u64(last + AUDIO_FRAME_US);
                let due = playout(expected, offset);
                if emit_plc && self.played_at(config, now).len() == 0 && due <= now && now
                    < wrap_u64(due + config.max_late_us) {
                    Some(expected)
                } else {
                    None
                }
            },
            _ => None,
        }
    }

    /// The last emitted timestamp after the packets due at `now` have left.
    pub open spec fn last_after(self, config: JitterBufferConfig, emit_plc: bool, now: u64) -> Option<
        u64,
    > {
        let played = self.played_at(config, now);
        if played.len() > 0 {
            Some(played.last().capture_timestamp_us)
        } else if self.concealed_at(config, emit_plc, now) is Some {
            self.concealed_at(config, emit_plc, now)
        } else {
            self.last_emitted_ts
        }
    }
}

/// What becomes of a packet that arrives.
#[derive(Debug, Clone, Copy, PartialEq, Eq, Structural)]
pub enum Verdict {
    /// It has no timestamp and is played at once.
    PassThrough,
    /// Its playout time has passed by more than the allowed lateness.
    DroppedLate,
    /// It was emitted before, is older than what was emitted, or waits already.
    DroppedDuplicate,
    /// It waits for its playout time.
    Queued,
}

/// Holds media objects back until their playout time.
///
/// For audio `is_clock_master` should be true: the buffer drives the
/// [`PeerClock`]. For video it should be false: the buffer reads it.
pub struct JitterBuffer {
    config: JitterBufferConfig,
    is_clock_master: bool,
    /// Whether PLC sentinels are emitted when a frame is due and missing.
    emit_plc: bool,
    queue: Vec<MediaObject>,
    clock_offset_us: Option<i64>,
    last_emitted_ts: Option<u64>,
    stats: JitterStats,
}

impl View for JitterBuffer {
    type V = JitterState;

    closed spec fn view(&self) -> JitterState {
        JitterState {
            queue: self.queue@,
            clock_offset_us: self.clock_offset_us,
            last_emitted_ts: self.last_emitted_ts,
            stats: self.stats,
        }
    }
}

impl JitterBuffer {
    pub closed spec fn config(self) -> JitterBufferConfig {
        self.config
    }

    pub closed spec fn master(self) -> bool {
        self.is_clock_master
    }

    pub closed spec fn conceals(self) -> bool {
        self.emit_plc
    }

    /// Whether the settings of `self` are those of `other`.
    pub open spec fn same_settings(self, other: JitterBuffer) -> bool {
        &&& self.config() == other.config()
        &&& self.master() == other.master()
        &&& self.conceals() == other.conceals()
    }

    /// A buffer with nothing in it. One that is not the clock master starts
    /// from the shared clock, if that has been set.
    pub fn new(
        config: JitterBufferConfig,
        peer_clock: &PeerClock,
        is_clock_master: bool,
        emit_plc: bool,
    ) -> (r: JitterBuffer)
        ensures
            r@.wf(),
            r@.ahead(),
            r.config() == config,
            r.master() == is_clock_master,
            r.conceals() == emit_plc,
            r@ == (JitterState {
                queue: Seq::empty(),
                clock_offset_us: if is_clock_master {
                    None
                } else {
                    peer_clock@
                },
                last_emitted_ts: None,
                stats: JitterStats {
                    received: 0,
                    played: 0,
                    dropped_late: 0,
                    dropped_duplicate: 0,
                },
            }),
    {
        let clock_offset_us = if !is_clock_master && peer_clock.is_initialised() {
            Some(peer_clock.offset_us())
        } else {
            None
        };
        JitterBuffer {
            config,
            is_clock_master,
            emit_plc,
            queue: Vec::new(),
            clock_offset_us,
            last_emitted_ts: None,
            stats: JitterStats::default(),
        }
    }

    pub fn stats(&self) -> (r: JitterStats)
        ensures
            r == self@.stats,
    {
        self.stats
    }

    pub fn queue_len(&self) -> (r: usize)
        ensures
            r == self@.queue.len(),
    {
        self.queue.len()
    }

    /// The clock offset in use, once one is known.
    pub fn clock_offset_us(&self) -> (r: Option<i64>)
        ensures
            r == self@.clock_offset_us,
    {
        self.clock_offset_us
    }

    /// How long to sleep (microseconds) before something has to be released.
    pub fn sleep_us(&self, now: u64) -> (r: u64)
        ensures
            r == self@.idle_us(self.config(), self.conceals(), now),
    {
        let offset = match self.clock_offset_us {
            Some(offset) => offset,
            None => {
                return 5_000;
            },
        };
        let mut wait: u64 = 5_000;
        if self.queue.len() > 0 {
            wait = playout_us(self.queue[0].capture_timestamp_us, offset).saturating_sub(now);
        }
        if self.emit_plc {
            if let Some(last_ts) = self.last_emitted_ts {
                let due = playout_us(last_ts.wrapping_add(AUDIO_FRAME_US), offset);
                let left = due.saturating_sub(now);
                if now < due.wrapping_add(self.config.max_late_us) && left < wait {
                    wait = left;
                }
            }
        }
        wait
    }

    /// The place in the queue of a packet captured at `ts`, and whether one is
    /// there already.
    fn find(&self, ts: u64) -> (r: (usize, bool))
        requires
            increasing(self@.queue),
        ensures
            r.0 == place(self@.queue, ts),
            r.1 == holds_ts(self@.queue, ts),
    {
        let mut i: usize = self.queue.len();
        assert(self.queue@.take(i as int) =~= self.queue@);
        while i > 0 && self.queue[i - 1].capture_timestamp_us >= ts
            invariant
                i <= self.queue@.len(),
                place(self.queue@, ts) == place(self.queue@.take(i as int), ts),
            decreases i,
        {
            assert(self.queue@.take(i as int).drop_last() =~= self.queue@.take(i - 1));
            i = i - 1;
        }
        let found = i < self.queue.len() && self.queue[i].capture_timestamp_us == ts;
        proof {
            lemma_place(self@.queue, ts);
            if found {
                assert(self@.queue[i as int].capture_timestamp_us == ts);
            }
        }
        (i, found)
    }

    /// Take in a packet that arrived at local time `now`.
    ///
    /// `blended` is the offset that a clock master smoothes its own towards
    /// [`instantaneous_offset`]; it is not looked at otherwise. A packet
    /// without timestamp is handed back to be played at once.
    pub fn receive(
        &mut self,
        obj: MediaObject,
        peer_clock: &mut PeerClock,
        now: u64,
        blended: i64,
    ) -> (r: (Verdict, Option<MediaObject>))
        requires
            old(self)@.wf(),
            old(self)@.stats.received < u64::MAX,
        ensures
            final(self)@.wf(),
            old(self)@.ahead() ==> final(self)@.ahead(),
            final(self).same_settings(*old(self)),
            final(self)@ == received(
                old(self)@,
                old(self).config(),
                old(self).master(),
                old(peer_clock)@,
                obj,
                now,
                blended,
            ),
            ({
                let ts = obj.capture_timestamp_us;
                let offset = old(self)@.offset_after(
                    old(self).config(),
                    old(self).master(),
                    old(peer_clock)@,
                    ts,
                    now,
                    blended,
                );
                &&& r.0 == old(self)@.verdict(old(self).config(), ts, now, offset)
                &&& r.1 == (if r.0 is PassThrough {
                    Some(obj)
                } else {
                    None
                })
                &&& if ts != 0 && old(self).master() {
                    final(peer_clock)@ == Some(offset)
                } else {
                    *final(peer_clock) == *old(peer_clock)
                }
            }),
    {
        let ts = obj.capture_timestamp_us;
        self.stats.received = self.stats.received + 1;
        if ts == 0 {
            self.stats.played = self.stats.played + 1;
            return (Verdict::PassThrough, Some(obj));
        }
        let offset = match self.clock_offset_us {
            None => {
                let first = instantaneous_offset(ts, now, self.config.target_delay_us);
                if self.is_clock_master {
                    peer_clock.update(first);
                }
                first
            },
            Some(offset) => {
                if self.is_clock_master {
                    peer_clock.update(blended);
                    blended
                } else if peer_clock.is_initialised() {
                    follow_offset(peer_clock.offset_us(), self.config.target_delay_us)
                } else {
                    offset
                }
            },
        };
        self.clock_offset_us = Some(offset);

        if now > playout_us(ts, offset).wrapping_add(self.config.max_late_us) {
            self.stats.dropped_late = self.stats.dropped_late + 1;
            return (Verdict::DroppedLate, None);
        }
        if let Some(last_ts) = self.last_emitted_ts {
            if ts <= last_ts {
                self.stats.dropped_duplicate = self.stats.dropped_duplicate + 1;
                return (Verdict::DroppedDuplicate, None);
            }
        }
        let (at, found) = self.find(ts);
        if found {
            self.stats.dropped_duplicate = self.stats.dropped_duplicate + 1;
            return (Verdict::DroppedDuplicate, None);
        }
        proof {
            lemma_insert(self.queue@, obj);
        }
        self.queue.insert(at, obj);
        (Verdict::Queued, None)
    }

    /// Let the packets out that are due at local time `now`: those that are not
    /// too late are appended to `out`, the others are dropped. Where nothing is
    /// played although a frame is due, a PLC sentinel is appended instead.
    /// Returns how many were dropped.
    #[verifier::spinoff_prover]
    #[verifier::rlimit(40)]
    pub fn release(&mut self, now: u64, out: &mut Vec<MediaObject>) -> (late: u64)
        requires
            old(self)@.wf(),
        ensures
            final(self)@.wf(),
            final(self).same_settings(*old(self)),
            ({
                let pre = old(self)@;
                let post = final(self)@;
                let config = old(self).config();
                let played = pre.played_at(config, now);
                let concealed = pre.concealed_at(config, old(self).conceals(), now);
                &&& late == pre.due(now) - played.len()
                &&& post == released(pre, config, old(self).conceals(), now)
                &&& if concealed is Some {
                    &&& final(out)@.len() == old(out)@.len() + 1
                    &&& final(out)@.drop_last() == old(out)@
                    &&& is_plc_sentinel(final(out)@.last())
                } else {
                    final(out)@ == old(out)@ + played
                }
            }),
    {
        let ghost pre = self@;
        let ghost config = self.config;
        let ghost out0 = out@;
        let offset = match self.clock_offset_us {
            Some(offset) => offset,
            None => {
                assert(out@ =~= out0 + pre.played_at(config, now));
                assert(pre.queue.skip(0) =~= pre.queue);
                return 0;
            },
        };
        let (played, late, last) = drain(&mut self.queue, offset, self.config.max_late_us, now, out);
        self.stats.played = self.stats.played + played;
        self.stats.dropped_late = self.stats.dropped_late + late;
        if last.is_some() {
            self.last_emitted_ts = last;
        }
        if last.is_none() && self.emit_plc {
            if let Some(last_ts) = self.last_emitted_ts {
                let expected = last_ts.wrapping_add(AUDIO_FRAME_US);
                let due = playout_us(expected, offset);
                if now >= due && now < due.wrapping_add(self.config.max_late_us) {
                    self.last_emitted_ts = Some(expected);
                    assert(out@ =~= out0);
                    out.push(plc_sentinel());
                    assert(out@.drop_last() =~= out0);
                }
            }
        }
        late
    }
}

/// Take the packets out of `queue` that have reached their playout time.
/// Returns how many were appended to `out`, how many were too late, and the
/// timestamp of the last one appended.
fn drain(
    queue: &mut Vec<MediaObject>,
    offset: i64,
    max_late_us: u64,
    now: u64,
    out: &mut Vec<MediaObject>,
) -> (r: (u64, u64, Option<u64>))
    requires
        old(queue)@.len() <= u64::MAX,
    ensures
        ({
            let n = ready(old(queue)@, offset, now);
            let played = in_time(old(queue)@.take(n as int), offset, max_late_us, now);
            &&& n <= old(queue)@.len()
            &&& final(queue)@ == old(queue)@.skip(n as int)
            &&& final(out)@ == old(out)@ + played
            &&& r.0 == played.len()
            &&& r.1 == n - played.len()
            &&& r.2 == (if played.len() > 0 {
                Some(played.last().capture_timestamp_us)
            } else {
                None
            })
        }),
{
    let ghost whole = queue@;
    let ghost mut gone: int = 0;
    let ghost mut kept: Seq<MediaObject> = Seq::empty();
    let mut played: u64 = 0;
    let mut late: u64 = 0;
    let mut last: Option<u64> = None;
    proof {
        assert(whole.take(0) =~= Seq::empty());
        assert(whole.skip(0) =~= whole);
        assert(out@ + kept =~= out@);
    }
    while queue.len() > 0 && playout_us(queue[0].capture_timestamp_us, offset) <= now
        invariant
            whole == old(queue)@,
            whole.len() <= u64::MAX,
            0 <= gone <= whole.len(),
            queue@ == whole.skip(gone),
            gone + ready(queue@, offset, now) == ready(whole, offset, now),
            kept == in_time(whole.take(gone), offset, max_late_us, now),
            out@ == old(out)@ + kept,
            played == kept.len(),
            played + late == gone,
            last == (if kept.len() > 0 {
                Some(kept.last().capture_timestamp_us)
            } else {
                None
            }),
        decreases queue@.len(),
    {
        let obj = queue.remove(0);
        let ts = obj.capture_timestamp_us;
        proof {
            assert(whole.take(gone + 1).drop_last() =~= whole.take(gone));
            assert(whole.take(gone + 1).last() == obj);
            assert(whole.skip(gone).skip(1) =~= whole.skip(gone + 1));
            assert(queue@ =~= whole.skip(gone + 1));
            gone = gone + 1;
        }
        if now > playout_us(ts, offset).wrapping_add(max_late_us) {
            late = late + 1;
        } else {
            last = Some(ts);
            played = played + 1;
            out.push(obj);
            proof {
                kept = kept.push(obj);
                assert(out@ =~= old(out)@ + kept);
            }
        }
    }
    (played, late, last)
}

// ---------------------------------------------------------------------------
// Laws
// ---------------------------------------------------------------------------
/// What stands before a place in the queue is older, the rest is not.
proof fn lemma_place(q: Seq<MediaObject>, ts: u64)
    requires
        increasing(q),
    ensures
        place(q, ts) <= q.len(),
        forall|i: int| 0 <= i < place(q, ts) ==> (#[trigger] q[i]).capture_timestamp_us < ts,
        forall|i: int|
            place(q, ts) <= i < q.len() ==> ts <= (#[trigger] q[i]).capture_timestamp_us,
    decreases q.len(),
{
    if q.len() > 0 {
        let front = q.drop_last();
        assert(q[q.len() - 1] == q.last());
        if q.last().capture_timestamp_us >= ts {
            lemma_place(front, ts);
            assert forall|i: int| 0 <= i < place(front, ts) implies (
            #[trigger] q[i]).capture_timestamp_us < ts by {
                assert(front[i] == q[i]);
            }
            assert forall|i: int| place(front, ts) <= i < q.len() implies ts <= (
            #[trigger] q[i]).capture_timestamp_us by {
                if i < front.len() {
                    assert(front[i] == q[i]);
                }
            }
        }
    }
}

/// A packet put in its place leaves the queue in order.
proof fn lemma_insert(q: Seq<MediaObject>, obj: MediaObject)
    requires
        increasing(q),
        !holds_ts(q, obj.capture_timestamp_us),
    ensures
        increasing(q.insert(place(q, obj.capture_timestamp_us) as int, obj)),
        place(q, obj.capture_timestamp_us) <= q.len(),
        forall|i: int|
            0 <= i <= q.len() ==> {
                let o = #[trigger] q.insert(place(q, obj.capture_timestamp_us) as int, obj)[i];
                o == obj || q.contains(o)
            },
{
    let ts = obj.capture_timestamp_us;
    lemma_place(q, ts);
    let at = place(q, ts) as int;
    let after = q.insert(at, obj);
    assert forall|i: int| 0 <= i <= q.len() implies (#[trigger] after[i]) == obj || q.contains(
        after[i],
    ) by {
        if i < at {
            assert(after[i] == q[i]);
        } else if i > at {
            assert(after[i] == q[i - 1]);
        }
    }
    assert forall|i: int, j: int| 0 <= i < j < after.len() implies (
    #[trigger] after[i]).capture_timestamp_us < (#[trigger] after[j]).capture_timestamp_us by {
        if i < at {
            assert(after[i] == q[i]);
        } else if i > at {
            assert(after[i] == q[i - 1]);
        }
        if j < at {
            assert(after[j] == q[j]);
        } else if j > at {
            assert(after[j] == q[j - 1]);
            assert(q[j - 1].capture_timestamp_us != ts);
        }
    }
}

/// Every packet among the first [`ready`] ones has reached its playout time.
proof fn lemma_ready(q: Seq<MediaObject>, offset: i64, now: u64)
    ensures
        ready(q, offset, now) <= q.len(),
        forall|i: int|
            0 <= i < ready(q, offset, now) ==> playout(
                (#[trigger] q[i]).capture_timestamp_us,
                offset,
            ) <= now,
        ready(q, offset, now) < q.len() ==> playout(
            q[ready(q, offset, now) as int].capture_timestamp_us,
            offset,
        ) > now,
    decreases q.len(),
{
    if q.len() > 0 && playout(q[0].capture_timestamp_us, offset) <= now {
        let rest = q.skip(1);
        lemma_ready(rest, offset, now);
        let n = ready(rest, offset, now);
        assert forall|i: int| 0 <= i < n + 1 implies playout(
            (#[trigger] q[i]).capture_timestamp_us,
            offset,
        ) <= now by {
            if i > 0 {
                assert(rest[i - 1] == q[i]);
            }
        }
        if n < rest.len() {
            assert(rest[n as int] == q[n as int + 1]);
        }
    }
}

/// What is in time is a subsequence: each packet stands in `q`, in order.
proof fn lemma_in_time(q: Seq<MediaObject>, offset: i64, max_late: u64, now: u64)
    requires
        increasing(q),
    ensures
        in_time(q, offset, max_late, now).len() <= q.len(),
        increasing(in_time(q, offset, max_late, now)),
        forall|i: int|
            0 <= i < in_time(q, offset, max_late, now).len() ==> {
                let o = #[trigger] in_time(q, offset, max_late, now)[i];
                &&& q.contains(o)
                &&& !is_late(playout(o.capture_timestamp_us, offset), max_late, now)
            },
    decreases q.len(),
{
    if q.len() > 0 {
        let front = q.drop_last();
        lemma_in_time(front, offset, max_late, now);
        let a = in_time(front, offset, max_late, now);
        let b = in_time(q, offset, max_late, now);
        assert forall|i: int| 0 <= i < a.len() implies q.contains(#[trigger] a[i]) && a[i].capture_timestamp_us
            < q.last().capture_timestamp_us by {
            assert(front.contains(a[i]));
            let k = choose|k: int| 0 <= k < front.len() && front[k] == a[i];
            assert(q[k] == a[i]);
        }
        assert(q[q.len() - 1] == q.last());
        assert forall|i: int| 0 <= i < b.len() implies ({
            let o = #[trigger] b[i];
            &&& q.contains(o)
            &&& !is_late(playout(o.capture_timestamp_us, offset), max_late, now)
        }) by {
            if i < a.len() {
                assert(b[i] == a[i]);
            } else {
                assert(b[i] == q.last());
            }
        }
        assert forall|i: int, j: int| 0 <= i < j < b.len() implies (
        #[trigger] b[i]).capture_timestamp_us < (#[trigger] b[j]).capture_timestamp_us by {
            assert(b[i] == a[i]);
            if j < a.len() {
                assert(b[j] == a[j]);
            } else {
                assert(b[j] == q.last());
            }
        }
    }
}

/// What is played at one time is taken from the front of the queue.
proof fn lemma_played(s: JitterState, config: JitterBufferConfig, now: u64)
    requires
        increasing(s.queue),
    ensures
        s.due(now) <= s.queue.len(),
        increasing(s.played_at(config, now)),
        forall|i: int|
            0 <= i < s.played_at(config, now).len() ==> s.queue.take(s.due(now) as int).contains(
                #[trigger] s.played_at(config, now)[i],
            ),
        s.clock_offset_us is Some && s.due(now) < s.queue.len() ==> playout(
            s.queue[s.due(now) as int].capture_timestamp_us,
            s.clock_offset_us->0,
        ) > now,
{
    if let Some(offset) = s.clock_offset_us {
        lemma_ready(s.queue, offset, now);
        lemma_in_time(s.queue.take(s.due(now) as int), offset, config.max_late_us, now);
    }
}

/// Where a sum wraps around the clock.
proof fn lemma_wrap(x: int)
    ensures
        0 <= x <= u64::MAX ==> wrap_u64(x) == x,
        -0x1_0000_0000_0000_0000 <= x < 0 ==> wrap_u64(x) == x + 0x1_0000_0000_0000_0000,
{
}

/// Law: packets are released in order. Those played at one time have growing
/// timestamps, and all of them are newer than anything emitted before.
pub proof fn law_played_in_order(s: JitterState, config: JitterBufferConfig, now: u64)
    requires
        s.wf(),
    ensures
        increasing(s.played_at(config, now)),
        s.ahead() && s.last_emitted_ts is Some ==> forall|i: int|
            0 <= i < s.played_at(config, now).len() ==> s.last_emitted_ts->0 < (
            #[trigger] s.played_at(config, now)[i]).capture_timestamp_us,
{
    lemma_played(s, config, now);
    let q = s.queue.take(s.due(now) as int);
    let played = s.played_at(config, now);
    if s.ahead() && s.last_emitted_ts is Some {
        assert forall|i: int| 0 <= i < played.len() implies s.last_emitted_ts->0 < (
        #[trigger] played[i]).capture_timestamp_us by {
            assert(q.contains(played[i]));
            let k = choose|k: int| 0 <= k < q.len() && q[k] == played[i];
            assert(s.queue[k] == played[i]);
        }
    }
}

/// Law: no packet is played before its playout time, and none that is late by
/// more than the allowance.
pub proof fn law_played_on_time(s: JitterState, config: JitterBufferConfig, now: u64, i: int)
    requires
        s.wf(),
        0 <= i < s.played_at(config, now).len(),
    ensures
        s.clock_offset_us is Some,
        playout(s.played_at(config, now)[i].capture_timestamp_us, s.clock_offset_us->0) <= now,
        !is_late(
            playout(s.played_at(config, now)[i].capture_timestamp_us, s.clock_offset_us->0),
            config.max_late_us,
            now,
        ),
{
    let offset = s.clock_offset_us->0;
    lemma_ready(s.queue, offset, now);
    let q = s.queue.take(s.due(now) as int);
    lemma_in_time(q, offset, config.max_late_us, now);
    let o = s.played_at(config, now)[i];
    assert(q.contains(o));
    let k = choose|k: int| 0 <= k < q.len() && q[k] == o;
    assert(s.queue[k] == o);
}

/// The state after a packet arrived at `now`; `clock` is the shared clock, and
/// `blended` the smoothed offset of a clock master.
pub open spec fn received(
    s: JitterState,
    config: JitterBufferConfig,
    is_clock_master: bool,
    clock: Option<i64>,
    obj: MediaObject,
    now: u64,
    blended: i64,
) -> JitterState {
    let ts = obj.capture_timestamp_us;
    let offset = s.offset_after(config, is_clock_master, clock, ts, now, blended);
    let stats = JitterStats { received: (s.stats.received + 1) as u64, ..s.stats };
    match s.verdict(config, ts, now, offset) {
        Verdict::PassThrough => JitterState {
            stats: JitterStats { played: (s.stats.played + 1) as u64, ..stats },
            ..s
        },
        Verdict::DroppedLate => JitterState {
            clock_offset_us: Some(offset),
            stats: JitterStats { dropped_late: (s.stats.dropped_late + 1) as u64, ..stats },
            ..s
        },
        Verdict::DroppedDuplicate => JitterState {
            clock_offset_us: Some(offset),
            stats: JitterStats {
                dropped_duplicate: (s.stats.dropped_duplicate + 1) as u64,
                ..stats
            },
            ..s
        },
        Verdict::Queued => JitterState {
            queue: s.queue.insert(place(s.queue, ts) as int, obj),
            clock_offset_us: Some(offset),
            stats,
            ..s
        },
    }
}

/// The state that a release at `now` leaves behind.
pub open spec fn released(
    s: JitterState,
    config: JitterBufferConfig,
    emit_plc: bool,
    now: u64,
) -> JitterState {
    let played = s.played_at(config, now).len();
    JitterState {
        queue: s.queue.skip(s.due(now) as int),
        clock_offset_us: s.clock_offset_us,
        last_emitted_ts: s.last_after(config, emit_plc, now),
        stats: JitterStats {
            played: (s.stats.played + played) as u64,
            dropped_late: (s.stats.dropped_late + s.due(now) - played) as u64,
            ..s.stats
        },
    }
}

/// Whether no playout time of `s` leaves the range of the clock.
pub open spec fn within_clock(s: JitterState) -> bool {
    s.clock_offset_us matches Some(offset) ==> {
        &&& forall|i: int|
            0 <= i < s.queue.len() ==> 0 <= (#[trigger] s.queue[i]).capture_timestamp_us + offset
                <= u64::MAX
        &&& s.last_emitted_ts matches Some(last) ==> {
            &&& last + AUDIO_FRAME_US <= u64::MAX
            &&& 0 <= last + AUDIO_FRAME_US + offset <= u64::MAX
        }
    }
}

/// Law: a release keeps everything that still waits newer than everything
/// emitted, concealed frames among them. Left out are states in which a playout
/// time wraps around the clock.
pub proof fn law_release_stays_ahead(
    s: JitterState,
    config: JitterBufferConfig,
    emit_plc: bool,
    now: u64,
)
    requires
        s.wf(),
        s.ahead(),
        within_clock(s),
    ensures
        released(s, config, emit_plc, now).ahead(),
{
    let post = released(s, config, emit_plc, now);
    let n = s.due(now) as int;
    let played = s.played_at(config, now);
    lemma_played(s, config, now);
    assert forall|i: int| 0 <= i < post.queue.len() implies (post.last_emitted_ts matches Some(last)
        ==> last < (#[trigger] post.queue[i]).capture_timestamp_us) by {
        assert(post.queue[i] == s.queue[n + i]);
        if played.len() > 0 {
            assert(s.queue.take(n).contains(played[played.len() - 1]));
            let k = choose|k: int| 0 <= k < n && s.queue.take(n)[k] == played.last();
            assert(s.queue[k] == played.last());
        } else if s.concealed_at(config, emit_plc, now) is Some {
            let offset = s.clock_offset_us->0;
            let expected = s.last_emitted_ts->0 + AUDIO_FRAME_US;
            lemma_wrap(expected);
            lemma_wrap(expected + offset);
            lemma_wrap(s.queue[n].capture_timestamp_us + offset);
            assert(expected < s.queue[n].capture_timestamp_us);
        }
    }
}

/// Law: a frame that is missing is concealed once. A buffer that sleeps as it is
/// told wakes no later than when the frame is to be played; a sentinel takes its
/// place then, and at no other time; and should the frame come in after all, it
/// is not played. Left out are states in which a playout time wraps around the
/// clock, and buffers that allow no lateness.
pub proof fn law_missing_frame_concealed_once(
    s: JitterState,
    config: JitterBufferConfig,
    now: u64,
    later: u64,
)
    requires
        s.wf(),
        within_clock(s),
        s.clock_offset_us is Some,
        s.last_emitted_ts is Some,
        config.max_late_us > 0,
        ({
            let frame = s.last_emitted_ts->0 + AUDIO_FRAME_US;
            let due = frame + s.clock_offset_us->0;
            &&& forall|i: int|
                0 <= i < s.queue.len() ==> frame < (#[trigger] s.queue[i]).capture_timestamp_us
            &&& due + config.max_late_us <= u64::MAX
            &&& now <= due
        }),
    ensures
        ({
            let frame = (s.last_emitted_ts->0 + AUDIO_FRAME_US) as u64;
            let due = (frame + s.clock_offset_us->0) as u64;
            let after = released(s, config, true, due);
            &&& now + s.idle_us(config, true, now) <= due
            &&& s.concealed_at(config, true, due) == Some(frame)
            &&& forall|t: u64| t < due ==> s.concealed_at(config, true, t) is None
            &&& after.concealed_at(config, true, later) != Some(frame)
            &&& forall|o: i64| !(#[trigger] after.verdict(config, frame, later, o) is Queued)
            &&& after.queue == s.queue
        }),
{
    let offset = s.clock_offset_us->0;
    let frame = (s.last_emitted_ts->0 + AUDIO_FRAME_US) as u64;
    let due = (frame + offset) as u64;
    let after = released(s, config, true, due);
    lemma_missing_frame(s, config, now);
    assert(after.last_emitted_ts == Some(frame));
    assert forall|o: i64| !(#[trigger] after.verdict(config, frame, later, o) is Queued) by {}
    if after.concealed_at(config, true, later) is Some {
        assert(after.concealed_at(config, true, later)->0 == wrap_u64(frame + AUDIO_FRAME_US));
        lemma_wrapped_once(frame + AUDIO_FRAME_US);
    }
}

/// Adding a whole turn of the clock changes nothing.
proof fn lemma_wrapped_once(x: int)
    requires
        0 <= x < 2 * 0x1_0000_0000_0000_0000,
    ensures
        wrap_u64(x) == x || wrap_u64(x) == x - 0x1_0000_0000_0000_0000,
{
}

/// What happens when a frame that is missing should be played.
proof fn lemma_missing_frame(s: JitterState, config: JitterBufferConfig, now: u64)
    requires
        within_clock(s),
        s.clock_offset_us is Some,
        s.last_emitted_ts is Some,
        config.max_late_us > 0,
        ({
            let frame = s.last_emitted_ts->0 + AUDIO_FRAME_US;
            let due = frame + s.clock_offset_us->0;
            &&& forall|i: int|
                0 <= i < s.queue.len() ==> frame < (#[trigger] s.queue[i]).capture_timestamp_us
            &&& due + config.max_late_us <= u64::MAX
            &&& now <= due
        }),
    ensures
        ({
            let frame = (s.last_emitted_ts->0 + AUDIO_FRAME_US) as u64;
            let due = (frame + s.clock_offset_us->0) as u64;
            &&& now + s.idle_us(config, true, now) <= due
            &&& s.played_at(config, due).len() == 0
            &&& s.concealed_at(config, true, due) == Some(frame)
            &&& forall|t: u64| t < due ==> s.concealed_at(config, true, t) is None
            &&& released(s, config, true, due).queue == s.queue
        }),
{
    let offset = s.clock_offset_us->0;
    let frame = (s.last_emitted_ts->0 + AUDIO_FRAME_US) as u64;
    let due = (frame + offset) as u64;
    lemma_wrap(s.last_emitted_ts->0 + AUDIO_FRAME_US);
    lemma_wrap(frame + offset);
    lemma_wrap(due + config.max_late_us);
    assert(wrap_u64(s.last_emitted_ts->0 + AUDIO_FRAME_US) == frame);
    assert(playout(frame, offset) == due);
    if s.queue.len() > 0 {
        let front = s.queue[0].capture_timestamp_us;
        lemma_wrap(front + offset);
        assert(playout(front, offset) > due);
    }
    assert(ready(s.queue, offset, due) == 0);
    assert(s.queue.take(0) =~= Seq::empty());
    assert(s.queue.skip(0) =~= s.queue);
}

// ---------------------------------------------------------------------------
// A whole history
// ---------------------------------------------------------------------------
/// Something that happens to a buffer.
pub enum JitterStep {
    /// A packet arrives at `now`, while the shared clock is `clock`; `blended`
    /// is the smoothed offset of a clock master.
    Receive { obj: MediaObject, clock: Option<i64>, now: u64, blended: i64 },
    /// What is due at `now` is let out.
    Release { now: u64 },
}

/// Times of a clock that counts microseconds end here, 70 000 years after it
/// started.
pub const CLOCK_LIMIT: u64 = 0x2000_0000_0000_0000;

/// Whether an offset between two such clocks, with a delay in it, is possible.
pub open spec fn possible_offset(offset: i64) -> bool {
    -2 * CLOCK_LIMIT <= offset <= 2 * CLOCK_LIMIT
}

impl JitterStep {
    /// Whether the times of a step are ones that a clock can show.
    pub open spec fn possible(self) -> bool {
        match self {
            JitterStep::Receive { obj, clock, now, blended } => {
                &&& obj.capture_timestamp_us < CLOCK_LIMIT
                &&& clock matches Some(shared) ==> possible_offset(shared)
                &&& now < CLOCK_LIMIT
                &&& possible_offset(blended)
            },
            JitterStep::Release { now } => now < CLOCK_LIMIT,
        }
    }

    /// The state after this step.
    pub open spec fn applied(
        self,
        s: JitterState,
        config: JitterBufferConfig,
        is_clock_master: bool,
        emit_plc: bool,
    ) -> JitterState {
        match self {
            JitterStep::Receive { obj, clock, now, blended } => received(
                s,
                config,
                is_clock_master,
                clock,
                obj,
                now,
                blended,
            ),
            JitterStep::Release { now } => released(s, config, emit_plc, now),
        }
    }

    /// The packets that this step sends on, sentinels aside.
    pub open spec fn sends(self, s: JitterState, config: JitterBufferConfig) -> Seq<MediaObject> {
        match self {
            JitterStep::Receive { obj, .. } => if obj.capture_timestamp_us == 0 {
                seq![obj]
            } else {
                Seq::empty()
            },
            JitterStep::Release { now } => s.played_at(config, now),
        }
    }
}

/// The state after some steps.
pub open spec fn state_after(
    start: JitterState,
    config: JitterBufferConfig,
    is_clock_master: bool,
    emit_plc: bool,
    steps: Seq<JitterStep>,
) -> JitterState
    decreases steps.len(),
{
    if steps.len() == 0 {
        start
    } else {
        steps.last().applied(
            state_after(start, config, is_clock_master, emit_plc, steps.drop_last()),
            config,
            is_clock_master,
            emit_plc,
        )
    }
}

/// All packets that some steps send on, sentinels aside.
pub open spec fn sent_by(
    start: JitterState,
    config: JitterBufferConfig,
    is_clock_master: bool,
    emit_plc: bool,
    steps: Seq<JitterStep>,
) -> Seq<MediaObject>
    decreases steps.len(),
{
    if steps.len() == 0 {
        Seq::empty()
    } else {
        let front = steps.drop_last();
        let s = state_after(start, config, is_clock_master, emit_plc, front);
        sent_by(start, config, is_clock_master, emit_plc, front) + steps.last().sends(s, config)
    }
}

/// Whether `obj` is one of the packets that arrive in `steps`.
pub open spec fn arrives(steps: Seq<JitterStep>, obj: MediaObject) -> bool {
    exists|k: int|
        0 <= k < steps.len() && (#[trigger] steps[k] matches JitterStep::Receive { obj: o, .. }
            && o == obj)
}

/// Whether the timestamps of `q` grow strictly, packets without one aside.
pub open spec fn in_order(q: Seq<MediaObject>) -> bool {
    forall|i: int, j: int|
        0 <= i < j < q.len() && (#[trigger] q[i]).capture_timestamp_us != 0 && (
        #[trigger] q[j]).capture_timestamp_us != 0 ==> q[i].capture_timestamp_us
            < q[j].capture_timestamp_us
}

/// What holds of a state and of what was sent on until then.
spec fn orderly(s: JitterState, sent: Seq<MediaObject>, steps: Seq<JitterStep>) -> bool {
    &&& increasing(s.queue)
    &&& in_order(sent)
    &&& s.clock_offset_us matches Some(offset) ==> -3 * CLOCK_LIMIT <= offset <= 3 * CLOCK_LIMIT
    &&& s.last_emitted_ts matches Some(last) ==> last <= 4 * CLOCK_LIMIT
    &&& forall|i: int|
        0 <= i < s.queue.len() ==> {
            let o = #[trigger] s.queue[i];
            0 < o.capture_timestamp_us < CLOCK_LIMIT && arrives(steps, o)
        }
    &&& forall|i: int|
        0 <= i < sent.len() ==> {
            let o = #[trigger] sent[i];
            &&& arrives(steps, o)
            &&& o.capture_timestamp_us != 0 ==> {
                &&& s.last_emitted_ts matches Some(last) && o.capture_timestamp_us <= last
                &&& newer(s.queue, o.capture_timestamp_us)
            }
        }
}

/// Whether everything in `q` is newer than `ts`.
spec fn newer(q: Seq<MediaObject>, ts: u64) -> bool {
    forall|i: int| 0 <= i < q.len() ==> ts < (#[trigger] q[i]).capture_timestamp_us
}

proof fn lemma_arrives(steps: Seq<JitterStep>, obj: MediaObject)
    requires
        steps.len() > 0,
        arrives(steps.drop_last(), obj),
    ensures
        arrives(steps, obj),
{
    let front = steps.drop_last();
    let k = choose|k: int|
        0 <= k < front.len() && (#[trigger] front[k] matches JitterStep::Receive { obj: o, .. }
            && o == obj);
    assert(steps[k] == front[k]);
}

/// How far two clocks can come to lie apart.
proof fn lemma_offset_after(
    s: JitterState,
    config: JitterBufferConfig,
    is_clock_master: bool,
    clock: Option<i64>,
    ts: u64,
    now: u64,
    blended: i64,
)
    requires
        ts < CLOCK_LIMIT,
        now < CLOCK_LIMIT,
        config.target_delay_us < CLOCK_LIMIT,
        clock matches Some(shared) ==> possible_offset(shared),
        possible_offset(blended),
        s.clock_offset_us matches Some(offset) ==> -3 * CLOCK_LIMIT <= offset <= 3 * CLOCK_LIMIT,
    ensures
        -3 * CLOCK_LIMIT <= s.offset_after(config, is_clock_master, clock, ts, now, blended) <= 3
            * CLOCK_LIMIT,
{
}

/// What a receiver knows of the queue after a packet came in.
proof fn lemma_received_queue(
    s: JitterState,
    config: JitterBufferConfig,
    is_clock_master: bool,
    clock: Option<i64>,
    obj: MediaObject,
    now: u64,
    blended: i64,
)
    requires
        increasing(s.queue),
    ensures
        ({
            let post = received(s, config, is_clock_master, clock, obj, now, blended);
            &&& increasing(post.queue)
            &&& post.last_emitted_ts == s.last_emitted_ts
            &&& forall|i: int|
                0 <= i < post.queue.len() ==> {
                    let o = #[trigger] post.queue[i];
                    ||| s.queue.contains(o)
                    ||| o == obj && obj.capture_timestamp_us != 0 && (s.last_emitted_ts matches Some(
                        last,
                    ) ==> last < obj.capture_timestamp_us)
                }
        }),
{
    let ts = obj.capture_timestamp_us;
    let offset = s.offset_after(config, is_clock_master, clock, ts, now, blended);
    let post = received(s, config, is_clock_master, clock, obj, now, blended);
    if s.verdict(config, ts, now, offset) is Queued {
        lemma_insert(s.queue, obj);
    } else {
        assert forall|i: int| 0 <= i < post.queue.len() implies s.queue.contains(
            #[trigger] post.queue[i],
        ) by {
            assert(post.queue[i] == s.queue[i]);
        }
    }
}

proof fn lemma_receive_orderly(
    s: JitterState,
    sent: Seq<MediaObject>,
    steps: Seq<JitterStep>,
    config: JitterBufferConfig,
    is_clock_master: bool,
)
    requires
        steps.len() > 0,
        steps.last() is Receive,
        steps.last().possible(),
        config.target_delay_us < CLOCK_LIMIT,
        orderly(s, sent, steps.drop_last()),
    ensures
        orderly(
            steps.last().applied(s, config, is_clock_master, false),
            sent + steps.last().sends(s, config),
            steps,
        ),
{
    let post = steps.last().applied(s, config, is_clock_master, false);
    let more = sent + steps.last().sends(s, config);
    if let JitterStep::Receive { obj, clock, now, blended } = steps.last() {
        let ts = obj.capture_timestamp_us;
        lemma_offset_after(s, config, is_clock_master, clock, ts, now, blended);
        lemma_received_queue(s, config, is_clock_master, clock, obj, now, blended);
        assert(steps[steps.len() - 1] == steps.last());
        assert(arrives(steps, obj));
        assert forall|i: int| 0 <= i < post.queue.len() implies ({
            let o = #[trigger] post.queue[i];
            0 < o.capture_timestamp_us < CLOCK_LIMIT && arrives(steps, o)
        }) by {
            let o = post.queue[i];
            if s.queue.contains(o) {
                let k = choose|k: int| 0 <= k < s.queue.len() && s.queue[k] == o;
                assert(s.queue[k] == o);
                lemma_arrives(steps, o);
            }
        }
        assert forall|i: int| 0 <= i < more.len() implies ({
            let o = #[trigger] more[i];
            &&& arrives(steps, o)
            &&& o.capture_timestamp_us != 0 ==> {
                &&& post.last_emitted_ts matches Some(last) && o.capture_timestamp_us <= last
                &&& newer(post.queue, o.capture_timestamp_us)
            }
        }) by {
            let o = more[i];
            if i < sent.len() {
                assert(sent[i] == o);
                lemma_arrives(steps, o);
                if o.capture_timestamp_us != 0 {
                    assert forall|k: int| 0 <= k < post.queue.len() implies o.capture_timestamp_us
                        < (#[trigger] post.queue[k]).capture_timestamp_us by {
                        let p = post.queue[k];
                        if s.queue.contains(p) {
                            let m = choose|m: int| 0 <= m < s.queue.len() && s.queue[m] == p;
                            assert(s.queue[m] == p);
                        }
                    }
                }
            } else {
                assert(o == obj);
            }
        }
        assert(in_order(more)) by {
            assert forall|i: int, j: int|
                0 <= i < j < more.len() && (#[trigger] more[i]).capture_timestamp_us != 0 && (
                #[trigger] more[j]).capture_timestamp_us != 0 implies more[i].capture_timestamp_us
                < more[j].capture_timestamp_us by {
                assert(more[j] == sent[j]);
                assert(more[i] == sent[i]);
            }
        }
    }
}

proof fn lemma_release_orderly(
    s: JitterState,
    sent: Seq<MediaObject>,
    steps: Seq<JitterStep>,
    config: JitterBufferConfig,
    emit_plc: bool,
)
    requires
        steps.len() > 0,
        steps.last() is Release,
        steps.last().possible(),
        orderly(s, sent, steps.drop_last()),
    ensures
        orderly(
            steps.last().applied(s, config, false, emit_plc),
            sent + steps.last().sends(s, config),
            steps,
        ),
{
    let now = steps.last()->Release_now;
    let post = released(s, config, emit_plc, now);
    let played = s.played_at(config, now);
    let more = sent + played;
    let n = s.due(now) as int;
    lemma_played(s, config, now);
    lemma_last_after(s, config, emit_plc, now);
    assert forall|i: int| 0 <= i < played.len() implies ({
        let o = #[trigger] played[i];
        &&& 0 < o.capture_timestamp_us < CLOCK_LIMIT
        &&& arrives(steps, o)
        &&& o.capture_timestamp_us <= post.last_emitted_ts->0
        &&& newer(post.queue, o.capture_timestamp_us)
        &&& forall|k: int|
            0 <= k < sent.len() ==> (#[trigger] sent[k]).capture_timestamp_us
                < o.capture_timestamp_us
    }) by {
        let o = played[i];
        assert(s.queue.take(n).contains(o));
        let k = choose|k: int| 0 <= k < n && s.queue.take(n)[k] == o;
        assert(s.queue[k] == o);
        lemma_arrives(steps, o);
        assert(o.capture_timestamp_us <= played[played.len() - 1].capture_timestamp_us);
        assert forall|m: int| 0 <= m < post.queue.len() implies o.capture_timestamp_us < (
        #[trigger] post.queue[m]).capture_timestamp_us by {
            assert(post.queue[m] == s.queue[n + m]);
        }
    }
    assert forall|i: int| 0 <= i < post.queue.len() implies ({
        let o = #[trigger] post.queue[i];
        0 < o.capture_timestamp_us < CLOCK_LIMIT && arrives(steps, o)
    }) by {
        assert(post.queue[i] == s.queue[n + i]);
        lemma_arrives(steps, s.queue[n + i]);
    }
    assert(increasing(post.queue)) by {
        assert forall|i: int, j: int| 0 <= i < j < post.queue.len() implies (
        #[trigger] post.queue[i]).capture_timestamp_us < (
        #[trigger] post.queue[j]).capture_timestamp_us by {
            assert(post.queue[i] == s.queue[n + i]);
            assert(post.queue[j] == s.queue[n + j]);
        }
    }
    assert forall|i: int| 0 <= i < more.len() implies ({
        let o = #[trigger] more[i];
        &&& arrives(steps, o)
        &&& o.capture_timestamp_us != 0 ==> {
            &&& post.last_emitted_ts matches Some(last) && o.capture_timestamp_us <= last
            &&& newer(post.queue, o.capture_timestamp_us)
        }
    }) by {
        let o = more[i];
        if i < sent.len() {
            assert(sent[i] == o);
            lemma_arrives(steps, o);
            if o.capture_timestamp_us != 0 {
                assert forall|k: int| 0 <= k < post.queue.len() implies o.capture_timestamp_us < (
                #[trigger] post.queue[k]).capture_timestamp_us by {
                    assert(post.queue[k] == s.queue[n + k]);
                }
                if played.len() > 0 {
                    assert(o.capture_timestamp_us < played[played.len()
                        - 1].capture_timestamp_us);
                }
            }
        } else {
            assert(played[i - sent.len()] == o);
        }
    }
    assert forall|i: int, j: int|
        0 <= i < j < more.len() && (#[trigger] more[i]).capture_timestamp_us != 0 && (
        #[trigger] more[j]).capture_timestamp_us != 0 implies more[i].capture_timestamp_us
        < more[j].capture_timestamp_us by {
        if j < sent.len() {
            assert(more[j] == sent[j]);
            assert(more[i] == sent[i]);
        } else {
            assert(more[j] == played[j - sent.len()]);
            if i < sent.len() {
                assert(more[i] == sent[i]);
            } else {
                assert(more[i] == played[i - sent.len()]);
            }
        }
    }
}

/// How a release changes the last emitted timestamp.
proof fn lemma_last_after(s: JitterState, config: JitterBufferConfig, emit_plc: bool, now: u64)
    requires
        increasing(s.queue),
        now < CLOCK_LIMIT,
        s.clock_offset_us matches Some(offset) ==> -3 * CLOCK_LIMIT <= offset <= 3 * CLOCK_LIMIT,
        s.last_emitted_ts matches Some(last) ==> last <= 4 * CLOCK_LIMIT,
        forall|i: int|
            0 <= i < s.queue.len() ==> (#[trigger] s.queue[i]).capture_timestamp_us < CLOCK_LIMIT,
    ensures
        s.last_after(config, emit_plc, now) matches Some(last) ==> last <= 4 * CLOCK_LIMIT,
        s.played_at(config, now).len() == 0 && s.last_emitted_ts is Some ==> (s.last_after(
            config,
            emit_plc,
            now,
        ) matches Some(last) && s.last_emitted_ts->0 <= last),
{
    let played = s.played_at(config, now);
    lemma_played(s, config, now);
    if played.len() > 0 {
        let q = s.queue.take(s.due(now) as int);
        assert(q.contains(played[played.len() - 1]));
        let k = choose|k: int| 0 <= k < q.len() && q[k] == played.last();
        assert(s.queue[k] == played.last());
    } else if s.concealed_at(config, emit_plc, now) is Some {
        let expected = s.last_emitted_ts->0 + AUDIO_FRAME_US;
        lemma_wrap(expected);
        lemma_wrap(expected + s.clock_offset_us->0);
    }
}

proof fn lemma_orderly(
    start: JitterState,
    config: JitterBufferConfig,
    is_clock_master: bool,
    emit_plc: bool,
    steps: Seq<JitterStep>,
)
    requires
        start.queue.len() == 0,
        start.last_emitted_ts is None,
        start.clock_offset_us matches Some(offset) ==> possible_offset(offset),
        config.target_delay_us < CLOCK_LIMIT,
        forall|k: int| 0 <= k < steps.len() ==> (#[trigger] steps[k]).possible(),
    ensures
        orderly(
            state_after(start, config, is_clock_master, emit_plc, steps),
            sent_by(start, config, is_clock_master, emit_plc, steps),
            steps,
        ),
    decreases steps.len(),
{
    if steps.len() > 0 {
        let front = steps.drop_last();
        assert forall|k: int| 0 <= k < front.len() implies (#[trigger] front[k]).possible() by {
            assert(front[k] == steps[k]);
        }
        lemma_orderly(start, config, is_clock_master, emit_plc, front);
        let s = state_after(start, config, is_clock_master, emit_plc, front);
        let sent = sent_by(start, config, is_clock_master, emit_plc, front);
        assert(steps[steps.len() - 1] == steps.last());
        match steps.last() {
            JitterStep::Receive { .. } => {
                lemma_receive_orderly(s, sent, steps, config, is_clock_master);
            },
            JitterStep::Release { .. } => {
                lemma_release_orderly(s, sent, steps, config, emit_plc);
            },
        }
    }
}

/// Law: whatever happens to a new buffer, in whatever order packets come in and
/// however often, what it sends on has growing timestamps, packets without one
/// and sentinels aside. So nothing is played twice, and everything that is played
/// is a packet that came in, unchanged.
pub proof fn law_sent_in_order(
    start: JitterState,
    config: JitterBufferConfig,
    is_clock_master: bool,
    emit_plc: bool,
    steps: Seq<JitterStep>,
)
    requires
        start.queue.len() == 0,
        start.last_emitted_ts is None,
        start.clock_offset_us matches Some(offset) ==> possible_offset(offset),
        config.target_delay_us < CLOCK_LIMIT,
        forall|k: int| 0 <= k < steps.len() ==> (#[trigger] steps[k]).possible(),
    ensures
        in_order(sent_by(start, config, is_clock_master, emit_plc, steps)),
        forall|i: int|
            0 <= i < sent_by(start, config, is_clock_master, emit_plc, steps).len() ==> arrives(
                steps,
                #[trigger] sent_by(start, config, is_clock_master, emit_plc, steps)[i],
            ),
{
    lemma_orderly(start, config, is_clock_master, emit_plc, steps);
}

/// Law: audio and video of one moment are played together. Once video follows
/// the shared clock, a packet captured at `ts` is due exactly as much before or
/// after the audio captured at `ts` as the two target delays differ.
pub proof fn law_av_sync(shared: i64, video_delay: u64, ts: u64)
    ensures
        wrap_u64(
            playout(ts, wrap_i64(shared - AUDIO_TARGET_DELAY_US + video_delay))
                + AUDIO_TARGET_DELAY_US,
        ) == wrap_u64(playout(ts, shared) + video_delay),
{
    let m: int = 0x1_0000_0000_0000_0000;
    let x = shared - AUDIO_TARGET_DELAY_US + video_delay;
    let offset = wrap_i64(x) as int;
    assert(offset == x % m || offset == x % m - m);
    lemma_add_mod_noop_right(ts as int, x, m);
    assert((ts + offset) % m == (ts + x) % m) by {
        lemma_mod_add_multiples_vanish(ts + x % m - m, m);
    }
    lemma_add_mod_noop_right(AUDIO_TARGET_DELAY_US as int, ts + x, m);
    lemma_add_mod_noop_right(video_delay as int, ts + shared, m);
}

// ---------------------------------------------------------------------------
// What becomes of every packet
// ---------------------------------------------------------------------------
/// Every packet that is not too late is among those that are in time.
proof fn lemma_in_time_complete(
    q: Seq<MediaObject>,
    offset: i64,
    max_late: u64,
    now: u64,
    i: int,
)
    requires
        0 <= i < q.len(),
        !is_late(playout(q[i].capture_timestamp_us, offset), max_late, now),
    ensures
        in_time(q, offset, max_late, now).contains(q[i]),
    decreases q.len(),
{
    let front = q.drop_last();
    let a = in_time(front, offset, max_late, now);
    let b = in_time(q, offset, max_late, now);
    if i == q.len() - 1 {
        assert(b[b.len() - 1] == q[i]);
    } else {
        lemma_in_time_complete(front, offset, max_late, now, i);
        let k = choose|k: int| 0 <= k < a.len() && a[k] == front[i];
        assert(b[k] == q[i]);
    }
}

/// In a queue in timestamp order, what has reached its playout time stands in front
/// of what has not.
proof fn lemma_due_in_front(q: Seq<MediaObject>, offset: i64, now: u64, i: int)
    requires
        increasing(q),
        0 <= i < q.len(),
        forall|k: int|
            0 <= k < q.len() ==> 0 <= (#[trigger] q[k]).capture_timestamp_us + offset <= u64::MAX,
    ensures
        i < ready(q, offset, now) <==> q[i].capture_timestamp_us + offset <= now,
{
    let n = ready(q, offset, now) as int;
    lemma_ready(q, offset, now);
    lemma_wrap(q[i].capture_timestamp_us + offset);
    if n <= i {
        lemma_wrap(q[n].capture_timestamp_us + offset);
        assert(q[n].capture_timestamp_us <= q[i].capture_timestamp_us);
    }
}

/// Law: what becomes of a packet that waits. It is played by the first release that
/// comes when its playout time has been reached and not yet passed by more than the
/// allowance; it goes on waiting before that, and is dropped after it. Left out are
/// playout times that wrap around the clock.
pub proof fn law_waiting_packet(
    s: JitterState,
    config: JitterBufferConfig,
    emit_plc: bool,
    now: u64,
    i: int,
)
    requires
        s.clock_offset_us is Some,
        0 <= i < s.queue.len(),
        forall|a: int, b: int|
            0 <= a < b < s.queue.len() ==> (#[trigger] s.queue[a]).capture_timestamp_us < (
            #[trigger] s.queue[b]).capture_timestamp_us,
        forall|k: int|
            0 <= k < s.queue.len() ==> 0 <= (#[trigger] s.queue[k]).capture_timestamp_us
                + s.clock_offset_us->0 && s.queue[k].capture_timestamp_us + s.clock_offset_us->0
                + config.max_late_us <= u64::MAX,
    ensures
        ({
            let due = s.queue[i].capture_timestamp_us + s.clock_offset_us->0;
            let played = s.played_at(config, now);
            let waiting = released(s, config, emit_plc, now).queue;
            &&& played.contains(s.queue[i]) <==> due <= now <= due + config.max_late_us
            &&& waiting.contains(s.queue[i]) <==> now < due
        }),
{
    let q = s.queue;
    let offset = s.clock_offset_us->0;
    let n = s.due(now) as int;
    let front = q.take(n);
    let played = s.played_at(config, now);
    let waiting = released(s, config, emit_plc, now).queue;
    let due = q[i].capture_timestamp_us + offset;
    assert(increasing(q));
    lemma_ready(q, offset, now);
    lemma_due_in_front(q, offset, now, i);
    lemma_in_time(front, offset, config.max_late_us, now);
    lemma_wrap(due);
    lemma_wrap(due + config.max_late_us);
    if due <= now <= due + config.max_late_us {
        assert(front[i] == q[i]);
        lemma_in_time_complete(front, offset, config.max_late_us, now, i);
    }
    if played.contains(q[i]) {
        let k = choose|k: int| 0 <= k < played.len() && played[k] == q[i];
        assert(front.contains(played[k]));
        let m = choose|m: int| 0 <= m < front.len() && front[m] == q[i];
        assert(q[m].capture_timestamp_us == q[i].capture_timestamp_us);
        assert(m == i);
    }
    if now < due {
        assert(waiting[i - n] == q[i]);
    }
    if waiting.contains(q[i]) {
        let k = choose|k: int| 0 <= k < waiting.len() && waiting[k] == q[i];
        assert(q[n + k].capture_timestamp_us == q[i].capture_timestamp_us);
        assert(n + k == i);
    }
}

/// Law: a release only plays packets that were waiting, and keeps those that go on
/// waiting in their order.
pub proof fn law_released_packets_waited(
    s: JitterState,
    config: JitterBufferConfig,
    emit_plc: bool,
    now: u64,
)
    requires
        increasing(s.queue),
    ensures
        forall|k: int|
            0 <= k < s.played_at(config, now).len() ==> s.queue.contains(
                #[trigger] s.played_at(config, now)[k],
            ),
        increasing(released(s, config, emit_plc, now).queue),
        exists|n: int|
            0 <= n <= s.queue.len() && released(s, config, emit_plc, now).queue
                == #[trigger] s.queue.skip(n),
{
    let q = s.queue;
    let n = s.due(now) as int;
    let played = s.played_at(config, now);
    lemma_played(s, config, now);
    assert forall|k: int| 0 <= k < played.len() implies q.contains(#[trigger] played[k]) by {
        assert(q.take(n).contains(played[k]));
        let m = choose|m: int| 0 <= m < n && q.take(n)[m] == played[k];
        assert(q[m] == played[k]);
    }
    let rest = released(s, config, emit_plc, now).queue;
    assert(rest == q.skip(n));
    assert forall|a: int, b: int| 0 <= a < b < rest.len() implies (
    #[trigger] rest[a]).capture_timestamp_us < (#[trigger] rest[b]).capture_timestamp_us by {
        assert(rest[a] == q[n + a]);
        assert(rest[b] == q[n + b]);
    }
}

/// Law: when a missing frame is concealed. Once the frame 20 ms after the last
/// emitted one is due, and as long as it is not late by the whole allowance, a
/// release that finds nothing to play puts a sentinel in its place, whenever in
/// that time it comes, and the frame counts as emitted. At any other time, where
/// something is played, and in a buffer that does not conceal, nothing is. Left out
/// are playout times that wrap around the clock.
pub proof fn law_concealment_window(
    s: JitterState,
    config: JitterBufferConfig,
    emit_plc: bool,
    now: u64,
)
    requires
        s.clock_offset_us is Some,
        s.last_emitted_ts is Some,
        increasing(s.queue),
        forall|k: int|
            0 <= k < s.queue.len() ==> 0 <= (#[trigger] s.queue[k]).capture_timestamp_us
                + s.clock_offset_us->0 && s.queue[k].capture_timestamp_us + s.clock_offset_us->0
                + config.max_late_us <= u64::MAX,
        s.last_emitted_ts->0 + 20_000 <= u64::MAX,
        0 <= s.last_emitted_ts->0 + 20_000 + s.clock_offset_us->0,
        s.last_emitted_ts->0 + 20_000 + s.clock_offset_us->0 + config.max_late_us <= u64::MAX,
    ensures
        ({
            let offset = s.clock_offset_us->0;
            let frame = s.last_emitted_ts->0 + 20_000;
            let due = frame + offset;
            let nothing_to_play = forall|k: int|
                0 <= k < s.queue.len() ==> {
                    let at = (#[trigger] s.queue[k]).capture_timestamp_us + offset;
                    now < at || now > at + config.max_late_us
                };
            if emit_plc && due <= now < due + config.max_late_us && nothing_to_play {
                &&& s.concealed_at(config, emit_plc, now) == Some(frame as u64)
                &&& released(s, config, emit_plc, now).last_emitted_ts == Some(frame as u64)
            } else {
                &&& s.concealed_at(config, emit_plc, now) is None
                &&& nothing_to_play ==> released(s, config, emit_plc, now).last_emitted_ts
                    == s.last_emitted_ts
            }
        }),
{
    let offset = s.clock_offset_us->0;
    let frame = s.last_emitted_ts->0 + 20_000;
    let due = frame + offset;
    let played = s.played_at(config, now);
    lemma_wrap(frame);
    lemma_wrap(due);
    lemma_wrap(due + config.max_late_us);
    law_released_packets_waited(s, config, emit_plc, now);
    let nothing_to_play = forall|k: int|
        0 <= k < s.queue.len() ==> {
            let at = (#[trigger] s.queue[k]).capture_timestamp_us + offset;
            now < at || now > at + config.max_late_us
        };
    if nothing_to_play {
        if played.len() > 0 {
            assert(s.queue.contains(played[0]));
            let k = choose|k: int| 0 <= k < s.queue.len() && s.queue[k] == played[0];
            law_waiting_packet(s, config, emit_plc, now, k);
            assert(played.contains(s.queue[k]));
        }
    } else {
        let k = choose|k: int|
            0 <= k < s.queue.len() && !({
                let at = (#[trigger] s.queue[k]).capture_timestamp_us + offset;
                now < at || now > at + config.max_late_us
            });
        law_waiting_packet(s, config, emit_plc, now, k);
        assert(played.len() > 0);
    }
}

/// Law: the last packet that a release plays counts as the last emitted one.
pub proof fn law_last_played_is_last_emitted(
    s: JitterState,
    config: JitterBufferConfig,
    emit_plc: bool,
    now: u64,
    k: int,
)
    requires
        increasing(s.queue),
        0 <= k < s.played_at(config, now).len(),
    ensures
        ({
            let last = released(s, config, emit_plc, now).last_emitted_ts;
            &&& last is Some
            &&& s.played_at(config, now)[k].capture_timestamp_us <= last->0
            &&& k == s.played_at(config, now).len() - 1 ==> last
                == Some(s.played_at(config, now)[k].capture_timestamp_us)
        }),
{
    lemma_played(s, config, now);
    let played = s.played_at(config, now);
    assert(played[played.len() - 1] == played.last());
}

/// Law: every packet that leaves the queue is counted once, as played or as too
/// late, and nothing else is counted by a release.
pub proof fn law_release_counts(
    s: JitterState,
    config: JitterBufferConfig,
    emit_plc: bool,
    now: u64,
)
    requires
        increasing(s.queue),
        s.stats.played + s.queue.len() <= u64::MAX,
        s.stats.dropped_late + s.queue.len() <= u64::MAX,
    ensures
        ({
            let after = released(s, config, emit_plc, now);
            let played = s.played_at(config, now).len();
            &&& after.stats.played == s.stats.played + played
            &&& after.stats.dropped_late == s.stats.dropped_late + (s.queue.len()
                - after.queue.len()) - played
            &&& after.stats.received == s.stats.received
            &&& after.stats.dropped_duplicate == s.stats.dropped_duplicate
            &&& after.clock_offset_us == s.clock_offset_us
        }),
{
    lemma_played(s, config, now);
    if let Some(offset) = s.clock_offset_us {
        lemma_in_time(s.queue.take(s.due(now) as int), offset, config.max_late_us, now);
    }
}

/// Law: nothing is played before the clocks of the two sides have been compared.
pub proof fn law_nothing_without_clock(
    s: JitterState,
    config: JitterBufferConfig,
    emit_plc: bool,
    now: u64,
)
    requires
        s.clock_offset_us is None,
    ensures
        s.played_at(config, now).len() == 0,
        s.concealed_at(config, emit_plc, now) is None,
        released(s, config, emit_plc, now) == s,
        s.idle_us(config, emit_plc, now) == 5_000,
{
    assert(s.queue.skip(0) =~= s.queue);
}

/// Law: what becomes of a packet that arrives. One without timestamp is played at
/// once and touches nothing else. Any other is dropped if its playout time has
/// passed by more than the allowance, or if it is not newer than what was emitted,
/// or waits already; else it waits, with everything that waited before. Left out
/// are playout times that wrap around the clock.
pub proof fn law_arriving_packet(
    s: JitterState,
    config: JitterBufferConfig,
    is_clock_master: bool,
    clock: Option<i64>,
    obj: MediaObject,
    now: u64,
    blended: i64,
)
    requires
        increasing(s.queue),
        s.stats.received < u64::MAX,
        s.stats.played < u64::MAX,
        s.stats.dropped_late < u64::MAX,
        s.stats.dropped_duplicate < u64::MAX,
        ({
            let ts = obj.capture_timestamp_us;
            let offset = s.offset_after(config, is_clock_master, clock, ts, now, blended);
            0 <= ts + offset && ts + offset + config.max_late_us <= u64::MAX
        }),
    ensures
        ({
            let ts = obj.capture_timestamp_us;
            let offset = s.offset_after(config, is_clock_master, clock, ts, now, blended);
            let after = received(s, config, is_clock_master, clock, obj, now, blended);
            let verdict = s.verdict(config, ts, now, offset);
            let known = (s.last_emitted_ts is Some && ts <= s.last_emitted_ts->0) || exists|k: int|
                0 <= k < s.queue.len() && (#[trigger] s.queue[k]).capture_timestamp_us == ts;
            &&& after.stats.received == s.stats.received + 1
            &&& after.last_emitted_ts == s.last_emitted_ts
            &&& ts != 0 ==> after.clock_offset_us == Some(offset)
            &&& if ts == 0 {
                &&& verdict == Verdict::PassThrough
                &&& after.queue == s.queue
                &&& after.clock_offset_us == s.clock_offset_us
                &&& after.stats.played == s.stats.played + 1
                &&& after.stats.dropped_late == s.stats.dropped_late
                &&& after.stats.dropped_duplicate == s.stats.dropped_duplicate
            } else if now > ts + offset + config.max_late_us {
                &&& verdict == Verdict::DroppedLate
                &&& after.queue == s.queue
                &&& after.stats.played == s.stats.played
                &&& after.stats.dropped_late == s.stats.dropped_late + 1
                &&& after.stats.dropped_duplicate == s.stats.dropped_duplicate
            } else if known {
                &&& verdict == Verdict::DroppedDuplicate
                &&& after.queue == s.queue
                &&& after.stats.played == s.stats.played
                &&& after.stats.dropped_late == s.stats.dropped_late
                &&& after.stats.dropped_duplicate == s.stats.dropped_duplicate + 1
            } else {
                &&& verdict == Verdict::Queued
                &&& after.queue.contains(obj)
                &&& after.queue.len() == s.queue.len() + 1
                &&& forall|k: int|
                    0 <= k < s.queue.len() ==> after.queue.contains(#[trigger] s.queue[k])
                &&& forall|a: int, b: int|
                    0 <= a < b < after.queue.len() ==> (
                    #[trigger] after.queue[a]).capture_timestamp_us < (
                    #[trigger] after.queue[b]).capture_timestamp_us
                &&& after.stats.played == s.stats.played
                &&& after.stats.dropped_late == s.stats.dropped_late
                &&& after.stats.dropped_duplicate == s.stats.dropped_duplicate
            }
        }),
{
    let ts = obj.capture_timestamp_us;
    let offset = s.offset_after(config, is_clock_master, clock, ts, now, blended);
    let after = received(s, config, is_clock_master, clock, obj, now, blended);
    lemma_wrap(ts + offset);
    lemma_wrap(ts + offset + config.max_late_us);
    if s.verdict(config, ts, now, offset) is Queued {
        let at = place(s.queue, ts) as int;
        lemma_insert(s.queue, obj);
        assert(after.queue[at] == obj);
        assert forall|k: int| 0 <= k < s.queue.len() implies after.queue.contains(
            #[trigger] s.queue[k],
        ) by {
            if k < at {
                assert(after.queue[k] == s.queue[k]);
            } else {
                assert(after.queue[k + 1] == s.queue[k]);
            }
        }
    }
}

/// Law: the first packet is played one target delay after it arrived, on any
/// buffer. After that, the buffer that leads goes on with its smoothed offset, and
/// one that follows takes over the shared offset with its own delay in place of the
/// 60 ms of audio, once there is one. Left out are sums that wrap around the clock.
pub proof fn law_clock_offset(
    s: JitterState,
    config: JitterBufferConfig,
    is_clock_master: bool,
    clock: Option<i64>,
    ts: u64,
    now: u64,
    blended: i64,
)
    ensures
        ({
            let offset = s.offset_after(config, is_clock_master, clock, ts, now, blended);
            let delay = config.target_delay_us;
            &&& s.clock_offset_us is None && i64::MIN <= now + delay - ts <= i64::MAX ==> ts + offset
                == now + delay
            &&& s.clock_offset_us is Some && is_clock_master ==> offset == blended
            &&& s.clock_offset_us is Some && !is_clock_master && clock is Some && i64::MIN
                <= clock->0 - 60_000 + delay <= i64::MAX ==> offset == clock->0 - 60_000 + delay
            &&& s.clock_offset_us is Some && !is_clock_master && clock is None ==> offset
                == s.clock_offset_us->0
        }),
{
}

/// Law: how long a buffer sleeps. It wakes when the first packet that waits is due,
/// or after 5 ms where none waits, or when the frame 20 ms after the last emitted
/// one is due and could still be concealed, whichever comes first. Left out are
/// playout times that wrap around the clock.
pub proof fn law_sleep(s: JitterState, config: JitterBufferConfig, emit_plc: bool, now: u64)
    requires
        s.clock_offset_us is Some,
        s.queue.len() > 0 ==> 0 <= s.queue[0].capture_timestamp_us + s.clock_offset_us->0
            <= u64::MAX,
        s.last_emitted_ts is Some ==> {
            &&& s.last_emitted_ts->0 + 20_000 <= u64::MAX
            &&& 0 <= s.last_emitted_ts->0 + 20_000 + s.clock_offset_us->0
            &&& s.last_emitted_ts->0 + 20_000 + s.clock_offset_us->0 + config.max_late_us
                <= u64::MAX
        },
    ensures
        ({
            let offset = s.clock_offset_us->0;
            let wake = now + s.idle_us(config, emit_plc, now);
            let front = s.queue[0].capture_timestamp_us + offset;
            let frame = s.last_emitted_ts->0 + 20_000 + offset;
            let to_conceal = emit_plc && s.last_emitted_ts is Some && now < frame
                + config.max_late_us;
            let no_packet = if s.queue.len() > 0 {
                if front > now {
                    front
                } else {
                    now as int
                }
            } else {
                now + 5_000
            };
            &&& wake <= no_packet
            &&& to_conceal && frame > now ==> wake <= frame
            &&& to_conceal && frame <= now ==> wake == now
            &&& wake == no_packet || (to_conceal && (wake == frame || wake == now))
            &&& wake < no_packet && wake == now ==> frame <= now
        }),
{
    let offset = s.clock_offset_us->0;
    if s.queue.len() > 0 {
        lemma_wrap(s.queue[0].capture_timestamp_us + offset);
    }
    if s.last_emitted_ts is Some {
        let frame = s.last_emitted_ts->0 + 20_000;
        lemma_wrap(frame);
        lemma_wrap(frame + offset);
        lemma_wrap(frame + offset + config.max_late_us);
    }
}

/// Law: sums that fit the clock are exact, and all others differ by whole turns of
/// it.
pub proof fn law_clock_sums(x: int, ts: u64, offset: i64)
    ensures
        (wrap_u64(x) - x) % 0x1_0000_0000_0000_0000 == 0,
        (wrap_i64(x) - x) % 0x1_0000_0000_0000_0000 == 0,
        0 <= ts + offset <= u64::MAX ==> playout(ts, offset) == ts + offset,
        i64::MIN <= x <= i64::MAX ==> wrap_i64(x) == x,
{
}

/// Law: a buffer is well-formed exactly if what waits is in timestamp order and
/// every received packet is accounted for, and stays ahead exactly if all that
/// waits is newer than what was emitted.
pub proof fn law_well_formed(s: JitterState, i: int, j: int)
    requires
        0 <= i < j < s.queue.len(),
    ensures
        s.wf() ==> s.queue[i].capture_timestamp_us < s.queue[j].capture_timestamp_us,
        s.wf() ==> s.stats.received == s.stats.played + s.stats.dropped_late
            + s.stats.dropped_duplicate + s.queue.len(),
        s.ahead() && s.last_emitted_ts is Some ==> s.last_emitted_ts->0
            < s.queue[i].capture_timestamp_us,
{
}

/// Law: a sentinel is told by what no frame has: no payload, and the last possible
/// timestamp.
pub proof fn law_sentinel(obj: MediaObject)
    ensures
        is_plc_sentinel(obj) <==> obj.group_id == 0 && obj.subgroup_id == 0 && obj.object_id == 0
            && obj.capture_timestamp_us == 0xFFFF_FFFF_FFFF_FFFF && obj.codec is None
            && obj.payload@.len() == 0,
        AUDIO_TARGET_DELAY_US == 60_000,
        AUDIO_FRAME_US == 20_000,
{
    if obj.payload@.len() == 0 {
        assert(obj.payload@ =~= Seq::<u8>::empty());
    }
}

} // verus!
