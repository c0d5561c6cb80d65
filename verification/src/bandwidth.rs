//! Adaptive bitrate: turns congestion signals into encoder settings.

use vstd::prelude::*;

verus! {

// ---------------------------------------------------------------------------
// Quality ladder
// ---------------------------------------------------------------------------
/// A quality preset defining encode resolution, frame rate, and target bitrate.
#[derive(Debug, Clone, Copy, PartialEq, Eq, Structural)]
pub struct QualityPreset {
    pub width: u32,
    pub height: u32,
    pub fps: u32,
    pub bitrate_bps: u32,
}

/// Number of quality levels.
pub const QUALITY_LEVELS: usize = 3;

/// Level of a new estimator: the highest.
pub const DEFAULT_QUALITY_IDX: usize = 2;

pub const MIN_BITRATE_BPS: u32 = 50_000;

/// No more than the highest quality level is made for.
pub const MAX_BITRATE_BPS: u32 = 500_000;

/// Probe (try to increase) every 2 s when no congestion detected.
pub const PROBE_INTERVAL_NS: u64 = 2_000_000_000;

/// After a decrease, hold the lower rate for this long before probing.
pub const HOLD_AFTER_DECREASE_NS: u64 = 2_000_000_000;

/// The quality levels, ordered low to high.
pub open spec fn ladder() -> Seq<QualityPreset> {
    seq![
        QualityPreset { width: 320, height: 240, fps: 10, bitrate_bps: 100_000 },
        QualityPreset { width: 480, height: 360, fps: 15, bitrate_bps: 250_000 },
        QualityPreset { width: 640, height: 480, fps: 15, bitrate_bps: 500_000 },
    ]
}

/// A level of the quality ladder.
pub fn quality_preset(idx: usize) -> (p: QualityPreset)
    requires
        idx < QUALITY_LEVELS,
    ensures
        p == ladder()[idx as int],
{
    if idx == 0 {
        QualityPreset { width: 320, height: 240, fps: 10, bitrate_bps: 100_000 }
    } else if idx == 1 {
        QualityPreset { width: 480, height: 360, fps: 15, bitrate_bps: 250_000 }
    } else {
        QualityPreset { width: 640, height: 480, fps: 15, bitrate_bps: 500_000 }
    }
}

// ---------------------------------------------------------------------------
// Events fed into the estimator
// ---------------------------------------------------------------------------
/// Events reported to the bandwidth estimator from various parts of the
/// send and receive pipeline.
#[derive(Debug, Clone, Copy, PartialEq, Eq, Structural)]
pub enum BandwidthEvent {
    /// A video frame was fully written to a QUIC stream for one peer.
    SendComplete { duration_ns: u64, payload_bytes: usize },
    /// A round trip time was sampled; `rose` tells whether the smoothed time
    /// has risen over its baseline by more than a fifth.
    RttSample { rose: bool },
    /// The receiver stopped a stream (old GOP or congestion).  The
    /// dispatcher already stops old-GOP streams; this event is for
    /// *non-old* stops, which indicate real congestion.
    StreamStopped,
    /// Receiver-side feedback received from a remote peer describing how
    /// well our video is being received.  Modelled on RTCP Receiver
    /// Reports (RFC 3550, section 6.4.1).
    ReceiverFeedback {
        /// Fraction of video frames lost in the reporting interval, as the bits
        /// of an IEEE 754 double.
        fraction_lost_bits: u64,
        /// Observed inter-arrival jitter in microseconds.
        jitter_us: u64,
    },
}

/// The bits of 0.10 as a double.
pub const SEVERE_LOSS_BITS: u64 = 0x3FB9_9999_9999_999A;

/// The bits of 0.05 as a double.
pub const MODERATE_LOSS_BITS: u64 = 0x3FA9_9999_9999_999A;

/// The bits of 0.02 as a double.
pub const MILD_LOSS_BITS: u64 = 0x3F94_7AE1_47AE_147B;

/// The bits of positive infinity.
pub const INFINITY_BITS: u64 = 0x7FF0_0000_0000_0000;

/// Whether the double with these bits exceeds the positive one with the bits
/// `bound`. Positive doubles are ordered as their bits are; what lies above
/// infinity is no number or is negative, and exceeds nothing.
pub open spec fn double_exceeds(bits: u64, bound: u64) -> bool {
    bound < bits <= INFINITY_BITS
}

/// How bad a signal is.
#[derive(Debug, Clone, Copy, PartialEq, Eq, Structural)]
pub enum CongestionLevel {
    Clear,
    /// 15 % reduction.
    Mild,
    /// 20 % reduction.
    Moderate,
    /// 50 % reduction.
    Severe,
}

/// How bad `event` is while frames are sent `fps` times a second. A frame that
/// takes longer to send than the time to the next one shows congestion.
pub open spec fn congestion_of(event: BandwidthEvent, fps: u32) -> CongestionLevel {
    match event {
        BandwidthEvent::SendComplete { duration_ns, .. } => if duration_ns * fps > 1_000_000_000 {
            CongestionLevel::Moderate
        } else {
            CongestionLevel::Clear
        },
        BandwidthEvent::RttSample { rose } => if rose {
            CongestionLevel::Mild
        } else {
            CongestionLevel::Clear
        },
        BandwidthEvent::StreamStopped => CongestionLevel::Severe,
        BandwidthEvent::ReceiverFeedback { fraction_lost_bits, .. } => if double_exceeds(
            fraction_lost_bits,
            SEVERE_LOSS_BITS,
        ) {
            CongestionLevel::Severe
        } else if double_exceeds(fraction_lost_bits, MODERATE_LOSS_BITS) {
            CongestionLevel::Moderate
        } else if double_exceeds(fraction_lost_bits, MILD_LOSS_BITS) {
            CongestionLevel::Mild
        } else {
            CongestionLevel::Clear
        },
    }
}

// ---------------------------------------------------------------------------
// Encoder configuration
// ---------------------------------------------------------------------------
/// Configuration written by the estimator and read by the encode loop. It cannot
/// be copied: both work on the same one.
#[derive(Debug, PartialEq, Eq, Structural)]
pub struct EncoderConfig {
    /// Target average bitrate in bits per second.
    pub target_bitrate: u32,
    /// Target encode width.
    pub target_width: u32,
    /// Target encode height.
    pub target_height: u32,
    /// Target encode frame rate.
    pub target_fps: u32,
    /// Set by the estimator when resolution or FPS changes; cleared by the
    /// encode loop after it has recreated the compression session.
    pub quality_changed: bool,
}

impl EncoderConfig {
    /// Create a new encoder config initialised to the highest quality preset.
    pub fn new() -> (config: EncoderConfig)
        ensures
            config == (EncoderConfig {
                target_bitrate: ladder().last().bitrate_bps,
                target_width: ladder().last().width,
                target_height: ladder().last().height,
                target_fps: ladder().last().fps,
                quality_changed: false,
            }),
    {
        let preset = quality_preset(QUALITY_LEVELS - 1);
        EncoderConfig {
            target_bitrate: preset.bitrate_bps,
            target_width: preset.width,
            target_height: preset.height,
            target_fps: preset.fps,
            quality_changed: false,
        }
    }

    /// The configuration once `preset` is in force.
    pub open spec fn with_preset(self, preset: QualityPreset) -> EncoderConfig {
        EncoderConfig {
            target_width: preset.width,
            target_height: preset.height,
            target_fps: preset.fps,
            quality_changed: true,
            ..self
        }
    }
}

// ---------------------------------------------------------------------------
// Bandwidth estimator
// ---------------------------------------------------------------------------
/// What an estimator has settled on.
pub struct Estimate {
    pub bitrate: u32,
    /// Level of the quality ladder.
    pub quality: int,
    pub last_probe_ns: u64,
    pub last_decrease_ns: u64,
}

/// Time from `since` to `now`; zero if `since` is later.
pub open spec fn elapsed(since: u64, now: u64) -> int {
    if now >= since {
        now - since
    } else {
        0
    }
}

/// The bitrate after a signal of this level: 15, 20 or 50 percent less, rounded
/// down, and not under the minimum.
pub open spec fn decreased(bitrate: u32, level: CongestionLevel) -> int {
    let percent: int = match level {
        CongestionLevel::Clear => 100,
        CongestionLevel::Mild => 85,
        CongestionLevel::Moderate => 80,
        CongestionLevel::Severe => 50,
    };
    let r = bitrate * percent / 100;
    if r < MIN_BITRATE_BPS {
        MIN_BITRATE_BPS as int
    } else {
        r
    }
}

/// The bitrate after a probe: 5 percent more, rounded down, and not over the
/// maximum.
pub open spec fn increased(bitrate: u32) -> int {
    let r = bitrate * 105 / 100;
    if r > MAX_BITRATE_BPS {
        MAX_BITRATE_BPS as int
    } else {
        r
    }
}

impl Estimate {
    pub open spec fn wf(self) -> bool {
        &&& MIN_BITRATE_BPS <= self.bitrate <= MAX_BITRATE_BPS
        &&& 0 <= self.quality < QUALITY_LEVELS
    }

    /// Whether the bitrate may be raised at `now`.
    pub open spec fn may_probe(self, now: u64) -> bool {
        &&& elapsed(self.last_probe_ns, now) >= PROBE_INTERVAL_NS
        &&& elapsed(self.last_decrease_ns, now) >= HOLD_AFTER_DECREASE_NS
    }

    /// The estimate after a signal of level `level` at `now`.
    pub open spec fn after(self, level: CongestionLevel, now: u64) -> Estimate {
        if level == CongestionLevel::Clear {
            if self.may_probe(now) {
                let bitrate = increased(self.bitrate) as u32;
                let up = self.quality + 1 < QUALITY_LEVELS && bitrate
                    >= ladder()[self.quality + 1].bitrate_bps;
                Estimate {
                    bitrate,
                    quality: if up {
                        self.quality + 1
                    } else {
                        self.quality
                    },
                    last_probe_ns: now,
                    ..self
                }
            } else {
                self
            }
        } else {
            let bitrate = decreased(self.bitrate, level) as u32;
            let down = self.quality > 0 && bitrate <= ladder()[self.quality - 1].bitrate_bps;
            Estimate {
                bitrate,
                quality: if down {
                    self.quality - 1
                } else {
                    self.quality
                },
                last_decrease_ns: now,
                ..self
            }
        }
    }

    /// What an encoder configuration becomes by a signal of level `level`.
    pub open spec fn configure(
        self,
        level: CongestionLevel,
        now: u64,
        config: EncoderConfig,
    ) -> EncoderConfig {
        let next = self.after(level, now);
        let config2 = EncoderConfig { target_bitrate: next.bitrate, ..config };
        if level == CongestionLevel::Clear && !self.may_probe(now) {
            config
        } else if next.quality != self.quality {
            config2.with_preset(ladder()[next.quality])
        } else {
            config2
        }
    }
}

/// Adaptive bitrate estimator.
///
/// Consumes [`BandwidthEvent`]s and updates the [`EncoderConfig`] that the
/// encode loop reads.
pub struct BandwidthEstimator {
    current_bitrate: u32,
    quality_idx: usize,
    last_probe_ns: u64,
    last_decrease_ns: u64,
    fps: u32,
}

impl View for BandwidthEstimator {
    type V = Estimate;

    closed spec fn view(&self) -> Estimate {
        Estimate {
            bitrate: self.current_bitrate,
            quality: self.quality_idx as int,
            last_probe_ns: self.last_probe_ns,
            last_decrease_ns: self.last_decrease_ns,
        }
    }
}

impl BandwidthEstimator {
    /// The bitrate lies within its bounds, and frames are expected at the rate
    /// of the current quality level.
    pub closed spec fn wf(self) -> bool {
        &&& self@.wf()
        &&& self.fps == ladder()[self.quality_idx as int].fps
    }

    /// Create a new estimator at the highest quality level; `now_ns` is the
    /// time on a monotonic clock.
    pub fn new(now_ns: u64) -> (r: BandwidthEstimator)
        ensures
            r.wf(),
            r@ == (Estimate {
                bitrate: ladder().last().bitrate_bps,
                quality: QUALITY_LEVELS - 1,
                last_probe_ns: now_ns,
                last_decrease_ns: now_ns,
            }),
    {
        let initial = quality_preset(DEFAULT_QUALITY_IDX);
        BandwidthEstimator {
            current_bitrate: initial.bitrate_bps,
            quality_idx: DEFAULT_QUALITY_IDX,
            last_probe_ns: now_ns,
            last_decrease_ns: now_ns,
            fps: initial.fps,
        }
    }

    pub fn current_bitrate(&self) -> (r: u32)
        ensures
            r == self@.bitrate,
    {
        self.current_bitrate
    }

    /// Take in an event that happened at `now_ns` and adapt `config`.
    pub fn handle_event(&mut self, config: &mut EncoderConfig, event: BandwidthEvent, now_ns: u64)
        requires
            old(self).wf(),
        ensures
            final(self).wf(),
            final(self)@.wf(),
            final(self)@ == old(self)@.after(
                congestion_of(event, ladder()[old(self)@.quality].fps),
                now_ns,
            ),
            *final(config) == old(self)@.configure(
                congestion_of(event, ladder()[old(self)@.quality].fps),
                now_ns,
                *old(config),
            ),
    {
        let level = self.classify(event);
        match level {
            CongestionLevel::Clear => self.try_probe(config, now_ns),
            _ => self.decrease(config, level, now_ns),
        }
    }

    /// How bad an event is.
    fn classify(&self, event: BandwidthEvent) -> (level: CongestionLevel)
        requires
            self.wf(),
        ensures
            level == congestion_of(event, ladder()[self@.quality].fps),
    {
        match event {
            BandwidthEvent::SendComplete { duration_ns, payload_bytes: _ } => {
                assert(self.fps == 10 || self.fps == 15);
                let interval_ns: u64 = 1_000_000_000 / self.fps as u64;
                proof {
                    let fps = self.fps;
                    assert(duration_ns * fps > 1_000_000_000 <==> duration_ns > interval_ns)
                        by (nonlinear_arith)
                        requires
                            fps == 10 || fps == 15,
                            interval_ns == 1_000_000_000int / fps as int,
                    ;
                }
                if duration_ns > interval_ns {
                    CongestionLevel::Moderate
                } else {
                    CongestionLevel::Clear
                }
            },
            BandwidthEvent::RttSample { rose } => {
                if rose {
                    CongestionLevel::Mild
                } else {
                    CongestionLevel::Clear
                }
            },
            BandwidthEvent::StreamStopped => CongestionLevel::Severe,
            BandwidthEvent::ReceiverFeedback { fraction_lost_bits, jitter_us: _ } => {
                if fraction_lost_bits > INFINITY_BITS {
                    CongestionLevel::Clear
                } else if fraction_lost_bits > SEVERE_LOSS_BITS {
                    CongestionLevel::Severe
                } else if fraction_lost_bits > MODERATE_LOSS_BITS {
                    CongestionLevel::Moderate
                } else if fraction_lost_bits > MILD_LOSS_BITS {
                    CongestionLevel::Mild
                } else {
                    CongestionLevel::Clear
                }
            },
        }
    }

    /// Additive increase: 5 % every probe interval.
    fn try_probe(&mut self, config: &mut EncoderConfig, now_ns: u64)
        requires
            old(self).wf(),
        ensures
            final(self).wf(),
            final(self)@ == old(self)@.after(CongestionLevel::Clear, now_ns),
            *final(config) == old(self)@.configure(CongestionLevel::Clear, now_ns, *old(config)),
    {
        if now_ns.saturating_sub(self.last_probe_ns) >= PROBE_INTERVAL_NS
            && now_ns.saturating_sub(self.last_decrease_ns) >= HOLD_AFTER_DECREASE_NS {
            self.last_probe_ns = now_ns;
            let raised: u32 = self.current_bitrate * 105 / 100;
            self.set_bitrate(config, raised);
            self.maybe_step_up_quality(config);
        }
    }

    /// Multiplicative decrease.
    fn decrease(&mut self, config: &mut EncoderConfig, level: CongestionLevel, now_ns: u64)
        requires
            old(self).wf(),
            level != CongestionLevel::Clear,
        ensures
            final(self).wf(),
            final(self)@ == old(self)@.after(level, now_ns),
            *final(config) == old(self)@.configure(level, now_ns, *old(config)),
    {
        self.last_decrease_ns = now_ns;
        let percent: u32 = match level {
            CongestionLevel::Clear => 100,
            CongestionLevel::Mild => 85,
            CongestionLevel::Moderate => 80,
            CongestionLevel::Severe => 50,
        };
        let lowered: u32 = self.current_bitrate * percent / 100;
        self.set_bitrate(config, lowered);
        self.maybe_step_down_quality(config);
    }

    fn set_bitrate(&mut self, config: &mut EncoderConfig, bps: u32)
        ensures
            final(self).current_bitrate == (if bps < MIN_BITRATE_BPS {
                MIN_BITRATE_BPS
            } else if bps > MAX_BITRATE_BPS {
                MAX_BITRATE_BPS
            } else {
                bps
            }),
            *final(self) == (BandwidthEstimator {
                current_bitrate: final(self).current_bitrate,
                ..*old(self)
            }),
            *final(config) == (EncoderConfig {
                target_bitrate: final(self).current_bitrate,
                ..*old(config)
            }),
    {
        self.current_bitrate = if bps < MIN_BITRATE_BPS {
            MIN_BITRATE_BPS
        } else if bps > MAX_BITRATE_BPS {
            MAX_BITRATE_BPS
        } else {
            bps
        };
        config.target_bitrate = self.current_bitrate;
    }

    fn apply_preset(&mut self, config: &mut EncoderConfig, preset: QualityPreset)
        ensures
            *final(self) == (BandwidthEstimator { fps: preset.fps, ..*old(self) }),
            *final(config) == old(config).with_preset(preset),
    {
        self.fps = preset.fps;
        config.target_width = preset.width;
        config.target_height = preset.height;
        config.target_fps = preset.fps;
        config.quality_changed = true;
    }

    fn maybe_step_down_quality(&mut self, config: &mut EncoderConfig)
        requires
            old(self).wf(),
        ensures
            final(self).wf(),
            ({
                let down = old(self)@.quality > 0 && old(self)@.bitrate
                    <= ladder()[old(self)@.quality - 1].bitrate_bps;
                let quality = if down {
                    old(self)@.quality - 1
                } else {
                    old(self)@.quality
                };
                &&& final(self)@ == (Estimate { quality, ..old(self)@ })
                &&& *final(config) == (if down {
                    old(config).with_preset(ladder()[quality])
                } else {
                    *old(config)
                })
            }),
    {
        if self.quality_idx == 0 {
            return;
        }
        let lower = quality_preset(self.quality_idx - 1);
        if self.current_bitrate <= lower.bitrate_bps {
            self.quality_idx = self.quality_idx - 1;
            self.apply_preset(config, lower);
        }
    }

    fn maybe_step_up_quality(&mut self, config: &mut EncoderConfig)
        requires
            old(self).wf(),
        ensures
            final(self).wf(),
            ({
                let up = old(self)@.quality + 1 < QUALITY_LEVELS && old(self)@.bitrate
                    >= ladder()[old(self)@.quality + 1].bitrate_bps;
                let quality = if up {
                    old(self)@.quality + 1
                } else {
                    old(self)@.quality
                };
                &&& final(self)@ == (Estimate { quality, ..old(self)@ })
                &&& *final(config) == (if up {
                    old(config).with_preset(ladder()[quality])
                } else {
                    *old(config)
                })
            }),
    {
        if self.quality_idx + 1 >= QUALITY_LEVELS {
            return;
        }
        let higher = quality_preset(self.quality_idx + 1);
        if self.current_bitrate >= higher.bitrate_bps {
            self.quality_idx = self.quality_idx + 1;
            self.apply_preset(config, higher);
        }
    }
}

// ---------------------------------------------------------------------------
// Laws
// ---------------------------------------------------------------------------
/// Law: the bitrate stays within its bounds, and the quality level changes by
/// at most one step at a time.
pub proof fn law_bounds(e: Estimate, level: CongestionLevel, now: u64)
    requires
        e.wf(),
    ensures
        e.after(level, now).wf(),
        -1 <= e.after(level, now).quality - e.quality <= 1,
{
}

/// Whether a configuration asks for no more than the highest quality level.
pub open spec fn within_maximum(config: EncoderConfig) -> bool {
    &&& config.target_width <= ladder().last().width
    &&& config.target_height <= ladder().last().height
    &&& config.target_fps <= ladder().last().fps
    &&& config.target_bitrate <= ladder().last().bitrate_bps
}

/// Law: the encoder is never asked for more than 640x480 at 15 frames and 500
/// kilobits per second.
pub proof fn law_maximum_quality(
    e: Estimate,
    level: CongestionLevel,
    now: u64,
    config: EncoderConfig,
)
    requires
        e.wf(),
        within_maximum(config),
    ensures
        within_maximum(e.configure(level, now, config)),
        ladder().last().width == 640,
        ladder().last().height == 480,
        ladder().last().fps == 15,
        ladder().last().bitrate_bps == 500_000,
{
}

/// Law: congestion never raises bitrate or quality, and worse congestion never
/// leaves a higher bitrate.
pub proof fn law_congestion_lowers(e: Estimate, level: CongestionLevel, now: u64)
    requires
        e.wf(),
        level != CongestionLevel::Clear,
    ensures
        e.after(level, now).bitrate <= e.bitrate,
        e.after(level, now).quality <= e.quality,
        e.after(CongestionLevel::Severe, now).bitrate <= e.after(
            CongestionLevel::Moderate,
            now,
        ).bitrate <= e.after(CongestionLevel::Mild, now).bitrate,
{
}

/// Law: without congestion neither bitrate nor quality goes down.
pub proof fn law_probe_raises(e: Estimate, now: u64)
    requires
        e.wf(),
    ensures
        e.after(CongestionLevel::Clear, now).bitrate >= e.bitrate,
        e.after(CongestionLevel::Clear, now).quality >= e.quality,
{
}

/// Law: for two seconds after a decrease the lower rate is held, whatever good
/// signals come in.
pub proof fn law_hold_after_decrease(
    e: Estimate,
    level: CongestionLevel,
    at: u64,
    later: u64,
    config: EncoderConfig,
)
    requires
        e.wf(),
        level != CongestionLevel::Clear,
        later < at + HOLD_AFTER_DECREASE_NS,
    ensures
        e.after(level, at).after(CongestionLevel::Clear, later) == e.after(level, at),
        e.after(level, at).configure(CongestionLevel::Clear, later, config) == config,
{
}

/// Law: two increases lie at least a probe interval apart.
pub proof fn law_probe_interval(e: Estimate, at: u64, later: u64)
    requires
        e.wf(),
        e.may_probe(at),
        later < at + PROBE_INTERVAL_NS,
    ensures
        e.after(CongestionLevel::Clear, at).after(CongestionLevel::Clear, later) == e.after(
            CongestionLevel::Clear,
            at,
        ),
{
}

/// Law: the resolution, the frame rate and the bitrate of each quality level.
pub proof fn law_ladder()
    ensures
        ladder().len() == 3,
        QUALITY_LEVELS == 3,
        (ladder()[0].width, ladder()[0].height) == (320u32, 240u32),
        (ladder()[1].width, ladder()[1].height) == (480u32, 360u32),
        (ladder()[2].width, ladder()[2].height) == (640u32, 480u32),
        (ladder()[0].fps, ladder()[1].fps, ladder()[2].fps) == (10u32, 15u32, 15u32),
        ladder()[0].bitrate_bps == 100_000,
        ladder()[1].bitrate_bps == 250_000,
        ladder()[2].bitrate_bps == 500_000,
{
}

/// Law: an estimate lies between 50 and 500 kilobits per second and is of one of three
/// quality levels.
pub proof fn law_well_formed(e: Estimate)
    ensures
        e.wf() <==> 50_000 <= e.bitrate <= 500_000 && 0 <= e.quality <= 2,
{
}

/// Law: every signal of congestion takes 15, 20 or 50 percent off the bitrate,
/// rounded down, until 50 kilobits per second are left; above that every signal
/// lowers it. The encoder is asked for the lower rate.
pub proof fn law_reduction(e: Estimate, level: CongestionLevel, now: u64, config: EncoderConfig)
    requires
        50_000 <= e.bitrate <= 500_000,
        0 <= e.quality <= 2,
        level != CongestionLevel::Clear,
    ensures
        ({
            let left = e.after(level, now).bitrate;
            let percent: int = if level == CongestionLevel::Mild {
                85
            } else if level == CongestionLevel::Moderate {
                80
            } else {
                50
            };
            &&& left >= 50_000
            &&& e.bitrate > 50_000 ==> left < e.bitrate
            &&& left > 50_000 ==> 100 * left <= percent * e.bitrate < 100 * left + 100
            &&& left == 50_000 ==> percent * e.bitrate < 100 * 50_001
            &&& e.configure(level, now, config).target_bitrate == left
        }),
        e.after(level, now).last_decrease_ns == now,
        e.after(level, now).last_probe_ns == e.last_probe_ns,
{
    let b = e.bitrate as int;
    assert(b * 85 / 100 < b && b * 80 / 100 < b && b * 50 / 100 < b);
}

/// Law: without congestion, once two seconds have passed since the last increase
/// and since the last decrease, and not before, the bitrate grows by five percent,
/// rounded down, until 500 kilobits per second are reached.
pub proof fn law_increase(e: Estimate, now: u64, config: EncoderConfig)
    requires
        50_000 <= e.bitrate <= 500_000,
        0 <= e.quality <= 2,
    ensures
        ({
            let next = e.after(CongestionLevel::Clear, now);
            if now >= e.last_probe_ns + 2_000_000_000 && now >= e.last_decrease_ns + 2_000_000_000 {
                &&& next.bitrate <= 500_000
                &&& e.bitrate < 500_000 ==> next.bitrate > e.bitrate
                &&& next.bitrate < 500_000 ==> 100 * next.bitrate <= 105 * e.bitrate < 100
                    * next.bitrate + 100
                &&& next.bitrate == 500_000 ==> 105 * e.bitrate >= 100 * 500_000
                &&& next.last_probe_ns == now
                &&& next.last_decrease_ns == e.last_decrease_ns
                &&& e.configure(CongestionLevel::Clear, now, config).target_bitrate == next.bitrate
            } else {
                next == e && e.configure(CongestionLevel::Clear, now, config) == config
            }
        }),
{
}

/// Law: the quality follows the bitrate. It goes down a level when the bitrate has
/// fallen to what that level is made for, and up a level when it has risen to what
/// that one is made for, and it does not change otherwise. When it changes, and
/// only then, the encoder is told to take over the resolution and the frame rate
/// of the level.
pub proof fn law_quality_follows_bitrate(
    e: Estimate,
    level: CongestionLevel,
    now: u64,
    config: EncoderConfig,
)
    requires
        50_000 <= e.bitrate <= 500_000,
        0 <= e.quality <= 2,
    ensures
        ({
            let next = e.after(level, now);
            let made = e.configure(level, now, config);
            let lower: int = if e.quality == 1 {
                100_000
            } else {
                250_000
            };
            let higher: int = if e.quality == 0 {
                250_000
            } else {
                500_000
            };
            &&& level != CongestionLevel::Clear ==> next.quality == (if e.quality > 0
                && next.bitrate <= lower {
                e.quality - 1
            } else {
                e.quality
            })
            &&& level == CongestionLevel::Clear && next.bitrate > e.bitrate ==> next.quality == (
            if e.quality < 2 && next.bitrate >= higher {
                e.quality + 1
            } else {
                e.quality
            })
            &&& if next.quality == e.quality {
                &&& (made.target_width, made.target_height) == (
                    config.target_width,
                    config.target_height,
                )
                &&& made.target_fps == config.target_fps
                &&& made.quality_changed == config.quality_changed
            } else {
                &&& made.quality_changed
                &&& next.quality == 0 ==> (made.target_width, made.target_height, made.target_fps)
                    == (320u32, 240u32, 10u32)
                &&& next.quality == 1 ==> (made.target_width, made.target_height, made.target_fps)
                    == (480u32, 360u32, 15u32)
                &&& next.quality == 2 ==> (made.target_width, made.target_height, made.target_fps)
                    == (640u32, 480u32, 15u32)
            }
        }),
{
}

/// Law: what each signal means. A stopped stream is severe, a round trip time that
/// rose is mild, and a frame that took longer to send than the time between two
/// frames is moderate.
pub proof fn law_signals(duration_ns: u64, payload_bytes: usize, fps: u32)
    ensures
        congestion_of(BandwidthEvent::StreamStopped, fps) == CongestionLevel::Severe,
        congestion_of(BandwidthEvent::RttSample { rose: true }, fps) == CongestionLevel::Mild,
        congestion_of(BandwidthEvent::RttSample { rose: false }, fps) == CongestionLevel::Clear,
        fps > 0 && duration_ns > 1_000_000_000int / fps as int ==> congestion_of(
            BandwidthEvent::SendComplete { duration_ns, payload_bytes },
            fps,
        ) == CongestionLevel::Moderate,
        fps > 0 && duration_ns <= 1_000_000_000int / fps as int ==> congestion_of(
            BandwidthEvent::SendComplete { duration_ns, payload_bytes },
            fps,
        ) == CongestionLevel::Clear,
{
    if fps > 0 {
        let (d, f) = (duration_ns as int, fps as int);
        assert(d > 1_000_000_000int / f ==> d * f > 1_000_000_000) by (nonlinear_arith)
            requires
                f > 0,
        ;
        assert(d <= 1_000_000_000int / f ==> d * f <= 1_000_000_000) by (nonlinear_arith)
            requires
                f > 0,
        ;
    }
}

/// Law: a loss of up to two percent is none, up to five percent mild, up to ten
/// percent moderate, and any larger one severe; no number and no negative number
/// is a loss. The numbers are the bits of doubles.
pub proof fn law_loss(bits: u64, jitter_us: u64, fps: u32)
    ensures
        ({
            let level = congestion_of(
                BandwidthEvent::ReceiverFeedback { fraction_lost_bits: bits, jitter_us },
                fps,
            );
            &&& bits <= 0x3F94_7AE1_47AE_147B ==> level == CongestionLevel::Clear
            &&& 0x3F94_7AE1_47AE_147B < bits <= 0x3FA9_9999_9999_999A ==> level
                == CongestionLevel::Mild
            &&& 0x3FA9_9999_9999_999A < bits <= 0x3FB9_9999_9999_999A ==> level
                == CongestionLevel::Moderate
            &&& 0x3FB9_9999_9999_999A < bits <= 0x7FF0_0000_0000_0000 ==> level
                == CongestionLevel::Severe
            &&& bits > 0x7FF0_0000_0000_0000 ==> level == CongestionLevel::Clear
        }),
{
}

} // verus!
