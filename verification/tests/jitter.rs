use meshconf::jitter::{
    audio_config, instantaneous_offset, plc_sentinel, video_config, JitterBuffer,
    JitterBufferConfig, PeerClock, Verdict, PLC_SENTINEL_TIMESTAMP,
};
use meshconf::pool::SharedBuf;
use meshconf::protocol::MediaObject;

fn object(group_id: u64, ts: u64, byte: u8) -> MediaObject {
    MediaObject {
        group_id,
        subgroup_id: 0,
        object_id: 0,
        capture_timestamp_us: ts,
        codec: None,
        payload: SharedBuf::from_vec(vec![byte]),
    }
}

/// Instant adaptation: the blended offset is the instantaneous one.
fn arrive(
    jb: &mut JitterBuffer,
    config: &JitterBufferConfig,
    clock: &mut PeerClock,
    obj: MediaObject,
    now: u64,
) -> (Verdict, Option<MediaObject>) {
    let ts = obj.capture_timestamp_us;
    jb.receive(obj, clock, now, instantaneous_offset(ts, now, config.target_delay_us))
}

#[test]
fn test_packets_are_buffered_and_released_in_order() {
    let config = JitterBufferConfig {
        target_delay_us: 50_000, // 50ms
        max_late_us: 30_000,
        drift_alpha_per_mille: 1000, // instant adaptation for test
        label: "test",
    };

    let mut peer_clock = PeerClock::new();
    let mut jb = JitterBuffer::new(config, &peer_clock, true, false);

    let base_ts = 1_700_000_000_000_000u64;
    let mut out = Vec::new();

    // Send 3 packets with sequential timestamps
    for i in 0..3u64 {
        let ts = base_ts + i * 20_000;
        arrive(&mut jb, &config, &mut peer_clock, object(i, ts, i as u8), base_ts + i);
    }

    // Wait for target delay + some margin (120ms), waking whenever something is due
    let end = base_ts + 120 * 1000;
    let mut now = base_ts + 2;
    while now < end {
        now += jb.sleep_us(now).max(1);
        jb.release(now, &mut out);
    }

    // Collect what came out
    let received: Vec<u8> = out.iter().map(|obj| obj.payload[0]).collect();

    assert!(!received.is_empty(), "Should have received some packets");
    // Packets should be in order
    for i in 1..received.len() {
        assert!(received[i] > received[i - 1], "Packets should be in order");
    }
}

#[test]
fn test_late_packets_are_dropped() {
    let config = JitterBufferConfig {
        target_delay_us: 10_000, // 10ms
        max_late_us: 5_000,      // 5ms
        drift_alpha_per_mille: 1000,
        label: "test-late",
    };

    let mut peer_clock = PeerClock::new();
    let mut jb = JitterBuffer::new(config, &peer_clock, true, false);
    let mut out = Vec::new();

    // First, send a "current" packet to establish the clock offset
    let now_ts = 1_700_000_000_000_000u64;
    arrive(&mut jb, &config, &mut peer_clock, object(0, now_ts, 1), now_ts);

    // Wait for it to be processed and played out
    let mut now = now_ts;
    while now < now_ts + 30 * 1000 {
        now += jb.sleep_us(now).max(1);
        jb.release(now, &mut out);
    }
    // Drain it
    out.clear();

    // Now send a packet with a very old timestamp (500ms before the first)
    // The clock is already established
    let old_ts = now_ts - 500_000;
    arrive(&mut jb, &config, &mut peer_clock, object(1, old_ts, 42), now);

    let end = now + 50 * 1000;
    while now < end {
        now += jb.sleep_us(now).max(1);
        jb.release(now, &mut out);
    }

    // Should not have received the late packet
    assert!(out.is_empty(), "Late packet should have been dropped");
}

#[test]
fn test_peer_clock_shared_between_audio_and_video() {
    let mut clock = PeerClock::new();
    assert!(!clock.is_initialised());

    clock.update(12345);
    assert!(clock.is_initialised());
    assert_eq!(clock.offset_us(), 12345);

    clock.update(-5000);
    assert_eq!(clock.offset_us(), -5000);
}

#[test]
fn default_configurations() {
    let audio = audio_config();
    assert_eq!((audio.target_delay_us, audio.max_late_us), (60_000, 40_000));
    assert_eq!((audio.drift_alpha_per_mille, audio.label), (5, "audio"));
    let video = video_config();
    assert_eq!((video.target_delay_us, video.max_late_us), (40_000, 80_000));
    assert_eq!((video.drift_alpha_per_mille, video.label), (10, "video"));
}

#[test]
fn sentinel_is_empty() {
    let obj = plc_sentinel();
    assert_eq!(obj.capture_timestamp_us, PLC_SENTINEL_TIMESTAMP);
    assert_eq!(obj.payload.len(), 0);
}

#[test]
fn offsets_are_signed() {
    assert_eq!(instantaneous_offset(1_000, 400, 100), -500);
    assert_eq!(instantaneous_offset(400, 1_000, 100), 700);
}

#[test]
fn reordered_packets_come_out_sorted() {
    let config = audio_config();
    let mut clock = PeerClock::new();
    let mut jb = JitterBuffer::new(config, &clock, true, false);
    let mut out = Vec::new();
    for (i, ts) in [1_040_000u64, 1_000_000, 1_020_000].iter().enumerate() {
        // The blended offset stays where the first packet put it.
        let (verdict, back) = jb.receive(object(i as u64, *ts, i as u8), &mut clock, 2_000_000, 1_020_000);
        assert_eq!(verdict, Verdict::Queued);
        assert!(back.is_none());
    }
    assert_eq!(jb.queue_len(), 3);
    assert_eq!(jb.clock_offset_us(), Some(1_020_000));
    // Nothing is due before 1_000_000 + 1_020_000.
    assert_eq!(jb.sleep_us(2_019_000), 1_000);
    assert_eq!(jb.release(2_019_999, &mut out), 0);
    assert!(out.is_empty());
    assert_eq!(jb.release(2_040_000, &mut out), 0);
    assert_eq!(out.len(), 2);
    assert_eq!(out[0].capture_timestamp_us, 1_000_000);
    assert_eq!(out[1].capture_timestamp_us, 1_020_000);
    // What was emitted is not taken in again.
    let (verdict, _) = jb.receive(object(9, 1_020_000, 0), &mut clock, 2_040_000, 1_020_000);
    assert_eq!(verdict, Verdict::DroppedDuplicate);
    // Nor is what waits already.
    let (verdict, _) = jb.receive(object(9, 1_040_000, 0), &mut clock, 2_040_000, 1_020_000);
    assert_eq!(verdict, Verdict::DroppedDuplicate);
    let stats = jb.stats();
    assert_eq!((stats.received, stats.played), (5, 2));
    assert_eq!((stats.dropped_late, stats.dropped_duplicate), (0, 2));
}

#[test]
fn packets_without_timestamp_pass_through() {
    let mut clock = PeerClock::new();
    let mut jb = JitterBuffer::new(video_config(), &clock, false, false);
    let (verdict, back) = jb.receive(object(0, 0, 7), &mut clock, 1_000, 0);
    assert_eq!(verdict, Verdict::PassThrough);
    assert_eq!(back.unwrap().payload[0], 7);
    assert_eq!(jb.clock_offset_us(), None);
    assert_eq!(jb.stats().played, 1);
    assert_eq!(jb.sleep_us(1_000), 5_000);
}

#[test]
fn packets_that_waited_too_long_are_dropped_on_release() {
    let config = audio_config();
    let mut clock = PeerClock::new();
    let mut jb = JitterBuffer::new(config, &clock, true, false);
    let mut out = Vec::new();
    jb.receive(object(0, 1_000_000, 1), &mut clock, 1_000_000, 0);
    // Due at 1_060_000, late after 1_100_000.
    assert_eq!(jb.release(1_100_001, &mut out), 1);
    assert!(out.is_empty());
    assert_eq!(jb.stats().dropped_late, 1);
}

#[test]
fn a_missing_frame_is_concealed() {
    let config = audio_config();
    let mut clock = PeerClock::new();
    let mut jb = JitterBuffer::new(config, &clock, true, true);
    let mut out = Vec::new();
    jb.receive(object(0, 1_000_000, 1), &mut clock, 1_000_000, 0);
    jb.release(1_060_000, &mut out);
    assert_eq!(out.len(), 1);
    // The next frame is expected at 1_080_000.
    jb.release(1_079_999, &mut out);
    assert_eq!(out.len(), 1);
    jb.release(1_080_000, &mut out);
    assert_eq!(out.len(), 2);
    assert_eq!(out[1].capture_timestamp_us, PLC_SENTINEL_TIMESTAMP);
    // It counts as emitted.
    let (verdict, _) = jb.receive(object(1, 1_020_000, 1), &mut clock, 1_080_000, 60_000);
    assert_eq!(verdict, Verdict::DroppedDuplicate);
}

#[test]
fn a_frame_lost_between_two_others_is_concealed_once() {
    let config = audio_config();
    let mut clock = PeerClock::new();
    let mut jb = JitterBuffer::new(config, &clock, true, true);
    let mut out = Vec::new();
    jb.receive(object(0, 1_000_000, 1), &mut clock, 1_000_000, 0);
    jb.receive(object(1, 1_040_000, 2), &mut clock, 1_000_000, 60_000);
    let mut now = 1_000_000;
    while now < 1_105_000 {
        let sleep = jb.sleep_us(now);
        assert!(sleep > 0);
        now += sleep;
        if now < 1_110_000 {
            jb.release(now, &mut out);
        }
    }
    let stamps: Vec<u64> = out.iter().map(|o| o.capture_timestamp_us).collect();
    assert_eq!(stamps, vec![1_000_000, PLC_SENTINEL_TIMESTAMP, 1_040_000]);
    assert_eq!((out[0].payload[0], out[2].payload[0]), (1, 2));
}

#[test]
fn sleeps_until_the_next_thing_to_release() {
    let config = audio_config();
    let mut clock = PeerClock::new();
    let mut concealing = JitterBuffer::new(config, &clock, true, true);
    let mut plain = JitterBuffer::new(config, &clock, true, false);
    let mut out = Vec::new();
    for jb in [&mut concealing, &mut plain] {
        jb.receive(object(0, 1_000_000, 1), &mut clock, 1_000_000, 0);
        jb.receive(object(1, 1_040_000, 2), &mut clock, 1_000_000, 60_000);
        assert_eq!(jb.sleep_us(1_000_000), 60_000);
        jb.release(1_060_000, &mut out);
    }
    // The frame after the first one is missing.
    assert_eq!(plain.sleep_us(1_060_000), 40_000);
    assert_eq!(concealing.sleep_us(1_060_000), 20_000);
    concealing.release(1_080_000, &mut out);
    concealing.release(1_100_000, &mut out);
    // With nothing left, no longer than until the next concealment.
    assert_eq!(concealing.sleep_us(1_118_000), 2_000);
    assert_eq!(concealing.sleep_us(1_120_000), 0);
    // It is too late for that 40 ms afterwards.
    assert_eq!(concealing.sleep_us(1_160_000), 5_000);
}

#[test]
fn whatever_comes_in_leaves_in_order() {
    let config = audio_config();
    let mut clock = PeerClock::new();
    let mut jb = JitterBuffer::new(config, &clock, true, true);
    let mut out = Vec::new();
    let mut now = 5_000_000;
    for i in 0..400u64 {
        // Shuffled, repeated and partly late.
        let ts = 1_000_000 + (i * 37 % 101 + i) * 5_000;
        now += 4_000;
        jb.receive(object(i, ts, (i % 256) as u8), &mut clock, now, 4_000_000 + (i as i64 % 9) * 700);
        if i % 3 == 0 {
            jb.release(now, &mut out);
        }
    }
    let stamps: Vec<u64> = out
        .iter()
        .map(|o| o.capture_timestamp_us)
        .filter(|ts| *ts != PLC_SENTINEL_TIMESTAMP)
        .collect();
    assert!(stamps.len() > 20);
    assert!(stamps.windows(2).all(|w| w[0] < w[1]));
    for obj in &out {
        if obj.capture_timestamp_us != PLC_SENTINEL_TIMESTAMP {
            let i = obj.group_id;
            assert_eq!(obj.capture_timestamp_us, 1_000_000 + (i * 37 % 101 + i) * 5_000);
            assert_eq!(obj.payload[0], (i % 256) as u8);
        }
    }
}

#[test]
fn video_follows_the_audio_clock() {
    let mut clock = PeerClock::new();
    clock.update(70_000);
    let mut jb = JitterBuffer::new(video_config(), &clock, false, false);
    assert_eq!(jb.clock_offset_us(), Some(70_000));
    jb.receive(object(0, 1_000_000, 1), &mut clock, 1_000_000, 123);
    // 20ms less delay than audio.
    assert_eq!(jb.clock_offset_us(), Some(50_000));
    assert_eq!(clock.offset_us(), 70_000);
}
