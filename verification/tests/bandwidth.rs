use meshconf::bandwidth::{
    quality_preset, BandwidthEstimator, BandwidthEvent, EncoderConfig, QUALITY_LEVELS,
};

const SECOND: u64 = 1_000_000_000;

fn loss(fraction: f64) -> BandwidthEvent {
    BandwidthEvent::ReceiverFeedback { fraction_lost_bits: fraction.to_bits(), jitter_us: 0 }
}

fn after(event: BandwidthEvent) -> u32 {
    let mut config = EncoderConfig::new();
    let mut estimator = BandwidthEstimator::new(0);
    estimator.handle_event(&mut config, event, 1);
    assert_eq!(estimator.current_bitrate(), config.target_bitrate);
    config.target_bitrate
}

#[test]
fn starts_at_the_highest_level() {
    let config = EncoderConfig::new();
    assert_eq!((config.target_width, config.target_height), (640, 480));
    assert_eq!((config.target_fps, config.target_bitrate), (15, 500_000));
    assert!(!config.quality_changed);
    assert_eq!(BandwidthEstimator::new(7).current_bitrate(), 500_000);
}

#[test]
fn the_ladder_goes_up() {
    for i in 1..QUALITY_LEVELS {
        assert!(quality_preset(i - 1).bitrate_bps < quality_preset(i).bitrate_bps);
    }
    assert_eq!(quality_preset(0).fps, 10);
    assert_eq!(quality_preset(1).width, 480);
}

#[test]
fn loss_thresholds() {
    assert_eq!(after(loss(0.0)), 500_000);
    assert_eq!(after(loss(0.02)), 500_000);
    assert_eq!(after(loss(0.021)), 425_000);
    assert_eq!(after(loss(0.05)), 425_000);
    assert_eq!(after(loss(0.06)), 400_000);
    assert_eq!(after(loss(0.10)), 400_000);
    assert_eq!(after(loss(0.11)), 250_000);
    assert_eq!(after(loss(1.0)), 250_000);
    assert_eq!(after(loss(f64::INFINITY)), 250_000);
    // No number, and nothing below zero, counts as loss.
    assert_eq!(after(loss(f64::NAN)), 500_000);
    assert_eq!(after(loss(-1.0)), 500_000);
}

#[test]
fn other_signals() {
    assert_eq!(after(BandwidthEvent::StreamStopped), 250_000);
    assert_eq!(after(BandwidthEvent::RttSample { rose: true }), 425_000);
    assert_eq!(after(BandwidthEvent::RttSample { rose: false }), 500_000);
    let sent = |duration_ns| BandwidthEvent::SendComplete { duration_ns, payload_bytes: 10 };
    // 15 frames a second: a frame may take 66.67 ms.
    assert_eq!(after(sent(66_666_666)), 500_000);
    assert_eq!(after(sent(66_666_667)), 400_000);
}

#[test]
fn quality_steps_down_and_up_again() {
    let mut config = EncoderConfig::new();
    let mut estimator = BandwidthEstimator::new(0);
    estimator.handle_event(&mut config, BandwidthEvent::StreamStopped, 0);
    // 250 kbps is what the middle level is made for.
    assert_eq!(config.target_bitrate, 250_000);
    assert_eq!((config.target_width, config.target_height, config.target_fps), (480, 360, 15));
    assert!(config.quality_changed);
    config.quality_changed = false;
    estimator.handle_event(&mut config, BandwidthEvent::StreamStopped, 0);
    assert_eq!((config.target_bitrate, config.target_width), (125_000, 480));
    assert!(!config.quality_changed);
    estimator.handle_event(&mut config, BandwidthEvent::StreamStopped, 0);
    assert_eq!((config.target_bitrate, config.target_width, config.target_fps), (62_500, 320, 10));
    estimator.handle_event(&mut config, BandwidthEvent::StreamStopped, 0);
    assert_eq!(config.target_bitrate, 50_000);

    // Probing raises the rate by five percent every two seconds.
    let mut now = 0;
    let mut last = 50_000;
    while config.target_width < 640 {
        now += 2 * SECOND;
        estimator.handle_event(&mut config, loss(0.0), now);
        assert_eq!(config.target_bitrate, (last * 105 / 100).min(500_000));
        last = config.target_bitrate;
    }
    assert_eq!(config.target_bitrate, 500_000);
    for _ in 0..100 {
        now += 2 * SECOND;
        estimator.handle_event(&mut config, loss(0.0), now);
    }
    assert_eq!(config.target_bitrate, 500_000);
}

#[test]
fn probes_wait() {
    let mut config = EncoderConfig::new();
    let mut estimator = BandwidthEstimator::new(0);
    // The highest level is not exceeded.
    estimator.handle_event(&mut config, loss(0.0), 2 * SECOND);
    assert_eq!(config.target_bitrate, 500_000);
    // A decrease is held for two seconds.
    estimator.handle_event(&mut config, BandwidthEvent::StreamStopped, 10 * SECOND);
    assert_eq!(config.target_bitrate, 250_000);
    estimator.handle_event(&mut config, loss(0.0), 12 * SECOND - 1);
    assert_eq!(config.target_bitrate, 250_000);
    estimator.handle_event(&mut config, loss(0.0), 12 * SECOND);
    assert_eq!(config.target_bitrate, 262_500);
    // Not again right away.
    estimator.handle_event(&mut config, loss(0.0), 13 * SECOND);
    assert_eq!(config.target_bitrate, 262_500);
    estimator.handle_event(&mut config, loss(0.0), 14 * SECOND);
    assert_eq!(config.target_bitrate, 275_625);
}

#[test]
fn never_above_the_highest_level() {
    let mut config = EncoderConfig::new();
    let mut estimator = BandwidthEstimator::new(0);
    for i in 1..200u64 {
        let event = if i % 7 == 0 {
            BandwidthEvent::StreamStopped
        } else {
            BandwidthEvent::RttSample { rose: false }
        };
        estimator.handle_event(&mut config, event, i * 3 * SECOND);
        assert!(config.target_width <= 640 && config.target_height <= 480);
        assert!(config.target_fps <= 15);
        assert!((50_000..=500_000).contains(&config.target_bitrate));
    }
}
