use meshconf::bandwidth::EncoderConfig;
use meshconf::pool::BufPool;
use meshconf::protocol::{
    read_object, read_subgroup_header, Codec, Read, PRIORITY_AUDIO, QUIC_PRIORITY_AUDIO,
};
use meshconf::video_decode::annex_b_to_hvcc_into;
use meshconf::video_encode::{
    extract_annex_b, is_sample_keyframe, write_video_frame, EncoderControl, ExtractError,
    FrameSequencer, SendAction,
};

#[test]
fn samples_become_annex_b() {
    let pool = BufPool::new();
    let sets = vec![vec![0x40, 1], vec![0x42, 1, 2]];
    let sample = [0, 0, 0, 2, 0x26, 1, 0, 0, 0, 3, 0x26, 2, 3];
    let out = extract_annex_b(&sets, &sample, 4, &pool).unwrap();
    assert_eq!(
        out.as_slice(),
        &[
            0, 0, 0, 1, 0x40, 1, 0, 0, 0, 1, 0x42, 1, 2, 0, 0, 0, 1, 0x26, 1, 0, 0, 0, 1, 0x26, 2,
            3
        ]
    );
    // And back, without the parameter sets.
    let mut back = Vec::new();
    annex_b_to_hvcc_into(&out, &mut back);
    assert_eq!(back, sample);
}

#[test]
fn shorter_lengths() {
    let pool = BufPool::new();
    let none = Vec::new();
    let out = extract_annex_b(&none, &[0, 1, 9, 0, 2, 8, 7], 2, &pool).unwrap();
    assert_eq!(out.as_slice(), &[0, 0, 0, 1, 9, 0, 0, 0, 1, 8, 7]);
    let out = extract_annex_b(&none, &[1, 9, 0], 1, &pool).unwrap();
    assert_eq!(out.as_slice(), &[0, 0, 0, 1, 9, 0, 0, 0, 1]);
    // Bytes that are too few for a length are ignored.
    let out = extract_annex_b(&none, &[0, 0, 0, 1, 5, 0, 0], 4, &pool).unwrap();
    assert_eq!(out.as_slice(), &[0, 0, 0, 1, 5]);
    assert_eq!(extract_annex_b(&none, &[], 4, &pool).unwrap().len(), 0);
}

#[test]
fn samples_that_cannot_be_extracted() {
    let pool = BufPool::new();
    let none = Vec::new();
    assert_eq!(
        extract_annex_b(&none, &[0, 0, 0, 2, 1], 4, &pool).err(),
        Some(ExtractError::NaluBeyondBuffer)
    );
    assert_eq!(
        extract_annex_b(&none, &[0, 0, 1, 5], 3, &pool).err(),
        Some(ExtractError::UnsupportedHeaderLength(3))
    );
    // Parameter sets of more than 256 bytes, start codes included.
    assert!(extract_annex_b(&vec![vec![1; 252]], &[], 4, &pool).is_ok());
    assert_eq!(
        extract_annex_b(&vec![vec![1; 253]], &[], 4, &pool).err(),
        Some(ExtractError::ExceedsEstimate)
    );
}

#[test]
fn frames_are_numbered() {
    let mut seq = FrameSequencer::new();
    assert_eq!(seq.next(0, true), SendAction::Discard);
    assert_eq!(
        seq.next(2, true),
        SendAction::Send {
            group_id: 1,
            subgroup_id: 0,
            quic_priority: 1 - i32::MAX,
            abort_in_flight: true,
            poll_rtt: false,
        }
    );
    assert_eq!(
        seq.next(1, false),
        SendAction::Send {
            group_id: 2,
            subgroup_id: 1,
            quic_priority: 2 - i32::MAX,
            abort_in_flight: false,
            poll_rtt: false,
        }
    );
    assert_eq!(seq.next(0, false), SendAction::Discard);
    for n in 3..=30u64 {
        match seq.next(1, false) {
            SendAction::Send { group_id, poll_rtt, .. } => {
                assert_eq!(group_id, n);
                assert_eq!(poll_rtt, n == 30);
            }
            SendAction::Discard => panic!("a peer is connected"),
        }
    }
    assert_eq!((seq.frame_seq, seq.current_gop), (30, 1));
}

#[test]
fn audio_comes_first() {
    let mut seq = FrameSequencer::new();
    let mut last = i32::MIN;
    for n in 1..100u64 {
        let SendAction::Send { group_id, subgroup_id, quic_priority, .. } = seq.next(1, n == 1)
        else {
            panic!("there is a peer");
        };
        assert!(last < quic_priority && quic_priority < QUIC_PRIORITY_AUDIO);
        last = quic_priority;
        let mut out = Vec::new();
        write_video_frame(&mut out, group_id, subgroup_id, 7, b"frame");
        match read_subgroup_header(&out).unwrap() {
            Read::Done { value, .. } => assert!(PRIORITY_AUDIO < value.publisher_priority),
            Read::More { .. } => panic!("header is complete"),
        }
    }
}

#[test]
fn priorities_stop_growing() {
    let mut seq = FrameSequencer { frame_seq: 0x7FFF_FFFF, current_gop: 0 };
    assert!(matches!(
        seq.next(1, false),
        SendAction::Send { group_id: 0x8000_0000, quic_priority: 0, .. }
    ));
}

#[test]
fn frames_on_their_stream() {
    let pool = BufPool::new();
    let mut out = Vec::new();
    write_video_frame(&mut out, 12, 0, 99, b"pixels");
    let (header, used) = match read_subgroup_header(&out).unwrap() {
        Read::Done { value, used } => (value, used),
        Read::More { .. } => panic!("header is complete"),
    };
    assert_eq!((header.track_alias, header.group_id), (1, 12));
    assert_eq!((header.subgroup_id, header.publisher_priority), (0, 1));
    match read_object(&out[used..], &pool).unwrap() {
        Read::Done { value, used: rest } => {
            assert_eq!(value.payload.as_slice(), b"pixels");
            assert_eq!(value.capture_timestamp_us, 99);
            assert_eq!(value.codec, Some(Codec::Hevc));
            assert_eq!(value.object_id, 0);
            assert_eq!(used + rest, out.len());
        }
        Read::More { .. } => panic!("object is complete"),
    }
}

#[test]
fn sessions_follow_the_configuration() {
    let mut config = EncoderConfig::new();
    let mut control = EncoderControl::new(Some(&config));
    assert_eq!((control.width, control.height, control.fps), (640, 480, 15));
    assert_eq!(control.count_frame(), 1);
    assert_eq!(control.count_frame(), 2);

    // Nothing changed.
    let change = control.check_config(&mut config);
    assert_eq!((change.recreate, change.set_bitrate), (false, None));
    // The bitrate only.
    config.target_bitrate = 400_000;
    let change = control.check_config(&mut config);
    assert_eq!((change.recreate, change.set_bitrate), (false, Some(400_000)));
    assert_eq!(control.frame_count, 2);
    // The resolution.
    config.target_width = 480;
    config.target_height = 360;
    config.target_bitrate = 250_000;
    config.quality_changed = true;
    let change = control.check_config(&mut config);
    assert_eq!((change.recreate, change.set_bitrate), (true, None));
    assert!(!config.quality_changed);
    assert_eq!((control.width, control.bitrate, control.frame_count), (480, 250_000, 0));
    // A change that leads nowhere.
    config.quality_changed = true;
    assert!(!control.check_config(&mut config).recreate);
    assert!(!config.quality_changed);

    assert!(control.needs_scaling(640, 480));
    assert!(!control.needs_scaling(480, 360));
    assert_eq!(control.scaled_plane_sizes(), (480 * 360, 480 * 180));
}

#[test]
fn without_configuration_the_highest_preset_counts() {
    let control = EncoderControl::new(None);
    assert_eq!((control.width, control.bitrate, control.applied_bitrate), (640, 500_000, 500_000));
}

#[test]
fn keyframes_are_not_marked() {
    assert!(is_sample_keyframe(None));
    assert!(is_sample_keyframe(Some(false)));
    assert!(!is_sample_keyframe(Some(true)));
}
