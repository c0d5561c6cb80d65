use meshconf::video_decode::{
    annex_b_to_hvcc_into, collect_param_set_bytes, param_sets, parse_annex_b_nalus, DecodeOutcome,
    DecoderGate, PacketAction,
};

const VPS: [u8; 3] = [0x40, 1, 7];
const SPS: [u8; 3] = [0x42, 1, 8];
const PPS: [u8; 3] = [0x44, 1, 9];
const SLICE: [u8; 4] = [0x26, 1, 5, 6];

fn stream(units: &[&[u8]]) -> Vec<u8> {
    let mut out = Vec::new();
    for unit in units {
        out.extend_from_slice(&[0, 0, 0, 1]);
        out.extend_from_slice(unit);
    }
    out
}

fn spans(data: &[u8]) -> Vec<(usize, usize)> {
    let mut units = parse_annex_b_nalus(data);
    let mut out = Vec::new();
    while let Some(span) = units.next() {
        out.push(span);
    }
    out
}

#[test]
fn units_behind_start_codes() {
    let data = stream(&[&VPS, &SLICE]);
    assert_eq!(spans(&data), vec![(4, 7), (11, 15)]);
    // A start code of three bytes, and bytes before the first one.
    assert_eq!(spans(&[9, 9, 0, 0, 1, 5, 6, 0, 0, 1, 7]), vec![(5, 7), (10, 11)]);
}

#[test]
fn streams_without_units() {
    assert_eq!(spans(&[]), vec![]);
    assert_eq!(spans(&[1, 2, 3, 0, 0]), vec![]);
    assert_eq!(spans(&[0, 0, 1]), vec![]);
    // Nothing between two start codes.
    assert_eq!(spans(&[0, 0, 1, 0, 0, 1, 8]), vec![(6, 7)]);
    assert_eq!(spans(&[0, 0, 0, 0, 1, 8]), vec![(5, 6)]);
}

#[test]
fn parameter_sets() {
    let data = stream(&[&VPS, &SPS, &PPS, &SLICE]);
    let mut out = vec![1];
    collect_param_set_bytes(&data, &mut out);
    assert_eq!(out, [VPS, SPS, PPS].concat());
    assert_eq!(param_sets(&data), vec![(4, 7), (11, 14), (18, 21)]);
    // A unit of one byte has no full header.
    assert_eq!(param_sets(&stream(&[&[0x40]])), vec![]);
    // Types 31 and 35 are not parameter sets.
    assert_eq!(param_sets(&stream(&[&[31 << 1, 1], &[35 << 1, 1]])), vec![]);
}

#[test]
fn lengths_for_start_codes() {
    let data = stream(&[&VPS, &SLICE, &[7], &SLICE]);
    let mut out = vec![1];
    annex_b_to_hvcc_into(&data, &mut out);
    let mut expected = vec![0, 0, 0, 4];
    expected.extend_from_slice(&SLICE);
    assert_eq!(out, [expected.clone(), expected].concat());
}

#[test]
fn nothing_is_decoded_before_a_keyframe() {
    let mut gate = DecoderGate::new();
    assert_eq!(
        gate.on_packet(1, 1, &stream(&[&SLICE])),
        (PacketAction::Skip { reset: false }, 1)
    );
}

#[test]
fn a_keyframe_opens_a_session_which_is_reused() {
    let key = stream(&[&VPS, &SPS, &PPS, &SLICE]);
    let delta = stream(&[&SLICE]);
    let mut gate = DecoderGate::new();
    assert_eq!(gate.on_packet(5, 0, &key), (PacketAction::NewSession, 0));
    assert!(!gate.params_match(&key));
    assert_eq!(gate.session_created(&key, true), 0);
    assert!(gate.params_match(&key));
    assert_eq!(gate.decoded(5, DecodeOutcome::Frame), 0);
    assert_eq!(gate.on_packet(6, 1, &delta), (PacketAction::Decode, 0));
    assert_eq!(gate.decoded(6, DecodeOutcome::NoOutput), 0);
    // The same parameter sets again.
    assert_eq!(gate.on_packet(7, 0, &key), (PacketAction::Decode, 0));
    assert_eq!(gate.decoded(7, DecodeOutcome::Frame), 0);
    // Other ones.
    let other = stream(&[&VPS, &SLICE]);
    assert_eq!(gate.on_packet(8, 0, &other), (PacketAction::NewSession, 0));
}

#[test]
fn after_a_gap_everything_waits_for_a_keyframe() {
    let key = stream(&[&VPS, &SLICE]);
    let delta = stream(&[&SLICE]);
    let mut gate = DecoderGate::new();
    gate.on_packet(1, 0, &key);
    gate.session_created(&key, true);
    gate.decoded(1, DecodeOutcome::Frame);
    assert_eq!(gate.on_packet(3, 1, &delta), (PacketAction::Skip { reset: true }, 1));
    assert_eq!(gate.on_packet(4, 1, &delta), (PacketAction::Skip { reset: false }, 1));
    assert_eq!(gate.on_packet(2, 1, &delta), (PacketAction::Skip { reset: false }, 1));
    // The session is gone.
    assert_eq!(gate.on_packet(5, 0, &key), (PacketAction::NewSession, 0));
}

#[test]
fn failures_close_the_session() {
    let key = stream(&[&VPS, &SLICE]);
    let mut gate = DecoderGate::new();
    gate.on_packet(1, 0, &key);
    assert_eq!(gate.session_created(&key, false), 1);
    assert_eq!(gate.on_packet(2, 1, &key), (PacketAction::Skip { reset: false }, 1));
    gate.on_packet(3, 0, &key);
    gate.session_created(&key, true);
    assert_eq!(gate.decoded(3, DecodeOutcome::Failed), 1);
    assert!(!gate.params_match(&key));
    assert_eq!(gate.on_packet(4, 1, &key), (PacketAction::Skip { reset: false }, 1));
}

#[test]
fn a_keyframe_without_parameter_sets_needs_a_session() {
    let bare = stream(&[&SLICE]);
    let mut gate = DecoderGate::new();
    assert_eq!(gate.on_packet(1, 0, &bare), (PacketAction::Skip { reset: false }, 1));
}
