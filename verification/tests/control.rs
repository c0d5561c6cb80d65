use meshconf::control::{
    read_control_msg, write_control_msg, ControlError, FeedbackTracker, MAX_CONTROL_LEN,
};
use meshconf::protocol::Read;

#[test]
fn message_roundtrip() {
    let mut out = vec![0x01];
    write_control_msg(&mut out, br#"{"msg_type":"hello"}"#);
    assert_eq!(&out[..5], &[0x01, 0, 0, 0, 20]);
    out.extend_from_slice(b"next");
    match read_control_msg(&out[1..]).unwrap() {
        Read::Done { value, used } => {
            assert_eq!((value, used), (20, 24));
            assert_eq!(&out[5..25], br#"{"msg_type":"hello"}"#);
        }
        Read::More { .. } => panic!("message is complete"),
    }
}

#[test]
fn incomplete_messages_ask_for_more() {
    assert!(matches!(read_control_msg(&[]), Ok(Read::More { need: 4 })));
    assert!(matches!(read_control_msg(&[0, 0]), Ok(Read::More { need: 2 })));
    assert!(matches!(read_control_msg(&[0, 0, 1, 0, 9]), Ok(Read::More { need: 255 })));
    assert!(matches!(read_control_msg(&[0, 0, 0, 0]), Ok(Read::Done { value: 0, used: 4 })));
}

#[test]
fn large_messages_are_refused() {
    let mut out = Vec::new();
    write_control_msg(&mut out, &vec![b' '; MAX_CONTROL_LEN]);
    assert!(matches!(
        read_control_msg(&out),
        Ok(Read::Done { value: 1_000_000, used: 1_000_004 })
    ));
    let mut out = Vec::new();
    write_control_msg(&mut out, &vec![b' '; MAX_CONTROL_LEN + 1]);
    assert_eq!(read_control_msg(&out).unwrap_err(), ControlError::TooLarge(1_000_001));
    // The length alone is enough to tell.
    assert_eq!(
        read_control_msg(&[0xFF, 0xFF, 0xFF, 0xFF]).unwrap_err(),
        ControlError::TooLarge(0xFFFF_FFFF)
    );
}

#[test]
fn reports_cover_one_interval() {
    let mut tracker = FeedbackTracker::new();
    assert_eq!(tracker.report(30, 2), (30, 2));
    assert_eq!(tracker.report(75, 2), (45, 0));
    // A total that went back counts as no growth.
    assert_eq!(tracker.report(10, 5), (0, 3));
    assert_eq!(tracker.report(12, 5), (2, 0));
}
