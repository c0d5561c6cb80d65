use meshconf::dispatch::{
    media_object, route_bidi, BidiRoute, KeyframeTracker, STOP_OLD_FRAME,
};
use meshconf::pool::SharedBuf;
use meshconf::protocol::{Codec, ObjectData, SubgroupHeader};

fn header(group_id: u64, subgroup_id: u64) -> SubgroupHeader {
    SubgroupHeader { track_alias: 1, group_id, subgroup_id, publisher_priority: 1 }
}

#[test]
fn frames_before_the_latest_keyframe_are_old() {
    let mut tracker = KeyframeTracker::new();
    assert!(!tracker.is_old(&header(0, 1)));
    tracker.received(&header(10, 0));
    assert!(tracker.is_old(&header(9, 0)));
    assert!(!tracker.is_old(&header(10, 1)));
    // Delta frames and older keyframes do not move it.
    tracker.received(&header(20, 1));
    tracker.received(&header(5, 0));
    assert_eq!(tracker.latest_keyframe, 10);
    tracker.received(&header(30, 0));
    assert!(tracker.is_old(&header(29, 1)));
    assert_eq!(STOP_OLD_FRAME, 0x10);
}

#[test]
fn objects_take_the_group_of_their_stream() {
    let object = ObjectData {
        object_id: 4,
        capture_timestamp_us: 99,
        codec: Some(Codec::Hevc),
        payload: SharedBuf::from_vec(vec![1, 2]),
    };
    let obj = media_object(&header(7, 1), object);
    assert_eq!((obj.group_id, obj.subgroup_id, obj.object_id), (7, 1, 4));
    assert_eq!((obj.capture_timestamp_us, obj.codec), (99, Some(Codec::Hevc)));
    assert_eq!(obj.payload.as_slice(), &[1, 2]);
}

#[test]
fn bidirectional_streams() {
    assert_eq!(route_bidi(0x01, true), BidiRoute::Control);
    assert_eq!(route_bidi(0x01, false), BidiRoute::NoHandler);
    assert_eq!(route_bidi(0x02, true), BidiRoute::UnknownType(2));
}
