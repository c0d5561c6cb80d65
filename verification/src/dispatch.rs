//! Routing of incoming streams and datagrams.
//!
//! - QUIC datagrams: audio frames
//! - Unidirectional streams: video (one frame per stream)
//! - Bidirectional streams with tag 0x01: control messages

use vstd::prelude::*;

use crate::control::STREAM_TYPE_CONTROL;
use crate::protocol::{MediaObject, ObjectData, SubgroupHeader};

verus! {

/// QUIC error code used when stopping a stream we no longer need.
pub const STOP_OLD_FRAME: u32 = 0x10;

/// Tracks the group of the latest fully-received keyframe. Streams carrying
/// frames from older groups are useless and can be stopped. There is one per
/// connection: it cannot be copied, only shared.
#[derive(Debug, PartialEq, Eq, Structural)]
pub struct KeyframeTracker {
    pub latest_keyframe: u64,
}

/// The larger of two numbers.
pub open spec fn larger(a: u64, b: u64) -> u64 {
    if a >= b {
        a
    } else {
        b
    }
}

/// The latest keyframe once a frame with this header was fully received.
pub open spec fn latest_after(latest: u64, header: SubgroupHeader) -> u64 {
    if header.subgroup_id == 0 {
        larger(latest, header.group_id)
    } else {
        latest
    }
}

impl KeyframeTracker {
    pub fn new() -> (r: KeyframeTracker)
        ensures
            r.latest_keyframe == 0,
    {
        KeyframeTracker { latest_keyframe: 0 }
    }

    /// Whether a frame with this header is from an old GOP: a newer keyframe has
    /// already been received.
    pub fn is_old(&self, header: &SubgroupHeader) -> (r: bool)
        ensures
            r == (header.group_id < self.latest_keyframe),
    {
        header.group_id < self.latest_keyframe
    }

    /// Note that a frame with this header was fully received. A keyframe
    /// (subgroup 0) makes older streams useless.
    pub fn received(&mut self, header: &SubgroupHeader)
        ensures
            final(self).latest_keyframe == (if header.subgroup_id == 0 {
                larger(old(self).latest_keyframe, header.group_id)
            } else {
                old(self).latest_keyframe
            }),
            final(self).latest_keyframe == latest_after(old(self).latest_keyframe, *header),
    {
        if header.subgroup_id == 0 && header.group_id > self.latest_keyframe {
            self.latest_keyframe = header.group_id;
        }
    }
}

/// Law: the latest keyframe only moves forward, so a stream that was old stays
/// old; and the frame that was just received is not old.
pub proof fn law_old_stays_old(latest: u64, received_group: u64, group: u64)
    ensures
        latest <= larger(latest, received_group),
        group < latest ==> group < larger(latest, received_group),
        latest <= received_group ==> !(received_group < larger(latest, received_group)),
{
}

/// The media object of a video stream: its header and its only object.
pub fn media_object(header: &SubgroupHeader, object: ObjectData) -> (r: MediaObject)
    ensures
        r.group_id == header.group_id,
        r.subgroup_id == header.subgroup_id,
        r.object_id == object.object_id,
        r.capture_timestamp_us == object.capture_timestamp_us,
        r.codec == object.codec,
        r.payload@ == object.payload@,
{
    MediaObject {
        group_id: header.group_id,
        subgroup_id: header.subgroup_id,
        object_id: object.object_id,
        capture_timestamp_us: object.capture_timestamp_us,
        codec: object.codec,
        payload: object.payload,
    }
}

/// What to do with a bidirectional stream.
#[derive(Debug, Clone, Copy, PartialEq, Eq, Structural)]
pub enum BidiRoute {
    /// Read control messages from it.
    Control,
    /// It carries control messages, but nobody takes them.
    NoHandler,
    /// Its type is not known.
    UnknownType(u8),
}

/// Decide about a bidirectional stream that starts with `tag`.
pub fn route_bidi(tag: u8, has_handler: bool) -> (r: BidiRoute)
    ensures
        r == (if tag != STREAM_TYPE_CONTROL {
            BidiRoute::UnknownType(tag)
        } else if has_handler {
            BidiRoute::Control
        } else {
            BidiRoute::NoHandler
        }),
{
    if tag == STREAM_TYPE_CONTROL {
        if has_handler {
            BidiRoute::Control
        } else {
            BidiRoute::NoHandler
        }
    } else {
        BidiRoute::UnknownType(tag)
    }
}

/// Law: only keyframes make streams old: a frame in subgroup zero all those of older
/// groups, and any other frame none.
pub proof fn law_keyframes_make_old(latest: u64, header: SubgroupHeader, group: u64)
    ensures
        header.subgroup_id == 0 && group < header.group_id ==> group < latest_after(latest, header),
        header.subgroup_id == 0 && group >= header.group_id && group >= latest ==> group
            >= latest_after(latest, header),
        header.subgroup_id != 0 ==> latest_after(latest, header) == latest,
{
}

/// Law: the latest keyframe is the newest of all that were received: it is one of
/// the two, and neither is newer.
pub proof fn law_latest_keyframe(a: u64, b: u64)
    ensures
        larger(a, b) >= a,
        larger(a, b) >= b,
        larger(a, b) == a || larger(a, b) == b,
        STOP_OLD_FRAME == 16,
{
}

} // verus!
