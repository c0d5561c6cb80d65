use meshconf::pool::SharedBuf;
use meshconf::room::PeerId;
use meshconf::video_compositor::{
    copy_status, grid_size, same_status, CompositorCommand, ConnectionKind, StatusInfo,
    VideoCompositor, VideoDropCounter,
};
use meshconf::video_decode::RgbFrame;

fn peer(n: u8) -> PeerId {
    PeerId::from_bytes([n; 32])
}

fn frame(group_id: u64) -> RgbFrame {
    RgbFrame {
        group_id,
        capture_timestamp_us: 5,
        width: 2,
        height: 1,
        data: SharedBuf::from_vec(vec![group_id as u32, 0]),
    }
}

#[test]
fn grids() {
    for (n, grid) in [
        (1, (1, 1)),
        (2, (2, 1)),
        (3, (2, 2)),
        (4, (2, 2)),
        (5, (3, 2)),
        (6, (3, 2)),
        (7, (3, 3)),
        (9, (3, 3)),
        (10, (4, 3)),
        (17, (5, 4)),
    ] {
        assert_eq!(grid_size(n), grid);
    }
}

#[test]
fn tiles_are_sorted_by_peer() {
    let mut compositor = VideoCompositor::new();
    assert!(compositor.build_gallery().is_none());
    compositor.on_frame(peer(9), frame(1));
    compositor.on_frame(peer(3), frame(2));
    let gallery = compositor.on_frame(peer(5), frame(3)).unwrap();
    assert_eq!((gallery.cols, gallery.rows), (2, 2));
    assert_eq!(compositor.frame_count(), 3);
    let order: Vec<u8> = gallery.tiles.iter().map(|t| t.peer_id.as_bytes()[0]).collect();
    assert_eq!(order, vec![3, 5, 9]);
    let cells: Vec<(u32, u32)> = gallery.tiles.iter().map(|t| (t.grid_col, t.grid_row)).collect();
    assert_eq!(cells, vec![(0, 0), (1, 0), (0, 1)]);
    let groups: Vec<u64> = gallery.tiles.iter().map(|t| t.frame.group_id).collect();
    assert_eq!(groups, vec![2, 3, 1]);
    assert_eq!(gallery.tiles[0].frame.data.as_slice(), &[2, 0]);
}

#[test]
fn a_later_frame_replaces_an_earlier_one() {
    let mut compositor = VideoCompositor::new();
    compositor.on_frame(peer(1), frame(1));
    let gallery = compositor.on_frame(peer(1), frame(2)).unwrap();
    assert_eq!(gallery.tiles.len(), 1);
    assert_eq!(gallery.tiles[0].frame.group_id, 2);
}

#[test]
fn commands() {
    let mut compositor = VideoCompositor::new();
    // Without frames there is nothing to show.
    let name = CompositorCommand::SetPeerName(peer(1), "one".to_string());
    assert!(compositor.on_command(name).is_none());
    let mut drops = VideoDropCounter::new();
    drops.increment();
    drops.increment();
    let counter = CompositorCommand::SetVideoDropCounter(peer(1), drops.get());
    assert!(compositor.on_command(counter).is_none());

    let gallery = compositor.on_frame(peer(1), frame(1)).unwrap();
    assert_eq!(gallery.tiles[0].name, "one");
    assert_eq!(gallery.tiles[0].video_drops, 2);
    assert_eq!(gallery.tiles[0].conn_kind, ConnectionKind::Unknown);

    let kind = CompositorCommand::SetConnectionKind(peer(1), ConnectionKind::Relay);
    let gallery = compositor.on_command(kind).unwrap();
    assert_eq!(gallery.tiles[0].conn_kind, ConnectionKind::Relay);

    // A peer that leaves takes everything along.
    let gallery = compositor.on_command(CompositorCommand::RemovePeer(peer(1))).unwrap();
    assert_eq!((gallery.tiles.len(), gallery.cols, gallery.rows), (0, 0, 0));
    let gallery = compositor.on_frame(peer(1), frame(4)).unwrap();
    assert_eq!(gallery.tiles[0].name, "");
    assert_eq!(gallery.tiles[0].video_drops, 0);
    assert_eq!(gallery.tiles[0].conn_kind, ConnectionKind::Unknown);
}

#[test]
fn counters() {
    let mut counter = VideoDropCounter::new();
    counter.increment();
    counter.increment_received();
    counter.increment_received();
    assert_eq!((counter.get(), counter.get_received()), (1, 2));
}

#[test]
fn statuses_are_compared_by_text() {
    let status = |message: &str, copyable: Option<&str>| {
        Some(StatusInfo {
            message: message.to_string(),
            copyable: copyable.map(|t| t.to_string()),
        })
    };
    assert!(same_status(&None, &None));
    assert!(!same_status(&None, &status("a", None)));
    assert!(same_status(&status("a", Some("t")), &status("a", Some("t"))));
    assert!(!same_status(&status("a", Some("t")), &status("a", Some("u"))));
    assert!(!same_status(&status("a", Some("t")), &status("a", None)));
    assert!(!same_status(&status("a", None), &status("b", None)));
    let copy = copy_status(&status("m", Some("t"))).unwrap();
    assert_eq!((copy.message.as_str(), copy.copyable.as_deref()), ("m", Some("t")));
}
