use meshconf::broadcaster::{audio_datagram_to_send, Broadcaster};
use meshconf::peer_map::PeerMap;
use meshconf::pool::BufPool;
use meshconf::protocol::decode_audio_datagram;
use meshconf::room::PeerId;

fn peer(n: u8) -> PeerId {
    PeerId::from_bytes([n; 32])
}

#[test]
fn peers_come_and_go() {
    let mut audio: Broadcaster<&str> = Broadcaster::new();
    assert!(!audio.add_peer(peer(2), "two"));
    assert!(!audio.add_peer(peer(1), "one"));
    assert!(!audio.add_peer(peer(2), "two again"));
    assert_eq!(audio.peer_count(), 2);
    let (id, conn) = audio.peer_at(1);
    assert!(id.same(&peer(2)));
    assert_eq!(*conn, "two again");
    audio.remove_peer(&peer(1));
    audio.remove_peer(&peer(7));
    assert_eq!(audio.peer_count(), 1);
    assert_eq!(*audio.peer_at(0).1, "two again");
}

#[test]
fn a_new_viewer_needs_a_keyframe() {
    let mut video: Broadcaster<u8> = Broadcaster::new_with_keyframe();
    assert!(video.add_peer(peer(1), 0));
    assert!(video.add_peer(peer(1), 0));
}

#[test]
fn stale_audio_is_not_sent() {
    let pool = BufPool::new();
    let sent = |ts, now| audio_datagram_to_send(ts, b"opus", now, &pool).is_some();
    assert!(sent(1_000_000, 1_060_000));
    assert!(!sent(1_000_000, 1_060_001));
    // From the future, and without timestamp.
    assert!(sent(1_000_000, 0));
    assert!(sent(0, 1_000_000));
    let datagram = audio_datagram_to_send(77, b"opus", 78, &pool).unwrap();
    let obj = decode_audio_datagram(&datagram, &pool).unwrap();
    assert_eq!(obj.capture_timestamp_us, 77);
    assert_eq!(obj.payload.as_slice(), b"opus");
}

#[test]
fn maps_are_sorted() {
    let mut map = PeerMap::new();
    map.insert(peer(5), 'e');
    map.insert(peer(1), 'a');
    map.insert(peer(3), 'c');
    map.insert(peer(5), 'E');
    assert_eq!(map.len(), 3);
    assert_eq!(map.get(&peer(5)), Some(&'E'));
    assert_eq!(map.get(&peer(2)), None);
    assert!(map.key_at(0).same(&peer(1)));
    assert_eq!(*map.value_at(1), 'c');
    map.remove(&peer(3));
    map.remove(&peer(3));
    assert_eq!(map.len(), 2);
    assert_eq!(*map.value_at(1), 'E');
}
