use iroh::{EndpointAddr, SecretKey};
use meshconf::bandwidth::BandwidthEvent;
use meshconf::control::{ControlMessage, PeerInfo};
use meshconf::room::{
    addr_to_string, classify_paths, expect_control_tag, expect_hello, expect_peer_list,
    parse_peer_id, peer_id_to_string, route_control, should_initiate, string_to_addr,
    HandshakeError, PathState, PathWatcher, PeerAction, PeerId, RoomAction, RoomEvent, RoomStep,
    Roster,
};
use meshconf::video_compositor::ConnectionKind;

fn key(seed: u8) -> PeerId {
    PeerId::from_bytes(*SecretKey::from_bytes(&[seed; 32]).public().as_bytes())
}

fn addr(seed: u8) -> EndpointAddr {
    EndpointAddr::new(SecretKey::from_bytes(&[seed; 32]).public())
        .with_ip_addr("192.168.1.7:4433".parse().unwrap())
        .with_relay_url("https://relay.example.org".parse().unwrap())
}

/// Two keys, the lexicographically smaller one first.
fn ordered() -> (u8, u8) {
    if key(1).as_bytes() < key(2).as_bytes() {
        (1, 2)
    } else {
        (2, 1)
    }
}

#[test]
fn identifiers_are_hexadecimal() {
    let mut bytes = [0u8; 32];
    bytes[0] = 0xAB;
    bytes[31] = 0x0F;
    let text = peer_id_to_string(&PeerId::from_bytes(bytes));
    assert_eq!(text.len(), 64);
    assert!(text.starts_with("ab00") && text.ends_with("000f"));
    // The network layer writes them the same way.
    let public = SecretKey::from_bytes(&[9; 32]).public();
    assert_eq!(peer_id_to_string(&key(9)), public.to_string());
}

#[test]
fn identifiers_are_read_back() {
    let text = peer_id_to_string(&key(5));
    assert!(parse_peer_id(&text).unwrap().same(&key(5)));
    assert!(parse_peer_id("no key").is_none());
    assert!(parse_peer_id("").is_none());
}

#[test]
fn one_side_initiates() {
    let (low, high) = ordered();
    assert!(should_initiate(&key(low), &key(high)));
    assert!(!should_initiate(&key(high), &key(low)));
    assert!(!should_initiate(&key(low), &key(low)));
    let mut small = [0u8; 32];
    let mut large = [0u8; 32];
    small[3] = 1;
    small[4] = 0xFF;
    large[3] = 2;
    assert!(PeerId::from_bytes(small).before(&PeerId::from_bytes(large)));
}

#[test]
fn addresses_are_read_back() {
    let text = addr_to_string(&addr(3)).unwrap();
    assert_eq!(string_to_addr(&text), Some(addr(3)));
    // The text is the base64 of JSON.
    assert!(text.starts_with("ey"));
    assert!(string_to_addr("not base64!").is_none());
    // Base64, but of something else.
    assert!(string_to_addr("e30=").is_none());
    assert!(string_to_addr("").is_none());
}

#[test]
fn addresses_arrive_in_the_same_place() {
    // The scope of an IPv6 address is written as well.
    let scoped = addr(3).with_ip_addr("[fe80::1%3]:99".parse().unwrap());
    let text = addr_to_string(&scoped).unwrap();
    assert_eq!(string_to_addr(&text), Some(scoped));
}

#[test]
fn roster_keeps_each_peer_once() {
    let mut roster = Roster::new(key(1), "me".to_string());
    assert_eq!(roster.peer_count(), 0);
    assert!(roster.add_peer(key(2), addr(2), "two".to_string()));
    assert!(!roster.add_peer(key(2), addr(2), "again".to_string()));
    assert!(roster.add_peer(key(3), addr(3), "three".to_string()));
    assert_eq!(roster.peer_count(), 2);
    assert!(roster.contains(&key(3)));
    assert!(roster.remove_peer(&key(2)));
    assert!(!roster.remove_peer(&key(2)));
    assert!(!roster.contains(&key(2)));
    assert_eq!(roster.peer_count(), 1);
}

#[test]
fn peer_list_starts_with_ourselves() {
    let mut roster = Roster::new(key(1), "me".to_string());
    roster.add_peer(key(2), addr(2), "two".to_string());
    let list = roster.build_peer_list(&addr(1)).unwrap();
    assert_eq!(list.len(), 2);
    assert_eq!(list[0].peer_id, peer_id_to_string(&key(1)));
    assert_eq!(Some(list[0].addr.clone()), addr_to_string(&addr(1)));
    assert_eq!(list[0].name, "me");
    assert_eq!(list[1].peer_id, peer_id_to_string(&key(2)));
    assert_eq!(string_to_addr(&list[1].addr), Some(addr(2)));
    assert_eq!(list[1].name, "two");
}

#[test]
fn peers_introduce_each_other() {
    let (low, high) = ordered();
    // A third peer knows both.
    let mut hub = Roster::new(key(7), "hub".to_string());
    hub.add_peer(key(low), addr(low), "low".to_string());
    hub.add_peer(key(high), addr(high), "high".to_string());
    let list = hub.build_peer_list(&addr(7)).unwrap();

    let mut roster = Roster::new(key(low), "low".to_string());
    roster.add_peer(key(7), addr(7), "hub".to_string());
    let mut found = Vec::new();
    for info in &list {
        if let PeerAction::Connect { id, addr } = roster.handle_peer_info(info) {
            found.push((id, addr));
        }
    }
    assert_eq!(found.len(), 1);
    assert!(found[0].0.same(&key(high)));
    assert_eq!(found[0].1, addr(high));

    // The other one waits.
    let mut roster = Roster::new(key(high), "high".to_string());
    roster.add_peer(key(7), addr(7), "hub".to_string());
    for info in &list {
        assert!(matches!(roster.handle_peer_info(info), PeerAction::Ignore));
    }
}

#[test]
fn unreadable_entries_are_passed_over() {
    let (low, high) = ordered();
    let mut roster = Roster::new(key(low), "low".to_string());
    let bad_id = PeerInfo {
        peer_id: "?".to_string(),
        addr: addr_to_string(&addr(high)).unwrap(),
        name: "x".to_string(),
    };
    let bad_addr = PeerInfo {
        peer_id: peer_id_to_string(&key(high)),
        addr: "?".to_string(),
        name: "x".to_string(),
    };
    assert!(matches!(roster.handle_peer_info(&bad_id), PeerAction::Ignore));
    assert!(matches!(roster.handle_peer_info(&bad_addr), PeerAction::Ignore));
}

#[test]
fn known_peers_are_renamed() {
    let mut roster = Roster::new(key(1), "me".to_string());
    roster.add_peer(key(2), addr(2), String::new());
    let mut info = PeerInfo {
        peer_id: peer_id_to_string(&key(2)),
        addr: addr_to_string(&addr(2)).unwrap(),
        name: "two".to_string(),
    };
    match roster.handle_peer_info(&info) {
        PeerAction::Rename { id, name } => {
            assert!(id.same(&key(2)));
            assert_eq!(name, "two");
        }
        _ => panic!("the name is new"),
    }
    assert_eq!(roster.build_peer_list(&addr(1)).unwrap()[1].name, "two");
    assert!(matches!(roster.handle_peer_info(&info), PeerAction::Ignore));
    // An empty name changes nothing.
    info.name = String::new();
    assert!(matches!(roster.handle_peer_info(&info), PeerAction::Ignore));
    assert_eq!(roster.build_peer_list(&addr(1)).unwrap()[1].name, "two");
}

/// The steps in short.
fn steps(roster: &mut Roster, event: RoomEvent) -> Vec<String> {
    roster
        .on_event(event)
        .into_iter()
        .map(|step| match step {
            RoomStep::Start(id) => format!("start {}", peer_id_to_string(&id)),
            RoomStep::ShowName(id, name) => format!("name {} {name}", peer_id_to_string(&id)),
            RoomStep::Stop(id) => format!("stop {}", peer_id_to_string(&id)),
            RoomStep::Broadcast => "broadcast".to_string(),
        })
        .collect()
}

#[test]
fn events_of_a_room() {
    let mut roster = Roster::new(key(1), "me".to_string());
    let two = peer_id_to_string(&key(2));
    let three = peer_id_to_string(&key(3));
    let accepted = |name: &str| RoomEvent::Accepted {
        id: key(2),
        addr: addr(2),
        name: name.to_string(),
    };
    assert_eq!(steps(&mut roster, RoomEvent::Tick), vec!["broadcast"]);
    assert_eq!(
        steps(&mut roster, accepted("two")),
        vec![format!("start {two}"), format!("name {two} two"), "broadcast".to_string()]
    );
    // It is there already.
    assert_eq!(steps(&mut roster, accepted("two")), vec!["broadcast"]);
    assert_eq!(roster.peer_count(), 1);

    let connected = || RoomEvent::Connected { id: key(3), addr: addr(3) };
    assert_eq!(
        steps(&mut roster, connected()),
        vec![format!("start {three}"), "broadcast".to_string()]
    );
    assert_eq!(
        steps(&mut roster, RoomEvent::Disconnected { id: key(3) }),
        vec![format!("stop {three}"), "broadcast".to_string()]
    );
    steps(&mut roster, connected());

    // The others stay.
    steps(&mut roster, RoomEvent::Disconnected { id: key(2) });
    assert!(!roster.contains(&key(2)));
    assert!(roster.contains(&key(3)));
    assert_eq!(steps(&mut roster, RoomEvent::Disconnected { id: key(2) }), vec!["broadcast"]);
    // A peer without a name is started without one.
    assert_eq!(
        steps(&mut roster, accepted("")),
        vec![format!("start {two}"), "broadcast".to_string()]
    );
}

#[test]
fn handshake() {
    assert_eq!(expect_control_tag(0x01), Ok(()));
    assert_eq!(expect_control_tag(0x04), Err(HandshakeError::WrongTag(4)));

    let roster = Roster::new(key(4), "four".to_string());
    let (from, name) = expect_hello(roster.build_hello(&addr(4)).unwrap()).unwrap();
    assert_eq!(from, addr(4));
    assert_eq!(name, "four");

    let garbled = ControlMessage::Hello { addr: "%".to_string(), name: "x".to_string() };
    assert_eq!(expect_hello(garbled).err(), Some(HandshakeError::BadAddress));
    let list = ControlMessage::PeerList { peers: roster.build_peer_list(&addr(4)).unwrap() };
    assert_eq!(expect_hello(list.clone()).err(), Some(HandshakeError::NotHello));
    assert_eq!(expect_peer_list(list).unwrap().len(), 1);
    let hello = roster.build_hello(&addr(4)).unwrap();
    assert_eq!(expect_peer_list(hello).err(), Some(HandshakeError::NotPeerList));
}

#[test]
fn control_messages_are_routed() {
    let feedback = ControlMessage::CongestionFeedback {
        received: 10,
        dropped: 5,
        fraction_lost_bits: (1.0f64 / 3.0).to_bits(),
        jitter_us: 77,
    };
    match route_control(feedback) {
        RoomAction::Feedback(event) => assert_eq!(
            event,
            BandwidthEvent::ReceiverFeedback {
                fraction_lost_bits: (1.0f64 / 3.0).to_bits(),
                jitter_us: 77,
            }
        ),
        _ => panic!("feedback goes to the estimator"),
    }
    let list = ControlMessage::PeerList { peers: Vec::new() };
    assert!(matches!(route_control(list), RoomAction::PeerList(peers) if peers.is_empty()));
    let hello = ControlMessage::Hello { addr: String::new(), name: String::new() };
    assert!(matches!(route_control(hello), RoomAction::Unexpected));
}

#[test]
fn paths_tell_how_a_peer_is_connected() {
    let path = |selected, relay| PathState { selected, relay };
    assert_eq!(classify_paths(&vec![]), ConnectionKind::Unknown);
    assert_eq!(classify_paths(&vec![path(false, true)]), ConnectionKind::Unknown);
    assert_eq!(
        classify_paths(&vec![path(false, true), path(true, false)]),
        ConnectionKind::Direct
    );
    assert_eq!(
        classify_paths(&vec![path(true, true), path(true, false)]),
        ConnectionKind::Relay
    );

    let mut watcher = PathWatcher::new();
    assert_eq!(watcher.observe(&vec![]), None);
    assert_eq!(watcher.observe(&vec![path(true, true)]), Some(ConnectionKind::Relay));
    assert_eq!(watcher.observe(&vec![path(true, true)]), None);
    assert_eq!(watcher.observe(&vec![path(true, false)]), Some(ConnectionKind::Direct));
}
