use iroh::{EndpointAddr, SecretKey};
use meshconf::net::{
    addr_to_ticket_public, custom_relay, relay_choice, ticket_to_addr, ticket_to_bytes, RelayChoice,
    RelayError, TicketError, ALPN,
};

fn addr() -> EndpointAddr {
    EndpointAddr::new(SecretKey::from_bytes(&[8; 32]).public())
        .with_ip_addr("10.0.0.1:1234".parse().unwrap())
        .with_relay_url("https://relay.example.org".parse().unwrap())
}

#[test]
fn tickets_lead_back() {
    let ticket = addr_to_ticket_public(&addr()).unwrap();
    assert_eq!(ticket_to_addr(&ticket), Ok(addr()));
    // Whitespace around it is ignored.
    assert_eq!(ticket_to_addr(&format!(" \t{ticket}\r\n")), Ok(addr()));
    // It can be passed on in a URL.
    assert!(ticket.chars().all(|c| c.is_ascii_alphanumeric() || c == '-' || c == '_'));
    // The identifier is in it.
    let bytes = ticket_to_bytes(&ticket).unwrap();
    assert!(bytes.windows(32).any(|w| w == addr().id.as_bytes()));
}

#[test]
fn tickets_lead_to_the_same_place() {
    // The scope of an IPv6 address is not encoded.
    let key = SecretKey::from_bytes(&[9; 32]).public();
    let scoped = EndpointAddr::new(key).with_ip_addr("[fe80::1%3]:99".parse().unwrap());
    let ticket = addr_to_ticket_public(&scoped).unwrap();
    let found = ticket_to_addr(&ticket).unwrap();
    assert_ne!(found, scoped);
    assert_eq!(found, EndpointAddr::new(key).with_ip_addr("[fe80::1]:99".parse().unwrap()));
}

#[test]
fn other_texts_are_no_tickets() {
    assert_eq!(ticket_to_addr("not a ticket"), Err(TicketError::NotBase64));
    assert_eq!(ticket_to_addr("AAA="), Err(TicketError::NotBase64));
    assert_eq!(ticket_to_addr("AAAA"), Err(TicketError::NotAddress));
    assert_eq!(ticket_to_addr(""), Err(TicketError::NotAddress));
}

#[test]
fn bytes_in_a_ticket() {
    assert_eq!(ticket_to_bytes(" -_-_ ").unwrap(), vec![0xFB, 0xFF, 0xBF]);
    assert_eq!(ticket_to_bytes("TWFu").unwrap(), b"Man".to_vec());
    assert!(ticket_to_bytes("+/+/").is_none());
}

#[test]
fn relays() {
    assert!(matches!(relay_choice(None, false), Ok(RelayChoice::Default)));
    assert!(matches!(relay_choice(None, true), Ok(RelayChoice::Disabled)));
    assert!(matches!(relay_choice(Some("no url"), true), Ok(RelayChoice::Disabled)));
    match relay_choice(Some("http://localhost:3340"), false) {
        Ok(RelayChoice::Custom(url)) => assert_eq!(url.to_string(), "http://localhost:3340/"),
        other => panic!("{other:?}"),
    }
    assert!(matches!(relay_choice(Some("no url"), false), Err(RelayError::InvalidUrl)));
    assert!(matches!(custom_relay(None), Err(RelayError::InvalidUrl)));
    assert_eq!(ALPN, "vc/1");
}
