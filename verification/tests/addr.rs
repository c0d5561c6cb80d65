use iroh::{EndpointAddr, RelayUrl, SecretKey};
use meshconf::addr::keeps_relays;
use meshconf::net::{addr_to_ticket_public, ticket_to_addr, TicketError};
use meshconf::room::{addr_to_string, string_to_addr};

fn endpoint() -> EndpointAddr {
    EndpointAddr::new(SecretKey::from_bytes(&[5; 32]).public())
        .with_ip_addr("10.0.0.1:1234".parse().unwrap())
        .with_ip_addr("[fe80::1]:80".parse().unwrap())
}

/// A relay server whose URL is given another path.
fn relay(text: &str, path: &str) -> RelayUrl {
    let parsed: RelayUrl = text.parse().unwrap();
    let mut url = (*parsed).clone();
    url.set_path(path);
    RelayUrl::from(url)
}

#[test]
fn addresses_arrive_with_their_relays() {
    let relayed = endpoint()
        .with_relay_url("https://relay.example.org".parse().unwrap())
        .with_relay_url("http://localhost:3340".parse().unwrap());
    for addr in [endpoint(), relayed] {
        assert!(keeps_relays(&addr));
        assert_eq!(string_to_addr(&addr_to_string(&addr).unwrap()), Some(addr.clone()));
        let ticket = addr_to_ticket_public(&addr).unwrap();
        assert_eq!(ticket_to_addr(&ticket), Ok(addr));
    }
}

#[test]
fn a_relay_that_is_read_as_another() {
    let url = relay("data:x", "foo ");
    assert_eq!(url.to_string(), "data:foo ");
    let addr = endpoint().with_relay_url(url);
    assert!(!keeps_relays(&addr));
    let back = string_to_addr(&addr_to_string(&addr).unwrap()).unwrap();
    let relays: Vec<String> = back.relay_urls().map(|u| u.to_string()).collect();
    assert_eq!(relays, vec!["data:foo".to_string()]);
}

#[test]
fn a_relay_that_cannot_be_read() {
    let addr = endpoint().with_relay_url(relay("a:/b", "//h:99999/x"));
    assert!(!keeps_relays(&addr));
    assert_eq!(string_to_addr(&addr_to_string(&addr).unwrap()), None);
    let ticket = addr_to_ticket_public(&addr).unwrap();
    assert_eq!(ticket_to_addr(&ticket), Err(TicketError::NotAddress));
}
