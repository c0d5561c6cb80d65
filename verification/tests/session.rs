use iroh::{EndpointAddr, SecretKey};
use meshconf::session::{
    call_status, display_mode, display_name, is_quit_key, join_screen, notice_lines,
    own_ticket_status, prints_call_status, probes_terminal, setup_status, ticket_status, waits_for_relay, wants_window, DisplayMode,
    JoinScreen,
};
use meshconf::term::KeyPress;

#[test]
fn displays() {
    assert!(wants_window(true, false));
    assert!(!wants_window(true, true));
    assert!(!wants_window(false, false));
    assert!(probes_terminal(false, true));
    assert!(!probes_terminal(true, true));
    assert!(!probes_terminal(false, false));
    assert_eq!(display_mode(true, None), DisplayMode::Window);
    assert_eq!(display_mode(false, Some(true)), DisplayMode::Kitty);
    assert_eq!(display_mode(false, Some(false)), DisplayMode::AudioOnly);
    assert_eq!(display_mode(false, None), DisplayMode::AudioOnly);
}

#[test]
fn keys_that_quit() {
    for key in [KeyPress::Char('q'), KeyPress::Char('Q'), KeyPress::CtrlC] {
        assert!(is_quit_key(Some(key)));
    }
    for key in [KeyPress::Char('x'), KeyPress::Escape] {
        assert!(!is_quit_key(Some(key)));
    }
    assert!(!is_quit_key(None));
}

#[test]
fn names() {
    let name = |user: Option<&str>, username: Option<&str>| {
        display_name(user.map(|s| s.to_string()), username.map(|s| s.to_string()))
    };
    assert_eq!(name(Some("ann"), Some("bob")), "ann");
    assert_eq!(name(None, Some("bob")), "bob");
    assert_eq!(name(Some(""), Some("bob")), "");
    assert_eq!(name(None, None), "");
}

#[test]
fn statuses() {
    assert!(waits_for_relay(false));
    assert!(!waits_for_relay(true));
    let setup = setup_status();
    assert_eq!(setup.message, "Setting up network connection…");
    assert_eq!(setup.copyable, None);

    let ticket = Some("T".to_string());
    let status = ticket_status(false, &ticket, true).unwrap();
    assert_eq!(status.message, "Share this ticket with your peer. Waiting for connection…");
    assert_eq!(status.copyable.as_deref(), Some("T"));
    let status = ticket_status(false, &ticket, false).unwrap();
    assert_eq!(
        status.message,
        "⚠ No relay server (local connections only). Share this ticket:"
    );
    assert!(ticket_status(true, &ticket, true).is_none());
    assert!(ticket_status(false, &None, true).is_none());

    let status = call_status(ticket);
    assert_eq!(status.message, "Share this ticket to invite others.");
    assert_eq!(status.copyable.as_deref(), Some("T"));
    assert_eq!(call_status(None).copyable.as_deref(), Some(""));
}

#[test]
fn a_ticket_tells_of_relays() {
    let ticket = Some("T".to_string());
    let local = EndpointAddr::new(SecretKey::from_bytes(&[8; 32]).public())
        .with_ip_addr("10.0.0.1:1234".parse().unwrap());
    let status = own_ticket_status(false, &ticket, &local).unwrap();
    assert_eq!(
        status.message,
        "⚠ No relay server (local connections only). Share this ticket:"
    );
    let relayed = local.with_relay_url("https://relay.example.org".parse().unwrap());
    let status = own_ticket_status(false, &ticket, &relayed).unwrap();
    assert_eq!(status.message, "Share this ticket with your peer. Waiting for connection…");
    assert_eq!(status.copyable.as_deref(), Some("T"));
    assert!(own_ticket_status(true, &ticket, &relayed).is_none());
}

#[test]
fn tickets_are_printed_beside_a_window() {
    assert!(prints_call_status(true, DisplayMode::Window));
    assert!(!prints_call_status(false, DisplayMode::Window));
    assert!(!prints_call_status(true, DisplayMode::Kitty));
    assert!(!prints_call_status(true, DisplayMode::AudioOnly));
}

#[test]
fn screens_for_those_who_join() {
    assert_eq!(join_screen(false, DisplayMode::AudioOnly), JoinScreen::Unchanged);
    assert_eq!(join_screen(true, DisplayMode::Window), JoinScreen::Unchanged);
    assert_eq!(join_screen(true, DisplayMode::Kitty), JoinScreen::Cleared);
    assert_eq!(join_screen(true, DisplayMode::AudioOnly), JoinScreen::Notice);
    assert_eq!(
        notice_lines(),
        vec![
            "Terminal does not support Kitty graphics.",
            "Audio only — video will not be displayed."
        ]
    );
}
