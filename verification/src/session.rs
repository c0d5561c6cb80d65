//! Decisions on the way from the start of the program into a call.
use vstd::prelude::*;

use crate::addr::{addr_relays, relay_urls};
use crate::term::KeyPress;
use crate::video_compositor::{status_text, StatusInfo, StatusText};

verus! {

/// How long to wait for a relay server.
pub const RELAY_WAIT_SECS: u64 = 10;

/// Where the video is shown.
#[derive(Debug, Clone, Copy, PartialEq, Eq, Structural)]
pub enum DisplayMode {
    /// In a native window.
    Window,
    /// In the terminal, with the Kitty graphics protocol.
    Kitty,
    /// Nowhere.
    AudioOnly,
}

/// Default to a native window, where there is one, unless the terminal is asked
/// for.
pub fn wants_window(window_available: bool, kitty_flag: bool) -> (r: bool)
    ensures
        r == (window_available && !kitty_flag),
{
    window_available && !kitty_flag
}

/// Whether to ask the terminal for its support of the Kitty graphics protocol.
pub fn probes_terminal(use_window: bool, kitty_flag: bool) -> (r: bool)
    ensures
        r == (!use_window && kitty_flag),
{
    !use_window && kitty_flag
}

/// Where the video is shown. `supported` is what the terminal answered, if it
/// was asked.
pub fn display_mode(use_window: bool, supported: Option<bool>) -> (mode: DisplayMode)
    ensures
        mode == (if use_window {
            DisplayMode::Window
        } else if supported == Some(true) {
            DisplayMode::Kitty
        } else {
            DisplayMode::AudioOnly
        }),
{
    if use_window {
        return DisplayMode::Window;
    }
    match supported {
        Some(true) => DisplayMode::Kitty,
        _ => DisplayMode::AudioOnly,
    }
}

/// Whether a key press ends the call.
pub fn is_quit_key(key: Option<KeyPress>) -> (r: bool)
    ensures
        r == (key == Some(KeyPress::Char('q')) || key == Some(KeyPress::Char('Q')) || key == Some(
            KeyPress::CtrlC,
        )),
{
    match key {
        Some(KeyPress::Char(c)) => c == 'q' || c == 'Q',
        Some(KeyPress::CtrlC) => true,
        _ => false,
    }
}

/// The name that others see: the user's name as the environment gives it, or
/// none.
pub fn display_name(user: Option<String>, username: Option<String>) -> (name: String)
    ensures
        name@ == (match (user, username) {
            (Some(u), _) => u@,
            (None, Some(u)) => u@,
            (None, None) => Seq::<char>::empty(),
        }),
{
    match user {
        Some(u) => u,
        None => match username {
            Some(u) => u,
            None => String::new(),
        },
    }
}

/// Whether to wait for a relay server: there is nothing to discover where relays
/// are disabled.
pub fn waits_for_relay(no_relay: bool) -> (r: bool)
    ensures
        r == !no_relay,
{
    !no_relay
}

/// The status while the network is set up.
pub fn setup_status() -> (s: StatusInfo)
    ensures
        s@ == (StatusText { message: "Setting up network connection…"@, copyable: None }),
{
    StatusInfo { message: "Setting up network connection…".to_owned(), copyable: None }
}

/// What is said about a fresh ticket.
pub open spec fn ticket_message(has_relay: bool) -> Seq<char> {
    if has_relay {
        "Share this ticket with your peer. Waiting for connection…"@
    } else {
        "⚠ No relay server (local connections only). Share this ticket:"@
    }
}

/// The status to show for the ticket of this endpoint: none to somebody who
/// joins a call, and none if there is no ticket.
pub fn ticket_status(joining: bool, ticket: &Option<String>, has_relay: bool) -> (r: Option<
    StatusInfo,
>)
    ensures
        status_text(r) == (match ticket {
            Some(t) if !joining => Some(
                StatusText { message: ticket_message(has_relay), copyable: Some(t@) },
            ),
            _ => None,
        }),
{
    match ticket {
        Some(t) => {
            if joining {
                return None;
            }
            let message = if has_relay {
                "Share this ticket with your peer. Waiting for connection…".to_owned()
            } else {
                "⚠ No relay server (local connections only). Share this ticket:".to_owned()
            };
            Some(StatusInfo { message, copyable: Some(t.clone()) })
        },
        None => None,
    }
}

/// The status to show for the ticket of the endpoint at `addr`.
pub fn own_ticket_status(
    joining: bool,
    ticket: &Option<String>,
    addr: &iroh::EndpointAddr,
) -> (r: Option<StatusInfo>)
    ensures
        status_text(r) == (match ticket {
            Some(t) if !joining => Some(
                StatusText {
                    message: ticket_message(addr_relays(*addr).len() > 0),
                    copyable: Some(t@),
                },
            ),
            _ => None,
        }),
{
    let urls = relay_urls(addr);
    ticket_status(joining, ticket, urls.len() > 0)
}

/// The status during the call: our ticket, so that additional peers can join via
/// us. Without a ticket it is empty.
pub fn call_status(ticket: Option<String>) -> (s: StatusInfo)
    ensures
        s@ == (StatusText {
            message: "Share this ticket to invite others."@,
            copyable: Some(
                match ticket {
                    Some(t) => t@,
                    None => Seq::<char>::empty(),
                },
            ),
        }),
{
    let copyable = match ticket {
        Some(t) => t,
        None => String::new(),
    };
    StatusInfo {
        message: "Share this ticket to invite others.".to_owned(),
        copyable: Some(copyable),
    }
}

/// Whether the status of the call is printed as well: to somebody who joins it and
/// has no terminal display to show it.
pub fn prints_call_status(joining: bool, mode: DisplayMode) -> (r: bool)
    ensures
        r == (joining && mode == DisplayMode::Window),
{
    joining && mode == DisplayMode::Window
}

/// What somebody who joins a call gets to see first.
#[derive(Debug, Clone, Copy, PartialEq, Eq, Structural)]
pub enum JoinScreen {
    /// What is there.
    Unchanged,
    /// A cleared terminal.
    Cleared,
    /// A cleared terminal, with a notice that there will be no video.
    Notice,
}

/// The screen after the ticket was read.
pub fn join_screen(joining: bool, mode: DisplayMode) -> (r: JoinScreen)
    ensures
        r == (if !joining || mode == DisplayMode::Window {
            JoinScreen::Unchanged
        } else if mode == DisplayMode::Kitty {
            JoinScreen::Cleared
        } else {
            JoinScreen::Notice
        }),
{
    if !joining {
        return JoinScreen::Unchanged;
    }
    match mode {
        DisplayMode::Window => JoinScreen::Unchanged,
        DisplayMode::Kitty => JoinScreen::Cleared,
        DisplayMode::AudioOnly => JoinScreen::Notice,
    }
}

/// The lines of the notice.
pub fn notice_lines() -> (lines: Vec<String>)
    ensures
        lines@.len() == 2,
        lines@[0]@ == "Terminal does not support Kitty graphics."@,
        lines@[1]@ == "Audio only — video will not be displayed."@,
{
    let mut lines: Vec<String> = Vec::new();
    lines.push("Terminal does not support Kitty graphics.".to_owned());
    lines.push("Audio only — video will not be displayed.".to_owned());
    lines
}

/// Law: whoever shares a ticket is told so, and is warned if nobody outside the
/// local network can use it.
pub proof fn law_ticket_message()
    ensures
        ticket_message(true) == "Share this ticket with your peer. Waiting for connection…"@,
        ticket_message(false)
            == "⚠ No relay server (local connections only). Share this ticket:"@,
        RELAY_WAIT_SECS == 10,
{
}

} // verus!
