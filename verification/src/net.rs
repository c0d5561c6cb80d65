//! Tickets, and the settings of the network endpoint.

use vstd::prelude::*;

use crate::addr::{
    addr_postcard, after_postcard, arrives_in_postcard, parse_relay_url, postcard_addr,
    read_postcard, relay_of, relays_parse_back, write_postcard,
};
use crate::b64::{
    ascii, base64_of, law_spelling_unique, lemma_first_and_last, spells, url_safe_decode,
    url_safe_encode, Alphabet,
};
use crate::text::{all_space, lemma_trimmed, lemma_trimmed_space, trim, trimmed};

verus! {

/// ALPN protocol identifier.
pub const ALPN: &'static str = "vc/1";

/// Host status updates during connection setup.
#[derive(Debug, Clone)]
pub enum HostStatus {
    /// Ticket is ready to share.
    Ticket(String),
    /// Waiting for a peer to connect.
    Waiting,
    /// A peer has connected.
    Connected,
}

// ---------------------------------------------------------------------------
// Tickets
// ---------------------------------------------------------------------------
//
// A ticket is the base64 text of an endpoint address in postcard encoding.
/// Why there is no ticket, or why a text is none.
#[derive(Debug, Clone, Copy, PartialEq, Eq, Structural)]
pub enum TicketError {
    /// The address cannot be encoded.
    NotEncodable,
    /// The text is not base64.
    NotBase64,
    /// The text does not hold an endpoint address.
    NotAddress,
}

/// Whether `ticket` is the ticket of an address.
pub open spec fn is_ticket(ticket: Seq<char>, addr: iroh::EndpointAddr) -> bool {
    addr_postcard(addr) matches Some(bytes) && spells(ticket, bytes, Alphabet::UrlSafe)
}

/// Whether `ticket`, with or without whitespace around it, holds these bytes.
pub open spec fn holds_bytes(ticket: Seq<char>, bytes: Seq<u8>) -> bool {
    spells(trimmed(ticket), bytes, Alphabet::UrlSafe)
}

/// Whether `ticket` holds the encoding of an address.
pub open spec fn leads_to(ticket: Seq<char>, addr: iroh::EndpointAddr) -> bool {
    exists|bytes: Seq<u8>| #[trigger]
        holds_bytes(ticket, bytes) && postcard_addr(bytes) == Some(addr)
}

/// Serialize an address to a shareable ticket string (postcard-encoded,
/// base64url).
fn addr_to_ticket(addr: &iroh::EndpointAddr) -> (r: Result<String, TicketError>)
    ensures
        match r {
            Ok(ticket) => {
                &&& is_ticket(ticket@, *addr)
                &&& relays_parse_back(*addr) ==> arrives_in_postcard(*addr)
            },
            Err(e) => e == TicketError::NotEncodable && addr_postcard(*addr) is None,
        },
{
    match write_postcard(addr) {
        Some(bytes) => Ok(url_safe_encode(bytes.as_slice())),
        None => Err(TicketError::NotEncodable),
    }
}

/// Serialize an address to a ticket string.
pub fn addr_to_ticket_public(addr: &iroh::EndpointAddr) -> (r: Result<String, TicketError>)
    ensures
        match r {
            Ok(ticket) => {
                &&& is_ticket(ticket@, *addr)
                &&& relays_parse_back(*addr) ==> arrives_in_postcard(*addr)
            },
            Err(e) => e == TicketError::NotEncodable && addr_postcard(*addr) is None,
        },
{
    addr_to_ticket(addr)
}

/// The bytes in a ticket string. Whitespace around it is ignored.
pub fn ticket_to_bytes(ticket: &str) -> (r: Option<Vec<u8>>)
    ensures
        match r {
            Some(bytes) => holds_bytes(ticket@, bytes@),
            None => forall|bytes: Seq<u8>| !holds_bytes(ticket@, bytes),
        },
{
    url_safe_decode(trim(ticket))
}

/// Deserialize an address from a ticket string. Whitespace around it is ignored.
pub fn ticket_to_addr(ticket: &str) -> (r: Result<iroh::EndpointAddr, TicketError>)
    ensures
        match r {
            Ok(addr) => leads_to(ticket@, addr),
            Err(TicketError::NotBase64) => forall|bytes: Seq<u8>| !holds_bytes(ticket@, bytes),
            Err(TicketError::NotAddress) => exists|bytes: Seq<u8>| #[trigger]
                holds_bytes(ticket@, bytes) && postcard_addr(bytes) is None,
            Err(TicketError::NotEncodable) => false,
        },
{
    match ticket_to_bytes(ticket) {
        None => Err(TicketError::NotBase64),
        Some(bytes) => match read_postcard(bytes.as_slice()) {
            Some(addr) => Ok(addr),
            None => Err(TicketError::NotAddress),
        },
    }
}

/// A ticket, also with whitespace around it, holds the encoding of its address,
/// and no other bytes.
proof fn lemma_ticket_bytes(
    before: Seq<char>,
    ticket: Seq<char>,
    after: Seq<char>,
    addr: iroh::EndpointAddr,
    found: Seq<u8>,
)
    requires
        all_space(before),
        all_space(after),
        is_ticket(ticket, addr),
    ensures
        holds_bytes(before + ticket + after, found) <==> addr_postcard(addr) == Some(found),
{
    let bytes = addr_postcard(addr)->0;
    if bytes.len() > 0 {
        lemma_first_and_last(bytes, Alphabet::UrlSafe);
        lemma_trimmed(before, ticket, after);
    } else {
        assert(ticket =~= Seq::<char>::empty());
        lemma_trimmed_space(before + ticket + after);
    }
    if holds_bytes(before + ticket + after, found) {
        law_spelling_unique(ticket, found, bytes, Alphabet::UrlSafe);
    }
}

/// Law: a ticket, with whitespace around it or without, leads to the one address
/// that is read from the encoding of the address it was made from. Where a ticket
/// was made and the texts of the relay servers parse back to themselves, that one
/// is in the same place.
pub proof fn law_ticket_roundtrip(
    before: Seq<char>,
    ticket: Seq<char>,
    after: Seq<char>,
    addr: iroh::EndpointAddr,
    found: iroh::EndpointAddr,
)
    requires
        all_space(before),
        all_space(after),
        is_ticket(ticket, addr),
    ensures
        leads_to(before + ticket + after, found) <==> after_postcard(addr) == Some(found),
{
    let text = before + ticket + after;
    let bytes = addr_postcard(addr)->0;
    lemma_ticket_bytes(before, ticket, after, addr, bytes);
    assert(holds_bytes(text, bytes));
    assert forall|b: Seq<u8>| holds_bytes(text, b) implies b == bytes by {
        lemma_ticket_bytes(before, ticket, after, addr, b);
    }
}

// ---------------------------------------------------------------------------
// Relays
// ---------------------------------------------------------------------------
/// Which relay servers an endpoint uses.
#[derive(Debug)]
pub enum RelayChoice {
    /// The network's production relays.
    Default,
    /// None at all.
    Disabled,
    /// A single server.
    Custom(iroh::RelayUrl),
}

/// Why relay servers cannot be chosen.
#[derive(Debug, Clone, Copy, PartialEq, Eq, Structural)]
pub enum RelayError {
    /// What was given for the URL of the server is none.
    InvalidUrl,
}

/// The choice of a single server, once its URL was parsed.
pub open spec fn custom_choice(parsed: Option<iroh::RelayUrl>) -> Result<RelayChoice, RelayError> {
    match parsed {
        Some(url) => Ok(RelayChoice::Custom(url)),
        None => Err(RelayError::InvalidUrl),
    }
}

/// Choose a single server, once its URL was parsed.
pub fn custom_relay(parsed: Option<iroh::RelayUrl>) -> (r: Result<RelayChoice, RelayError>)
    ensures
        r == custom_choice(parsed),
{
    match parsed {
        Some(url) => Ok(RelayChoice::Custom(url)),
        None => Err(RelayError::InvalidUrl),
    }
}

/// Choose the relay servers. To use none takes precedence over a URL, which is
/// then not looked at.
pub fn relay_choice(relay_url: Option<&str>, no_relay: bool) -> (r: Result<RelayChoice, RelayError>)
    ensures
        r == (if no_relay {
            Ok(RelayChoice::Disabled)
        } else {
            match relay_url {
                Some(url) => custom_choice(relay_of(url@)),
                None => Ok(RelayChoice::Default),
            }
        }),
{
    if no_relay {
        Ok(RelayChoice::Disabled)
    } else {
        match relay_url {
            Some(url) => custom_relay(parse_relay_url(url)),
            None => Ok(RelayChoice::Default),
        }
    }
}

/// Law: whoever holds a ticket holds the base64 text, without padding, of the
/// encoding of the address; a server of one's own is used exactly if its URL is one.
pub proof fn law_tickets_and_relays(
    ticket: Seq<char>,
    addr: iroh::EndpointAddr,
    url: iroh::RelayUrl,
)
    ensures
        is_ticket(ticket, addr) <==> addr_postcard(addr) is Some && ticket == ascii(
            base64_of(addr_postcard(addr)->0, Alphabet::UrlSafe),
        ),
        custom_choice(Some(url)) == Ok::<_, RelayError>(RelayChoice::Custom(url)),
        custom_choice(None) == Err::<RelayChoice, _>(RelayError::InvalidUrl),
        ALPN@ == "vc/1"@,
{
}

/// Law: a text leads to an address exactly if, without the whitespace around it, it
/// is the base64 text of bytes that this address is read from.
pub proof fn law_leads_to(ticket: Seq<char>, bytes: Seq<u8>, addr: iroh::EndpointAddr)
    requires
        trimmed(ticket) == ascii(base64_of(bytes, Alphabet::UrlSafe)),
    ensures
        holds_bytes(ticket, bytes),
        leads_to(ticket, addr) <==> postcard_addr(bytes) == Some(addr),
{
    assert(holds_bytes(ticket, bytes));
    if leads_to(ticket, addr) {
        let b = choose|b: Seq<u8>| #[trigger]
            holds_bytes(ticket, b) && postcard_addr(b) == Some(addr);
        law_spelling_unique(trimmed(ticket), b, bytes, Alphabet::UrlSafe);
    }
}

} // verus!
