//! Network addresses of endpoints, and how they are written.

use vstd::prelude::*;

verus! {

/// `iroh::EndpointAddr`: the identifier of an endpoint, and the relay servers
/// and IP addresses by which it can be reached.
#[verifier::external_type_specification]
#[verifier::external_body]
pub struct ExEndpointAddr(iroh::EndpointAddr);

/// The bytes of the key that identifies the endpoint: the field `id` of
/// `iroh::EndpointAddr`.
pub uninterp spec fn addr_id(addr: iroh::EndpointAddr) -> Seq<u8>;

/// The URLs that `iroh::EndpointAddr::relay_urls` lists.
pub uninterp spec fn addr_relays(addr: iroh::EndpointAddr) -> Seq<Seq<char>>;

/// The octets and ports of the IP addresses that `iroh::EndpointAddr::ip_addrs`
/// lists.
pub uninterp spec fn addr_ips(addr: iroh::EndpointAddr) -> Set<(Seq<u8>, u16)>;

/// Whether two addresses are of the same endpoint, with the same relay servers
/// and the same IP addresses and ports. They may still differ in the flow
/// information and the scope of an IPv6 address.
pub open spec fn same_place(a: iroh::EndpointAddr, b: iroh::EndpointAddr) -> bool {
    &&& addr_id(a) == addr_id(b)
    &&& addr_relays(a) == addr_relays(b)
    &&& addr_ips(a) == addr_ips(b)
}

/// Calls `iroh::EndpointAddr::relay_urls`, and writes every URL as a text.
#[verifier::external_body]
pub(crate) fn relay_urls(addr: &iroh::EndpointAddr) -> (r: Vec<String>)
    ensures
        r@.len() == addr_relays(*addr).len(),
        forall|i: int| 0 <= i < r@.len() ==> (#[trigger] r@[i])@ == addr_relays(*addr)[i],
{
    addr.relay_urls().map(|url| url.to_string()).collect()
}

/// `iroh::RelayUrl`: the URL of a relay server.
#[verifier::external_type_specification]
#[verifier::external_body]
pub struct ExRelayUrl(iroh::RelayUrl);

/// The relay server that a text is the URL of, if it is a URL.
pub uninterp spec fn relay_of(text: Seq<char>) -> Option<iroh::RelayUrl>;

/// Calls `iroh::RelayUrl::from_str`: a text that is a URL is taken as that of a
/// relay server, any other is refused. What is read from which text is named, not
/// described.
#[verifier::external_body]
pub(crate) fn parse_relay_url(text: &str) -> (r: Option<iroh::RelayUrl>)
    ensures
        r == relay_of(text@),
{
    text.parse::<iroh::RelayUrl>().ok()
}

/// The text of a relay server's URL.
pub uninterp spec fn relay_text(url: iroh::RelayUrl) -> Seq<char>;

/// Calls `to_string` on an `iroh::RelayUrl`, whose result is [`relay_text`] of the
/// URL.
#[verifier::external_body]
fn relay_url_text(url: &iroh::RelayUrl) -> (r: String)
    ensures
        r@ == relay_text(*url),
{
    url.to_string()
}

/// Whether a text is the URL of a relay server, and is what this URL is written
/// as.
pub open spec fn parses_back(text: Seq<char>) -> bool {
    relay_of(text) matches Some(url) && relay_text(url) == text
}

/// Whether the relay servers of an address can be read from what is written for
/// them. URLs can be made whose text is that of another URL, or of none: one whose
/// path ends in a space, which a parser drops.
pub open spec fn relays_parse_back(addr: iroh::EndpointAddr) -> bool {
    forall|i: int|
        0 <= i < addr_relays(addr).len() ==> parses_back(#[trigger] addr_relays(addr)[i])
}

/// Whether an address can be handed on with its relay servers.
pub fn keeps_relays(addr: &iroh::EndpointAddr) -> (r: bool)
    ensures
        r == relays_parse_back(*addr),
{
    let urls = relay_urls(addr);
    let mut i: usize = 0;
    while i < urls.len()
        invariant
            i <= urls@.len(),
            urls@.len() == addr_relays(*addr).len(),
            forall|k: int|
                0 <= k < urls@.len() ==> (#[trigger] urls@[k])@ == addr_relays(*addr)[k],
            forall|k: int| 0 <= k < i ==> parses_back(#[trigger] addr_relays(*addr)[k]),
        decreases urls@.len() - i,
    {
        let text = urls[i].as_str();
        let same = match parse_relay_url(text) {
            Some(url) => relay_url_text(&url) == text.to_owned(),
            None => false,
        };
        assert(same == parses_back(addr_relays(*addr)[i as int]));
        if !same {
            return false;
        }
        i = i + 1;
    }
    true
}

/// The JSON that is written for an address, if it can be written.
pub uninterp spec fn addr_json(addr: iroh::EndpointAddr) -> Option<Seq<u8>>;

/// The address that JSON stands for, if it stands for one.
pub uninterp spec fn json_addr(json: Seq<u8>) -> Option<iroh::EndpointAddr>;

/// Calls `serde_json::to_vec`, whose result is [`addr_json`] of the address. Where
/// the texts of its relay servers parse back to themselves, what is read back from
/// it is in the same place. That it is the same address is not said: the flow
/// information of an IPv6 address is not written.
#[verifier::external_body]
pub(crate) fn write_json(addr: &iroh::EndpointAddr) -> (r: Option<Vec<u8>>)
    ensures
        match r {
            Some(json) => {
                &&& addr_json(*addr) == Some(json@)
                &&& relays_parse_back(*addr) ==> {
                    &&& json_addr(json@) matches Some(back)
                    &&& addr_id(back) == addr_id(*addr)
                    &&& addr_relays(back) == addr_relays(*addr)
                    &&& addr_ips(back) == addr_ips(*addr)
                }
            },
            None => addr_json(*addr) is None,
        },
{
    serde_json::to_vec(addr).ok()
}

/// Calls `serde_json::from_slice`, whose result is [`json_addr`] of the bytes.
#[verifier::external_body]
pub(crate) fn read_json(json: &[u8]) -> (r: Option<iroh::EndpointAddr>)
    ensures
        r == json_addr(json@),
{
    serde_json::from_slice(json).ok()
}

/// The address that is read from the JSON written for an address.
pub open spec fn after_json(addr: iroh::EndpointAddr) -> Option<iroh::EndpointAddr> {
    match addr_json(addr) {
        Some(json) => json_addr(json),
        None => None,
    }
}

/// Whether an address arrives in its JSON: what is read is in the same place.
pub open spec fn arrives_in_json(addr: iroh::EndpointAddr) -> bool {
    after_json(addr) matches Some(back) && same_place(back, addr)
}

/// The postcard encoding of an address, if it can be encoded.
pub uninterp spec fn addr_postcard(addr: iroh::EndpointAddr) -> Option<Seq<u8>>;

/// The address whose postcard encoding the bytes begin with, if there is one.
pub uninterp spec fn postcard_addr(bytes: Seq<u8>) -> Option<iroh::EndpointAddr>;

/// Calls `postcard::to_stdvec`, whose result is [`addr_postcard`] of the address.
/// Where the texts of its relay servers parse back to themselves, what is read back
/// from it is in the same place. That it is the same address is not said: the flow
/// information and the scope of an IPv6 address are not encoded.
#[verifier::external_body]
pub(crate) fn write_postcard(addr: &iroh::EndpointAddr) -> (r: Option<Vec<u8>>)
    ensures
        match r {
            Some(bytes) => {
                &&& addr_postcard(*addr) == Some(bytes@)
                &&& relays_parse_back(*addr) ==> {
                    &&& postcard_addr(bytes@) matches Some(back)
                    &&& addr_id(back) == addr_id(*addr)
                    &&& addr_relays(back) == addr_relays(*addr)
                    &&& addr_ips(back) == addr_ips(*addr)
                }
            },
            None => addr_postcard(*addr) is None,
        },
{
    postcard::to_stdvec(addr).ok()
}

/// Calls `postcard::from_bytes`, whose result is [`postcard_addr`] of the bytes.
#[verifier::external_body]
pub(crate) fn read_postcard(bytes: &[u8]) -> (r: Option<iroh::EndpointAddr>)
    ensures
        r == postcard_addr(bytes@),
{
    postcard::from_bytes(bytes).ok()
}

/// The address that is read from the encoding of an address.
pub open spec fn after_postcard(addr: iroh::EndpointAddr) -> Option<iroh::EndpointAddr> {
    match addr_postcard(addr) {
        Some(bytes) => postcard_addr(bytes),
        None => None,
    }
}

/// Whether an address arrives in its encoding: what is read is in the same place.
pub open spec fn arrives_in_postcard(addr: iroh::EndpointAddr) -> bool {
    after_postcard(addr) matches Some(back) && same_place(back, addr)
}

/// Law: two addresses are in the same place exactly if they have the same key, the
/// same relay servers and the same IP addresses, and an address arrives exactly if
/// what is read for it is in its place.
pub proof fn law_same_place(a: iroh::EndpointAddr, b: iroh::EndpointAddr)
    ensures
        same_place(a, b) <==> addr_id(a) == addr_id(b) && addr_relays(a) == addr_relays(b)
            && addr_ips(a) == addr_ips(b),
        addr_json(a) is Some && json_addr(addr_json(a)->0) == Some(b) ==> (arrives_in_json(a)
            <==> same_place(b, a)),
        addr_postcard(a) is Some && postcard_addr(addr_postcard(a)->0) == Some(b) ==> (
        arrives_in_postcard(a) <==> same_place(b, a)),
        addr_json(a) is None ==> !arrives_in_json(a),
        addr_postcard(a) is None ==> !arrives_in_postcard(a),
{
}

/// Law: the relay servers of an address parse back exactly if each of their texts is
/// a URL that is written as this text.
pub proof fn law_relays_parse_back(addr: iroh::EndpointAddr, i: int)
    requires
        0 <= i < addr_relays(addr).len(),
        relays_parse_back(addr),
    ensures
        ({
            let text = addr_relays(addr)[i];
            &&& relay_of(text) is Some
            &&& relay_text(relay_of(text)->0) == text
        }),
{
    assert(parses_back(addr_relays(addr)[i]));
}

} // verus!
