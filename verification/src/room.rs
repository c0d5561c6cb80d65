//! Membership of a call: who is in it, and who connects to whom.

use vstd::prelude::*;

use crate::addr::{
    addr_json, after_json, arrives_in_json, json_addr, read_json, relays_parse_back, same_place,
    write_json,
};
use crate::b64::{
    ascii, base64_of, law_spelling_unique, spells, standard_decode, standard_encode, Alphabet,
};
use crate::bandwidth::BandwidthEvent;
use crate::control::{ControlMessage, PeerInfo, STREAM_TYPE_CONTROL};
use crate::video_compositor::ConnectionKind;
use crate::wire::same_bytes;

verus! {

/// How often each peer broadcasts its full peer list to all control channels.
pub const PEER_LIST_INTERVAL_SECS: u64 = 5;

/// Interval at which each peer sends congestion feedback to its remote.
pub const FEEDBACK_INTERVAL_SECS: u64 = 1;

// ---------------------------------------------------------------------------
// Peer identifiers
// ---------------------------------------------------------------------------
/// Peer identifier: the bytes of an Ed25519 public key.
#[derive(Debug, Clone, Copy, PartialEq, Eq, Hash)]
pub struct PeerId {
    bytes: [u8; 32],
}

impl View for PeerId {
    type V = Seq<u8>;

    closed spec fn view(&self) -> Seq<u8> {
        self.bytes@
    }
}

/// Whether `a` comes before `b` in lexicographic order; both are equally long.
pub open spec fn lex_before(a: Seq<u8>, b: Seq<u8>) -> bool {
    exists|k: int|
        0 <= k < a.len() && #[trigger] a[k] < b[k] && forall|j: int| 0 <= j < k ==> a[j] == b[j]
}

impl PeerId {
    pub fn from_bytes(bytes: [u8; 32]) -> (id: PeerId)
        ensures
            id@ == bytes@,
    {
        PeerId { bytes }
    }

    pub fn as_bytes(&self) -> (r: &[u8; 32])
        ensures
            r@ == self@,
    {
        &self.bytes
    }

    /// Whether two peers are the same one.
    pub fn same(&self, other: &PeerId) -> (r: bool)
        ensures
            r == (self@ == other@),
    {
        same_bytes(self.bytes.as_slice(), other.bytes.as_slice())
    }

    /// Whether this identifier is lexicographically smaller.
    pub fn before(&self, other: &PeerId) -> (r: bool)
        ensures
            r == lex_before(self@, other@),
    {
        let a = self.bytes.as_slice();
        let b = other.bytes.as_slice();
        let mut i: usize = 0;
        while i < 32
            invariant
                i <= 32,
                a@ == self@,
                b@ == other@,
                a@.len() == 32,
                b@.len() == 32,
                forall|j: int| 0 <= j < i ==> a@[j] == b@[j],
            decreases 32 - i,
        {
            if a[i] < b[i] {
                assert(self@[i as int] < other@[i as int]);
                return true;
            }
            if a[i] > b[i] {
                proof {
                    assert forall|k: int|
                        0 <= k < 32 && self@[k] < other@[k] implies !(forall|j: int|
                        0 <= j < k ==> self@[j] == other@[j]) by {
                        assert(k > i);
                        assert(self@[i as int] != other@[i as int]);
                    }
                }
                return false;
            }
            i = i + 1;
        }
        false
    }

    /// Every identifier has 32 bytes.
    pub proof fn lemma_len(self)
        ensures
            self@.len() == 32,
    {
    }
}

/// The hexadecimal digit of `n`.
pub open spec fn hex_char(n: int) -> char {
    if n < 10 {
        (48 + n) as char
    } else {
        (97 + n - 10) as char
    }
}

/// Two lower case hexadecimal digits per byte.
pub open spec fn hex(s: Seq<u8>) -> Seq<char>
    decreases s.len(),
{
    if s.len() == 0 {
        Seq::empty()
    } else {
        hex(s.drop_last()).push(hex_char(s.last() as int / 16)).push(hex_char(s.last() as int % 16))
    }
}

fn hex_digit(n: u8) -> (r: &'static str)
    requires
        n < 16,
    ensures
        r@ == seq![hex_char(n as int)],
{
    proof {
        reveal_strlit("0");
        reveal_strlit("1");
        reveal_strlit("2");
        reveal_strlit("3");
        reveal_strlit("4");
        reveal_strlit("5");
        reveal_strlit("6");
        reveal_strlit("7");
        reveal_strlit("8");
        reveal_strlit("9");
        reveal_strlit("a");
        reveal_strlit("b");
        reveal_strlit("c");
        reveal_strlit("d");
        reveal_strlit("e");
        reveal_strlit("f");
    }
    let r = match n {
        0 => "0",
        1 => "1",
        2 => "2",
        3 => "3",
        4 => "4",
        5 => "5",
        6 => "6",
        7 => "7",
        8 => "8",
        9 => "9",
        10 => "a",
        11 => "b",
        12 => "c",
        13 => "d",
        14 => "e",
        _ => "f",
    };
    assert(r@ =~= seq![hex_char(n as int)]);
    r
}

/// The text form of an identifier: lower case hexadecimal.
pub fn peer_id_to_string(id: &PeerId) -> (r: String)
    ensures
        r@ == hex(id@),
{
    let bytes = id.bytes.as_slice();
    let mut out = String::new();
    let mut i: usize = 0;
    assert(bytes@.take(0) =~= Seq::empty());
    while i < bytes.len()
        invariant
            i <= bytes@.len(),
            out@ == hex(bytes@.take(i as int)),
        decreases bytes@.len() - i,
    {
        let b: u8 = bytes[i];
        out.append(hex_digit(b / 16));
        out.append(hex_digit(b % 16));
        proof {
            let t = bytes@.take(i + 1);
            assert(t.drop_last() =~= bytes@.take(i as int));
            assert(out@ =~= hex(t));
        }
        i = i + 1;
    }
    assert(bytes@.take(bytes@.len() as int) =~= bytes@);
    out
}

/// The bytes of the public key that a text stands for, if it stands for one.
pub uninterp spec fn key_of(s: Seq<char>) -> Option<Seq<u8>>;

/// Calls `iroh::PublicKey::from_str`, whose result is [`key_of`] the text. Of it
/// is said that the lower case hexadecimal form of a key is read back as that
/// key.
#[verifier::external_body]
fn parse_key(s: &str) -> (r: Option<[u8; 32]>)
    ensures
        match r {
            Some(bytes) => {
                &&& key_of(s@) == Some(bytes@)
                &&& key_of(hex(bytes@)) == Some(bytes@)
            },
            None => key_of(s@) is None,
        },
{
    s.parse::<iroh::PublicKey>().ok().map(|k| *k.as_bytes())
}

/// Read an identifier from its text form.
pub fn parse_peer_id(s: &str) -> (r: Option<PeerId>)
    ensures
        match r {
            Some(id) => {
                &&& key_of(s@) == Some(id@)
                &&& key_of(hex(id@)) == Some(id@)
            },
            None => key_of(s@) is None,
        },
{
    match parse_key(s) {
        Some(bytes) => Some(PeerId::from_bytes(bytes)),
        None => None,
    }
}

/// Determine which side initiates the connection when two peers discover
/// each other. The peer with the lexicographically smaller public key
/// connects; the other waits.
pub fn should_initiate(our_id: &PeerId, their_id: &PeerId) -> (r: bool)
    ensures
        r == lex_before(our_id@, their_id@),
{
    our_id.before(their_id)
}

/// Law: of two peers that discover each other exactly one connects.
pub proof fn law_one_side_initiates(a: Seq<u8>, b: Seq<u8>)
    requires
        a.len() == b.len(),
        a != b,
    ensures
        lex_before(a, b) != lex_before(b, a),
{
    let k = lemma_first_difference(a, b, 0);
    if a[k] < b[k] {
        assert(lex_before(a, b));
        assert forall|m: int|
            0 <= m < b.len() && b[m] < a[m] implies !(forall|j: int|
            0 <= j < m ==> b[j] == a[j]) by {
            if m < k {
                assert(a[m] == b[m]);
            } else {
                assert(m > k);
                assert(b[k] != a[k]);
            }
        }
    } else {
        assert(b[k] < a[k]);
        assert(lex_before(b, a));
        assert forall|m: int|
            0 <= m < a.len() && a[m] < b[m] implies !(forall|j: int|
            0 <= j < m ==> a[j] == b[j]) by {
            if m < k {
                assert(a[m] == b[m]);
            } else {
                assert(m > k);
                assert(b[k] != a[k]);
            }
        }
    }
}

/// Where two byte strings of one length first differ.
proof fn lemma_first_difference(a: Seq<u8>, b: Seq<u8>, from: int) -> (k: int)
    requires
        a.len() == b.len(),
        a != b,
        0 <= from <= a.len(),
        forall|j: int| 0 <= j < from ==> a[j] == b[j],
    ensures
        0 <= k < a.len(),
        a[k] != b[k],
        forall|j: int| 0 <= j < k ==> a[j] == b[j],
    decreases a.len() - from,
{
    if from == a.len() {
        assert(a =~= b);
        from
    } else if a[from] != b[from] {
        from
    } else {
        lemma_first_difference(a, b, from + 1)
    }
}

// ---------------------------------------------------------------------------
// Addresses
// ---------------------------------------------------------------------------
/// Whether an address can be written as JSON.
pub open spec fn is_writable(addr: iroh::EndpointAddr) -> bool {
    addr_json(addr) is Some
}

/// The text form of an address that can be written: the base64 of its JSON.
pub open spec fn addr_text(addr: iroh::EndpointAddr) -> Seq<char> {
    ascii(base64_of(addr_json(addr)->0, Alphabet::Standard))
}

/// The text form of an address, if it can be written.
pub fn addr_to_string(addr: &iroh::EndpointAddr) -> (r: Option<String>)
    ensures
        r is Some == is_writable(*addr),
        r matches Some(s) ==> {
            &&& s@ == addr_text(*addr)
            &&& relays_parse_back(*addr) ==> arrives_in_json(*addr)
        },
{
    match write_json(addr) {
        Some(json) => Some(standard_encode(json.as_slice())),
        None => None,
    }
}

/// The address that a text stands for, if it stands for one.
pub open spec fn addr_of(s: Seq<char>) -> Option<iroh::EndpointAddr> {
    if exists|json: Seq<u8>| spells(s, json, Alphabet::Standard) {
        json_addr(choose|json: Seq<u8>| spells(s, json, Alphabet::Standard))
    } else {
        None
    }
}

/// Read an address from its text form.
pub fn string_to_addr(s: &str) -> (r: Option<iroh::EndpointAddr>)
    ensures
        r == addr_of(s@),
{
    match standard_decode(s) {
        Some(json) => {
            proof {
                law_addr_spelled(s@, json@);
            }
            read_json(json.as_slice())
        },
        None => None,
    }
}

/// Law: a text that spells JSON stands for the address that is read from this
/// JSON.
pub proof fn law_addr_spelled(s: Seq<char>, json: Seq<u8>)
    requires
        spells(s, json, Alphabet::Standard),
    ensures
        addr_of(s) == json_addr(json),
{
    let j = choose|j: Seq<u8>| spells(s, j, Alphabet::Standard);
    assert(spells(s, j, Alphabet::Standard));
    law_spelling_unique(s, j, json, Alphabet::Standard);
}

/// Law: the text form of an address stands for the address that is read from its
/// JSON. Where the text was made and the texts of the relay servers parse back to
/// themselves, that one is in the same place.
pub proof fn law_addr_roundtrip(addr: iroh::EndpointAddr)
    requires
        is_writable(addr),
    ensures
        addr_of(addr_text(addr)) == after_json(addr),
{
    law_addr_spelled(addr_text(addr), addr_json(addr)->0);
}

// ---------------------------------------------------------------------------
// The roster
// ---------------------------------------------------------------------------
/// What is known of a remote peer.
pub struct PeerEntry {
    pub id: PeerId,
    pub addr: iroh::EndpointAddr,
    /// Display name received from this peer (via Hello or PeerList).
    pub name: String,
}

/// A peer, as contracts see it.
pub struct Member {
    pub id: Seq<u8>,
    pub addr: iroh::EndpointAddr,
    pub name: Seq<char>,
}

impl View for PeerEntry {
    type V = Member;

    open spec fn view(&self) -> Member {
        Member { id: self.id@, addr: self.addr, name: self.name@ }
    }
}

/// The peers of a list.
pub open spec fn members(peers: Seq<PeerEntry>) -> Seq<Member> {
    peers.map(|_i: int, p: PeerEntry| p@)
}

/// Whether `list` holds a peer with this identifier.
pub open spec fn has_member(list: Seq<Member>, id: Seq<u8>) -> bool {
    exists|i: int| 0 <= i < list.len() && (#[trigger] list[i]).id == id
}

/// Whether all addresses in `list` can be written.
pub open spec fn all_writable(list: Seq<Member>) -> bool {
    forall|i: int| 0 <= i < list.len() ==> is_writable((#[trigger] list[i]).addr)
}

/// Whether no peer stands in `list` twice.
pub open spec fn distinct(list: Seq<Member>) -> bool {
    forall|i: int, j: int|
        0 <= i < j < list.len() ==> (#[trigger] list[i]).id != (#[trigger] list[j]).id
}

/// What to do about an entry of a received peer list.
pub enum PeerAction {
    /// Nothing.
    Ignore,
    /// A known peer has another name.
    Rename { id: PeerId, name: String },
    /// Connect to a peer that is not known yet.
    Connect { id: PeerId, addr: iroh::EndpointAddr },
}

/// What to do about an entry, as contracts see it.
pub enum Advice {
    Ignore,
    /// The peer at this index has another name.
    Rename { index: int },
    Connect { id: Seq<u8>, addr: iroh::EndpointAddr },
}

/// An entry of a peer list, as contracts see it.
pub struct Listing {
    pub peer_id: Seq<char>,
    pub addr: Seq<char>,
    pub name: Seq<char>,
}

impl View for PeerInfo {
    type V = Listing;

    open spec fn view(&self) -> Listing {
        Listing { peer_id: self.peer_id@, addr: self.addr@, name: self.name@ }
    }
}

/// The peers of a call, ourselves aside.
pub struct Roster {
    our_id: PeerId,
    our_name: String,
    peers: Vec<PeerEntry>,
}

impl View for Roster {
    type V = Seq<Member>;

    closed spec fn view(&self) -> Seq<Member> {
        members(self.peers@)
    }
}

/// The place of the peer `id` in `list`.
pub open spec fn index_of(list: Seq<Member>, id: Seq<u8>) -> int {
    choose|i: int| 0 <= i < list.len() && (#[trigger] list[i]).id == id
}

/// What a participant `our_id` that knows `list` does about an entry. An entry
/// whose identifier or address cannot be read, or that is about ourselves, is
/// passed over.
pub open spec fn advice(list: Seq<Member>, our_id: Seq<u8>, info: Listing) -> Advice {
    match key_of(info.peer_id) {
        None => Advice::Ignore,
        Some(id) => if id == our_id {
            Advice::Ignore
        } else if has_member(list, id) {
            let i = index_of(list, id);
            if info.name.len() > 0 && list[i].name != info.name {
                Advice::Rename { index: i }
            } else {
                Advice::Ignore
            }
        } else {
            match addr_of(info.addr) {
                Some(addr) if lex_before(our_id, id) => Advice::Connect { id, addr },
                _ => Advice::Ignore,
            }
        },
    }
}

impl Roster {
    pub closed spec fn our_id(self) -> Seq<u8> {
        self.our_id@
    }

    pub closed spec fn our_name(self) -> Seq<char> {
        self.our_name@
    }

    /// No peer is listed twice.
    pub open spec fn wf(self) -> bool {
        distinct(self@)
    }

    /// A call with nobody else in it.
    pub fn new(our_id: PeerId, our_name: String) -> (r: Roster)
        ensures
            r.wf(),
            r.our_id() == our_id@,
            r.our_name() == our_name@,
            r@ == Seq::<Member>::empty(),
    {
        let r = Roster { our_id, our_name, peers: Vec::new() };
        assert(r@ =~= Seq::<Member>::empty());
        r
    }

    /// Number of connected peers.
    pub fn peer_count(&self) -> (n: usize)
        ensures
            n == self@.len(),
    {
        self.peers.len()
    }

    /// Where a peer stands in the list.
    fn find(&self, id: &PeerId) -> (r: Option<usize>)
        requires
            self.wf(),
        ensures
            match r {
                Some(i) => {
                    &&& i < self@.len()
                    &&& self@[i as int].id == id@
                    &&& has_member(self@, id@)
                    &&& i == index_of(self@, id@)
                },
                None => !has_member(self@, id@),
            },
    {
        let mut i: usize = 0;
        while i < self.peers.len()
            invariant
                i <= self.peers@.len(),
                self.wf(),
                forall|k: int| 0 <= k < i ==> (#[trigger] self@[k]).id != id@,
            decreases self.peers@.len() - i,
        {
            if self.peers[i].id.same(id) {
                assert(self@[i as int].id == id@);
                return Some(i);
            }
            assert(self@[i as int].id != id@);
            i = i + 1;
        }
        None
    }

    /// Whether a peer is in the call.
    pub fn contains(&self, id: &PeerId) -> (r: bool)
        requires
            self.wf(),
        ensures
            r == has_member(self@, id@),
    {
        self.find(id).is_some()
    }

    /// Add a peer that connected. One that is in the call already is not added
    /// again; returns whether it was added.
    pub fn add_peer(&mut self, id: PeerId, addr: iroh::EndpointAddr, name: String) -> (added: bool)
        requires
            old(self).wf(),
        ensures
            final(self).wf(),
            final(self).our_id() == old(self).our_id(),
            final(self).our_name() == old(self).our_name(),
            added == !has_member(old(self)@, id@),
            final(self)@ == (if added {
                old(self)@.push(Member { id: id@, addr, name: name@ })
            } else {
                old(self)@
            }),
    {
        if self.find(&id).is_some() {
            return false;
        }
        let ghost entry = PeerEntry { id, addr, name };
        let ghost before = self@;
        self.peers.push(PeerEntry { id, addr, name });
        proof {
            assert(self@ =~= before.push(entry@));
            assert forall|i: int, j: int| 0 <= i < j < self@.len() implies (
            #[trigger] self@[i]).id != (#[trigger] self@[j]).id by {
                assert(self@[i] == before[i]);
                if j < before.len() {
                    assert(self@[j] == before[j]);
                }
            }
        }
        true
    }

    /// Remove a peer that disconnected. Returns whether it was in the call.
    pub fn remove_peer(&mut self, id: &PeerId) -> (removed: bool)
        requires
            old(self).wf(),
        ensures
            final(self).wf(),
            final(self).our_id() == old(self).our_id(),
            final(self).our_name() == old(self).our_name(),
            removed == has_member(old(self)@, id@),
            final(self)@ == (if removed {
                old(self)@.remove(index_of(old(self)@, id@))
            } else {
                old(self)@
            }),
            !has_member(final(self)@, id@),
    {
        match self.find(id) {
            Some(i) => {
                let ghost before = self@;
                self.peers.remove(i);
                proof {
                    assert(self@ =~= before.remove(i as int));
                    assert forall|a: int, b: int| 0 <= a < b < self@.len() implies (
                    #[trigger] self@[a]).id != (#[trigger] self@[b]).id by {
                        let a0 = if a < i {
                            a
                        } else {
                            a + 1
                        };
                        let b0 = if b < i {
                            b
                        } else {
                            b + 1
                        };
                        assert(self@[a] == before[a0]);
                        assert(self@[b] == before[b0]);
                    }
                    assert forall|a: int| 0 <= a < self@.len() implies (#[trigger] self@[a]).id
                        != id@ by {
                        let a0 = if a < i {
                            a
                        } else {
                            a + 1
                        };
                        assert(self@[a] == before[a0]);
                        assert(before[i as int].id == id@);
                    }
                }
                true
            },
            None => false,
        }
    }

    /// The entries of a peer list: ourselves, then every connected peer. There is
    /// none if an address cannot be written.
    pub fn build_peer_list(&self, our_addr: &iroh::EndpointAddr) -> (r: Option<Vec<PeerInfo>>)
        ensures
            r is Some == (is_writable(*our_addr) && all_writable(self@)),
            r matches Some(list) ==> {
                &&& list@.len() == self@.len() + 1
                &&& list@[0]@ == listing_of(
                    Member { id: self.our_id(), addr: *our_addr, name: self.our_name() },
                )
                &&& forall|i: int|
                    0 <= i < self@.len() ==> (#[trigger] list@[i + 1])@ == listing_of(self@[i])
                &&& relays_parse_back(*our_addr) ==> arrives_in_json(*our_addr)
                &&& forall|i: int|
                    0 <= i < self@.len() && relays_parse_back((#[trigger] self@[i]).addr)
                        ==> arrives_in_json(self@[i].addr)
            },
    {
        let mut out: Vec<PeerInfo> = Vec::new();
        let our_text = match addr_to_string(our_addr) {
            Some(text) => text,
            None => {
                return None;
            },
        };
        out.push(
            PeerInfo {
                peer_id: peer_id_to_string(&self.our_id),
                addr: our_text,
                name: self.our_name.clone(),
            },
        );
        let mut i: usize = 0;
        while i < self.peers.len()
            invariant
                i <= self.peers@.len(),
                out@.len() == i + 1,
                out@[0]@ == listing_of(
                    Member { id: self.our_id(), addr: *our_addr, name: self.our_name() },
                ),
                is_writable(*our_addr),
                forall|k: int| 0 <= k < i ==> is_writable((#[trigger] self@[k]).addr),
                relays_parse_back(*our_addr) ==> arrives_in_json(*our_addr),
                forall|k: int|
                    0 <= k < i && relays_parse_back((#[trigger] self@[k]).addr) ==> arrives_in_json(
                        self@[k].addr,
                    ),
                forall|k: int| 0 <= k < i ==> (#[trigger] out@[k + 1])@ == listing_of(self@[k]),
            decreases self.peers@.len() - i,
        {
            let p = &self.peers[i];
            assert(self@[i as int] == p@);
            let text = match addr_to_string(&p.addr) {
                Some(text) => text,
                None => {
                    assert(!is_writable(self@[i as int].addr));
                    return None;
                },
            };
            out.push(
                PeerInfo { peer_id: peer_id_to_string(&p.id), addr: text, name: p.name.clone() },
            );
            i = i + 1;
        }
        Some(out)
    }

    /// The message that opens a connection of ours, if our address can be
    /// written.
    pub fn build_hello(&self, our_addr: &iroh::EndpointAddr) -> (msg: Option<ControlMessage>)
        ensures
            msg is Some == is_writable(*our_addr),
            msg matches Some(m) ==> (m matches ControlMessage::Hello { addr, name } && addr@
                == addr_text(*our_addr) && name@ == self.our_name()),
            msg is Some && relays_parse_back(*our_addr) ==> arrives_in_json(*our_addr),
    {
        match addr_to_string(our_addr) {
            Some(addr) => Some(ControlMessage::Hello { addr, name: self.our_name.clone() }),
            None => None,
        }
    }

    /// Decide about one entry of a received peer list. A known peer takes over
    /// the name; a peer that is not known is to be connected to, if the
    /// connection is ours to open.
    pub fn handle_peer_info(&mut self, info: &PeerInfo) -> (action: PeerAction)
        requires
            old(self).wf(),
        ensures
            final(self).wf(),
            final(self).our_id() == old(self).our_id(),
            final(self).our_name() == old(self).our_name(),
            match advice(old(self)@, old(self).our_id(), info@) {
                Advice::Ignore => action is Ignore && final(self)@ == old(self)@,
                Advice::Rename { index } => {
                    &&& action matches PeerAction::Rename { id, name }
                    &&& id@ == old(self)@[index].id
                    &&& name@ == info@.name
                    &&& final(self)@ == old(self)@.update(
                        index,
                        Member { name: info@.name, ..old(self)@[index] },
                    )
                },
                Advice::Connect { id, addr } => {
                    &&& action matches PeerAction::Connect { id: to, addr: at }
                    &&& to@ == id
                    &&& at == addr
                    &&& final(self)@ == old(self)@
                },
            },
    {
        let peer_id = match parse_peer_id(info.peer_id.as_str()) {
            Some(id) => id,
            None => {
                return PeerAction::Ignore;
            },
        };
        if peer_id.same(&self.our_id) {
            return PeerAction::Ignore;
        }
        match self.find(&peer_id) {
            Some(i) => {
                if info.name.as_str().is_empty() || self.peers[i].name == info.name {
                    return PeerAction::Ignore;
                }
                self.rename(i, info.name.clone());
                return PeerAction::Rename { id: peer_id, name: info.name.clone() };
            },
            None => {},
        }
        match string_to_addr(info.addr.as_str()) {
            Some(addr) => {
                if should_initiate(&self.our_id, &peer_id) {
                    PeerAction::Connect { id: peer_id, addr }
                } else {
                    PeerAction::Ignore
                }
            },
            None => PeerAction::Ignore,
        }
    }

    /// Give the peer at `i` another name.
    fn rename(&mut self, i: usize, name: String)
        requires
            old(self).wf(),
            i < old(self)@.len(),
        ensures
            final(self).wf(),
            final(self).our_id() == old(self).our_id(),
            final(self).our_name() == old(self).our_name(),
            final(self)@ == old(self)@.update(
                i as int,
                Member { name: name@, ..old(self)@[i as int] },
            ),
    {
        let ghost before = self@;
        let mut entry = self.peers.remove(i);
        entry.name = name;
        self.peers.insert(i, entry);
        proof {
            assert(self@ =~= before.update(i as int, Member { name: name@, ..before[i as int] }));
            assert forall|a: int, b: int| 0 <= a < b < self@.len() implies (
            #[trigger] self@[a]).id != (#[trigger] self@[b]).id by {
                assert(self@[a].id == before[a].id);
                assert(self@[b].id == before[b].id);
            }
        }
    }
}

/// The entry that a peer list holds for a peer.
pub open spec fn listing_of(m: Member) -> Listing {
    Listing { peer_id: hex(m.id), addr: addr_text(m.addr), name: m.name }
}

/// Whether the identifier of a peer is a key, and its address can be handed on.
pub open spec fn can_be_listed(m: Member) -> bool {
    &&& m.id.len() == 32
    &&& key_of(hex(m.id)) == Some(m.id)
    &&& arrives_in_json(m.addr)
}

/// Law: peers introduce each other. Whoever reads our peer list and does not
/// know a peer in it connects to that peer where we know it to be, unless it is
/// the other one's turn to connect.
pub proof fn law_introduction(m: Member, list: Seq<Member>, reader: Seq<u8>)
    requires
        can_be_listed(m),
        m.id != reader,
        !has_member(list, m.id),
    ensures
        advice(list, reader, listing_of(m)) == (if lex_before(reader, m.id) {
            Advice::Connect { id: m.id, addr: after_json(m.addr)->0 }
        } else {
            Advice::Ignore
        }),
        same_place(after_json(m.addr)->0, m.addr),
{
    law_addr_roundtrip(m.addr);
}

/// Law: the mesh closes. Of two participants that are not connected and read of
/// each other in peer lists, whoever sent them, exactly one connects, and it
/// connects to the other one.
pub proof fn law_mesh_closes(a: Member, b: Member, known_to_a: Seq<Member>, known_to_b: Seq<Member>)
    requires
        can_be_listed(a),
        can_be_listed(b),
        a.id != b.id,
        !has_member(known_to_a, b.id),
        !has_member(known_to_b, a.id),
    ensures
        advice(known_to_a, a.id, listing_of(b)) is Connect != advice(
            known_to_b,
            b.id,
            listing_of(a),
        ) is Connect,
        advice(known_to_a, a.id, listing_of(b)) matches Advice::Connect { id, addr } ==> id == b.id
            && same_place(addr, b.addr),
        advice(known_to_b, b.id, listing_of(a)) matches Advice::Connect { id, addr } ==> id == a.id
            && same_place(addr, a.addr),
{
    law_introduction(b, known_to_a, a.id);
    law_introduction(a, known_to_b, b.id);
    law_one_side_initiates(a.id, b.id);
}

/// Law: a peer list never makes a participant connect to itself, or to a peer
/// that is connected.
pub proof fn law_no_second_connection(list: Seq<Member>, our_id: Seq<u8>, info: Listing)
    requires
        advice(list, our_id, info) is Connect,
    ensures
        advice(list, our_id, info)->Connect_id != our_id,
        !has_member(list, advice(list, our_id, info)->Connect_id),
        lex_before(our_id, advice(list, our_id, info)->Connect_id),
{
}

// ---------------------------------------------------------------------------
// Events
// ---------------------------------------------------------------------------
/// What happens in a room.
pub enum RoomEvent {
    /// It is time for the periodic broadcast.
    Tick,
    /// A peer that connected to us has introduced itself.
    Accepted { id: PeerId, addr: iroh::EndpointAddr, name: String },
    /// A peer that we connected to, by its ticket or because we heard of it, has
    /// answered with its peer list.
    Connected { id: PeerId, addr: iroh::EndpointAddr },
    /// The connection to a peer, or its control stream, has ended.
    Disconnected { id: PeerId },
}

/// An event, as contracts see it. The name of a peer that we connected to
/// arrives later, with its peer lists.
pub enum Happening {
    Tick,
    Arrival { who: Member },
    Departure { id: Seq<u8> },
}

impl View for RoomEvent {
    type V = Happening;

    open spec fn view(&self) -> Happening {
        match self {
            RoomEvent::Tick => Happening::Tick,
            RoomEvent::Accepted { id, addr, name } => Happening::Arrival {
                who: Member { id: id@, addr: *addr, name: name@ },
            },
            RoomEvent::Connected { id, addr } => Happening::Arrival {
                who: Member { id: id@, addr: *addr, name: Seq::empty() },
            },
            RoomEvent::Disconnected { id } => Happening::Departure { id: id@ },
        }
    }
}

/// What a room does about an event.
pub enum RoomStep {
    /// Exchange media with a peer.
    Start(PeerId),
    /// Show the name of a peer.
    ShowName(PeerId, String),
    /// Stop the media of a peer and take its tile away.
    Stop(PeerId),
    /// Send our peer list to all peers.
    Broadcast,
}

/// A step, as contracts see it.
pub enum Act {
    Start { id: Seq<u8> },
    ShowName { id: Seq<u8>, name: Seq<char> },
    Stop { id: Seq<u8> },
    Broadcast,
}

impl View for RoomStep {
    type V = Act;

    open spec fn view(&self) -> Act {
        match self {
            RoomStep::Start(id) => Act::Start { id: id@ },
            RoomStep::ShowName(id, name) => Act::ShowName { id: id@, name: name@ },
            RoomStep::Stop(id) => Act::Stop { id: id@ },
            RoomStep::Broadcast => Act::Broadcast,
        }
    }
}

/// The steps of a list.
pub open spec fn acts(steps: Seq<RoomStep>) -> Seq<Act> {
    steps.map(|_i: int, s: RoomStep| s@)
}

/// Who is in the call after an event.
pub open spec fn members_after(list: Seq<Member>, h: Happening) -> Seq<Member> {
    match h {
        Happening::Tick => list,
        Happening::Arrival { who } => if has_member(list, who.id) {
            list
        } else {
            list.push(who)
        },
        Happening::Departure { id } => if has_member(list, id) {
            list.remove(index_of(list, id))
        } else {
            list
        },
    }
}

/// What is done about an event, in this order.
pub open spec fn acts_on(list: Seq<Member>, h: Happening) -> Seq<Act> {
    match h {
        Happening::Tick => seq![Act::Broadcast],
        Happening::Arrival { who } => {
            let start = if has_member(list, who.id) {
                Seq::empty()
            } else if who.name.len() == 0 {
                seq![Act::Start { id: who.id }]
            } else {
                seq![Act::Start { id: who.id }, Act::ShowName { id: who.id, name: who.name }]
            };
            start.push(Act::Broadcast)
        },
        Happening::Departure { id } => if has_member(list, id) {
            seq![Act::Stop { id }, Act::Broadcast]
        } else {
            seq![Act::Broadcast]
        },
    }
}

impl Roster {
    /// Take in an event. Returns what to do, in this order.
    pub fn on_event(&mut self, event: RoomEvent) -> (steps: Vec<RoomStep>)
        requires
            old(self).wf(),
        ensures
            final(self).wf(),
            final(self).our_id() == old(self).our_id(),
            final(self).our_name() == old(self).our_name(),
            final(self)@ == members_after(old(self)@, event@),
            acts(steps@) == acts_on(old(self)@, event@),
    {
        let mut steps: Vec<RoomStep> = Vec::new();
        match event {
            RoomEvent::Tick => {
                steps.push(RoomStep::Broadcast);
            },
            RoomEvent::Accepted { id, addr, name } => {
                let shown = name.clone();
                if self.add_peer(id, addr, name) {
                    steps.push(RoomStep::Start(id));
                    if !shown.as_str().is_empty() {
                        steps.push(RoomStep::ShowName(id, shown));
                    }
                }
                steps.push(RoomStep::Broadcast);
            },
            RoomEvent::Connected { id, addr } => {
                let unnamed = String::new();
                assert(unnamed@ =~= Seq::<char>::empty());
                if self.add_peer(id, addr, unnamed) {
                    steps.push(RoomStep::Start(id));
                }
                steps.push(RoomStep::Broadcast);
            },
            RoomEvent::Disconnected { id } => {
                if self.remove_peer(&id) {
                    steps.push(RoomStep::Stop(id));
                }
                steps.push(RoomStep::Broadcast);
            },
        }
        assert(acts(steps@) =~= acts_on(old(self)@, event@));
        steps
    }
}

/// Law: every change of membership is broadcast at once, and so is every tick.
pub proof fn law_changes_are_broadcast(list: Seq<Member>, h: Happening)
    requires
        h is Tick || members_after(list, h) != list,
    ensures
        acts_on(list, h).len() > 0,
        acts_on(list, h).last() == Act::Broadcast,
{
}

/// Law: any participant can leave without disrupting the call: the others stay,
/// with what is known of them.
pub proof fn law_others_stay(list: Seq<Member>, id: Seq<u8>, other: Member)
    requires
        list.contains(other),
        other.id != id,
    ensures
        members_after(list, Happening::Departure { id }).contains(other),
{
    let after = members_after(list, Happening::Departure { id });
    let k = choose|k: int| 0 <= k < list.len() && list[k] == other;
    if has_member(list, id) {
        let i = index_of(list, id);
        assert(list[i].id == id);
        if k < i {
            assert(after[k] == other);
        } else {
            assert(after[k - 1] == other);
        }
    }
}

// ---------------------------------------------------------------------------
// Handshake and control messages
// ---------------------------------------------------------------------------
/// Why a connection is refused.
#[derive(Debug, Clone, Copy, PartialEq, Eq, Structural)]
pub enum HandshakeError {
    /// The first stream starts with this byte instead of the control tag.
    WrongTag(u8),
    /// The first message of the connecting peer is no Hello.
    NotHello,
    /// The answer to a Hello is no peer list.
    NotPeerList,
    /// The address in a Hello cannot be read.
    BadAddress,
}

/// Check the tag that a control stream starts with.
pub fn expect_control_tag(tag: u8) -> (r: Result<(), HandshakeError>)
    ensures
        r == (if tag == STREAM_TYPE_CONTROL {
            Ok::<(), HandshakeError>(())
        } else {
            Err(HandshakeError::WrongTag(tag))
        }),
{
    if tag == STREAM_TYPE_CONTROL {
        Ok(())
    } else {
        Err(HandshakeError::WrongTag(tag))
    }
}

/// Take the address and the name out of the first message of a peer that
/// connects to us.
pub fn expect_hello(msg: ControlMessage) -> (r: Result<
    (iroh::EndpointAddr, String),
    HandshakeError,
>)
    ensures
        match msg {
            ControlMessage::Hello { addr, name } => match addr_of(addr@) {
                Some(at) => r matches Ok(v) && v.0 == at && v.1@ == name@,
                None => r matches Err(e) && e == HandshakeError::BadAddress,
            },
            _ => r matches Err(e) && e == HandshakeError::NotHello,
        },
{
    match msg {
        ControlMessage::Hello { addr, name } => match string_to_addr(addr.as_str()) {
            Some(at) => Ok((at, name)),
            None => Err(HandshakeError::BadAddress),
        },
        _ => Err(HandshakeError::NotHello),
    }
}

/// Take the peers out of the answer to our Hello.
pub fn expect_peer_list(msg: ControlMessage) -> (r: Result<Vec<PeerInfo>, HandshakeError>)
    ensures
        match msg {
            ControlMessage::PeerList { peers } => r == Ok::<_, HandshakeError>(peers),
            _ => r == Err::<Vec<PeerInfo>, _>(HandshakeError::NotPeerList),
        },
{
    match msg {
        ControlMessage::PeerList { peers } => Ok(peers),
        _ => Err(HandshakeError::NotPeerList),
    }
}

/// What to do about a control message of a connected peer.
pub enum RoomAction {
    /// Go through the entries of a peer list.
    PeerList(Vec<PeerInfo>),
    /// Tell the bandwidth estimator.
    Feedback(BandwidthEvent),
    /// Such a message is not expected once a peer is connected.
    Unexpected,
}

/// Decide about a control message of a connected peer.
pub fn route_control(msg: ControlMessage) -> (r: RoomAction)
    ensures
        match msg {
            ControlMessage::PeerList { peers } => r == RoomAction::PeerList(peers),
            ControlMessage::CongestionFeedback { fraction_lost_bits, jitter_us, .. } => r
                == RoomAction::Feedback(
                BandwidthEvent::ReceiverFeedback { fraction_lost_bits, jitter_us },
            ),
            ControlMessage::Hello { .. } => r is Unexpected,
        },
{
    match msg {
        ControlMessage::PeerList { peers } => RoomAction::PeerList(peers),
        ControlMessage::CongestionFeedback {
            received: _,
            dropped: _,
            fraction_lost_bits,
            jitter_us,
        } => RoomAction::Feedback(BandwidthEvent::ReceiverFeedback { fraction_lost_bits, jitter_us }),
        ControlMessage::Hello { .. } => RoomAction::Unexpected,
    }
}

// ---------------------------------------------------------------------------
// Network paths
// ---------------------------------------------------------------------------
/// A network path of a connection.
#[derive(Debug, Clone, Copy, PartialEq, Eq, Structural)]
pub struct PathState {
    /// Whether packets take this path.
    pub selected: bool,
    /// Whether it leads over a relay.
    pub relay: bool,
}

/// The kind of a connection with these paths: that of the first selected one.
pub open spec fn kind_of(paths: Seq<PathState>) -> ConnectionKind
    decreases paths.len(),
{
    if paths.len() == 0 {
        ConnectionKind::Unknown
    } else if paths[0].selected {
        if paths[0].relay {
            ConnectionKind::Relay
        } else {
            ConnectionKind::Direct
        }
    } else {
        kind_of(paths.skip(1))
    }
}

/// How a peer is connected.
pub fn classify_paths(paths: &Vec<PathState>) -> (kind: ConnectionKind)
    ensures
        kind == kind_of(paths@),
{
    let mut i: usize = 0;
    assert(paths@.skip(0) =~= paths@);
    while i < paths.len()
        invariant
            i <= paths@.len(),
            kind_of(paths@) == kind_of(paths@.skip(i as int)),
        decreases paths@.len() - i,
    {
        if paths[i].selected {
            return if paths[i].relay {
                ConnectionKind::Relay
            } else {
                ConnectionKind::Direct
            };
        }
        assert(paths@.skip(i as int).skip(1) =~= paths@.skip(i + 1));
        i = i + 1;
    }
    ConnectionKind::Unknown
}

/// Reports changes of how a peer is connected.
#[derive(Debug, Clone, Copy, PartialEq, Eq, Structural)]
pub struct PathWatcher {
    pub last_kind: ConnectionKind,
}

impl PathWatcher {
    pub fn new() -> (r: PathWatcher)
        ensures
            r.last_kind == ConnectionKind::Unknown,
    {
        PathWatcher { last_kind: ConnectionKind::Unknown }
    }

    /// Look at the paths. Returns the kind if it is another one than before.
    pub fn observe(&mut self, paths: &Vec<PathState>) -> (r: Option<ConnectionKind>)
        ensures
            final(self).last_kind == kind_of(paths@),
            r == (if kind_of(paths@) != old(self).last_kind {
                Some(kind_of(paths@))
            } else {
                None
            }),
    {
        let kind = classify_paths(paths);
        if kind != self.last_kind {
            self.last_kind = kind;
            Some(kind)
        } else {
            None
        }
    }
}

// ---------------------------------------------------------------------------
// Laws of membership
// ---------------------------------------------------------------------------
/// Law: whoever is not in the call yet is taken in, however many are there. The
/// others stay in their places, the newcomer stands behind them, its media is
/// started, its name is shown if it has one, and the new list goes out last.
pub proof fn law_newcomer_is_taken_in(list: Seq<Member>, who: Member)
    requires
        forall|i: int| 0 <= i < list.len() ==> (#[trigger] list[i]).id != who.id,
    ensures
        ({
            let after = members_after(list, Happening::Arrival { who });
            let acts = acts_on(list, Happening::Arrival { who });
            &&& after.len() == list.len() + 1
            &&& after.take(list.len() as int) == list
            &&& after[list.len() as int] == who
            &&& has_member(after, who.id)
            &&& acts[0] == Act::Start { id: who.id }
            &&& acts.last() == Act::Broadcast
            &&& who.name.len() == 0 ==> acts.len() == 2
            &&& who.name.len() > 0 ==> acts.len() == 3 && acts[1] == Act::ShowName {
                id: who.id,
                name: who.name,
            }
        }),
{
    let after = members_after(list, Happening::Arrival { who });
    assert(after.take(list.len() as int) =~= list);
    assert(after[list.len() as int].id == who.id);
}

/// Law: a peer that is in the call does not come in a second time, and its media
/// is not started again; our list is still sent to it.
pub proof fn law_second_arrival(list: Seq<Member>, i: int, who: Member)
    requires
        0 <= i < list.len(),
        list[i].id == who.id,
    ensures
        members_after(list, Happening::Arrival { who }) == list,
        acts_on(list, Happening::Arrival { who }) == seq![Act::Broadcast],
{
    assert(has_member(list, who.id));
    assert(acts_on(list, Happening::Arrival { who }) =~= seq![Act::Broadcast]);
}

/// Law: a peer that leaves is taken out, and it alone. The others close up behind
/// it in the order in which they stood, its media is stopped, and the new list
/// goes out.
pub proof fn law_leaver_is_taken_out(list: Seq<Member>, i: int)
    requires
        0 <= i < list.len(),
        forall|a: int, b: int|
            0 <= a < b < list.len() ==> (#[trigger] list[a]).id != (#[trigger] list[b]).id,
    ensures
        ({
            let h = Happening::Departure { id: list[i].id };
            &&& members_after(list, h) == list.take(i) + list.skip(i + 1)
            &&& !has_member(members_after(list, h), list[i].id)
            &&& acts_on(list, h) == seq![Act::Stop { id: list[i].id }, Act::Broadcast]
        }),
{
    let id = list[i].id;
    let h = Happening::Departure { id };
    let after = members_after(list, h);
    let k = index_of(list, id);
    assert(has_member(list, id));
    assert(0 <= k < list.len() && list[k].id == id);
    assert(k == i);
    assert(after =~= list.take(i) + list.skip(i + 1));
    assert forall|a: int| 0 <= a < after.len() implies (#[trigger] after[a]).id != id by {
        if a < i {
            assert(after[a] == list[a]);
        } else {
            assert(after[a] == list[a + 1]);
        }
    }
    assert(acts_on(list, h) =~= seq![Act::Stop { id }, Act::Broadcast]);
}

/// Law: that a peer which is not in the call has left, and that time passes,
/// changes nothing; our list goes out each time.
pub proof fn law_nothing_changes(list: Seq<Member>, id: Seq<u8>)
    requires
        forall|i: int| 0 <= i < list.len() ==> (#[trigger] list[i]).id != id,
    ensures
        members_after(list, Happening::Departure { id }) == list,
        acts_on(list, Happening::Departure { id }) == seq![Act::Broadcast],
        members_after(list, Happening::Tick) == list,
        acts_on(list, Happening::Tick) == seq![Act::Broadcast],
{
}

/// Who is in the call after some peers have arrived, one after the other.
pub open spec fn after_arrivals(list: Seq<Member>, newcomers: Seq<Member>) -> Seq<Member>
    decreases newcomers.len(),
{
    if newcomers.len() == 0 {
        list
    } else {
        members_after(
            after_arrivals(list, newcomers.drop_last()),
            Happening::Arrival { who: newcomers.last() },
        )
    }
}

/// Law: a call has room for everybody. When any number of peers arrive, no two of
/// them alike and none of them there before, all of them are in the call.
pub proof fn law_room_for_everybody(list: Seq<Member>, newcomers: Seq<Member>)
    requires
        forall|a: int, b: int|
            0 <= a < b < newcomers.len() ==> (#[trigger] newcomers[a]).id != (
            #[trigger] newcomers[b]).id,
        forall|a: int, b: int|
            0 <= a < list.len() && 0 <= b < newcomers.len() ==> (#[trigger] list[a]).id != (
            #[trigger] newcomers[b]).id,
    ensures
        after_arrivals(list, newcomers) == list + newcomers,
    decreases newcomers.len(),
{
    if newcomers.len() == 0 {
        assert(list + newcomers =~= list);
    } else {
        let rest = newcomers.drop_last();
        let who = newcomers.last();
        law_room_for_everybody(list, rest);
        let before = list + rest;
        assert forall|i: int| 0 <= i < before.len() implies (#[trigger] before[i]).id != who.id by {
            if i < list.len() {
                assert(before[i] == list[i]);
                assert(newcomers[newcomers.len() - 1] == who);
            } else {
                assert(before[i] == newcomers[i - list.len()]);
                assert(newcomers[newcomers.len() - 1] == who);
            }
        }
        law_newcomer_is_taken_in(before, who);
        let after = after_arrivals(list, newcomers);
        assert forall|i: int| 0 <= i < after.len() implies #[trigger] after[i] == (list
            + newcomers)[i] by {
            if i < before.len() {
                assert(after[i] == after.take(before.len() as int)[i]);
            }
        }
        assert(after =~= list + newcomers);
    }
}

/// Law: whoever comes and goes leaves the call as it was.
pub proof fn law_come_and_go(list: Seq<Member>, who: Member)
    requires
        forall|a: int, b: int|
            0 <= a < b < list.len() ==> (#[trigger] list[a]).id != (#[trigger] list[b]).id,
        forall|i: int| 0 <= i < list.len() ==> (#[trigger] list[i]).id != who.id,
    ensures
        members_after(
            members_after(list, Happening::Arrival { who }),
            Happening::Departure { id: who.id },
        ) == list,
{
    let there = members_after(list, Happening::Arrival { who });
    law_newcomer_is_taken_in(list, who);
    assert(there =~= list.push(who));
    law_leaver_is_taken_out(there, list.len() as int);
    assert(there.take(list.len() as int) + there.skip(list.len() as int + 1) =~= list);
}

/// Law: what an event says of a peer. The identifier and the address are those of
/// the event; a peer that connected to us has the name that it gave, and one that
/// we connected to has none yet.
pub proof fn law_events(id: PeerId, addr: iroh::EndpointAddr, name: String)
    ensures
        RoomEvent::Tick@ == Happening::Tick,
        (RoomEvent::Accepted { id, addr, name })@ == (Happening::Arrival {
            who: Member { id: id@, addr, name: name@ },
        }),
        (RoomEvent::Connected { id, addr })@ == (Happening::Arrival {
            who: Member { id: id@, addr, name: Seq::empty() },
        }),
        (RoomEvent::Disconnected { id })@ == (Happening::Departure { id: id@ }),
        RoomStep::Start(id)@ == (Act::Start { id: id@ }),
        RoomStep::ShowName(id, name)@ == (Act::ShowName { id: id@, name: name@ }),
        RoomStep::Stop(id)@ == (Act::Stop { id: id@ }),
        RoomStep::Broadcast@ == Act::Broadcast,
{
}

/// Law: no two peers of a roster are alike, so each stands in one place.
pub proof fn law_distinct(list: Seq<Member>, i: int, j: int)
    requires
        distinct(list),
        0 <= i < list.len(),
        0 <= j < list.len(),
        list[i].id == list[j].id,
    ensures
        i == j,
        index_of(list, list[i].id) == i,
{
    assert(i < j ==> list[i].id != list[j].id);
    assert(j < i ==> list[j].id != list[i].id);
    let id = list[i].id;
    let k = index_of(list, id);
    assert(0 <= k < list.len() && list[k].id == id);
    assert(i < k ==> list[i].id != list[k].id);
    assert(k < i ==> list[k].id != list[i].id);
}

/// Law: a list without two peers alike is well-formed, and a peer list can be written
/// exactly if the JSON of every address in it can.
pub proof fn law_lists(list: Seq<Member>, i: int)
    ensures
        (forall|a: int, b: int|
            0 <= a < b < list.len() ==> (#[trigger] list[a]).id != (#[trigger] list[b]).id)
            ==> distinct(list),
        all_writable(list) && 0 <= i < list.len() ==> addr_json(list[i].addr) is Some,
        (forall|a: int| 0 <= a < list.len() ==> addr_json((#[trigger] list[a]).addr) is Some)
            ==> all_writable(list),
{
    if all_writable(list) && 0 <= i < list.len() {
        assert(is_writable(list[i].addr));
    }
}

/// Law: a peer can be listed exactly if its identifier is a key of 32 bytes that is
/// read back from its text, and its address is read back in the same place.
pub proof fn law_can_be_listed(m: Member)
    ensures
        can_be_listed(m) <==> m.id.len() == 32 && key_of(hex(m.id)) == Some(m.id)
            && arrives_in_json(m.addr),
{
}

/// Law: the first byte in which two keys differ decides which of the two comes
/// before the other.
pub proof fn law_first_difference_decides(a: Seq<u8>, b: Seq<u8>, k: int)
    requires
        a.len() == b.len(),
        0 <= k < a.len(),
        a[k] != b[k],
        forall|j: int| 0 <= j < k ==> a[j] == b[j],
    ensures
        lex_before(a, b) == (a[k] < b[k]),
        !lex_before(a, a),
{
    if a[k] > b[k] {
        assert forall|m: int|
            0 <= m < a.len() && a[m] < b[m] implies !(forall|j: int|
            0 <= j < m ==> a[j] == b[j]) by {
            assert(m > k);
            assert(a[k] != b[k]);
        }
    }
}

/// Law: what is done about an entry for a peer that is known. It is renamed if the
/// entry has a name and it is another one, and is left alone otherwise; nothing
/// else in the entry matters.
pub proof fn law_advice_on_known_peers(
    list: Seq<Member>,
    our_id: Seq<u8>,
    info: Listing,
    i: int,
)
    requires
        distinct(list),
        0 <= i < list.len(),
        list[i].id != our_id,
        key_of(info.peer_id) == Some(list[i].id),
    ensures
        info.name.len() > 0 && info.name != list[i].name ==> advice(list, our_id, info) == (
        Advice::Rename { index: i }),
        info.name.len() == 0 || info.name == list[i].name ==> advice(list, our_id, info)
            == Advice::Ignore,
{
    assert(has_member(list, list[i].id));
    law_distinct(list, i, i);
}

/// Law: what is done about an entry for a peer that is not known. It is connected
/// to, at the address of the entry, if that can be read and our key has the
/// smaller byte where the two first differ.
pub proof fn law_advice_on_unknown_peers(
    list: Seq<Member>,
    our_id: Seq<u8>,
    info: Listing,
    id: Seq<u8>,
    k: int,
)
    requires
        forall|i: int| 0 <= i < list.len() ==> (#[trigger] list[i]).id != id,
        key_of(info.peer_id) == Some(id),
        our_id.len() == id.len(),
        0 <= k < id.len(),
        our_id[k] != id[k],
        forall|j: int| 0 <= j < k ==> our_id[j] == id[j],
    ensures
        addr_of(info.addr) is Some && our_id[k] < id[k] ==> advice(list, our_id, info) == (
        Advice::Connect { id, addr: addr_of(info.addr)->0 }),
        addr_of(info.addr) is None || our_id[k] > id[k] ==> advice(list, our_id, info)
            == Advice::Ignore,
{
    law_first_difference_decides(our_id, id, k);
    assert(our_id != id);
}

/// Law: an entry about ourselves, and one whose identifier is no key, is passed
/// over.
pub proof fn law_advice_on_other_entries(list: Seq<Member>, our_id: Seq<u8>, info: Listing)
    requires
        key_of(info.peer_id) is None || key_of(info.peer_id) == Some(our_id),
    ensures
        advice(list, our_id, info) == Advice::Ignore,
{
}

/// Law: the text of an identifier has two hexadecimal digits for each byte, the
/// higher half first.
pub proof fn law_hex(s: Seq<u8>, i: int)
    requires
        0 <= i < s.len(),
    ensures
        hex(s).len() == 2 * s.len(),
        hex(s)[2 * i] == "0123456789abcdef"@[s[i] as int / 16],
        hex(s)[2 * i + 1] == "0123456789abcdef"@[s[i] as int % 16],
    decreases s.len(),
{
    reveal_strlit("0123456789abcdef");
    let t = s.drop_last();
    if t.len() == 0 {
        assert(hex(t).len() == 0);
    } else if i < t.len() {
        law_hex(t, i);
    } else {
        law_hex(t, 0);
    }
}

/// Law: different identifiers have different texts.
pub proof fn law_hex_injective(a: Seq<u8>, b: Seq<u8>)
    requires
        hex(a) == hex(b),
    ensures
        a == b,
{
    reveal_strlit("0123456789abcdef");
    if a.len() > 0 {
        law_hex(a, 0);
    }
    if b.len() > 0 {
        law_hex(b, 0);
    }
    assert forall|i: int| 0 <= i < a.len() implies a[i] == b[i] by {
        law_hex(a, i);
        law_hex(b, i);
    }
    assert(a =~= b);
}

/// Law: an entry of a peer list names the peer as it is known.
pub proof fn law_listing(m: Member)
    ensures
        listing_of(m).name == m.name,
        listing_of(m).peer_id == hex(m.id),
        spells(listing_of(m).addr, addr_json(m.addr)->0, Alphabet::Standard),
        PEER_LIST_INTERVAL_SECS == 5,
        FEEDBACK_INTERVAL_SECS == 1,
{
}

/// Law: the first selected path says how a peer is connected, and the paths behind
/// it do not matter; without a selected path nothing is known.
pub proof fn law_selected_path(paths: Seq<PathState>, k: int)
    requires
        0 <= k <= paths.len(),
        forall|j: int| 0 <= j < k ==> !(#[trigger] paths[j]).selected,
    ensures
        k < paths.len() && paths[k].selected ==> kind_of(paths) == (if paths[k].relay {
            ConnectionKind::Relay
        } else {
            ConnectionKind::Direct
        }),
        k == paths.len() ==> kind_of(paths) == ConnectionKind::Unknown,
    decreases k,
{
    if k > 0 {
        let rest = paths.skip(1);
        assert forall|j: int| 0 <= j < k - 1 implies !(#[trigger] rest[j]).selected by {
            assert(rest[j] == paths[j + 1]);
        }
        assert(!paths[0].selected);
        law_selected_path(rest, k - 1);
    }
}

} // verus!
