//! A map from peers to values, walked in the order of the peers' identifiers.

use vstd::prelude::*;

use crate::room::{law_one_side_initiates, lex_before, PeerId};

verus! {

/// Entries of a map, in order.
pub type Entries<V> = Seq<(Seq<u8>, V)>;

/// Whether the identifiers grow strictly.
pub open spec fn in_order<V>(s: Entries<V>) -> bool {
    forall|i: int, j: int|
        0 <= i < j < s.len() ==> lex_before((#[trigger] s[i]).0, (#[trigger] s[j]).0)
}

/// Whether `s` has an entry for `id`.
pub open spec fn has_key<V>(s: Entries<V>, id: Seq<u8>) -> bool {
    exists|i: int| 0 <= i < s.len() && (#[trigger] s[i]).0 == id
}

/// The value of `id` in `s`.
pub open spec fn lookup<V>(s: Entries<V>, id: Seq<u8>) -> Option<V> {
    if has_key(s, id) {
        Some(s[choose|i: int| 0 <= i < s.len() && (#[trigger] s[i]).0 == id].1)
    } else {
        None
    }
}

/// Values by peer.
pub struct PeerMap<V> {
    entries: Vec<(PeerId, V)>,
}

impl<V> View for PeerMap<V> {
    type V = Entries<V>;

    closed spec fn view(&self) -> Entries<V> {
        self.entries@.map(|_i: int, e: (PeerId, V)| (e.0@, e.1))
    }
}

/// Nothing comes before itself.
proof fn lemma_irreflexive(a: Seq<u8>)
    ensures
        !lex_before(a, a),
{
}

proof fn lemma_transitive(a: Seq<u8>, b: Seq<u8>, c: Seq<u8>)
    requires
        a.len() == b.len() == c.len(),
        lex_before(a, b),
        lex_before(b, c),
    ensures
        lex_before(a, c),
{
    let i = choose|k: int|
        0 <= k < a.len() && #[trigger] a[k] < b[k] && forall|j: int| 0 <= j < k ==> a[j] == b[j];
    let m = choose|k: int|
        0 <= k < b.len() && #[trigger] b[k] < c[k] && forall|j: int| 0 <= j < k ==> b[j] == c[j];
    if i <= m {
        assert(a[i] < c[i]);
    } else {
        assert(a[m] < c[m]);
    }
}

/// In an ordered list each identifier stands once, so the value is that of any
/// entry with the identifier.
pub proof fn lemma_lookup<V>(s: Entries<V>, i: int)
    requires
        in_order(s),
        0 <= i < s.len(),
    ensures
        lookup(s, s[i].0) == Some(s[i].1),
{
    let id = s[i].0;
    assert(has_key(s, id));
    let k = choose|k: int| 0 <= k < s.len() && (#[trigger] s[k]).0 == id;
    if k < i {
        assert(lex_before(s[k].0, s[i].0));
        lemma_irreflexive(id);
    } else if i < k {
        assert(lex_before(s[i].0, s[k].0));
        lemma_irreflexive(id);
    }
}

impl<V> PeerMap<V> {
    pub open spec fn wf(self) -> bool {
        in_order(self@)
    }

    pub fn new() -> (r: PeerMap<V>)
        ensures
            r.wf(),
            r@ == Seq::<(Seq<u8>, V)>::empty(),
    {
        let r: PeerMap<V> = PeerMap { entries: Vec::new() };
        assert(r@ =~= Seq::<(Seq<u8>, V)>::empty());
        r
    }

    pub fn len(&self) -> (n: usize)
        ensures
            n == self@.len(),
    {
        self.entries.len()
    }

    /// The peer of entry `i`.
    pub fn key_at(&self, i: usize) -> (id: PeerId)
        requires
            i < self@.len(),
        ensures
            id@ == self@[i as int].0,
    {
        self.entries[i].0
    }

    /// The value of entry `i`.
    pub fn value_at(&self, i: usize) -> (v: &V)
        requires
            i < self@.len(),
        ensures
            *v == self@[i as int].1,
    {
        &self.entries[i].1
    }

    /// How many entries come before `id`, and whether the next one is it.
    fn find(&self, id: &PeerId) -> (r: (usize, bool))
        requires
            self.wf(),
        ensures
            r.0 <= self@.len(),
            forall|k: int| 0 <= k < r.0 ==> lex_before((#[trigger] self@[k]).0, id@),
            r.1 ==> r.0 < self@.len() && self@[r.0 as int].0 == id@,
            !r.1 ==> forall|k: int| r.0 <= k < self@.len() ==> lex_before(id@, (#[trigger] self@[k]).0),
            r.1 == has_key(self@, id@),
    {
        let n = self.entries.len();
        let mut i: usize = 0;
        while i < n && self.entries[i].0.before(id)
            invariant
                n == self@.len(),
                n == self.entries@.len(),
                i <= n,
                self.wf(),
                forall|k: int| 0 <= k < i ==> lex_before((#[trigger] self@[k]).0, id@),
            decreases n - i,
        {
            assert(self@[i as int].0 == self.entries@[i as int].0@);
            i = i + 1;
        }
        let found = i < n && self.entries[i].0.same(id);
        proof {
            id.lemma_len();
            if i < n {
                let at = self.entries@[i as int].0;
                at.lemma_len();
                assert(self@[i as int].0 == at@);
                if !found {
                    law_one_side_initiates(at@, id@);
                    assert forall|k: int| i <= k < n implies lex_before(
                        id@,
                        (#[trigger] self@[k]).0,
                    ) by {
                        if k > i {
                            self.entries@[k].0.lemma_len();
                            assert(self@[k].0 == self.entries@[k].0@);
                            lemma_transitive(id@, self@[i as int].0, self@[k].0);
                        }
                    }
                }
            }
            if !found {
                lemma_irreflexive(id@);
                assert forall|k: int| 0 <= k < n implies (#[trigger] self@[k]).0 != id@ by {}
            }
        }
        (i, found)
    }

    /// The value of a peer.
    pub fn get(&self, id: &PeerId) -> (r: Option<&V>)
        requires
            self.wf(),
        ensures
            match r {
                Some(v) => lookup(self@, id@) == Some(*v),
                None => lookup(self@, id@) is None,
            },
    {
        let (i, found) = self.find(id);
        if found {
            proof {
                lemma_lookup(self@, i as int);
            }
            Some(&self.entries[i].1)
        } else {
            None
        }
    }

    /// Set the value of a peer.
    pub fn insert(&mut self, id: PeerId, value: V)
        requires
            old(self).wf(),
        ensures
            final(self).wf(),
            final(self)@.len() == old(self)@.len() + (if has_key(old(self)@, id@) {
                0int
            } else {
                1int
            }),
            forall|k: Seq<u8>| #[trigger]
                lookup(final(self)@, k) == (if k == id@ {
                    Some(value)
                } else {
                    lookup(old(self)@, k)
                }),
    {
        let (i, found) = self.find(&id);
        let ghost before = self@;
        if found {
            self.entries.set(i, (id, value));
            proof {
                let after = self@;
                assert(after =~= before.update(i as int, (id@, value)));
                assert(before[i as int].0 == id@);
                assert forall|a: int, b: int| 0 <= a < b < after.len() implies lex_before(
                    (#[trigger] after[a]).0,
                    (#[trigger] after[b]).0,
                ) by {
                    assert(after[a].0 == before[a].0 && after[b].0 == before[b].0);
                }
                assert forall|k: Seq<u8>| #[trigger] lookup(after, k) == (if k == id@ {
                    Some(value)
                } else {
                    lookup(before, k)
                }) by {
                    lemma_lookup(after, i as int);
                    if k != id@ {
                        if has_key(before, k) {
                            let m = choose|m: int| 0 <= m < before.len() && (#[trigger] before[m]).0 == k;
                            assert(after[m] == before[m]);
                            lemma_lookup(after, m);
                            lemma_lookup(before, m);
                        } else if has_key(after, k) {
                            let m = choose|m: int| 0 <= m < after.len() && (#[trigger] after[m]).0 == k;
                            assert(before[m].0 == k);
                        }
                    }
                }
            }
        } else {
            self.entries.insert(i, (id, value));
            proof {
                let after = self@;
                assert(after =~= before.insert(i as int, (id@, value)));
                assert forall|a: int, b: int| 0 <= a < b < after.len() implies lex_before(
                    (#[trigger] after[a]).0,
                    (#[trigger] after[b]).0,
                ) by {
                    let a0 = if a < i {
                        a
                    } else {
                        a - 1
                    };
                    let b0 = if b < i {
                        b
                    } else {
                        b - 1
                    };
                    if a != i {
                        assert(after[a] == before[a0]);
                    }
                    if b != i {
                        assert(after[b] == before[b0]);
                    }
                }
                assert forall|k: Seq<u8>| #[trigger] lookup(after, k) == (if k == id@ {
                    Some(value)
                } else {
                    lookup(before, k)
                }) by {
                    assert(after[i as int] == (id@, value));
                    lemma_lookup(after, i as int);
                    if k != id@ {
                        if has_key(before, k) {
                            let m = choose|m: int| 0 <= m < before.len() && (#[trigger] before[m]).0 == k;
                            let m1 = if m < i {
                                m
                            } else {
                                m + 1
                            };
                            assert(after[m1] == before[m]);
                            lemma_lookup(after, m1);
                            lemma_lookup(before, m);
                        } else if has_key(after, k) {
                            let m = choose|m: int| 0 <= m < after.len() && (#[trigger] after[m]).0 == k;
                            let m0 = if m < i {
                                m
                            } else {
                                m - 1
                            };
                            assert(before[m0].0 == k);
                        }
                    }
                }
            }
        }
    }

    /// Take a peer out.
    pub fn remove(&mut self, id: &PeerId)
        requires
            old(self).wf(),
        ensures
            final(self).wf(),
            final(self)@.len() == old(self)@.len() - (if has_key(old(self)@, id@) {
                1int
            } else {
                0int
            }),
            forall|k: Seq<u8>| #[trigger]
                lookup(final(self)@, k) == (if k == id@ {
                    None
                } else {
                    lookup(old(self)@, k)
                }),
    {
        let (i, found) = self.find(id);
        if found {
            let ghost before = self@;
            self.entries.remove(i);
            proof {
                let after = self@;
                assert(after =~= before.remove(i as int));
                assert forall|a: int, b: int| 0 <= a < b < after.len() implies lex_before(
                    (#[trigger] after[a]).0,
                    (#[trigger] after[b]).0,
                ) by {
                    let a1 = if a < i {
                        a
                    } else {
                        a + 1
                    };
                    let b1 = if b < i {
                        b
                    } else {
                        b + 1
                    };
                    assert(after[a] == before[a1] && after[b] == before[b1]);
                }
                assert forall|k: Seq<u8>| #[trigger] lookup(after, k) == (if k == id@ {
                    None
                } else {
                    lookup(before, k)
                }) by {
                    if has_key(after, k) {
                        let m = choose|m: int| 0 <= m < after.len() && (#[trigger] after[m]).0 == k;
                        let m1 = if m < i {
                            m
                        } else {
                            m + 1
                        };
                        assert(before[m1] == after[m]);
                        assert(before[i as int].0 == id@);
                        lemma_lookup(after, m);
                        lemma_lookup(before, m1);
                        if m1 < i {
                            assert(lex_before(before[m1].0, before[i as int].0));
                        } else {
                            assert(lex_before(before[i as int].0, before[m1].0));
                        }
                        lemma_irreflexive(id@);
                    } else if has_key(before, k) && k != id@ {
                        let m = choose|m: int| 0 <= m < before.len() && (#[trigger] before[m]).0 == k;
                        let m0 = if m < i {
                            m
                        } else {
                            m - 1
                        };
                        assert(after[m0] == before[m]);
                    }
                }
            }
        }
    }
}

/// Law: entries are in order if each comes before all that follow it.
pub proof fn law_order<V>(s: Entries<V>)
    requires
        forall|a: int, b: int|
            0 <= a < b < s.len() ==> lex_before((#[trigger] s[a]).0, (#[trigger] s[b]).0),
    ensures
        in_order(s),
{
}

/// Law: each peer stands in a map once, before all peers with a larger identifier,
/// and what is found for it is what stands there; nothing is found for a peer that
/// does not stand there.
pub proof fn law_map_entries<V>(s: Entries<V>, i: int, j: int, id: Seq<u8>)
    requires
        in_order(s),
        0 <= i < j < s.len(),
    ensures
        s[i].0 != s[j].0,
        lex_before(s[i].0, s[j].0),
        lookup(s, s[i].0) == Some(s[i].1),
        lookup(s, s[j].0) == Some(s[j].1),
        (forall|k: int| 0 <= k < s.len() ==> (#[trigger] s[k]).0 != id) ==> lookup(s, id) is None
            && !has_key(s, id),
{
    lemma_lookup(s, i);
    lemma_lookup(s, j);
    lemma_irreflexive(s[i].0);
}

} // verus!
