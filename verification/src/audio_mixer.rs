//! Brings N decoded audio streams together for one mixed output.
use vstd::prelude::*;
use vstd::slice::slice_subrange;

use crate::audio::CHUNK_SIZE;
use crate::room::PeerId;

verus! {

/// Samples that wait, by peer.
pub type Waiting<T> = Seq<(Seq<u8>, Seq<T>)>;

/// Whether no peer stands in `s` twice.
pub open spec fn distinct_peers<T>(s: Waiting<T>) -> bool {
    forall|i: int, j: int| 0 <= i < j < s.len() ==> (#[trigger] s[i]).0 != (#[trigger] s[j]).0
}

/// Whether `id` has a queue at place `i`.
pub open spec fn stands_at<T>(s: Waiting<T>, id: Seq<u8>, i: int) -> bool {
    0 <= i < s.len() && s[i].0 == id
}

/// `s` after samples of a peer arrived: they stand behind those that wait
/// already, or in a queue of their own.
pub open spec fn with_samples<T>(s: Waiting<T>, id: Seq<u8>, samples: Seq<T>) -> Waiting<T> {
    if exists|i: int| stands_at(s, id, i) {
        let i = choose|i: int| stands_at(s, id, i);
        s.update(i, (id, s[i].1 + samples))
    } else {
        s.push((id, samples))
    }
}

/// Whether some peer has a whole chunk.
pub open spec fn any_ready<T>(s: Waiting<T>) -> bool {
    exists|i: int| 0 <= i < s.len() && (#[trigger] s[i]).1.len() >= CHUNK_SIZE
}

/// How many samples of a queue go into a mix: a chunk, or all if there are
/// fewer.
pub open spec fn share_of(len: nat) -> int {
    if len < CHUNK_SIZE {
        len as int
    } else {
        CHUNK_SIZE as int
    }
}

/// Decoded samples that wait for the next mix.
#[verifier::reject_recursive_types(T)]
pub struct MixQueues<T> {
    ids: Vec<PeerId>,
    queues: Vec<Vec<T>>,
}

impl<T> View for MixQueues<T> {
    type V = Waiting<T>;

    closed spec fn view(&self) -> Waiting<T> {
        Seq::new(self.ids@.len(), |i: int| (self.ids@[i]@, self.queues@[i]@))
    }
}

impl<T: Copy> MixQueues<T> {
    pub closed spec fn wf(self) -> bool {
        self.ids@.len() == self.queues@.len() && distinct_peers(self@)
    }

    pub fn new() -> (r: MixQueues<T>)
        ensures
            r.wf(),
            r@ == Seq::<(Seq<u8>, Seq<T>)>::empty(),
    {
        let r: MixQueues<T> = MixQueues { ids: Vec::new(), queues: Vec::new() };
        assert(r@ =~= Seq::<(Seq<u8>, Seq<T>)>::empty());
        r
    }

    /// Samples of a peer were decoded.
    pub fn extend(&mut self, peer_id: PeerId, samples: &[T])
        requires
            old(self).wf(),
        ensures
            final(self).wf(),
            final(self)@ == with_samples(old(self)@, peer_id@, samples@),
    {
        let ghost before = self@;
        let n = self.ids.len();
        let mut at: usize = 0;
        while at < n && !self.ids[at].same(&peer_id)
            invariant
                n == self.ids@.len(),
                at <= n,
                self@ == before,
                forall|i: int| 0 <= i < at ==> (#[trigger] before[i]).0 != peer_id@,
            decreases n - at,
        {
            assert(before[at as int].0 == self.ids@[at as int]@);
            at = at + 1;
        }
        if at < n {
            let mut queue: Vec<T> = Vec::new();
            core::mem::swap(&mut queue, &mut self.queues[at]);
            let ghost waiting = queue@;
            push_all(&mut queue, samples);
            self.queues.set(at, queue);
            proof {
                assert(before[at as int] == (peer_id@, waiting));
                assert(stands_at(before, peer_id@, at as int));
                let i = choose|i: int| stands_at(before, peer_id@, i);
                if i < at {
                    assert(before[i].0 != before[at as int].0);
                } else if at < i {
                    assert(before[at as int].0 != before[i].0);
                }
                assert(self@ =~= before.update(at as int, (peer_id@, waiting + samples@)));
                assert forall|a: int, b: int| 0 <= a < b < self@.len() implies (#[trigger] self@[a]).0
                    != (#[trigger] self@[b]).0 by {
                    assert(self@[a].0 == before[a].0 && self@[b].0 == before[b].0);
                }
            }
        } else {
            let mut queue: Vec<T> = Vec::new();
            push_all(&mut queue, samples);
            assert(queue@ =~= samples@);
            self.ids.push(peer_id);
            self.queues.push(queue);
            proof {
                assert(self@ =~= before.push((peer_id@, samples@)));
                assert forall|i: int| !stands_at(before, peer_id@, i) by {
                    if 0 <= i < before.len() {
                        assert(before[i].0 != peer_id@);
                    }
                }
                assert forall|a: int, b: int| 0 <= a < b < self@.len() implies (#[trigger] self@[a]).0
                    != (#[trigger] self@[b]).0 by {
                    assert(self@[a] == before[a]);
                    if b < before.len() {
                        assert(self@[b] == before[b]);
                    }
                }
            }
        }
    }

    /// Take the samples for the next mix, of each peer up to a chunk, whenever
    /// any peer has enough.
    pub fn take_mix(&mut self) -> (r: Option<Vec<Vec<T>>>)
        requires
            old(self).wf(),
        ensures
            final(self).wf(),
            match r {
                Some(parts) => {
                    &&& any_ready(old(self)@)
                    &&& parts@.len() == old(self)@.len()
                    &&& final(self)@.len() == old(self)@.len()
                    &&& forall|i: int|
                        0 <= i < parts@.len() ==> (#[trigger] parts@[i])@ == old(self)@[i].1.take(
                            share_of(old(self)@[i].1.len()),
                        )
                    &&& forall|i: int|
                        0 <= i < parts@.len() ==> #[trigger] final(self)@[i] == (
                            old(self)@[i].0,
                            old(self)@[i].1.skip(share_of(old(self)@[i].1.len())),
                        )
                },
                None => !any_ready(old(self)@) && final(self)@ == old(self)@,
            },
    {
        let ghost before = self@;
        let n = self.queues.len();
        let mut ready = false;
        let mut k: usize = 0;
        while k < n && !ready
            invariant
                n == self.queues@.len(),
                n == self.ids@.len(),
                self@ == before,
                k <= n,
                ready ==> any_ready(before),
                !ready ==> forall|i: int| 0 <= i < k ==> (#[trigger] before[i]).1.len() < CHUNK_SIZE,
            decreases n - k,
        {
            assert(before[k as int].1 == self.queues@[k as int]@);
            if self.queues[k].len() >= CHUNK_SIZE {
                ready = true;
            }
            k = k + 1;
        }
        if !ready {
            return None;
        }
        let mut parts: Vec<Vec<T>> = Vec::new();
        let mut rests: Vec<Vec<T>> = Vec::new();
        let mut i: usize = 0;
        while i < n
            invariant
                n == self.queues@.len(),
                n == self.ids@.len(),
                self@ == before,
                i <= n,
                parts@.len() == i,
                rests@.len() == i,
                forall|j: int|
                    0 <= j < i ==> (#[trigger] parts@[j])@ == before[j].1.take(
                        share_of(before[j].1.len()),
                    ),
                forall|j: int|
                    0 <= j < i ==> (#[trigger] rests@[j])@ == before[j].1.skip(
                        share_of(before[j].1.len()),
                    ),
            decreases n - i,
        {
            let queue = &self.queues[i];
            assert(before[i as int].1 == queue@);
            let len = queue.len();
            let m: usize = if len < CHUNK_SIZE {
                len
            } else {
                CHUNK_SIZE
            };
            let mut part: Vec<T> = Vec::new();
            push_all(&mut part, slice_subrange(queue.as_slice(), 0, m));
            let mut rest: Vec<T> = Vec::new();
            push_all(&mut rest, slice_subrange(queue.as_slice(), m, len));
            assert(part@ =~= before[i as int].1.take(share_of(len as nat)));
            assert(rest@ =~= before[i as int].1.skip(share_of(len as nat)));
            parts.push(part);
            rests.push(rest);
            i = i + 1;
        }
        self.queues = rests;
        proof {
            assert forall|j: int| 0 <= j < n implies #[trigger] self@[j] == (
                before[j].0,
                before[j].1.skip(share_of(before[j].1.len())),
            ) by {
                assert(self@[j].1 == rests@[j]@);
            }
            assert forall|a: int, b: int| 0 <= a < b < self@.len() implies (#[trigger] self@[a]).0 != (
            #[trigger] self@[b]).0 by {
                assert(self@[a].0 == before[a].0 && self@[b].0 == before[b].0);
            }
        }
        Some(parts)
    }
}

fn push_all<T: Copy>(v: &mut Vec<T>, s: &[T])
    ensures
        final(v)@ == old(v)@ + s@,
{
    let ghost before = v@;
    let mut k: usize = 0;
    while k < s.len()
        invariant
            k <= s@.len(),
            v@ == before + s@.take(k as int),
        decreases s@.len() - k,
    {
        v.push(s[k]);
        k = k + 1;
        assert(s@.take(k as int) =~= s@.take(k - 1).push(s@[k - 1]));
    }
    assert(s@.take(k as int) =~= s@);
}

/// Law: a mix takes nothing twice and loses nothing: what it takes of a peer and
/// what then waits are what waited before.
pub proof fn law_mix_conserves<T>(queue: Seq<T>)
    ensures
        queue.take(share_of(queue.len())) + queue.skip(share_of(queue.len())) == queue,
        queue.len() <= CHUNK_SIZE ==> queue.skip(share_of(queue.len())).len() == 0,
{
    assert(queue.take(share_of(queue.len())) + queue.skip(share_of(queue.len())) =~= queue);
}

/// Law: samples of a peer that has a queue go to its end, and all other queues stay
/// as they are.
pub proof fn law_samples_queue_up<T>(s: Waiting<T>, i: int, samples: Seq<T>, j: int)
    requires
        distinct_peers(s),
        0 <= i < s.len(),
        0 <= j < s.len(),
    ensures
        ({
            let after = with_samples(s, s[i].0, samples);
            &&& after.len() == s.len()
            &&& after[i] == (s[i].0, s[i].1 + samples)
            &&& j != i ==> after[j] == s[j]
        }),
{
    let id = s[i].0;
    assert(stands_at(s, id, i));
    let k = choose|k: int| stands_at(s, id, k);
    assert(stands_at(s, id, k));
    assert(i < k ==> s[i].0 != s[k].0);
    assert(k < i ==> s[k].0 != s[i].0);
}

/// Law: queues are well-formed exactly if no two of them are of the same peer.
pub proof fn law_one_queue_each<T>(s: Waiting<T>, i: int, j: int)
    ensures
        distinct_peers(s) && 0 <= i < j < s.len() ==> s[i].0 != s[j].0,
        (forall|a: int, b: int|
            0 <= a < b < s.len() ==> (#[trigger] s[a]).0 != (#[trigger] s[b]).0)
            ==> distinct_peers(s),
{
}

/// Law: samples of a peer that has no queue start one behind the others.
pub proof fn law_new_queue<T>(s: Waiting<T>, id: Seq<u8>, samples: Seq<T>)
    requires
        forall|i: int| 0 <= i < s.len() ==> (#[trigger] s[i]).0 != id,
    ensures
        with_samples(s, id, samples).len() == s.len() + 1,
        with_samples(s, id, samples)[s.len() as int] == (id, samples),
        forall|i: int| 0 <= i < s.len() ==> #[trigger] with_samples(s, id, samples)[i] == s[i],
{
    assert forall|i: int| !stands_at(s, id, i) by {
        if 0 <= i < s.len() {
            assert(s[i].0 != id);
        }
    }
}

/// Law: there is something to mix as soon as one peer has 960 samples, whichever it
/// is and however few the others have; each then gives 960 samples, or all it has.
pub proof fn law_when_to_mix<T>(s: Waiting<T>, i: int)
    requires
        0 <= i < s.len(),
    ensures
        s[i].1.len() >= 960 ==> any_ready(s),
        (forall|j: int| 0 <= j < s.len() ==> (#[trigger] s[j]).1.len() < 960) ==> !any_ready(s),
        share_of(s[i].1.len()) <= 960,
        s[i].1.len() >= 960 ==> share_of(s[i].1.len()) == 960,
        s[i].1.len() < 960 ==> share_of(s[i].1.len()) == s[i].1.len(),
{
}

} // verus!
