//! Audio samples on their way from the microphone to the encoder and from the
//! decoder to the speakers.
use vstd::prelude::*;

use crate::jitter::PLC_SENTINEL_TIMESTAMP;
use crate::pool::{BufPool, SharedBuf};
use crate::protocol::MediaObject;

verus! {

/// Samples in a chunk: 20ms @ 48kHz.
pub const CHUNK_SIZE: usize = 960;

/// The whole chunks of a run of samples.
pub open spec fn chunks_of<T>(s: Seq<T>) -> Seq<Seq<T>> {
    Seq::new(
        s.len() / CHUNK_SIZE as nat,
        |i: int| s.subrange(i * CHUNK_SIZE, (i + 1) * CHUNK_SIZE),
    )
}

/// The samples behind the last whole chunk.
pub open spec fn rest_of<T>(s: Seq<T>) -> Seq<T> {
    s.skip(s.len() as int / CHUNK_SIZE as int * CHUNK_SIZE)
}

/// What the chunks hold.
pub open spec fn contents<T>(chunks: Seq<SharedBuf<T>>) -> Seq<Seq<T>> {
    chunks.map(|_i: int, c: SharedBuf<T>| c@)
}

/// Cuts samples, which come in any number, into chunks of [`CHUNK_SIZE`].
#[verifier::reject_recursive_types(T)]
pub struct ChunkAccumulator<T> {
    accum: Vec<T>,
    pool: BufPool<T>,
}

impl<T> View for ChunkAccumulator<T> {
    type V = Seq<T>;

    /// The samples that wait for more to come.
    closed spec fn view(&self) -> Seq<T> {
        self.accum@
    }
}

impl<T: Copy> ChunkAccumulator<T> {
    pub fn new() -> (r: ChunkAccumulator<T>)
        ensures
            r@ == Seq::<T>::empty(),
    {
        ChunkAccumulator { accum: Vec::new(), pool: BufPool::new() }
    }

    /// Add samples and take out the chunks that are whole now.
    pub fn extend(&mut self, samples: &[T]) -> (chunks: Vec<SharedBuf<T>>)
        ensures
            contents(chunks@) == chunks_of(old(self)@ + samples@),
            final(self)@ == rest_of(old(self)@ + samples@),
            final(self)@.len() < CHUNK_SIZE,
    {
        let ghost all = self@ + samples@;
        let mut k: usize = 0;
        while k < samples.len()
            invariant
                k <= samples@.len(),
                self.accum@ + samples@.skip(k as int) == all,
            decreases samples@.len() - k,
        {
            let ghost before = self.accum@;
            self.accum.push(samples[k]);
            assert(before + samples@.skip(k as int) =~= self.accum@ + samples@.skip(k + 1));
            k = k + 1;
        }
        assert(self.accum@ =~= all);
        let mut chunks: Vec<SharedBuf<T>> = Vec::new();
        let mut at: usize = 0;
        let n = self.accum.len();
        while n - at >= CHUNK_SIZE
            invariant
                n == self.accum@.len(),
                self.accum@ == all,
                at <= n,
                at == chunks@.len() * CHUNK_SIZE,
                forall|i: int| 0 <= i < chunks@.len() ==> #[trigger] contents(chunks@)[i] == all.subrange(
                    i * CHUNK_SIZE,
                    (i + 1) * CHUNK_SIZE,
                ),
            decreases n - at,
        {
            let ghost before = chunks@;
            let mut buf = self.pool.checkout_empty();
            buf.push_slice(vstd::slice::slice_subrange(self.accum.as_slice(), at, at + CHUNK_SIZE));
            let chunk = buf.share();
            assert(chunk@ =~= all.subrange(at as int, at + CHUNK_SIZE));
            chunks.push(chunk);
            at = at + CHUNK_SIZE;
            assert forall|i: int| 0 <= i < chunks@.len() implies #[trigger] contents(chunks@)[i]
                == all.subrange(i * CHUNK_SIZE, (i + 1) * CHUNK_SIZE) by {
                if i < before.len() {
                    assert(contents(chunks@)[i] == contents(before)[i]);
                }
            }
        }
        let mut rest: Vec<T> = Vec::new();
        let mut j: usize = at;
        while j < n
            invariant
                n == self.accum@.len(),
                self.accum@ == all,
                at <= j <= n,
                rest@ == all.subrange(at as int, j as int),
            decreases n - j,
        {
            rest.push(self.accum[j]);
            j = j + 1;
            assert(rest@ =~= all.subrange(at as int, j as int));
        }
        self.accum = rest;
        proof {
            let q = chunks@.len() as int;
            assert(all.len() as int / CHUNK_SIZE as int == q) by {
                vstd::arithmetic::div_mod::lemma_fundamental_div_mod_converse(
                    all.len() as int,
                    CHUNK_SIZE as int,
                    q,
                    n - at,
                );
            }
            assert(contents(chunks@) =~= chunks_of(all));
            assert(self@ =~= rest_of(all));
        }
        chunks
    }
}

/// Law: it does not matter in which portions the samples come: the chunks after
/// `a` and the chunks after `b` are those of `a` and `b` together, and so is
/// what is left over. No sample is lost and none changes its place.
pub proof fn law_chunks_any_portions<T>(pending: Seq<T>, a: Seq<T>, b: Seq<T>)
    ensures
        chunks_of(pending + a) + chunks_of(rest_of(pending + a) + b) == chunks_of(pending + (a + b)),
        rest_of(rest_of(pending + a) + b) == rest_of(pending + (a + b)),
{
    let first = pending + a;
    let all = pending + (a + b);
    let second = rest_of(first) + b;
    let n = first.len() as int / CHUNK_SIZE as int;
    assert(all =~= first + b);
    assert(second =~= all.skip(n * CHUNK_SIZE));
    assert(all.len() as int / CHUNK_SIZE as int == n + second.len() as int / CHUNK_SIZE as int);
    let left = chunks_of(first) + chunks_of(second);
    assert forall|i: int| 0 <= i < chunks_of(all).len() implies #[trigger] left[i] == chunks_of(
        all,
    )[i] by {
        if i < n {
            assert(first.subrange(i * CHUNK_SIZE, (i + 1) * CHUNK_SIZE) =~= all.subrange(
                i * CHUNK_SIZE,
                (i + 1) * CHUNK_SIZE,
            ));
        } else {
            let k = i - n;
            assert(left[i] == chunks_of(second)[k]);
            assert(second.subrange(k * CHUNK_SIZE, (k + 1) * CHUNK_SIZE) =~= all.subrange(
                i * CHUNK_SIZE,
                (i + 1) * CHUNK_SIZE,
            ));
        }
    }
    assert(left =~= chunks_of(all));
    assert(rest_of(second) =~= rest_of(all));
}

/// The packet that the decoder gets for a media object. An empty packet makes it
/// generate a concealment frame; a lost packet's placeholder is such a one.
pub fn decoder_input(obj: &MediaObject) -> (packet: &[u8])
    ensures
        packet@ == (if obj.capture_timestamp_us == PLC_SENTINEL_TIMESTAMP {
            Seq::<u8>::empty()
        } else {
            obj.payload@
        }),
{
    if obj.capture_timestamp_us == PLC_SENTINEL_TIMESTAMP {
        let s = obj.payload.as_slice();
        let packet = vstd::slice::slice_subrange(s, 0, 0);
        assert(packet@ =~= Seq::<u8>::empty());
        packet
    } else {
        obj.payload.as_slice()
    }
}

/// Law: where every sample goes. The sample at place `i` stands in chunk `i / 960`
/// at place `i % 960`, if that chunk is whole, and waits otherwise; every chunk has
/// 960 samples, and fewer than that wait.
pub proof fn law_place_of_samples<T>(s: Seq<T>, i: int)
    requires
        0 <= i < s.len(),
    ensures
        ({
            let whole = s.len() as int / 960 * 960;
            &&& chunks_of(s).len() == s.len() as int / 960
            &&& rest_of(s).len() == s.len() - whole
            &&& rest_of(s).len() < 960
            &&& i < whole ==> chunks_of(s)[i / 960].len() == 960 && chunks_of(s)[i / 960][i % 960]
                == s[i]
            &&& i >= whole ==> rest_of(s)[i - whole] == s[i]
        }),
{
    let whole = s.len() as int / 960 * 960;
    if i < whole {
        let k = i / 960;
        assert(chunks_of(s)[k] == s.subrange(k * CHUNK_SIZE, (k + 1) * CHUNK_SIZE));
        assert(k * 960 + i % 960 == i);
    }
}

} // verus!
