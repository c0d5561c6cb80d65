//! Buffer pool that eliminates per-frame heap allocations.
//!
//! A buffer is checked out, filled, and frozen into a shared handle. When the
//! last handle is dropped the underlying `Vec` goes back to the free list of
//! the pool it came from.
use std::ops::Deref;
use std::sync::{Arc, Mutex};
use vstd::prelude::*;

verus! {

/// `std::sync::Mutex`, which guards the free list of a pool.
#[verifier::external_type_specification]
#[verifier::external_body]
#[verifier::reject_recursive_types(T)]
pub struct ExMutex<T: ?Sized>(Mutex<T>);

/// `Mutex::new`: an unlocked mutex around an empty free list. Nothing is said of
/// the result: what a mutex guards changes behind shared references, so it is no
/// part of the mutex's value.
#[verifier::external_body]
fn new_free_list<T>() -> (list: Mutex<Vec<Vec<T>>>) {
    Mutex::new(Vec::new())
}

/// `Mutex::lock`, for the time of one `pop` from the free list. Which buffer
/// comes out, if any, depends on the other holders of the pool, so nothing is
/// said of the result. The mutex is never poisoned: no code that holds it panics.
#[verifier::external_body]
fn take_free<T>(list: &Mutex<Vec<Vec<T>>>) -> (v: Option<Vec<T>>) {
    list.lock().unwrap().pop()
}

/// `Mutex::lock`, for the time of one `push` onto the free list. The mutex is
/// never poisoned, as with [`take_free`].
#[verifier::external_body]
fn put_free<T>(list: &Mutex<Vec<Vec<T>>>, v: Vec<T>)
    opens_invariants none
    no_unwind
{
    list.lock().unwrap().push(v)
}

/// `Vec::clear`: drops the elements and keeps the allocation. It does not unwind,
/// since no destructor does, and can therefore stand in one itself.
#[verifier::external_body]
fn emptied<T>(v: Vec<T>) -> (r: Vec<T>)
    ensures
        r@ == Seq::<T>::empty(),
    opens_invariants none
    no_unwind
{
    let mut v = v;
    v.clear();
    v
}

/// `Mutex::lock`, for the time of one `len` of the free list. Other holders of
/// the pool change that length at any time, so nothing is said of the result. The
/// mutex is never poisoned, as with [`take_free`].
#[verifier::external_body]
fn count_free<T>(list: &Mutex<Vec<Vec<T>>>) -> (n: usize) {
    list.lock().unwrap().len()
}

/// A pool of reusable `Vec<T>` buffers.
///
/// `Clone` is cheap (shared inner state). Safe to pass to multiple threads.
#[verifier::reject_recursive_types(T)]
pub struct BufPool<T> {
    inner: Arc<Mutex<Vec<Vec<T>>>>,
}

impl<T> Clone for BufPool<T> {
    fn clone(&self) -> (copy: Self)
        ensures
            copy == *self,
    {
        BufPool { inner: self.inner.clone() }
    }
}

/// An exclusively-owned buffer checked out from a [`BufPool`].
///
/// On drop, the underlying `Vec` is returned to the pool. Call
/// [`share`](PoolBuf::share) to convert to a cheaply-cloneable [`SharedBuf`].
#[verifier::reject_recursive_types(T)]
pub struct PoolBuf<T> {
    inner: Option<Vec<T>>,
    pool: Arc<Mutex<Vec<Vec<T>>>>,
}

/// A reference-counted handle to a pooled buffer.
///
/// Cloning is a refcount bump. When the last clone is dropped the underlying
/// `Vec<T>` is returned to the pool.
#[verifier::reject_recursive_types(T)]
pub struct SharedBuf<T>(Arc<SharedInner<T>>);

#[verifier::reject_recursive_types(T)]
struct SharedInner<T> {
    data: Option<Vec<T>>,
    pool: Arc<Mutex<Vec<Vec<T>>>>,
}

impl<T> View for PoolBuf<T> {
    type V = Seq<T>;

    /// The elements of the buffer.
    closed spec fn view(&self) -> Seq<T> {
        match self.inner {
            Some(v) => v@,
            None => Seq::empty(),
        }
    }
}

impl<T> View for SharedBuf<T> {
    type V = Seq<T>;

    /// The elements of the buffer.
    closed spec fn view(&self) -> Seq<T> {
        match self.0.data {
            Some(v) => v@,
            None => Seq::empty(),
        }
    }
}

impl<T> Drop for PoolBuf<T> {
    fn drop(&mut self)
        opens_invariants none
        no_unwind
    {
        let mut inner: Option<Vec<T>> = None;
        core::mem::swap(&mut inner, &mut self.inner);
        if let Some(v) = inner {
            put_free(&*self.pool, emptied(v));
        }
    }
}

impl<T> Drop for SharedInner<T> {
    fn drop(&mut self)
        opens_invariants none
        no_unwind
    {
        let mut data: Option<Vec<T>> = None;
        core::mem::swap(&mut data, &mut self.data);
        if let Some(v) = data {
            put_free(&*self.pool, emptied(v));
        }
    }
}

/// The elements of a slice, of a default buffer: each one is a result of
/// `T::default()`.
pub open spec fn all_default<T: Default>(s: Seq<T>) -> bool {
    forall|i: int| 0 <= i < s.len() ==> call_ensures(T::default, (), #[trigger] s[i])
}

impl<T> BufPool<T> {
    /// An empty pool.
    pub fn new() -> Self {
        BufPool { inner: Arc::new(new_free_list()) }
    }

    /// Check out an empty buffer with recycled capacity.
    ///
    /// The returned [`PoolBuf`] has length 0 but retains the heap allocation
    /// from a previous use.
    pub fn checkout_empty(&self) -> (buf: PoolBuf<T>)
        ensures
            buf@ == Seq::<T>::empty(),
    {
        let mut v: Vec<T> = match take_free(&*self.inner) {
            Some(v) => v,
            None => Vec::new(),
        };
        v.clear();
        PoolBuf { inner: Some(v), pool: self.inner.clone() }
    }

    /// Number of buffers on the free list. Whoever else holds the pool, or a buffer
    /// of it, changes that number at any time.
    pub fn free_count(&self) -> (n: usize) {
        count_free(&*self.inner)
    }
}

impl<T: Default + Clone> BufPool<T> {
    /// Check out a buffer of exactly `len` elements, each of them `T::default()`.
    ///
    /// If the pool has a buffer available it is reused (the `Vec`'s heap
    /// allocation is kept); otherwise a new `Vec` is allocated.
    pub fn checkout(&self, len: usize) -> (buf: PoolBuf<T>)
        ensures
            buf@.len() == len,
            all_default(buf@),
    {
        let mut v: Vec<T> = match take_free(&*self.inner) {
            Some(v) => v,
            None => Vec::new(),
        };
        v.clear();
        v.reserve(len);
        let mut i: usize = 0;
        while i < len
            invariant
                i <= len,
                v@.len() == i,
                all_default(v@),
            decreases len - i,
        {
            v.push(T::default());
            i = i + 1;
        }
        PoolBuf { inner: Some(v), pool: self.inner.clone() }
    }
}

impl<T> PoolBuf<T> {
    /// Append an element to the buffer.
    pub fn push(&mut self, value: T)
        ensures
            final(self)@ == old(self)@.push(value),
    {
        let mut v: Vec<T> = match self.inner.take() {
            Some(v) => v,
            None => Vec::new(),
        };
        v.push(value);
        self.inner = Some(v);
    }

    /// Append a slice of elements to the buffer.
    pub fn push_slice(&mut self, values: &[T])
        where T: Copy,
        ensures
            final(self)@ == old(self)@ + values@,
    {
        let mut v: Vec<T> = match self.inner.take() {
            Some(v) => v,
            None => Vec::new(),
        };
        let ghost before = v@;
        let mut i: usize = 0;
        while i < values.len()
            invariant
                i <= values@.len(),
                v@ == before + values@.take(i as int),
            decreases values@.len() - i,
        {
            v.push(values[i]);
            i = i + 1;
            proof {
                assert(values@.take(i as int) =~= values@.take(i - 1).push(values@[i - 1]));
            }
        }
        assert(values@.take(i as int) =~= values@);
        self.inner = Some(v);
    }

    /// Overwrite the element at `index`.
    pub fn set(&mut self, index: usize, value: T)
        requires
            index < old(self)@.len(),
        ensures
            final(self)@ == old(self)@.update(index as int, value),
    {
        let mut v: Vec<T> = match self.inner.take() {
            Some(v) => v,
            None => Vec::new(),
        };
        v.set(index, value);
        self.inner = Some(v);
    }

    /// Returns the number of elements in the buffer.
    pub fn len(&self) -> (n: usize)
        ensures
            n == self@.len(),
    {
        match &self.inner {
            Some(v) => v.len(),
            None => 0,
        }
    }

    /// The elements of the buffer.
    pub fn as_slice(&self) -> (s: &[T])
        ensures
            s@ == self@,
    {
        match &self.inner {
            Some(v) => v.as_slice(),
            None => &[],
        }
    }

    /// Freeze this buffer into a shared, cheaply-cloneable handle.
    ///
    /// The returned [`SharedBuf`] can be cloned with only a reference-count
    /// bump (no data copy). When the **last** clone is dropped the `Vec` is
    /// returned to the originating pool, not freed.
    pub fn share(self) -> (shared: SharedBuf<T>)
        ensures
            shared@ == self@,
    {
        let mut this = self;
        let data = this.inner.take();
        SharedBuf(Arc::new(SharedInner { data, pool: this.pool.clone() }))
    }

    /// Truncate to `len` elements and freeze into a shared handle.
    ///
    /// Useful when the buffer was checked out at an estimated size and only
    /// partially filled. A `len` beyond the end leaves the elements as they are.
    pub fn truncate_and_share(self, len: usize) -> (shared: SharedBuf<T>)
        ensures
            len <= self@.len() ==> shared@ == self@.take(len as int),
            len > self@.len() ==> shared@ == self@,
    {
        let mut this = self;
        let mut v: Vec<T> = match this.inner.take() {
            Some(v) => v,
            None => Vec::new(),
        };
        v.truncate(len);
        SharedBuf(Arc::new(SharedInner { data: Some(v), pool: this.pool.clone() }))
    }
}

impl<T> SharedBuf<T> {
    /// Create a `SharedBuf` from a `Vec` without a pool.
    ///
    /// When dropped, the `Vec` is simply freed: the free list it goes back to
    /// is its own, and nobody reads from it.
    pub fn from_vec(v: Vec<T>) -> (shared: SharedBuf<T>)
        ensures
            shared@ == v@,
    {
        SharedBuf(Arc::new(SharedInner { data: Some(v), pool: Arc::new(new_free_list()) }))
    }

    /// Number of elements.
    pub fn len(&self) -> (n: usize)
        ensures
            n == self@.len(),
    {
        self.as_slice().len()
    }

    /// The elements of the buffer.
    pub fn as_slice(&self) -> (s: &[T])
        ensures
            s@ == self@,
    {
        match &self.0.data {
            Some(v) => v.as_slice(),
            None => &[],
        }
    }
}

impl<T> Clone for SharedBuf<T> {
    fn clone(&self) -> (copy: Self)
        ensures
            copy == *self,
    {
        SharedBuf(self.0.clone())
    }
}

impl PartialEq<[u8]> for SharedBuf<u8> {
    fn eq(&self, other: &[u8]) -> (r: bool) {
        crate::wire::same_bytes(self.as_slice(), other)
    }
}

impl vstd::std_specs::cmp::PartialEqSpecImpl<[u8]> for SharedBuf<u8> {
    open spec fn obeys_eq_spec() -> bool {
        true
    }

    open spec fn eq_spec(&self, other: &[u8]) -> bool {
        self@ == other@
    }
}

impl<T> Deref for SharedBuf<T> {
    type Target = [T];

    fn deref(&self) -> (s: &[T])
        ensures
            s@ == self@,
    {
        self.as_slice()
    }
}

impl<T> Deref for PoolBuf<T> {
    type Target = [T];

    fn deref(&self) -> (s: &[T])
        ensures
            s@ == self@,
    {
        self.as_slice()
    }
}

impl AsRef<[u8]> for SharedBuf<u8> {
    fn as_ref(&self) -> (s: &[u8])
        ensures
            s@ == self@,
    {
        self.as_slice()
    }
}

/// `bytes::Bytes`, the buffer that the transport takes.
#[verifier::external_type_specification]
#[verifier::external_body]
pub struct ExBytes(bytes::Bytes);

/// The bytes that a `bytes::Bytes` holds.
pub uninterp spec fn bytes_content(b: bytes::Bytes) -> Seq<u8>;

impl SharedBuf<u8> {
    /// Convert into a `bytes::Bytes` with zero copy.
    ///
    /// The `Bytes` takes ownership of this `SharedBuf`. When the `Bytes` (and
    /// all its slices and clones) is dropped, the underlying `Vec<u8>` is
    /// returned to the originating pool.
    ///
    /// Calls `Bytes::from_owner`, which holds the bytes that the owner's
    /// `as_ref` gives.
    #[verifier::external_body]
    pub fn into_bytes(self) -> (b: bytes::Bytes)
        ensures
            bytes_content(b) == self@,
    {
        bytes::Bytes::from_owner(self)
    }
}

} // verus!
