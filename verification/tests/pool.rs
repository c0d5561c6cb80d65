use meshconf::pool::{BufPool, SharedBuf};

#[test]
fn checkout_share_return() {
    let pool = BufPool::<u32>::new();

    // First checkout allocates.
    let mut buf = pool.checkout(100);
    buf.set(0, 42);
    let shared = buf.share();
    assert_eq!(shared[0], 42);
    assert_eq!(shared.len(), 100);

    let shared2 = shared.clone();
    drop(shared);
    // Vec not yet returned (shared2 still alive).
    assert_eq!(pool.free_count(), 0);

    drop(shared2);
    // Vec returned to pool.
    assert_eq!(pool.free_count(), 1);

    // Second checkout reuses the buffer — no allocation.
    let buf2 = pool.checkout(100);
    assert_eq!(pool.free_count(), 0);
    drop(buf2);
    assert_eq!(pool.free_count(), 1);
}

#[test]
fn pool_buf_drop_returns() {
    let pool = BufPool::<u8>::new();
    let buf = pool.checkout(64);
    drop(buf); // should return without share()
    assert_eq!(pool.free_count(), 1);
}

#[test]
fn resize_reuses_capacity() {
    let pool = BufPool::<u32>::new();

    let buf = pool.checkout(1000);
    let shared = buf.share();
    drop(shared); // returns Vec with capacity >= 1000

    // Checkout smaller size — should reuse the large-capacity Vec.
    let buf2 = pool.checkout(10);
    assert_eq!(buf2.len(), 10);
    // The underlying Vec still has capacity from the first allocation.
    drop(buf2);
}

#[test]
fn recycled_buffers_come_back_default() {
    let pool = BufPool::<u8>::new();
    let mut buf = pool.checkout(3);
    buf.set(1, 7);
    drop(buf);
    let again = pool.checkout(3);
    assert_eq!(again.as_slice(), &[0, 0, 0]);
    drop(again);
    assert_eq!(pool.checkout_empty().len(), 0);
}

#[test]
fn pushes_append() {
    let pool = BufPool::<u8>::new();
    let mut buf = pool.checkout_empty();
    buf.push(1);
    buf.push_slice(&[2, 3, 4]);
    assert_eq!(&buf[..], &[1, 2, 3, 4]);
    let shared = buf.truncate_and_share(2);
    assert_eq!(shared.as_slice(), &[1, 2]);
}

#[test]
fn truncating_beyond_the_end_keeps_all() {
    let pool = BufPool::<u8>::new();
    let mut buf = pool.checkout_empty();
    buf.push_slice(&[5, 6]);
    assert_eq!(buf.truncate_and_share(9).as_slice(), &[5, 6]);
}

#[test]
fn unpooled_buffers_stay_out_of_pools() {
    let pool = BufPool::<u8>::new();
    let shared = SharedBuf::from_vec(vec![1, 2]);
    assert_eq!(shared.len(), 2);
    drop(shared);
    assert_eq!(pool.free_count(), 0);
}

#[test]
fn bytes_hold_the_buffer_and_return_it() {
    let pool = BufPool::<u8>::new();
    let mut buf = pool.checkout_empty();
    buf.push_slice(b"payload");
    let bytes = buf.share().into_bytes();
    assert_eq!(&bytes[..], b"payload");
    let clone = bytes.clone();
    drop(bytes);
    assert_eq!(pool.free_count(), 0);
    drop(clone);
    assert_eq!(pool.free_count(), 1);
}

#[test]
fn a_cloned_pool_shares_its_free_list() {
    let pool = BufPool::<u8>::new();
    let other = pool.clone();
    drop(pool.checkout(4));
    assert_eq!(other.free_count(), 1);
}
