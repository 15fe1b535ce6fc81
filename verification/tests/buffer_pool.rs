use toygrep::buffer_pool::{BufferPool, MAX_START_CAPACITY};
use toygrep::line_buffer::AsyncLineBufferBuilder;

#[test]
fn a_new_pool_holds_four_buffers() {
    let pool = BufferPool::new();
    assert_eq!(4, pool.pool_size());
}

#[test]
fn acquire_recycles_before_it_creates() {
    let mut pool = BufferPool::new();
    let buffer = pool.acquire(100);
    assert_eq!(3, pool.pool_size());
    assert_eq!(8192, buffer.len());
}

#[test]
fn acquire_creates_a_buffer_sized_by_the_hint() {
    let mut pool = BufferPool::new();
    for _ in 0..4 {
        pool.acquire(0);
    }
    assert_eq!(0, pool.pool_size());

    let buffer = pool.acquire(100);
    assert_eq!(100, buffer.len());
    assert_eq!(0, pool.pool_size());

    let capped = pool.acquire(MAX_START_CAPACITY + 1);
    assert_eq!(MAX_START_CAPACITY, capped.len());
    assert_eq!(1048576, capped.len());

    let empty = pool.acquire(0);
    assert_eq!(0, empty.len());
}

#[test]
fn generate_new_is_sized_by_the_hint() {
    assert_eq!(12, BufferPool::generate_new(12).len());
    assert_eq!(
        MAX_START_CAPACITY,
        BufferPool::generate_new(usize::MAX).len()
    );
}

#[test]
fn try_get_existing_gives_nothing_from_an_empty_pool() {
    let mut pool = BufferPool::new();
    for _ in 0..4 {
        assert!(pool.try_get_existing().is_some());
    }
    assert!(pool.try_get_existing().is_none());
    assert_eq!(0, pool.pool_size());
}

#[test]
fn a_returned_buffer_comes_back_clean() {
    let mut pool = BufferPool::new();
    let mut used = AsyncLineBufferBuilder::new()
        .with_read_capacity(16)
        .build();
    used.fill(b"one\ntwo\nthr");
    assert_eq!(Some(&b"one\n"[..]), used.consume_line());
    assert!(used.has_line());

    pool.return_to_pool(used);
    assert_eq!(5, pool.pool_size());

    let mut again = pool.acquire(1);
    assert_eq!(16, again.len());
    assert_eq!(16, again.writable_len());
    assert!(!again.has_line());
    assert_eq!(None, again.consume_line());
    assert_eq!(None, again.consume_remaining());
}

#[test]
fn every_acquired_buffer_starts_clean() {
    let mut pool = BufferPool::new();
    for round in 0..10 {
        let mut buffer = pool.acquire(round);
        assert_eq!(buffer.len(), buffer.writable_len());
        assert!(!buffer.has_line());
        assert_eq!(None, buffer.consume_remaining());
        buffer.fill(b"left\nover");
        if round % 2 == 0 {
            pool.return_to_pool(buffer);
        }
    }
}
