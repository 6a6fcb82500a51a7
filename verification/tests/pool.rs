use std::vec;
use syncpool::pool::{EXPANSION_CAP, POOL_SIZE};
use syncpool::{PoolManager, PoolState, SyncPool};

struct BigStruct {
    a: u32,
    b: u32,
    c: Vec<u8>,
}

impl BigStruct {
    fn new() -> Self {
        BigStruct { a: 1, b: 42, c: vec::from_elem(0u8, 0x1_000_000) }
    }

    fn placeholder() -> Box<Self> {
        Box::new(BigStruct { a: 0, b: 0, c: Vec::new() })
    }

    fn initializer(mut self: Box<Self>) -> Box<Self> {
        self.a = 1;
        self.b = 42;
        self.c = vec::from_elem(0u8, 0x1_000_000);

        self
    }
}

#[test]
fn check() {
    let mut pool: SyncPool<[u8; 32]> = SyncPool::with_size(12);

    for _ in 0..32 {
        let ary = pool.get();
        assert_eq!(ary.len(), 32);
        pool.put(ary);
    }

    assert!(pool.len() > 0);
}

#[test]
fn lib_check() {
    let mut pool: SyncPool<[u8; 32]> = SyncPool::with_size(12);

    for _ in 0..32 {
        let _ary = pool.get();
    }

    assert_eq!(2 + 2, 4);
}

#[test]
fn use_packer() {
    let mut pool = SyncPool::with_packer(BigStruct::placeholder, BigStruct::initializer);

    let big_box = pool.get();

    assert_eq!(big_box.a, 1);
    assert_eq!(big_box.b, 42);
    assert_eq!(big_box.c.len(), 0x1_000_000);
}

#[test]
fn use_builder() {
    let mut pool = SyncPool::with_builder(BigStruct::new);

    let big_box = pool.get();

    assert_eq!(big_box.a, 1);
    assert_eq!(big_box.b, 42);
    assert_eq!(big_box.c.len(), 0x1_000_000);
}

#[test]
fn sizes_round_to_whole_buckets() {
    assert_eq!(SyncPool::<u8>::new().capacity(), POOL_SIZE * 8);
    assert_eq!(SyncPool::<u8>::default().capacity(), 64);
    assert_eq!(SyncPool::<u8>::with_size(0).capacity(), 8);
    assert_eq!(SyncPool::<u8>::with_size(1).capacity(), 8);
    assert_eq!(SyncPool::<u8>::with_size(8).capacity(), 8);
    assert_eq!(SyncPool::<u8>::with_size(12).capacity(), 8);
    assert_eq!(SyncPool::<u8>::with_size(16).capacity(), 16);
    assert_eq!(SyncPool::<u8>::with_size(100).capacity(), 96);
    assert_eq!(SyncPool::with_builder_and_size(24, || 7u8).capacity(), 24);
    let pool = SyncPool::with_packer_and_size(3, || Box::new(0u8), |b| b);
    assert_eq!(pool.capacity(), 8);
    assert_eq!(pool.len(), 8);
    assert!(!pool.is_empty());
    assert_eq!(pool.miss_count(), 0);
    assert!(!pool.expansion_enabled());
}

#[test]
fn single_bucket_pool_drains_and_then_allocates() {
    let mut pool: SyncPool<u64> = SyncPool::with_builder_and_size(1, || 5u64);
    assert_eq!(pool.capacity(), 8);
    let mut held = Vec::new();
    for taken in 1..=8 {
        held.push(pool.get());
        assert_eq!(pool.len(), 8 - taken);
        assert_eq!(pool.miss_count(), 0);
    }
    assert!(pool.is_empty());
    // the ninth value has to be made
    let ninth = pool.get();
    assert_eq!(*ninth, 5);
    assert_eq!(pool.miss_count(), 1);
    assert_eq!(pool.len(), 0);
    for val in held {
        assert!(pool.put(val).is_none());
    }
    assert_eq!(pool.len(), 8);
    // the pool is full: the ninth value comes back
    let back = pool.put(ninth);
    assert_eq!(back, Some(Box::new(5)));
    assert_eq!(pool.len(), 8);
}

#[test]
fn put_into_a_full_pool_returns_the_value() {
    let mut pool: SyncPool<String> = SyncPool::with_size(8);
    let extra = Box::new(String::from("extra"));
    let back = pool.put(extra);
    assert_eq!(back.as_deref().map(String::as_str), Some("extra"));
    assert_eq!(pool.len(), pool.capacity());
}

#[test]
fn prefilled_round_trip() {
    let mut pool: SyncPool<[u8; 16]> = SyncPool::with_size(16);
    for _ in 0..10_000 {
        let val = pool.get();
        assert!(pool.put(val).is_none());
    }
    assert_eq!(pool.len(), 16);
    assert_eq!(pool.miss_count(), 0);
}

#[test]
fn alternating_get_and_put_keeps_len_and_misses() {
    let mut pool: SyncPool<u32> = SyncPool::with_size(24);
    let capacity = pool.capacity();
    let len = pool.len();
    let misses = pool.miss_count();
    for _ in 0..capacity {
        let val = pool.get();
        assert!(pool.put(val).is_none());
    }
    assert_eq!(pool.len(), len);
    assert_eq!(pool.miss_count(), misses);
}

#[test]
fn a_value_put_back_is_the_next_one_taken() {
    let mut pool: SyncPool<u64> = SyncPool::with_size(16);
    let mut val = pool.get();
    *val = 0xfeed;
    assert!(pool.put(val).is_none());
    assert_eq!(*pool.get(), 0xfeed);

    // from an empty pool
    let mut pool: SyncPool<u64> = SyncPool::with_size(8);
    let held: Vec<_> = (0..8).map(|_| pool.get()).collect();
    assert!(pool.is_empty());
    let mut fresh = pool.get();
    *fresh = 77;
    assert!(pool.put(fresh).is_none());
    assert_eq!(*pool.get(), 77);
    drop(held);
}

#[test]
fn no_value_leaks() {
    let mut pool: SyncPool<u16> = SyncPool::with_size(32);
    let capacity = pool.capacity();
    let mut held = Vec::new();
    // a fixed, uneven pattern of checkouts and releases
    for step in 0..1000usize {
        if step % 3 != 2 && held.len() < capacity {
            held.push(pool.get());
        } else if let Some(val) = held.pop() {
            assert!(pool.put(val).is_none());
        }
        assert_eq!(pool.len() + held.len(), capacity);
    }
    assert_eq!(pool.miss_count(), 0);
}

#[test]
fn get_walks_up_from_the_cursor_and_put_walks_down() {
    // two buckets; values tell where they come from
    let mut pool: SyncPool<usize> = SyncPool::with_size(16);
    // empty the first bucket
    let first: Vec<_> = (0..8).map(|_| pool.get()).collect();
    assert_eq!(pool.len(), 8);
    // the next checkout comes from the second bucket
    let mut from_second = pool.get();
    *from_second = 2;
    assert_eq!(pool.len(), 7);
    // the release starts at the second bucket, where the cursor is
    assert!(pool.put(from_second).is_none());
    assert_eq!(*pool.get(), 2);
    drop(first);
}

#[test]
fn reset_hook_cleans_returned_values() {
    let mut pool: SyncPool<[u8; 32]> = SyncPool::with_size(8);
    pool.reset_handle(|val: &mut [u8; 32]| *val = [0u8; 32]);
    let mut val = pool.get();
    for (i, byte) in val.iter_mut().enumerate() {
        *byte = i as u8 + 1;
    }
    assert_eq!(val[31], 32);
    assert!(pool.put(val).is_none());
    let val = pool.get();
    assert_eq!(*val, [0u8; 32]);
}

#[test]
fn without_a_reset_hook_values_come_back_as_they_were() {
    let mut pool: SyncPool<[u8; 4]> = SyncPool::with_size(8);
    let mut val = pool.get();
    *val = [1, 2, 3, 4];
    assert!(pool.put(val).is_none());
    assert_eq!(*pool.get(), [1, 2, 3, 4]);
}

#[test]
fn expansion_has_to_be_allowed() {
    let mut pool: SyncPool<u8> = SyncPool::with_size(8);
    assert!(!pool.expansion_enabled());
    assert!(!pool.expand(1, true));
    assert_eq!(pool.capacity(), 8);
    pool.allow_expansion(true);
    assert!(pool.expansion_enabled());
    assert!(pool.expand(1, false));
    assert_eq!(pool.capacity(), 16);
    assert_eq!(pool.len(), 16);
    pool.allow_expansion(true);
    assert!(pool.expansion_enabled());
    pool.allow_expansion(false);
    assert!(!pool.expansion_enabled());
    assert!(!pool.expand(1, true));
    assert_eq!(pool.capacity(), 16);
}

#[test]
fn expansion_under_pressure() {
    let mut pool: SyncPool<u32> = SyncPool::with_size(8);
    pool.allow_expansion(true);
    let held: Vec<_> = (0..10).map(|_| pool.get()).collect();
    assert_eq!(pool.miss_count(), 2);
    assert!(pool.expand(8, true));
    assert_eq!(pool.miss_count(), 0);
    assert_eq!(pool.capacity(), 72);
    assert_eq!(pool.len(), 64);
    for _ in 0..64 {
        let _val = pool.get();
    }
    assert_eq!(pool.miss_count(), 0);
    drop(held);
}

#[test]
fn expansion_stops_at_the_cap() {
    let mut pool: SyncPool<u8> = SyncPool::with_size(8);
    pool.allow_expansion(true);
    assert!(pool.expand(EXPANSION_CAP + 100, true));
    assert_eq!(pool.capacity(), EXPANSION_CAP * 8);
    assert!(!pool.expand(1, true));
    assert_eq!(pool.capacity(), EXPANSION_CAP * 8);
    assert!(pool.expand(0, true) == false);
}

#[test]
fn expansion_by_nothing_succeeds_below_the_cap() {
    let mut pool: SyncPool<u8> = SyncPool::with_size(8);
    pool.allow_expansion(true);
    let _val = pool.get();
    let _other = pool.get();
    assert!(pool.expand(0, false));
    assert_eq!(pool.capacity(), 8);
}

#[test]
fn chained_configuration() {
    let mut pool: SyncPool<u8> = SyncPool::with_size(8);
    pool.reset_handle(|val: &mut u8| *val = 9).allow_expansion(true);
    assert!(pool.expansion_enabled());
    let val = pool.get();
    assert!(pool.put(val).is_none());
    assert_eq!(*pool.get(), 9);
}

#[test]
fn refill_tops_the_pool_up() {
    let mut pool: SyncPool<u64> = SyncPool::with_builder_and_size(16, || 3u64);
    assert_eq!(pool.refill(5), 0);
    let mut held: Vec<_> = (0..10).map(|_| pool.get()).collect();
    for val in held.iter_mut() {
        **val = 1;
    }
    assert_eq!(pool.len(), 6);
    assert_eq!(pool.refill(4), 4);
    assert_eq!(pool.len(), 10);
    assert_eq!(pool.refill(100), 6);
    assert_eq!(pool.len(), 16);
    assert_eq!(pool.refill(1), 0);
    assert_eq!(pool.miss_count(), 0);
    // the values that went in are fresh ones
    for _ in 0..16 {
        assert_eq!(*pool.get(), 3);
    }
}
