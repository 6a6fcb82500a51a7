use syncpool::{PoolState, SyncPool};

/// Two producers take values and send them through a bounded channel; a
/// consumer receives them and puts them back. The three take turns here.
#[test]
fn producer_consumer() {
    let mut pool: SyncPool<[u8; 32]> = SyncPool::with_size(64);
    let (tx, rx) = crossbeam_channel::bounded::<Box<[u8; 32]>>(32);
    let other = tx.clone();

    let mut sent = [0usize; 2];
    let mut dropped = 0usize;
    while sent[0] < 1000 || sent[1] < 1000 {
        for (producer, tx) in [&tx, &other].into_iter().enumerate() {
            if sent[producer] < 1000 {
                let val = pool.get();
                match tx.try_send(val) {
                    Ok(()) => sent[producer] += 1,
                    // the channel is full: the value goes straight back
                    Err(err) => assert!(pool.put(err.into_inner()).is_none()),
                }
            }
        }
        assert_eq!(pool.len() + rx.len(), pool.capacity());
        // the consumer is slower than the producers
        if rx.len() == 32 || sent[0] + sent[1] == 2000 {
            for val in rx.try_iter() {
                if pool.put(val).is_some() {
                    dropped += 1;
                }
            }
        }
    }
    let in_flight = rx.len();
    assert_eq!(in_flight, 0);
    assert_eq!(dropped, 0);
    assert_eq!(pool.len() + in_flight, pool.capacity());
    assert_eq!(pool.miss_count(), 0);
}

/// With more values on the way than the pool has, the pool makes new ones and
/// later has no room for all of them.
#[test]
fn a_deep_channel_outruns_a_small_pool() {
    let mut pool: SyncPool<u64> = SyncPool::with_size(8);
    let (tx, rx) = crossbeam_channel::bounded::<Box<u64>>(32);
    for _ in 0..32 {
        tx.send(pool.get()).unwrap();
    }
    assert_eq!(pool.miss_count(), 24);
    assert!(pool.is_empty());
    let mut returned = 0;
    for val in rx.try_iter() {
        if pool.put(val).is_some() {
            returned += 1;
        }
    }
    assert_eq!(returned, 24);
    assert_eq!(pool.len(), pool.capacity());
}
