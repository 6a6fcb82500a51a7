use syncpool::bucket::Bucket;
use syncpool::construct::{default_box, make_box, make_elem, ElemBuilder, ResetHook};
use syncpool::visitor::{VisitorGuard, Visitors};
use syncpool::{PoolState, SyncPool};

fn filled() -> Bucket<u32> {
    let mut bucket: Bucket<u32> = Bucket::new(None);
    for value in 0..8u32 {
        let pos = bucket.access(false).unwrap();
        bucket.release(pos, Box::new(value), None);
        bucket.leave(pos as u16);
    }
    bucket
}

#[test]
fn an_empty_bucket_grants_releases_only() {
    let mut bucket: Bucket<u32> = Bucket::new(None);
    assert_eq!(bucket.size_hint(), 0);
    assert_eq!(bucket.access(true), Err(()));
    assert_eq!(bucket.size_hint(), 0);
    assert_eq!(bucket.access(false), Ok(0));
    assert_eq!(bucket.size_hint(), 1);
}

#[test]
fn a_full_bucket_grants_checkouts_only() {
    let mut bucket = filled();
    assert_eq!(bucket.size_hint(), 8);
    assert_eq!(bucket.access(false), Err(()));
    assert_eq!(bucket.size_hint(), 8);
    assert_eq!(bucket.access(true), Ok(0));
    assert_eq!(bucket.size_hint(), 7);
    assert_eq!(bucket.checkout(0), Ok(Box::new(0)));
    bucket.leave(0);
    assert_eq!(bucket.access(true), Ok(1));
}

#[test]
fn checkout_of_an_empty_slot_fails() {
    let mut bucket: Bucket<u32> = Bucket::new(None);
    assert_eq!(bucket.checkout(3), Err(()));
    assert_eq!(bucket.checkout(8), Err(()));
    let mut bucket = filled();
    assert_eq!(bucket.checkout(8), Err(()));
    assert_eq!(bucket.checkout(7), Ok(Box::new(7)));
    assert_eq!(bucket.checkout(7), Err(()));
}

#[test]
fn release_into_a_full_slot_drops_the_value() {
    let mut bucket = filled();
    let pos = bucket.access(true).unwrap();
    // the owner does not take the value out, so the slot is still full
    bucket.release(pos, Box::new(99), None);
    assert_eq!(bucket.checkout(pos), Ok(Box::new(0)));
    bucket.release(9, Box::new(99), None);
    bucket.leave(pos as u16);
    assert_eq!(bucket.size_hint(), 7);
}

#[test]
fn two_operators_get_slots_of_their_own() {
    let mut bucket = filled();
    let one = bucket.access(true).unwrap();
    let two = bucket.access(true).unwrap();
    assert_eq!((one, two), (0, 1));
    assert_eq!(bucket.size_hint(), 6);
    let second = bucket.checkout(two).unwrap();
    let first = bucket.checkout(one).unwrap();
    bucket.leave(two as u16);
    bucket.leave(one as u16);
    assert_eq!((*first, *second), (0, 1));
    // both slots are free again, and empty
    assert_eq!(bucket.access(false), Ok(0));
    assert_eq!(bucket.access(false), Ok(1));
    assert_eq!(bucket.size_hint(), 8);
    // every slot is taken or spoken for
    assert_eq!(bucket.access(false), Err(()));
    assert_eq!(bucket.size_hint(), 8);
}

#[test]
fn a_release_in_flight_hides_the_slot_from_checkouts() {
    let mut bucket: Bucket<u32> = Bucket::new(None);
    let pos = bucket.access(false).unwrap();
    // the hint counts the value already, but no checkout finds it yet
    assert_eq!(bucket.size_hint(), 1);
    assert_eq!(bucket.access(true), Err(()));
    assert_eq!(bucket.size_hint(), 1);
    bucket.release(pos, Box::new(4), None);
    bucket.leave(pos as u16);
    assert_eq!(bucket.access(true), Ok(0));
    assert_eq!(bucket.checkout(0), Ok(Box::new(4)));
}

#[test]
fn defaulted() {
    #[derive(Debug)]
    struct BigStruct2 {
        a: u32,
        b: u32,
        c: Vec<u8>,
    }

    impl Default for BigStruct2 {
        fn default() -> Self {
            BigStruct2 { a: 1, b: 42, c: std::vec::from_elem(0, 0x1_000_000) }
        }
    }

    // create the object directly on the heap
    let boxed: Box<BigStruct2> = default_box();

    // the fields are now valid
    assert_eq!(boxed.c.len(), 0x1_000_000);
    assert_eq!(boxed.a, 1);
    assert_eq!(boxed.b, 42);
}

#[test]
fn pack() {
    struct BigStruct {
        a: u32,
        b: u32,
        c: Vec<u8>,
    }

    struct Holder {
        a: u32,
        c: Option<Box<BigStruct>>,
    }

    // create the object on the heap directly
    let boxed: Box<Holder> = make_box(
        || Box::new(Holder { a: 0, c: None }),
        |mut src: Box<Holder>| {
            // initialize the fields in the handler
            let mut big =
                Box::new(BigStruct { a: 0, b: 0, c: std::vec::from_elem(0, 0x1_000_000) });
            big.a = 42;
            big.b = 4 * 42;
            big.c[4200] = 125;

            // make sure we initialize the fields
            src.a = 42;
            src.c = Some(big);

            src
        },
    );

    // the fields are now valid
    let big_ref = boxed.c.as_ref().unwrap();

    assert_eq!(big_ref.c.len(), 0x1_000_000);
    assert_eq!(big_ref.c[4200], 125);
    assert_eq!(big_ref.a, 42);
    assert_eq!(big_ref.b, 168);
    assert_eq!(boxed.a, 42);
}

#[test]
fn each_strategy_makes_its_value() {
    let mut by_default: SyncPool<u32> = SyncPool::with_size(8);
    let mut by_builder: SyncPool<u32> = SyncPool::with_builder_and_size(8, || 11);
    let mut by_packer: SyncPool<u32> =
        SyncPool::with_packer_and_size(8, || Box::new(1), |mut b| {
            *b += 21;
            b
        });
    for _ in 0..9 {
        assert_eq!(*by_default.get(), 0);
        assert_eq!(*by_builder.get(), 11);
        assert_eq!(*by_packer.get(), 22);
    }
    assert_eq!(by_default.miss_count(), 1);
    assert_eq!(by_builder.miss_count(), 1);
    assert_eq!(by_packer.miss_count(), 1);
}

#[test]
fn a_filler_makes_a_full_bucket() {
    let builders = [
        ElemBuilder::by_builder(|| 3u8),
        ElemBuilder::by_default(|| Box::new(3u8)),
        ElemBuilder::by_packer(|| Box::new(1u8), |mut b| {
            *b += 2;
            b
        }),
    ];
    for builder in builders.iter() {
        assert_eq!(*make_elem(builder), 3);
        let mut bucket = Bucket::new(Some(builder));
        assert_eq!(bucket.size_hint(), 8);
        assert_eq!(bucket.access(false), Err(()));
        for pos in 0..8 {
            assert_eq!(bucket.access(true), Ok(pos));
            assert_eq!(bucket.checkout(pos), Ok(Box::new(3)));
            bucket.leave(pos as u16);
        }
        assert_eq!(bucket.access(true), Err(()));
        assert_eq!(bucket.size_hint(), 0);
    }
}

#[test]
fn a_reset_hook_cleans_what_is_released() {
    let hook = ResetHook::keep(|val: &mut u32| *val = 0);
    let mut bucket: Bucket<u32> = Bucket::new(None);
    let pos = bucket.access(false).unwrap();
    bucket.release(pos, Box::new(41), Some(&hook));
    bucket.leave(pos as u16);
    let mut val = 7;
    hook.apply(&mut val);
    assert_eq!(val, 0);
    assert_eq!(bucket.access(true), Ok(0));
    assert_eq!(bucket.checkout(0), Ok(Box::new(0)));
}

#[test]
fn visitors_register_and_leave() {
    let mut visitors = Visitors::new();
    let guard = VisitorGuard::register(&mut visitors, true).unwrap();
    let other = VisitorGuard::register(&mut visitors, false).unwrap();
    // with visitors inside, the count cannot be taken
    assert!(visitors.raise());
    assert!(!visitors.drain(false));
    assert!(!visitors.drain(true));
    // and with the barrier up nobody gets in
    assert!(VisitorGuard::register(&mut visitors, true).is_none());
    assert!(VisitorGuard::register(&mut visitors, false).is_none());
    assert!(!visitors.raise());
    guard.leave(&mut visitors);
    assert!(!visitors.drain(false));
    other.leave(&mut visitors);
    assert!(visitors.drain(false));
    assert!(VisitorGuard::register(&mut visitors, false).is_none());
    visitors.restore();
    let guard = VisitorGuard::register(&mut visitors, false).unwrap();
    guard.leave(&mut visitors);
    assert!(visitors.raise());
    visitors.lower();
    assert!(visitors.raise());
    assert!(visitors.drain(true));
}
