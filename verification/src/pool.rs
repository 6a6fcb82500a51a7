//! The pool: a row of buckets behind a rotating cursor.
//!
//! A checkout walks the buckets upwards from the cursor and takes a value from
//! the first one that grants it a slot; a release walks them downwards. A
//! checkout that finds nothing makes a new value and counts a miss; a release
//! that finds no room hands the value back.

use vstd::prelude::*;
use crate::bits::{cpu_relax, locate, occupancy, FULL_FLAG, SLOT_CAP};
use crate::bucket::{lemma_claim_coherent, lemma_round_settled, Bucket, BucketView};
use crate::construct::{
    built_by, default_box, made_by_default, make_elem, packed_by, ElemBuilder, ResetHook,
};
use crate::visitor::{VisitorGuard, Visitors, VisitorsView};

verus! {
/// Number of buckets of a pool made without a size.
pub const POOL_SIZE: usize = 8;

/// A pool with this many buckets is not expanded any further.
pub const EXPANSION_CAP: usize = 512;

/// Length of the short wait between two buckets.
pub const SPIN_PERIOD: usize = 4;

/// The configuration bit that allows the pool to expand.
pub const CONFIG_ALLOW_EXPANSION: usize = 1;

/// The largest number of buckets whose slots can still be counted.
pub const BUCKET_LIMIT: usize = usize::MAX / 8;

/// What a pool is.
#[verifier::reject_recursive_types(T)]
pub struct PoolView<T> {
    /// The buckets, in order.
    pub buckets: Seq<BucketView<T>>,
    /// Where the last checkout or release found its bucket.
    pub cursor: usize,
    /// Visitor count and write barrier.
    pub visitors: VisitorsView,
    /// How many checkouts had to make a new value.
    pub miss_count: usize,
    /// The configuration bits.
    pub configure: usize,
    /// The function that cleans a value before it goes back into the pool.
    pub reset: Option<ResetHook<T>>,
    /// The strategy that makes a new value.
    pub builder: ElemBuilder<T>,
}

/// The sum of the occupancy hints of the first `upto` buckets.
pub open spec fn hint_sum<T>(buckets: Seq<BucketView<T>>, upto: nat) -> nat
    decreases upto,
{
    if upto == 0 {
        0
    } else {
        hint_sum(buckets, (upto - 1) as nat) + buckets[upto - 1].hint as nat
    }
}

/// The bucket that is tried after bucket `at`: the next one for a checkout, the
/// one before for a release, around the end.
pub open spec fn step(at: int, count: int, get: bool) -> int {
    if get {
        (at + 1) % count
    } else {
        (at + count - 1) % count
    }
}

/// The first bucket that grants a claim, going from bucket `at` for at most
/// `trials` buckets.
pub open spec fn scan<T>(buckets: Seq<BucketView<T>>, get: bool, at: int, trials: nat) -> Option<
    int,
>
    decreases trials,
{
    if trials == 0 {
        None
    } else if buckets[at].grants(get) {
        Some(at)
    } else {
        scan(buckets, get, step(at, buckets.len() as int, get), (trials - 1) as nat)
    }
}

impl<T> PoolView<T> {
    /// At least one bucket, every bucket settled, and nobody inside.
    pub open spec fn wf(self) -> bool {
        &&& 1 <= self.buckets.len() <= BUCKET_LIMIT
        &&& forall|b: int| 0 <= b < self.buckets.len() ==> (#[trigger] self.buckets[b]).settled()
        &&& self.visitors.idle()
        &&& self.builder.wf()
        &&& self.reset matches Some(handle) ==> handle.ready()
    }

    /// Whether values are cleaned before they go back into the pool.
    pub open spec fn has_reset(self) -> bool {
        self.reset is Some
    }

    /// Number of slots.
    pub open spec fn capacity(self) -> nat {
        self.buckets.len() * SLOT_CAP as nat
    }

    /// Number of values in the pool, by the occupancy hints.
    pub open spec fn len(self) -> nat {
        hint_sum(self.buckets, self.buckets.len())
    }

    /// Whether the pool may expand.
    pub open spec fn expansion_enabled(self) -> bool {
        self.configure & CONFIG_ALLOW_EXPANSION > 0
    }

    /// The bucket that serves the next checkout (`get`) or release, if any does.
    /// A checkout tries every bucket once, a release twice.
    pub open spec fn pick(self, get: bool) -> Option<int> {
        scan(
            self.buckets,
            get,
            self.cursor as int % self.buckets.len() as int,
            if get {
                self.buckets.len()
            } else {
                2 * self.buckets.len()
            },
        )
    }

    /// The pool after a checkout from bucket `b`.
    pub open spec fn after_take(self, b: int) -> Self {
        PoolView {
            buckets: self.buckets.update(b, self.buckets[b].taken()),
            cursor: b as usize,
            ..self
        }
    }

    /// The pool after the release of `val` into bucket `b`.
    pub open spec fn after_give(self, b: int, val: Box<T>) -> Self {
        PoolView {
            buckets: self.buckets.update(b, self.buckets[b].given(val)),
            cursor: b as usize,
            ..self
        }
    }

    /// Whatever `after` holds in a slot that is empty here was made by the
    /// pool's strategy.
    pub open spec fn filled_up(self, after: Self) -> bool {
        forall|b: int, i: int|
            0 <= b < self.buckets.len() && 0 <= i < SLOT_CAP && self.buckets[b].slots[i]
                is None ==> match #[trigger] after.buckets[b].slots[i] {
                Some(val) => self.builder.makes(val),
                None => true,
            }
    }

    /// `after` is this pool, expanded: the buckets as they were, then as many
    /// full buckets more as were asked for and the cap leaves room for; no miss
    /// counted; all else as it was.
    pub open spec fn grown_into(self, after: Self, additional: usize) -> bool {
        &&& after.buckets.len() == self.buckets.len() + least(
            additional as int,
            EXPANSION_CAP - self.buckets.len(),
        )
        &&& forall|b: int|
            0 <= b < self.buckets.len() ==> (#[trigger] after.buckets[b]) == self.buckets[b]
        &&& forall|b: int|
            self.buckets.len() <= b < after.buckets.len() ==> fresh_bucket(
                #[trigger] after.buckets[b],
                self.builder,
            )
        &&& after.miss_count == 0
        &&& after.cursor == self.cursor
        &&& after.configure == self.configure
        &&& after.reset == self.reset
        &&& after.builder == self.builder
        &&& after.visitors == self.visitors
    }

    /// `after` is this pool, topped up by `count` values: the values that were
    /// there are where they were, and what has come in was made by the pool's
    /// strategy, unless a reset function has cleaned it since.
    pub open spec fn topped_up_into(self, after: Self, count: usize) -> bool {
        &&& after.len() == self.len() + count
        &&& after.buckets.len() == self.buckets.len()
        &&& after.miss_count == self.miss_count
        &&& after.configure == self.configure
        &&& after.reset == self.reset
        &&& after.builder == self.builder
        &&& after.visitors == self.visitors
        &&& after.cursor < self.buckets.len() || after.cursor == self.cursor
        &&& forall|b: int, i: int|
            0 <= b < self.buckets.len() && 0 <= i < SLOT_CAP
                && (#[trigger] self.buckets[b].slots[i]) is Some ==> after.buckets[b].slots[i]
                == self.buckets[b].slots[i]
        &&& !self.has_reset() ==> self.filled_up(after)
    }

    /// The pool after a checkout that found no value.
    pub open spec fn after_miss(self) -> Self {
        PoolView {
            miss_count: if self.miss_count == usize::MAX {
                0usize
            } else {
                (self.miss_count + 1) as usize
            },
            ..self
        }
    }
}

/// A pool of reusable heap values of type `T`.
#[verifier::reject_recursive_types(T)]
pub struct SyncPool<T> {
    /// The buckets.
    slots: Vec<Bucket<T>>,
    /// The bucket to try first.
    curr: usize,
    /// Visitor count and write barrier.
    visitor_counter: Visitors,
    /// How often a checkout found no value to offer.
    miss_count: usize,
    /// The configuration bits.
    configure: usize,
    /// Called on every value before it goes back into the pool.
    reset_handle: Option<ResetHook<T>>,
    /// Makes a new value where the pool has none to offer.
    builder: ElemBuilder<T>,
}

/// The views of a row of buckets.
pub open spec fn views<T>(slots: Seq<Bucket<T>>) -> Seq<BucketView<T>> {
    Seq::new(slots.len(), |b: int| slots[b]@)
}

impl<T> View for SyncPool<T> {
    type V = PoolView<T>;

    closed spec fn view(&self) -> PoolView<T> {
        PoolView {
            buckets: views(self.slots@),
            cursor: self.curr,
            visitors: self.visitor_counter@,
            miss_count: self.miss_count,
            configure: self.configure,
            reset: self.reset_handle,
            builder: self.builder,
        }
    }
}

/// The number of buckets for a pool of `size` values: one for every eight, and
/// at least one.
pub open spec fn buckets_for(size: usize) -> usize {
    if size / SLOT_CAP < 1 {
        1
    } else {
        size / SLOT_CAP
    }
}

/// A bucket as `add_slots` makes it: settled and full of values that `builder`
/// has made.
pub open spec fn fresh_bucket<T>(v: BucketView<T>, builder: ElemBuilder<T>) -> bool {
    &&& v.settled()
    &&& v.word == FULL_FLAG
    &&& v.hint == SLOT_CAP
    &&& forall|i: int|
        0 <= i < SLOT_CAP ==> ((#[trigger] v.slots[i]) matches Some(val) && builder.makes(val))
}

/// A pool as the constructors make it: `count` full buckets, the cursor at the
/// first, no miss counted, no configuration bit set, no reset function.
pub open spec fn fresh_pool<T>(v: PoolView<T>, count: usize) -> bool {
    &&& v.wf()
    &&& v.buckets.len() == count
    &&& forall|b: int| 0 <= b < count ==> fresh_bucket(#[trigger] v.buckets[b], v.builder)
    &&& v.cursor == 0
    &&& v.miss_count == 0
    &&& v.configure == 0
    &&& !v.expansion_enabled()
    &&& v.reset is None
}

impl<T: Default + 'static> SyncPool<T> {
    /// A pool of 64 values, each the default value of `T`.
    pub fn new() -> (r: Self)
        ensures
            fresh_pool(r@, POOL_SIZE),
            made_by_default(r@.builder),
    {
        let make = || -> (r: Box<T>)
            ensures
                call_ensures(T::default, (), *r),
            { default_box::<T>() };
        Self::make_pool(POOL_SIZE, ElemBuilder::by_default(make))
    }

    /// A pool of `size` values, rounded down to whole buckets of eight and up to
    /// one bucket, each the default value of `T`.
    pub fn with_size(size: usize) -> (r: Self)
        ensures
            fresh_pool(r@, buckets_for(size)),
            made_by_default(r@.builder),
    {
        let mut pool_size: usize = size / SLOT_CAP;
        if pool_size < 1 {
            pool_size = 1
        }
        let make = || -> (r: Box<T>)
            ensures
                call_ensures(T::default, (), *r),
            { default_box::<T>() };
        Self::make_pool(pool_size, ElemBuilder::by_default(make))
    }
}

impl<T> SyncPool<T> {
    /// The pool's invariant.
    pub open spec fn wf(&self) -> bool {
        self@.wf()
    }

    /// A pool of 64 values, each made by `builder`.
    pub fn with_builder<F: Fn() -> T + Send + Sync + 'static>(builder: F) -> (r: Self)
        requires
            call_requires(builder, ()),
        ensures
            fresh_pool(r@, POOL_SIZE),
            built_by(r@.builder, builder),
    {
        Self::make_pool(POOL_SIZE, ElemBuilder::by_builder(builder))
    }

    /// A pool of `size` values, rounded down to whole buckets of eight and up to
    /// one bucket, each made by `builder`.
    pub fn with_builder_and_size<F: Fn() -> T + Send + Sync + 'static>(
        size: usize,
        builder: F,
    ) -> (r: Self)
        requires
            call_requires(builder, ()),
        ensures
            fresh_pool(r@, buckets_for(size)),
            built_by(r@.builder, builder),
    {
        let mut pool_size: usize = size / SLOT_CAP;
        if pool_size < 1 {
            pool_size = 1
        }
        Self::make_pool(pool_size, ElemBuilder::by_builder(builder))
    }

    /// A pool of 64 values, each a heap placeholder from `placer` that `packer`
    /// has filled in.
    pub fn with_packer<
        P: Fn() -> Box<T> + Send + Sync + 'static,
        F: Fn(Box<T>) -> Box<T> + Send + Sync + 'static,
    >(placer: P, packer: F) -> (r: Self)
        requires
            call_requires(placer, ()),
            forall|placeholder: Box<T>|
                call_ensures(placer, (), placeholder) ==> call_requires(packer, (placeholder,)),
        ensures
            fresh_pool(r@, POOL_SIZE),
            packed_by(r@.builder, placer, packer),
    {
        Self::make_pool(POOL_SIZE, ElemBuilder::by_packer(placer, packer))
    }

    /// A pool of `size` values, rounded down to whole buckets of eight and up to
    /// one bucket, each a heap placeholder from `placer` that `packer` has filled
    /// in.
    pub fn with_packer_and_size<
        P: Fn() -> Box<T> + Send + Sync + 'static,
        F: Fn(Box<T>) -> Box<T> + Send + Sync + 'static,
    >(size: usize, placer: P, packer: F) -> (r: Self)
        requires
            call_requires(placer, ()),
            forall|placeholder: Box<T>|
                call_ensures(placer, (), placeholder) ==> call_requires(packer, (placeholder,)),
        ensures
            fresh_pool(r@, buckets_for(size)),
            packed_by(r@.builder, placer, packer),
    {
        let mut pool_size: usize = size / SLOT_CAP;
        if pool_size < 1 {
            pool_size = 1
        }
        Self::make_pool(pool_size, ElemBuilder::by_packer(placer, packer))
    }

    /// Makes a pool of `size` full buckets.
    fn make_pool(size: usize, builder: ElemBuilder<T>) -> (r: Self)
        requires
            1 <= size <= BUCKET_LIMIT,
            builder.wf(),
        ensures
            fresh_pool(r@, size),
            r@.builder == builder,
    {
        let mut pool = SyncPool {
            slots: Vec::with_capacity(size),
            curr: 0,
            visitor_counter: Visitors::new(),
            miss_count: 0,
            configure: 0,
            reset_handle: None,
            builder,
        };
        pool.add_slots(size, true);
        proof {
            lemma_flip_bit(1);
        }
        pool
    }

    /// Appends `count` buckets, full if `fill` is set and empty otherwise.
    fn add_slots(&mut self, count: usize, fill: bool)
        requires
            old(self).slots@.len() + count <= BUCKET_LIMIT,
            forall|b: int|
                0 <= b < old(self).slots@.len() ==> (#[trigger] old(self).slots@[b])@.settled(),
            old(self)@.builder.wf(),
        ensures
            final(self).slots@.len() == old(self).slots@.len() + count,
            final(self)@.buckets.len() == old(self)@.buckets.len() + count,
            forall|b: int|
                0 <= b < old(self)@.buckets.len() ==> (#[trigger] final(self)@.buckets[b]) == old(
                    self,
                )@.buckets[b],
            forall|b: int|
                old(self)@.buckets.len() <= b < final(self)@.buckets.len() ==> {
                    &&& (#[trigger] final(self)@.buckets[b]).settled()
                    &&& fill ==> fresh_bucket(final(self)@.buckets[b], old(self)@.builder)
                },
            forall|b: int|
                0 <= b < final(self).slots@.len() ==> (#[trigger] final(self).slots@[b])@.settled(),
            final(self)@.cursor == old(self)@.cursor,
            final(self)@.visitors == old(self)@.visitors,
            final(self)@.miss_count == old(self)@.miss_count,
            final(self)@.configure == old(self)@.configure,
            final(self)@.reset == old(self)@.reset,
            final(self)@.builder == old(self)@.builder,
    {
        let mut done: usize = 0;
        while done < count
            invariant
                done <= count,
                self.slots@.len() == old(self).slots@.len() + done,
                forall|b: int|
                    0 <= b < old(self).slots@.len() ==> (#[trigger] self.slots@[b]) == old(
                        self,
                    ).slots@[b],
                forall|b: int|
                    0 <= b < self.slots@.len() ==> (#[trigger] self.slots@[b])@.settled(),
                forall|b: int|
                    old(self).slots@.len() <= b < self.slots@.len() && fill ==> fresh_bucket(
                        (#[trigger] self.slots@[b])@,
                        self.builder,
                    ),
                self.builder == old(self).builder,
                self.builder.wf(),
                self.curr == old(self).curr,
                self.visitor_counter == old(self).visitor_counter,
                self.miss_count == old(self).miss_count,
                self.configure == old(self).configure,
                self.reset_handle == old(self).reset_handle,
            decreases count - done,
        {
            let bucket = if fill {
                Bucket::new(Some(&self.builder))
            } else {
                Bucket::new(None)
            };
            self.slots.push(bucket);
            done += 1;
        }
    }
}

impl<T> SyncPool<T> {
    /// Takes a value out of the pool. The buckets are tried once each, upwards
    /// from the cursor; the first that grants a slot gives its value, and the
    /// cursor stays there. If none does, a new value is made and a miss counted.
    pub fn get(&mut self) -> (r: Box<T>)
        requires
            old(self).wf(),
        ensures
            final(self).wf(),
            match old(self)@.pick(true) {
                Some(b) => {
                    &&& final(self)@ == old(self)@.after_take(b)
                    &&& Some(r) == old(self)@.buckets[b].offer()
                },
                None => final(self)@ == old(self)@.after_miss() && old(self)@.builder.makes(r),
            },
    {
        // a checkout does not wait for an exclusive operator: it makes a value
        let guard = match VisitorGuard::register(&mut self.visitor_counter, true) {
            Some(guard) => guard,
            None => {
                return make_elem(&self.builder);
            },
        };
        let cap: usize = self.slots.len();
        let mut trials: usize = cap;
        let mut pos: usize = self.curr % cap;
        loop
            invariant_except_break
                1 <= trials,
                scan(old(self)@.buckets, true, pos as int, trials as nat) == old(self)@.pick(true),
            invariant
                old(self).wf(),
                cap == self.slots@.len(),
                cap == old(self).slots@.len(),
                trials <= cap,
                pos < cap,
                views(self.slots@) =~= views(old(self).slots@),
                self.curr == old(self).curr,
                self.miss_count == old(self).miss_count,
                self.configure == old(self).configure,
                self.reset_handle == old(self).reset_handle,
                self.builder == old(self).builder,
                self.visitor_counter@ == (VisitorsView { count: 2, barrier: false }),
            ensures
                old(self)@.pick(true) is None,
            decreases trials,
        {
            let ghost before = self.slots@[pos as int]@;
            match self.slots[pos].access(true) {
                Ok(i) => {
                    proof {
                        lemma_round_settled(before, true, None);
                    }
                    let checkout = self.slots[pos].checkout(i);
                    self.slots[pos].leave(i as u16);
                    match checkout {
                        Ok(val) => {
                            self.curr = pos;
                            guard.leave(&mut self.visitor_counter);
                            assert(views(self.slots@) =~= old(self)@.buckets.update(
                                pos as int,
                                before.taken(),
                            ));
                            return val;
                        },
                        Err(_) => {
                            break ;
                        },
                    }
                },
                Err(_) => {},
            }
            // hold off a bit, then go on with the next bucket
            cpu_relax(SPIN_PERIOD);
            pos = (pos + 1) % cap;
            trials -= 1;
            if trials == 0 {
                break ;
            }
        }
        guard.leave(&mut self.visitor_counter);
        self.miss_count = self.miss_count.wrapping_add(1);
        make_elem(&self.builder)
    }

    /// Puts a value back into the pool, after the reset function, if one is set,
    /// has cleaned it: the pool then holds the value itself, or what one call of
    /// the reset function has made of it. The buckets are tried twice each,
    /// downwards from the cursor; the first that grants a slot gets the value, and
    /// the cursor stays there. If none does, the value comes back to the caller.
    pub fn put(&mut self, val: Box<T>) -> (r: Option<Box<T>>)
        requires
            old(self).wf(),
        ensures
            final(self).wf(),
            match old(self)@.pick(false) {
                Some(b) => {
                    let pos = locate(old(self)@.buckets[b].word, false).unwrap() as int;
                    let stored = final(self)@.buckets[b].slots[pos];
                    &&& r is None
                    &&& stored is Some
                    &&& final(self)@ == old(self)@.after_give(b, stored.unwrap())
                    &&& !old(self)@.has_reset() ==> stored == Some(val)
                    &&& old(self)@.reset matches Some(handle) ==> exists|done: &mut T|
                        *done == *val && *final(done) == *stored.unwrap()
                            && #[trigger] handle.resets(done)
                },
                None => r == Some(val) && final(self)@ == old(self)@,
            },
    {
        // a release waits for an exclusive operator, for a bounded time
        let guard = match VisitorGuard::register(&mut self.visitor_counter, false) {
            Some(guard) => guard,
            None => {
                return Some(val);
            },
        };
        let cap: usize = self.slots.len();
        let mut trials: usize = 2 * cap;
        let mut pos: usize = self.curr % cap;
        loop
            invariant
                old(self).wf(),
                cap == self.slots@.len(),
                cap == old(self).slots@.len(),
                1 <= trials <= 2 * cap,
                pos < cap,
                views(self.slots@) =~= views(old(self).slots@),
                self.curr == old(self).curr,
                self.miss_count == old(self).miss_count,
                self.configure == old(self).configure,
                self.reset_handle == old(self).reset_handle,
                self.builder == old(self).builder,
                self.visitor_counter@ == (VisitorsView { count: 2, barrier: false }),
                scan(old(self)@.buckets, false, pos as int, trials as nat) == old(self)@.pick(
                    false,
                ),
            decreases trials,
        {
            let ghost before = self.slots@[pos as int]@;
            match self.slots[pos].access(false) {
                Ok(i) => {
                    self.curr = pos;
                    self.slots[pos].release(i, val, self.reset_handle.as_ref());
                    self.slots[pos].leave(i as u16);
                    guard.leave(&mut self.visitor_counter);
                    proof {
                        let stored = self.slots@[pos as int]@.slots[i as int];
                        lemma_round_settled(before, false, stored);
                        assert(views(self.slots@) =~= old(self)@.buckets.update(
                            pos as int,
                            before.given(stored.unwrap()),
                        ));
                    }
                    return None;
                },
                Err(_) => {},
            }
            assert(views(self.slots@) =~= views(old(self).slots@));
            // hold off a bit, longer once every bucket has been tried
            if trials < cap {
                cpu_relax(SPIN_PERIOD);
            } else {
                cpu_relax(SPIN_PERIOD / 2);
            }
            pos = (pos + cap - 1) % cap;
            trials -= 1;
            if trials == 0 {
                guard.leave(&mut self.visitor_counter);
                return Some(val);
            }
        }
    }
}

impl<T> SyncPool<T> {
    /// Number of values in the pool: the sum of the occupancy hints.
    pub fn len(&self) -> (r: usize)
        requires
            self.wf(),
        ensures
            r == self@.len(),
            r <= self@.capacity(),
    {
        let mut sum: usize = 0;
        let mut b: usize = 0;
        while b < self.slots.len()
            invariant
                self.wf(),
                b <= self.slots@.len(),
                sum == hint_sum(self@.buckets, b as nat),
                sum <= SLOT_CAP * b,
            decreases self.slots@.len() - b,
        {
            sum = sum + self.slots[b].size_hint();
            b += 1;
        }
        sum
    }

    /// Whether the pool holds no value.
    pub fn is_empty(&self) -> (r: bool)
        requires
            self.wf(),
        ensures
            r == (self@.len() == 0),
    {
        self.len() == 0
    }
}

/// The smaller of two numbers.
pub open spec fn least(a: int, b: int) -> int {
    if a < b {
        a
    } else {
        b
    }
}

/// What can be asked of a pool.
pub trait PoolState {
    /// The pool's invariant.
    spec fn valid(&self) -> bool;

    /// Number of values in the pool.
    spec fn count(&self) -> nat;

    /// Number of slots.
    spec fn slots(&self) -> nat;

    /// Number of misses counted.
    spec fn misses(&self) -> usize;

    /// Whether the pool may expand.
    spec fn expandable(&self) -> bool;

    /// Whether the pool may expand.
    fn expansion_enabled(&self) -> (r: bool)
        ensures
            r == self.expandable(),
    ;

    /// How many checkouts had to make a new value since the pool was made or
    /// last expanded.
    fn miss_count(&self) -> (r: usize)
        ensures
            r == self.misses(),
    ;

    /// Number of slots.
    fn capacity(&self) -> (r: usize)
        requires
            self.valid(),
        ensures
            r == self.slots(),
    ;

    /// Number of values in the pool.
    fn len(&self) -> (r: usize)
        requires
            self.valid(),
        ensures
            r == self.count(),
    ;

    /// Whether the pool holds no value.
    fn is_empty(&self) -> (r: bool)
        requires
            self.valid(),
        ensures
            r == (self.count() == 0),
    {
        self.len() == 0
    }
}

impl<T> PoolState for SyncPool<T> {
    open spec fn valid(&self) -> bool {
        self.wf()
    }

    open spec fn count(&self) -> nat {
        self@.len()
    }

    open spec fn slots(&self) -> nat {
        self@.capacity()
    }

    open spec fn misses(&self) -> usize {
        self@.miss_count
    }

    open spec fn expandable(&self) -> bool {
        self@.expansion_enabled()
    }

    fn expansion_enabled(&self) -> (r: bool) {
        let configure: usize = self.configure;
        configure & CONFIG_ALLOW_EXPANSION > 0
    }

    fn miss_count(&self) -> (r: usize) {
        self.miss_count
    }

    fn capacity(&self) -> (r: usize) {
        self.slots.len() * SLOT_CAP
    }

    fn len(&self) -> (r: usize)
        ensures
            r <= self@.capacity(),
    {
        proof {
            self@.lemma_pick();
        }
        SyncPool::len(self)
    }

    fn is_empty(&self) -> (r: bool) {
        SyncPool::is_empty(self)
    }
}

impl<T: Default + 'static> Default for SyncPool<T> {
    fn default() -> (r: Self)
        ensures
            fresh_pool(r@, POOL_SIZE),
            made_by_default(r@.builder),
    {
        SyncPool::new()
    }
}

/// One configuration bit, flipped.
proof fn lemma_flip_bit(configure: usize)
    by (bit_vector)
    ensures
        ((configure ^ 1usize) & 1usize > 0) == !(configure & 1usize > 0),
        0usize & 1usize == 0usize,
{
}

impl<T> SyncPool<T> {
    /// Brings the configuration bits under `mask` to `target`: flips them if
    /// one of them is set and `target` is not, or none is and `target` is.
    fn update_config(&mut self, mask: usize, target: bool)
        ensures
            final(self)@ == (PoolView {
                configure: if (old(self)@.configure & mask > 0) != target {
                    old(self)@.configure ^ mask
                } else {
                    old(self)@.configure
                },
                ..old(self)@
            }),
    {
        let config: usize = self.configure;
        if !((config & mask > 0) ^ target) {
            // the configuration matches already
            return ;
        }
        self.configure = config ^ mask;
    }
}

/// What can be done to a pool besides taking and returning values.
pub trait PoolManager<T>: Sized {
    /// The pool's invariant.
    spec fn ready(&self) -> bool;

    /// What the pool is.
    spec fn pool(&self) -> PoolView<T>;

    /// Sets the function that cleans a value before it goes back into the pool:
    /// from now on the pool cleans as `handle` does. The pool is taken for the
    /// moment of the change.
    fn reset_handle<F: Fn(&mut T) + Send + Sync + 'static>(&mut self, handle: F) -> (r: &mut Self)
        requires
            old(self).ready(),
            forall|val: &mut T| #[trigger] call_requires(handle, (val,)),
        ensures
            *final(self) == *final(r),
            r.ready(),
            r.pool().reset is Some,
            forall|val: &mut T| #[trigger]
                r.pool().reset.unwrap().resets(val) <==> call_ensures(handle, (val,), ()),
            r.pool() == (PoolView { reset: r.pool().reset, ..old(self).pool() }),
    ;

    /// Allows or forbids the pool to expand.
    fn allow_expansion(&mut self, allow: bool) -> (r: &mut Self)
        requires
            old(self).ready(),
        ensures
            *final(self) == *final(r),
            r.ready(),
            r.pool().expansion_enabled() == allow,
            r.pool() == (PoolView { configure: r.pool().configure, ..old(self).pool() }),
            old(self).pool().expansion_enabled() == allow ==> r.pool() == old(self).pool(),
            r.pool().configure == old(self).pool().configure || r.pool().configure == old(
                self,
            ).pool().configure ^ CONFIG_ALLOW_EXPANSION,
    ;

    /// Adds buckets, each full of new values, and forgets the misses counted so
    /// far. Succeeds if expansion is allowed and the pool has fewer than
    /// [`EXPANSION_CAP`] buckets; it then adds `additional` buckets, or as many as
    /// the cap leaves room for. The pool is taken for the time of the change.
    fn expand(&mut self, additional: usize, block: bool) -> (r: bool)
        requires
            old(self).ready(),
        ensures
            final(self).ready(),
            r == (old(self).pool().expansion_enabled() && old(self).pool().buckets.len()
                < EXPANSION_CAP),
            !r ==> final(self).pool() == old(self).pool(),
            r ==> old(self).pool().grown_into(final(self).pool(), additional),
    ;

    /// Tops the pool up: makes new values and puts them into empty slots, until
    /// `additional` values are in or the pool is full, and tells how many it put
    /// in. The values that the pool held stay where they are.
    fn refill(&mut self, additional: usize) -> (r: usize)
        requires
            old(self).ready(),
        ensures
            final(self).ready(),
            r == least(additional as int, old(self).pool().capacity() - old(self).pool().len()),
            old(self).pool().topped_up_into(final(self).pool(), r),
    ;
}

impl<T> PoolManager<T> for SyncPool<T> {
    open spec fn ready(&self) -> bool {
        self.wf()
    }

    open spec fn pool(&self) -> PoolView<T> {
        self@
    }

    /// Sets the function that cleans a value before it goes back into the pool.
    /// The pool is taken for the moment of the change; if it cannot be had after
    /// a bounded wait, nothing changes.
    fn reset_handle<F: Fn(&mut T) + Send + Sync + 'static>(&mut self, handle: F) -> (r: &mut Self)
    {
        let mut count: usize = 8;
        while !self.visitor_counter.raise()
            invariant
                *self == *old(self),
                self.wf(),
                4 <= count <= 8,
            decreases count,
        {
            if count <= 4 {
                return self;
            }
            cpu_relax(count);
            count -= 1;
        }
        self.reset_handle = Some(ResetHook::keep(handle));
        self.visitor_counter.lower();
        self
    }

    /// Allows or forbids the pool to expand.
    fn allow_expansion(&mut self, allow: bool) -> (r: &mut Self)
    {
        proof {
            lemma_flip_bit(self.configure);
        }
        if !(self.expansion_enabled() ^ allow) {
            // no change asked for
            return self;
        }
        self.update_config(CONFIG_ALLOW_EXPANSION, allow);
        self
    }

    /// Adds buckets, each full of new values, and forgets the misses counted so
    /// far. Succeeds if expansion is allowed and the pool has fewer than
    /// [`EXPANSION_CAP`] buckets; it then adds `additional` buckets, or as many as
    /// the cap leaves room for. The pool is taken for the time of the change.
    fn expand(&mut self, additional: usize, block: bool) -> (r: bool)
    {
        // a pool that is not allowed to expand stays as it is
        if !self.expansion_enabled() {
            return false;
        }
        // so does one that has reached the upper limit
        if self.slots.len() >= EXPANSION_CAP {
            return false;
        }
        // raise the write barrier; if it is up already, somebody else is at work
        if !self.visitor_counter.raise() {
            return false;
        }
        // wait for the visitors to leave
        let safe = self.visitor_counter.drain(block);
        if safe {
            let room: usize = EXPANSION_CAP - self.slots.len();
            let count: usize = if additional < room {
                additional
            } else {
                room
            };
            assert forall|b: int| 0 <= b < self.slots@.len() implies (
            #[trigger] self.slots@[b])@.settled() by {
                assert(self.slots@[b]@ == old(self)@.buckets[b]);
            }
            self.add_slots(count, true);
            self.miss_count = 0;
            self.visitor_counter.restore();
        } else {
            // the visitors stay counted; only the barrier comes down
            self.visitor_counter.lower();
        }
        safe
    }

    /// Tops the pool up: makes new values and puts them into empty slots, until
    /// `additional` values are in or the pool is full, and tells how many it put
    /// in. The values that the pool held stay where they are.
    fn refill(&mut self, additional: usize) -> (r: usize)
    {
        proof {
        }
        let cap: usize = self.capacity();
        let empty_slots: usize = cap - self.len();
        if empty_slots == 0 {
            return 0;
        }
        let quota: usize = if additional > empty_slots {
            empty_slots
        } else {
            additional
        };
        let mut count: usize = 0;
        // put `quota` new values into the pool
        while count < quota
            invariant
                self.wf(),
                count <= quota,
                quota <= old(self)@.capacity() - old(self)@.len(),
                self@.len() == old(self)@.len() + count,
                self@.buckets.len() == old(self)@.buckets.len(),
                self@.miss_count == old(self)@.miss_count,
                self@.configure == old(self)@.configure,
                self@.reset == old(self)@.reset,
                self@.builder == old(self)@.builder,
                self@.cursor < old(self)@.buckets.len() || self@.cursor == old(self)@.cursor,
                forall|b: int, i: int|
                    0 <= b < old(self)@.buckets.len() && 0 <= i < SLOT_CAP && (#[trigger] old(
                        self,
                    )@.buckets[b].slots[i]) is Some ==> self@.buckets[b].slots[i] == old(
                        self,
                    )@.buckets[b].slots[i],
                !old(self)@.has_reset() ==> old(self)@.filled_up(self@),
            decreases quota - count,
        {
            let ghost before = self@;
            proof {
                before.lemma_pick();
                let b = before.pick(false).unwrap();
                lemma_claim_coherent(before.buckets[b], false);
            }
            let val = make_elem(&self.builder);
            match self.put(val) {
                None => {},
                Some(_) => {
                    // the pool is full
                    return count;
                },
            }
            proof {
                let b = before.pick(false).unwrap();
                let pos = locate(before.buckets[b].word, false).unwrap() as int;
                before.lemma_give(self@.buckets[b].slots[pos].unwrap());
            }
            count += 1;
        }
        count
    }
}
} // verus!
