//! What holds of a pool across its operations.
//!
//! The functions of a pool state exactly what one call does. The laws here follow
//! from those statements: which bucket a walk reaches, how the count of values
//! moves, and what a sequence of checkouts and releases comes to.

use vstd::prelude::*;
use vstd::arithmetic::div_mod::{lemma_mod_add_multiples_vanish, lemma_mod_self_0, lemma_small_mod};
use crate::bits::{claimable, first_claimable, locate, locked, present, SLOT_CAP};
use crate::bucket::{lemma_round_settled, lemma_settled_grants, BucketView};
use crate::pool::{fresh_pool, hint_sum, scan, step, PoolView};

verus! {
/// How many steps a walk takes from bucket `at` to bucket `to`.
pub open spec fn distance(at: int, to: int, count: int, get: bool) -> int {
    if get {
        if to >= at {
            to - at
        } else {
            to - at + count
        }
    } else {
        if at >= to {
            at - to
        } else {
            at - to + count
        }
    }
}

/// A step leads to the neighbouring bucket, around the end.
pub proof fn lemma_step(at: int, count: int, get: bool)
    requires
        0 <= at < count,
    ensures
        0 <= step(at, count, get) < count,
        step(at, count, get) == if get {
            if at + 1 < count {
                at + 1
            } else {
                0
            }
        } else {
            if at >= 1 {
                at - 1
            } else {
                count - 1
            }
        },
{
    if get {
        if at + 1 < count {
            lemma_small_mod((at + 1) as nat, count as nat);
        } else {
            lemma_mod_self_0(count);
        }
    } else {
        if at >= 1 {
            lemma_mod_add_multiples_vanish(at - 1, count);
            lemma_small_mod((at - 1) as nat, count as nat);
        } else {
            lemma_small_mod((count - 1) as nat, count as nat);
        }
    }
}

/// A walk that finds a bucket finds one that grants the claim.
pub proof fn lemma_scan_hits<T>(buckets: Seq<BucketView<T>>, get: bool, at: int, trials: nat)
    requires
        0 <= at < buckets.len(),
        scan(buckets, get, at, trials) is Some,
    ensures
        0 <= scan(buckets, get, at, trials).unwrap() < buckets.len(),
        buckets[scan(buckets, get, at, trials).unwrap()].grants(get),
    decreases trials,
{
    if trials > 0 && !buckets[at].grants(get) {
        lemma_scan_hits(buckets, get, step(at, buckets.len() as int, get), (trials - 1) as nat);
    }
}

/// A walk that finds no bucket has passed none that grants the claim.
pub proof fn lemma_scan_misses<T>(
    buckets: Seq<BucketView<T>>,
    get: bool,
    at: int,
    trials: nat,
    to: int,
)
    requires
        0 <= at < buckets.len(),
        0 <= to < buckets.len(),
        scan(buckets, get, at, trials) is None,
        distance(at, to, buckets.len() as int, get) < trials,
    ensures
        !buckets[to].grants(get),
    decreases trials,
{
    if at != to {
        lemma_step(at, buckets.len() as int, get);
        lemma_scan_misses(
            buckets,
            get,
            step(at, buckets.len() as int, get),
            (trials - 1) as nat,
            to,
        );
    }
}

/// A walk of as many steps as there are buckets finds a bucket exactly if some
/// bucket grants the claim.
pub proof fn lemma_scan_complete<T>(buckets: Seq<BucketView<T>>, get: bool, at: int, trials: nat)
    requires
        0 <= at < buckets.len(),
        trials >= buckets.len(),
    ensures
        scan(buckets, get, at, trials) is Some <==> exists|b: int|
            0 <= b < buckets.len() && (#[trigger] buckets[b]).grants(get),
{
    if scan(buckets, get, at, trials) is Some {
        lemma_scan_hits(buckets, get, at, trials);
    } else {
        assert forall|b: int| 0 <= b < buckets.len() implies !(#[trigger] buckets[b]).grants(
            get,
        ) by {
            lemma_scan_misses(buckets, get, at, trials, b);
        }
    }
}

/// The hints of buckets that are well formed add up to no more than the slots.
pub proof fn lemma_hint_sum_bounds<T>(buckets: Seq<BucketView<T>>, upto: nat)
    requires
        upto <= buckets.len(),
        forall|b: int| 0 <= b < buckets.len() ==> (#[trigger] buckets[b]).wf(),
    ensures
        hint_sum(buckets, upto) <= SLOT_CAP * upto,
    decreases upto,
{
    if upto > 0 {
        lemma_hint_sum_bounds(buckets, (upto - 1) as nat);
    }
}

/// A sum of hints above zero has a bucket with a value; one below the number of
/// slots has a bucket with room.
pub proof fn lemma_hint_sum_witness<T>(buckets: Seq<BucketView<T>>, upto: nat)
    requires
        upto <= buckets.len(),
        forall|b: int| 0 <= b < buckets.len() ==> (#[trigger] buckets[b]).wf(),
    ensures
        hint_sum(buckets, upto) > 0 <==> exists|b: int|
            0 <= b < upto && (#[trigger] buckets[b]).hint > 0,
        hint_sum(buckets, upto) < SLOT_CAP * upto <==> exists|b: int|
            0 <= b < upto && (#[trigger] buckets[b]).hint < SLOT_CAP,
    decreases upto,
{
    if upto > 0 {
        lemma_hint_sum_witness(buckets, (upto - 1) as nat);
        lemma_hint_sum_bounds(buckets, (upto - 1) as nat);
    }
}

/// Replacing one bucket moves the sum of hints by the difference of the two.
pub proof fn lemma_hint_sum_update<T>(
    buckets: Seq<BucketView<T>>,
    at: int,
    with: BucketView<T>,
    upto: nat,
)
    requires
        0 <= at < buckets.len(),
        upto <= buckets.len(),
    ensures
        hint_sum(buckets.update(at, with), upto) + (if at < upto {
            buckets[at].hint as int
        } else {
            0
        }) == hint_sum(buckets, upto) + (if at < upto {
            with.hint as int
        } else {
            0
        }),
    decreases upto,
{
    if upto > 0 {
        lemma_hint_sum_update(buckets, at, with, (upto - 1) as nat);
    }
}

impl<T> PoolView<T> {
    /// A checkout is served from the pool exactly if the pool holds a value, and
    /// a release finds room exactly if a slot is empty.
    pub proof fn lemma_pick(self)
        requires
            self.wf(),
        ensures
            self.pick(true) is Some <==> self.len() > 0,
            self.pick(false) is Some <==> self.len() < self.capacity(),
            self.len() <= self.capacity(),
            forall|get: bool| #[trigger]
                self.pick(get) is Some ==> 0 <= self.pick(get).unwrap() < self.buckets.len()
                    && self.buckets[self.pick(get).unwrap()].grants(get),
    {
        let count = self.buckets.len();
        let start = self.cursor as int % count as int;
        lemma_hint_sum_witness(self.buckets, count);
        lemma_hint_sum_bounds(self.buckets, count);
        lemma_scan_complete(self.buckets, true, start, count);
        lemma_scan_complete(self.buckets, false, start, 2 * count);
        assert forall|b: int| 0 <= b < count implies ((#[trigger] self.buckets[b]).grants(true)
            <==> self.buckets[b].hint > 0) && (self.buckets[b].grants(false)
            <==> self.buckets[b].hint < SLOT_CAP) by {
            lemma_settled_grants(self.buckets[b]);
        }
        assert forall|get: bool| #[trigger] self.pick(get) is Some implies 0 <= self.pick(
            get,
        ).unwrap() < count && self.buckets[self.pick(get).unwrap()].grants(get) by {
            if self.pick(get) is Some {
                lemma_scan_hits(
                    self.buckets,
                    get,
                    start,
                    if get {
                        count
                    } else {
                        2 * count
                    },
                );
            }
        }
    }

    /// A checkout that is served leaves a well-formed pool with one value less.
    pub proof fn lemma_take(self)
        requires
            self.wf(),
            self.pick(true) is Some,
        ensures
            self.after_take(self.pick(true).unwrap()).wf(),
            self.after_take(self.pick(true).unwrap()).len() == self.len() - 1,
            self.after_take(self.pick(true).unwrap()).capacity() == self.capacity(),
            self.after_take(self.pick(true).unwrap()).miss_count == self.miss_count,
    {
        self.lemma_pick();
        let b = self.pick(true).unwrap();
        lemma_round_settled(self.buckets[b], true, None);
        lemma_hint_sum_update(self.buckets, b, self.buckets[b].taken(), self.buckets.len());
    }

    /// A release that finds room leaves a well-formed pool with one value more.
    pub proof fn lemma_give(self, val: Box<T>)
        requires
            self.wf(),
            self.pick(false) is Some,
        ensures
            self.after_give(self.pick(false).unwrap(), val).wf(),
            self.after_give(self.pick(false).unwrap(), val).len() == self.len() + 1,
            self.after_give(self.pick(false).unwrap(), val).capacity() == self.capacity(),
            self.after_give(self.pick(false).unwrap(), val).miss_count == self.miss_count,
    {
        self.lemma_pick();
        let b = self.pick(false).unwrap();
        lemma_round_settled(self.buckets[b], false, Some(val));
        lemma_hint_sum_update(self.buckets, b, self.buckets[b].given(val), self.buckets.len());
    }
}

impl<T> PoolView<T> {
    /// A value that was put into the lowest slot of its bucket is the one that the
    /// next checkout takes.
    pub proof fn lemma_give_then_take(self, val: Box<T>)
        requires
            self.wf(),
            self.pick(false) is Some,
            locate(self.buckets[self.pick(false).unwrap()].word, false) == Some(0u16),
        ensures
            ({
                let b = self.pick(false).unwrap();
                let after = self.after_give(b, val);
                &&& after.wf()
                &&& after.pick(true) == Some(b)
                &&& after.buckets[b].offer() == Some(val)
            }),
    {
        self.lemma_pick();
        let b = self.pick(false).unwrap();
        let after = self.after_give(b, val);
        lemma_round_settled(self.buckets[b], false, Some(val));
        lemma_first_slot(after.buckets[b].word);
        lemma_small_mod(b as nat, self.buckets.len());
    }

    /// A value that was taken out and put back at once is the one that the next
    /// checkout takes.
    pub proof fn lemma_take_give_take(self)
        requires
            self.wf(),
            self.pick(true) is Some,
        ensures
            ({
                let b = self.pick(true).unwrap();
                let val = self.buckets[b].offer().unwrap();
                let taken = self.after_take(b);
                let given = taken.after_give(b, val);
                &&& self.buckets[b].offer() is Some
                &&& taken.pick(false) == Some(b)
                &&& given.wf()
                &&& given.pick(true) == Some(b)
                &&& given.buckets[b].offer() == Some(val)
                &&& given.len() == self.len()
                &&& given.miss_count == self.miss_count
            }),
    {
        self.lemma_pick();
        self.lemma_take();
        let b = self.pick(true).unwrap();
        let taken = self.after_take(b);
        lemma_round_settled(self.buckets[b], true, None);
        let val = self.buckets[b].offer().unwrap();
        // the slot that was taken from was the lowest that held a value, so the
        // lowest slot of all is empty now
        let word = self.buckets[b].word;
        let pos = locate(word, true).unwrap();
        let after_word = taken.buckets[b].word;
        assert(claimable(after_word, false, 0u16)) by {
            if pos != 0 {
                assert(!claimable(word, true, 0u16));
            }
        }
        lemma_settled_grants(taken.buckets[b]);
        lemma_small_mod(b as nat, self.buckets.len());
        taken.lemma_give_then_take(val);
        taken.lemma_give(val);
    }

    /// The pool after one checkout that is served and the release of the value,
    /// which goes back as `stored`.
    pub open spec fn after_round(self, stored: Box<T>) -> Self {
        let taken = self.after_take(self.pick(true).unwrap());
        taken.after_give(taken.pick(false).unwrap(), stored)
    }

    /// The pool after one such round for each value of `stored`.
    pub open spec fn after_rounds(self, stored: Seq<Box<T>>) -> Self
        decreases stored.len(),
    {
        if stored.len() == 0 {
            self
        } else {
            self.after_rounds(stored.drop_last()).after_round(stored.last())
        }
    }

    /// A pool that holds a value serves a checkout and takes the value back,
    /// whatever the reset function has made of it; the number of values and the
    /// count of misses are as before.
    pub proof fn lemma_round(self, stored: Box<T>)
        requires
            self.wf(),
            self.len() > 0,
        ensures
            self.pick(true) is Some,
            self.after_take(self.pick(true).unwrap()).pick(false) is Some,
            self.after_round(stored).wf(),
            self.after_round(stored).len() == self.len(),
            self.after_round(stored).capacity() == self.capacity(),
            self.after_round(stored).miss_count == self.miss_count,
    {
        self.lemma_pick();
        self.lemma_take();
        let taken = self.after_take(self.pick(true).unwrap());
        taken.lemma_pick();
        taken.lemma_give(stored);
    }

    /// Any number of checkouts, each followed by the release of its value, leaves
    /// the number of values and the count of misses as they were, if the pool
    /// held a value to begin with.
    pub proof fn lemma_rounds(self, stored: Seq<Box<T>>)
        requires
            self.wf(),
            self.len() > 0,
        ensures
            self.after_rounds(stored).wf(),
            self.after_rounds(stored).len() == self.len(),
            self.after_rounds(stored).capacity() == self.capacity(),
            self.after_rounds(stored).miss_count == self.miss_count,
        decreases stored.len(),
    {
        if stored.len() > 0 {
            self.lemma_rounds(stored.drop_last());
            self.after_rounds(stored.drop_last()).lemma_round(stored.last());
        }
    }
}

/// A word whose lowest slot holds a value and is free grants a checkout that
/// slot.
proof fn lemma_first_slot(word: u16)
    requires
        present(word, 0),
        !locked(word, 0),
    ensures
        locate(word, true) == Some(0u16),
{
    assert(first_claimable(word, true, 0u16));
}

/// A pool together with a count of the values that its callers hold and of the
/// values that had to be made because a checkout found none.
#[verifier::reject_recursive_types(T)]
pub struct Tally<T> {
    pub pool: PoolView<T>,
    pub held: int,
    pub made: int,
}

impl<T> Tally<T> {
    /// The tally after one operation: a checkout (`None`), or the release of a
    /// value that a caller holds, which goes into the pool as the value given.
    /// A release that finds no room leaves the value with its caller.
    pub open spec fn after_op(self, op: Option<Box<T>>) -> Self {
        match op {
            None => match self.pool.pick(true) {
                Some(b) => Tally { pool: self.pool.after_take(b), held: self.held + 1, ..self },
                None => Tally {
                    pool: self.pool.after_miss(),
                    held: self.held + 1,
                    made: self.made + 1,
                },
            },
            Some(stored) => match self.pool.pick(false) {
                Some(b) => Tally {
                    pool: self.pool.after_give(b, stored),
                    held: self.held - 1,
                    ..self
                },
                None => self,
            },
        }
    }

    /// The tally after the operations of `ops`, in order.
    pub open spec fn after_ops(self, ops: Seq<Option<Box<T>>>) -> Self
        decreases ops.len(),
    {
        if ops.len() == 0 {
            self
        } else {
            self.after_ops(ops.drop_last()).after_op(ops.last())
        }
    }

    /// No value leaks: whatever the order of checkouts and releases, every value
    /// that was in the pool, held by a caller or made on a miss is in the pool or
    /// held by a caller afterwards. The pool keeps its slots.
    pub proof fn lemma_no_leak(self, ops: Seq<Option<Box<T>>>)
        requires
            self.pool.wf(),
        ensures
            self.after_ops(ops).pool.wf(),
            self.after_ops(ops).pool.capacity() == self.pool.capacity(),
            self.after_ops(ops).made >= self.made,
            self.after_ops(ops).pool.len() + self.after_ops(ops).held == self.pool.len()
                + self.held + (self.after_ops(ops).made - self.made),
        decreases ops.len(),
    {
        if ops.len() > 0 {
            self.lemma_no_leak(ops.drop_last());
            let before = self.after_ops(ops.drop_last());
            match ops.last() {
                None => {
                    if before.pool.pick(true) is Some {
                        before.pool.lemma_take();
                    }
                },
                Some(stored) => {
                    if before.pool.pick(false) is Some {
                        before.pool.lemma_give(stored);
                    }
                },
            }
        }
    }

    /// From a full pool and callers that hold nothing: as long as no checkout
    /// had to make a value, the values in the pool and those held by callers
    /// are as many as the pool has slots.
    pub proof fn lemma_full_pool_no_leak(self, ops: Seq<Option<Box<T>>>)
        requires
            self.pool.wf(),
            self.pool.len() == self.pool.capacity(),
            self.held == 0,
            self.after_ops(ops).made == self.made,
        ensures
            self.after_ops(ops).pool.len() + self.after_ops(ops).held
                == self.after_ops(ops).pool.capacity(),
    {
        self.lemma_no_leak(ops);
    }
}

/// A pool as its constructors make it is full.
pub proof fn lemma_fresh_full<T>(v: PoolView<T>, count: usize)
    requires
        fresh_pool(v, count),
    ensures
        v.len() == v.capacity(),
        v.capacity() == count * SLOT_CAP,
{
    lemma_all_full(v.buckets, v.buckets.len());
}

/// Buckets that are all full hold eight values each.
proof fn lemma_all_full<T>(buckets: Seq<BucketView<T>>, upto: nat)
    requires
        upto <= buckets.len(),
        forall|b: int| 0 <= b < buckets.len() ==> (#[trigger] buckets[b]).hint == SLOT_CAP,
    ensures
        hint_sum(buckets, upto) == SLOT_CAP * upto,
    decreases upto,
{
    if upto > 0 {
        lemma_all_full(buckets, (upto - 1) as nat);
    }
}
} // verus!
