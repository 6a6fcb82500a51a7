//! A bucket: eight slots, their state word, and the count of values they hold.
//!
//! Each method is one step of the access protocol. An operator first calls
//! [`Bucket::access`], which may grant it one slot; it then takes the value out
//! ([`Bucket::checkout`]) or puts one in ([`Bucket::release`]), and last calls
//! [`Bucket::leave`], which gives the slot up and publishes its new state. Several
//! operators may be between `access` and `leave` at once, each on a slot of its own.

use vstd::prelude::*;
use crate::bits::{
    bit, cpu_relax, enter, lemma_bit_masks, lemma_bit_or, lemma_bit_shl_two, lemma_bits_decide,
    lemma_lock_bit, lemma_lock_effect, lemma_pair_effect, lemma_present_all, lemma_present_rest,
    lemma_quiet_locate, lemma_quiet_settling, lemma_settling_one_slot, lock_mask, locate, locked,
    occupancy, pair_mask, present, quiet, settling, FULL_FLAG, SLOT_CAP,
};
use crate::construct::{make_elem, ElemBuilder, ResetHook};

verus! {
/// How often `access` looks for a slot before it gives up.
pub const TRIALS_COUNT: usize = 4;

/// What a bucket is: the contents of its slots, its state word, and its
/// occupancy hint.
pub struct BucketView<T> {
    /// What each of the eight slots holds.
    pub slots: Seq<Option<Box<T>>>,
    /// The state word: presence and lock bit of each slot.
    pub word: u16,
    /// The occupancy hint.
    pub hint: usize,
}

/// Whether the occupancy hint lets a claim of the given kind go on: it must stay
/// within `0..=8` once the claim is counted in.
pub open spec fn hint_admits(hint: usize, get: bool) -> bool {
    if get {
        1 <= hint <= SLOT_CAP + 1
    } else {
        hint < SLOT_CAP
    }
}

impl<T> BucketView<T> {
    /// Eight slots, and a hint within its window.
    pub open spec fn wf(self) -> bool {
        &&& self.slots.len() == SLOT_CAP
        &&& self.hint <= SLOT_CAP
    }

    /// The state word tells the truth: a slot that nobody owns holds a value
    /// exactly if its presence bit is set, and the hint counts the slots that
    /// will hold a value once every owner has left.
    pub open spec fn coherent(self) -> bool {
        &&& self.wf()
        &&& forall|pos: u16|
            pos < 8 && !locked(self.word, pos) ==> ((#[trigger] self.slots[pos as int]) is Some)
                == present(self.word, pos)
        &&& self.hint == settling(self.word)
    }

    /// Coherent, and no operator is inside.
    pub open spec fn settled(self) -> bool {
        &&& self.coherent()
        &&& quiet(self.word)
    }

    /// A claim of the given kind is granted a slot.
    pub open spec fn grants(self, get: bool) -> bool {
        hint_admits(self.hint, get) && locate(self.word, get) is Some
    }

    /// The bucket once a claim of the given kind owns slot `pos`.
    pub open spec fn claimed(self, get: bool, pos: u16) -> Self {
        BucketView {
            slots: self.slots,
            word: self.word | lock_mask(pos),
            hint: if get {
                (self.hint - 1) as usize
            } else {
                (self.hint + 1) as usize
            },
        }
    }

    /// The bucket once the owner of slot `pos` has left.
    pub open spec fn left(self, pos: u16) -> Self {
        BucketView { slots: self.slots, word: self.word ^ pair_mask(pos), hint: self.hint }
    }

    /// The bucket with slot `pos` emptied.
    pub open spec fn emptied(self, pos: int) -> Self {
        BucketView { slots: self.slots.update(pos, None), word: self.word, hint: self.hint }
    }

    /// The bucket with `val` in slot `pos`.
    pub open spec fn filled(self, pos: int, val: Box<T>) -> Self {
        BucketView { slots: self.slots.update(pos, Some(val)), word: self.word, hint: self.hint }
    }

    /// The value that the next checkout is given, if it is given one.
    pub open spec fn offer(self) -> Option<Box<T>> {
        self.slots[locate(self.word, true).unwrap() as int]
    }

    /// The bucket after a whole checkout: claim, take the value out, leave.
    pub open spec fn taken(self) -> Self {
        let pos = locate(self.word, true).unwrap();
        self.claimed(true, pos).emptied(pos as int).left(pos)
    }

    /// The bucket after a whole release of `val`: claim, put the value in, leave.
    pub open spec fn given(self, val: Box<T>) -> Self {
        let pos = locate(self.word, false).unwrap();
        self.claimed(false, pos).filled(pos as int, val).left(pos)
    }
}

/// Eight slots that each hold one heap value or nothing, with the state word
/// that arbitrates them.
pub struct Bucket<T> {
    /// The values. A slot gives its value up without moving it.
    slot: Vec<Option<Box<T>>>,
    /// How many values the bucket holds, counting every claim in flight as done.
    len: usize,
    /// Presence and lock bit of each slot.
    bitmap: u16,
}

impl<T> View for Bucket<T> {
    type V = BucketView<T>;

    closed spec fn view(&self) -> BucketView<T> {
        BucketView { slots: self.slot@, word: self.bitmap, hint: self.len }
    }
}

impl<T> Bucket<T> {
    /// The bucket's invariant: eight slots, and a hint within its window.
    pub open spec fn wf(&self) -> bool {
        self@.wf()
    }

    /// Makes a bucket. With a `filler` every slot gets a new value; without one
    /// the bucket is empty.
    pub fn new(filler: Option<&ElemBuilder<T>>) -> (r: Self)
        requires
            filler matches Some(builder) ==> builder.wf(),
        ensures
            r@.settled(),
            forall|i: int|
                0 <= i < SLOT_CAP ==> match filler {
                    Some(builder) => (#[trigger] r@.slots[i]) matches Some(val) && builder.makes(
                        val,
                    ),
                    None => r@.slots[i] is None,
                },
            r@.word == if filler is Some {
                FULL_FLAG
            } else {
                0u16
            },
            r@.hint == if filler is Some {
                SLOT_CAP
            } else {
                0usize
            },
    {
        let mut slice: Vec<Option<Box<T>>> = Vec::with_capacity(SLOT_CAP);
        let mut bitmap: u16 = 0;
        let mut i: usize = 0;
        proof {
            assert forall|j: u16| j < 8 implies !locked(bitmap, j) && !present(bitmap, j) by {
                lemma_bit_masks((2 * j) as u16);
                lemma_bit_masks((2 * j + 1) as u16);
            }
        }
        while i < SLOT_CAP
            invariant
                i <= SLOT_CAP,
                slice@.len() == i,
                forall|j: int| 0 <= j < i ==> ((#[trigger] slice@[j]) is Some) == (filler is Some),
                forall|j: int|
                    0 <= j < i ==> (filler matches Some(builder) ==> ((#[trigger] slice@[j])
                        matches Some(val) && builder.makes(val))),
                filler matches Some(builder) ==> builder.wf(),
                forall|j: u16| j < 8 ==> !locked(bitmap, j),
                forall|j: u16| j < 8 ==> present(bitmap, j) == (filler is Some && j < i),
                filler is None ==> bitmap == 0,
            decreases SLOT_CAP - i,
        {
            let ghost before = bitmap;
            let shift: u16 = 2 * (i as u16);
            match filler {
                Some(handle) => {
                    slice.push(Some(make_elem(handle)));
                    bitmap = bitmap | (1u16 << shift);
                },
                None => {
                    slice.push(None);
                },
            }
            proof {
                if filler is Some {
                    assert forall|j: u16| j < 8 implies !locked(bitmap, j) && present(bitmap, j)
                        == (j < i + 1) by {
                        lemma_bit_or(before, 1u16 << shift, (2 * j) as u16);
                        lemma_bit_or(before, 1u16 << shift, (2 * j + 1) as u16);
                        lemma_bit_shl_two(shift, (2 * j) as u16);
                        lemma_bit_shl_two(shift, (2 * j + 1) as u16);
                        assert(!locked(before, j));
                        assert(present(before, j) == (j < i));
                    }
                }
            }
            i += 1;
        }
        let len: usize = if filler.is_some() {
            SLOT_CAP
        } else {
            0
        };
        proof {
            lemma_quiet_settling(bitmap, 8);
            if filler is Some {
                lemma_present_all(bitmap, 8);
                assert forall|at: u16| at < 16 implies bit(bitmap, at) == bit(FULL_FLAG, at) by {
                    lemma_bit_masks(at);
                    if at % 2 == 0 {
                        assert(present(bitmap, at / 2));
                    } else {
                        assert(!locked(bitmap, at / 2));
                    }
                }
                lemma_bits_decide(bitmap, FULL_FLAG);
            } else {
                lemma_present_rest(bitmap, 0, 8);
            }
        }
        Bucket { slot: slice, len, bitmap }
    }

    /// The occupancy hint: about how many values the bucket holds.
    pub fn size_hint(&self) -> (r: usize)
        ensures
            r == self@.hint as int % (SLOT_CAP + 1),
            self.wf() ==> r == self@.hint,
    {
        self.len % (SLOT_CAP + 1)
    }

    /// Asks for a slot to take a value from (`get`) or to put one into.
    ///
    /// The claim is first counted into the hint; a hint that leaves its window
    /// turns the claim down at once. Then the lowest slot of the right kind that
    /// nobody owns is locked. A claim that is turned down leaves the bucket as it
    /// was.
    pub fn access(&mut self, get: bool) -> (r: Result<usize, ()>)
        requires
            old(self).wf(),
        ensures
            final(self).wf(),
            match r {
                Ok(pos) => {
                    &&& old(self)@.grants(get)
                    &&& pos < SLOT_CAP
                    &&& locate(old(self)@.word, get) == Some(pos as u16)
                    &&& final(self)@ == old(self)@.claimed(get, pos as u16)
                },
                Err(_) => !old(self)@.grants(get) && final(self)@ == old(self)@,
            },
    {
        // register the intention first: the hint is in its state after the claim
        let curr_len: usize = self.len;
        self.len = if get {
            curr_len.wrapping_sub(1)
        } else {
            curr_len.wrapping_add(1)
        };
        if self.len > SLOT_CAP {
            return self.access_failure(get);
        }
        let mut trials: usize = TRIALS_COUNT;
        while trials > 0
            invariant
                trials <= TRIALS_COUNT,
                self.slot == old(self).slot,
                self.bitmap == old(self).bitmap,
                hint_admits(old(self).len, get),
                old(self).wf(),
                self.len == if get {
                    (old(self).len - 1) as usize
                } else {
                    (old(self).len + 1) as usize
                },
                trials < TRIALS_COUNT ==> locate(self.bitmap, get) is None,
            decreases trials,
        {
            trials -= 1;
            match enter(self.bitmap, get) {
                Ok(pos) => {
                    // mark the lock bit; the slot is ours if nobody had marked it
                    let mask: u16 = 0b10u16 << (2 * pos);
                    let old_state: u16 = self.bitmap;
                    self.bitmap = old_state | mask;
                    proof {
                        lemma_claim_mask(old_state, pos);
                    }
                    if old_state & mask == 0 {
                        return Ok(pos as usize);
                    }
                },
                Err(_) => {},
            }
            cpu_relax(trials + 1);
        }
        self.access_failure(get)
    }

    /// Gives up slot `pos`: flips both of its bits. For the owner of the slot that
    /// clears the lock bit and flips the presence bit; no other slot changes.
    pub fn leave(&mut self, pos: u16)
        requires
            pos < SLOT_CAP,
        ensures
            final(self)@ == old(self)@.left(pos),
            final(self).wf() == old(self).wf(),
            locked(old(self)@.word, pos) ==> !locked(final(self)@.word, pos),
            present(final(self)@.word, pos) != present(old(self)@.word, pos),
            forall|other: u16|
                other < 8 && other != pos ==> locked(final(self)@.word, other) == locked(
                    old(self)@.word,
                    other,
                ) && present(final(self)@.word, other) == present(old(self)@.word, other),
    {
        proof {
            assert forall|other: u16| other < 8 implies locked(
                self.bitmap ^ pair_mask(pos),
                other,
            ) == (locked(self.bitmap, other) != (other == pos)) && present(
                self.bitmap ^ pair_mask(pos),
                other,
            ) == (present(self.bitmap, other) != (other == pos)) by {
                lemma_pair_effect(self.bitmap, pos, other);
            }
        }
        self.bitmap = self.bitmap ^ (0b11u16 << (2 * pos));
    }

    /// Takes the value out of slot `pos`. Fails, and changes nothing, if there is
    /// no such slot or it holds nothing.
    pub fn checkout(&mut self, pos: usize) -> (r: Result<Box<T>, ()>)
        requires
            old(self).wf(),
        ensures
            final(self).wf(),
            match r {
                Ok(val) => {
                    &&& pos < SLOT_CAP
                    &&& old(self)@.slots[pos as int] == Some(val)
                    &&& final(self)@ == old(self)@.emptied(pos as int)
                },
                Err(_) => {
                    &&& pos >= SLOT_CAP || old(self)@.slots[pos as int] is None
                    &&& final(self)@ == old(self)@
                },
            },
    {
        if pos >= SLOT_CAP || self.slot[pos].is_none() {
            return Err(());
        }
        match self.slot[pos].take() {
            Some(val) => Ok(val),
            None => Err(()),
        }
    }

    /// Puts `val` into slot `pos`, after `reset` has cleaned it: the slot then
    /// holds `val` itself, or what one call of the reset function has made of it.
    /// If there is no such slot or it holds a value already, `val` is dropped and
    /// nothing changes.
    pub fn release(&mut self, pos: usize, val: Box<T>, reset: Option<&ResetHook<T>>)
        requires
            old(self).wf(),
            reset matches Some(handle) ==> handle.ready(),
        ensures
            final(self).wf(),
            if pos < SLOT_CAP && old(self)@.slots[pos as int] is None {
                &&& final(self)@.slots[pos as int] is Some
                &&& final(self)@ == old(self)@.filled(
                    pos as int,
                    final(self)@.slots[pos as int].unwrap(),
                )
                &&& reset is None ==> final(self)@.slots[pos as int] == Some(val)
                &&& reset matches Some(handle) ==> exists|done: &mut T|
                    *done == *val && *final(done) == *final(self)@.slots[pos as int].unwrap()
                        && #[trigger] handle.resets(done)
            } else {
                final(self)@ == old(self)@
            },
    {
        if pos >= SLOT_CAP || self.slot[pos].is_some() {
            return ;
        }
        let ghost given = val;
        let mut val = val;
        if let Some(handle) = reset {
            handle.apply(&mut *val);
            proof {
                let done = choose|done: &mut T|
                    *done == *given && *final(done) == *val && #[trigger] handle.resets(done);
                assert(handle.resets(done));
            }
        }
        self.slot[pos] = Some(val);
    }

    /// Takes a claim back out of the hint and reports it as turned down.
    fn access_failure(&mut self, get: bool) -> (r: Result<usize, ()>)
        ensures
            r is Err,
            final(self).slot == old(self).slot,
            final(self).bitmap == old(self).bitmap,
            final(self).len == if get {
                vstd::wrapping::usize_specs::wrapping_add(old(self).len, 1)
            } else {
                vstd::wrapping::usize_specs::wrapping_sub(old(self).len, 1)
            },
    {
        self.len = if get {
            self.len.wrapping_add(1)
        } else {
            self.len.wrapping_sub(1)
        };
        Err(())
    }
}

/// The mask of a slot's lock bit, and what it tells of a word.
proof fn lemma_claim_mask(word: u16, pos: u16)
    requires
        pos < 8,
    ensures
        2u16 << ((2 * pos) as u16) == lock_mask(pos),
        (word & lock_mask(pos) == 0u16) == !locked(word, pos),
{
    lemma_lock_bit(word, (2 * pos) as u16);
}

/// Granting a claim keeps a coherent bucket coherent: the slot becomes owned,
/// no other slot changes, and the hint already counts the claim as done.
pub proof fn lemma_claim_coherent<T>(v: BucketView<T>, get: bool)
    requires
        v.coherent(),
        v.grants(get),
    ensures
        ({
            let pos = locate(v.word, get).unwrap();
            let after = v.claimed(get, pos);
            &&& pos < 8
            &&& after.coherent()
            &&& locked(after.word, pos)
            &&& present(after.word, pos) == get
            &&& (v.slots[pos as int] is Some) == get
            &&& forall|other: u16|
                other < 8 && other != pos ==> locked(after.word, other) == locked(v.word, other)
                    && present(after.word, other) == present(v.word, other)
        }),
{
    let pos = locate(v.word, get).unwrap();
    let after = v.claimed(get, pos);
    assert forall|other: u16| other < 8 implies locked(after.word, other) == (locked(
        v.word,
        other,
    ) || other == pos) && present(after.word, other) == present(v.word, other) by {
        lemma_lock_effect(v.word, pos, other);
    }
    lemma_settling_one_slot(v.word, after.word, pos, 8);
}

/// When the owner of a slot has done its work — taken the value out of a slot
/// that held one, or put one into a slot that held none — and leaves, the bucket
/// stays coherent, the slot is free again, and its presence bit has flipped.
pub proof fn lemma_leave_coherent<T>(v: BucketView<T>, pos: u16)
    requires
        v.coherent(),
        pos < 8,
        locked(v.word, pos),
        (v.slots[pos as int] is Some) != present(v.word, pos),
    ensures
        v.left(pos).coherent(),
        !locked(v.left(pos).word, pos),
        present(v.left(pos).word, pos) != present(v.word, pos),
        forall|other: u16|
            other < 8 && other != pos ==> locked(v.left(pos).word, other) == locked(v.word, other)
                && present(v.left(pos).word, other) == present(v.word, other),
{
    let after = v.left(pos);
    assert forall|other: u16| other < 8 implies locked(after.word, other) == (locked(
        v.word,
        other,
    ) != (other == pos)) && present(after.word, other) == (present(v.word, other) != (other
        == pos)) by {
        lemma_pair_effect(v.word, pos, other);
    }
    lemma_settling_one_slot(v.word, after.word, pos, 8);
}

/// What an owner does to its slot does not disturb a coherent bucket.
pub proof fn lemma_owner_coherent<T>(v: BucketView<T>, pos: u16, content: Option<Box<T>>)
    requires
        v.coherent(),
        pos < 8,
        locked(v.word, pos),
    ensures
        (BucketView { slots: v.slots.update(pos as int, content), ..v }).coherent(),
{
}

/// On a settled bucket the hint is the number of values, and it alone decides
/// whether a claim is granted.
pub proof fn lemma_settled_grants<T>(v: BucketView<T>)
    requires
        v.settled(),
    ensures
        v.hint == occupancy(v.word),
        v.grants(true) <==> v.hint > 0,
        v.grants(false) <==> v.hint < SLOT_CAP,
{
    lemma_quiet_settling(v.word, 8);
    lemma_quiet_locate(v.word, true);
}

/// A whole round on a settled bucket — claim, move the value, leave — settles
/// it again, with one value less after a checkout and one more after a release.
pub proof fn lemma_round_settled<T>(v: BucketView<T>, get: bool, content: Option<Box<T>>)
    requires
        v.settled(),
        v.grants(get),
        (content is Some) == !get,
    ensures
        ({
            let pos = locate(v.word, get).unwrap();
            let after = (BucketView {
                slots: v.slots.update(pos as int, content),
                ..v.claimed(get, pos)
            }).left(pos);
            &&& after.settled()
            &&& after.hint == if get {
                v.hint - 1
            } else {
                v.hint + 1
            }
            &&& present(after.word, pos) == !get
            &&& forall|other: u16|
                other < 8 && other != pos ==> present(after.word, other) == present(v.word, other)
        }),
{
    lemma_claim_coherent(v, get);
    let pos = locate(v.word, get).unwrap();
    let claimed = v.claimed(get, pos);
    let moved = BucketView { slots: v.slots.update(pos as int, content), ..claimed };
    lemma_leave_coherent(moved, pos);
    let after = moved.left(pos);
    assert forall|other: u16| other < 8 implies !locked(after.word, other) by {
        if other != pos {
            assert(!locked(v.word, other));
        }
    }
}

/// The occupancy hint of a coherent bucket is within `0..=8`, whatever claims
/// are in flight: it counts the slots that will hold a value once every owner
/// has left.
pub proof fn lemma_hint_window<T>(v: BucketView<T>)
    requires
        v.coherent(),
    ensures
        0 <= v.hint <= SLOT_CAP,
        v.hint == settling(v.word),
        quiet(v.word) ==> v.hint == occupancy(v.word),
{
    if quiet(v.word) {
        lemma_quiet_settling(v.word, 8);
    }
}
} // verus!
