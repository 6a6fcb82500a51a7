//! Arithmetic over the 16-bit state word of a bucket.
//!
//! A state word packs eight `(presence, lock)` pairs, one per slot: bit `2 * pos`
//! tells whether slot `pos` holds a value, bit `2 * pos + 1` tells whether an
//! operator currently owns the slot. Everything in this module is a pure function
//! of the word.

use vstd::prelude::*;

verus! {
/// Number of slots in one bucket; the width of the state word assumes this value.
pub const SLOT_CAP: usize = 8;

/// XOR-ed into a state word, turns every slot that is present and unlocked into
/// the pair `0b11`.
pub const GET_MASK: u16 = 0b1010_1010_1010_1010;

/// XOR-ed into a state word, turns every slot that is absent and unlocked into
/// the pair `0b11`.
pub const PUT_MASK: u16 = 0b1111_1111_1111_1111;

/// The presence bits of all eight slots.
pub const FULL_FLAG: u16 = 0b0101_0101_0101_0101;

/// Bit `at` of `word`.
pub open spec fn bit(word: u16, at: u16) -> bool {
    (word >> at) & 1u16 == 1u16
}

/// Slot `pos` holds a value.
pub open spec fn present(word: u16, pos: u16) -> bool {
    bit(word, (2 * pos) as u16)
}

/// Some operator owns slot `pos`.
pub open spec fn locked(word: u16, pos: u16) -> bool {
    bit(word, (2 * pos + 1) as u16)
}

/// Slot `pos` can be claimed: nobody owns it, and it holds a value exactly when
/// the claim is a checkout (`get`).
pub open spec fn claimable(word: u16, get: bool, pos: u16) -> bool {
    pos < 8 && !locked(word, pos) && present(word, pos) == get
}

/// `pos` is the lowest claimable slot.
pub open spec fn first_claimable(word: u16, get: bool, pos: u16) -> bool {
    claimable(word, get, pos) && forall|j: u16| j < pos ==> !claimable(word, get, j)
}

/// No slot can be claimed.
pub open spec fn none_claimable(word: u16, get: bool) -> bool {
    forall|j: u16| j < 8 ==> !claimable(word, get, j)
}

/// The slot that a claim on `word` is granted, if any: the lowest claimable one.
pub open spec fn locate(word: u16, get: bool) -> Option<u16> {
    if exists|pos: u16| first_claimable(word, get, pos) {
        Some(choose|pos: u16| first_claimable(word, get, pos))
    } else {
        None
    }
}

/// The lock bit of slot `pos`, alone.
pub open spec fn lock_mask(pos: u16) -> u16 {
    2u16 << ((2 * pos) as u16)
}

/// Both bits of slot `pos`.
pub open spec fn pair_mask(pos: u16) -> u16 {
    3u16 << ((2 * pos) as u16)
}

/// Number of slots below `upto` that hold a value.
pub open spec fn present_below(word: u16, upto: nat) -> nat
    decreases upto,
{
    if upto == 0 {
        0
    } else {
        present_below(word, (upto - 1) as nat) + if present(word, (upto - 1) as u16) {
            1nat
        } else {
            0nat
        }
    }
}

/// Number of slots that hold a value.
pub open spec fn occupancy(word: u16) -> nat {
    present_below(word, 8)
}

/// A slot will hold a value once its owner, if it has one, has left: an owned
/// slot is about to flip.
pub open spec fn settles_present(word: u16, pos: u16) -> bool {
    present(word, pos) != locked(word, pos)
}

/// Number of slots below `upto` that will hold a value once every owner has left.
pub open spec fn settling_below(word: u16, upto: nat) -> nat
    decreases upto,
{
    if upto == 0 {
        0
    } else {
        settling_below(word, (upto - 1) as nat) + if settles_present(word, (upto - 1) as u16) {
            1nat
        } else {
            0nat
        }
    }
}

/// Number of slots that will hold a value once every owner has left.
pub open spec fn settling(word: u16) -> nat {
    settling_below(word, 8)
}

/// No slot of `word` is owned.
pub open spec fn quiet(word: u16) -> bool {
    forall|pos: u16| pos < 8 ==> !locked(word, pos)
}

/// A bit of a word shifted right is the bit that many places higher, or clear
/// beyond the top.
pub proof fn lemma_bit_shr(word: u16, by: u16, at: u16)
    by (bit_vector)
    requires
        by < 16,
        at < 16,
    ensures
        bit(word >> by, at) == (at + by < 16 && bit(word, (at + by) as u16)),
{
}

/// A bit of an XOR is set where the bits of the two words differ.
pub proof fn lemma_bit_xor(a: u16, b: u16, at: u16)
    by (bit_vector)
    requires
        at < 16,
    ensures
        bit(a ^ b, at) == (bit(a, at) != bit(b, at)),
{
}

/// A bit of an OR is set where a bit of either word is.
pub proof fn lemma_bit_or(a: u16, b: u16, at: u16)
    by (bit_vector)
    requires
        at < 16,
    ensures
        bit(a | b, at) == (bit(a, at) || bit(b, at)),
{
}

/// A bit of an AND is set where the bits of both words are.
pub proof fn lemma_bit_and(a: u16, b: u16, at: u16)
    by (bit_vector)
    requires
        at < 16,
    ensures
        bit(a & b, at) == (bit(a, at) && bit(b, at)),
{
}

/// The bits of the masks: the lock bits in `GET_MASK`, the presence bits in
/// `FULL_FLAG`, all in `PUT_MASK`, none in zero.
pub proof fn lemma_bit_masks(at: u16)
    by (bit_vector)
    requires
        at < 16,
    ensures
        bit(GET_MASK, at) == (at % 2 == 1),
        bit(FULL_FLAG, at) == (at % 2 == 0),
        bit(PUT_MASK, at),
        !bit(0u16, at),
{
}

/// The bits of one, two and three shifted left.
pub proof fn lemma_bit_shl_two(shift: u16, at: u16)
    by (bit_vector)
    requires
        shift < 15,
        at < 16,
    ensures
        bit(2u16 << shift, at) == (at == shift + 1),
        bit(3u16 << shift, at) == (at == shift || at == shift + 1),
        bit(1u16 << shift, at) == (at == shift),
{
}

/// What the lowest pair of a word tells of its two lowest bits.
pub proof fn lemma_low_pair(word: u16)
    by (bit_vector)
    ensures
        (word & 3u16 == 3u16) == (bit(word, 0) && bit(word, 1)),
        (word & 1u16 == 1u16) == bit(word, 0),
{
}

/// Two words with the same sixteen bits are the same word, bit by bit.
proof fn lemma_bits_decide_each(a: u16, b: u16)
    by (bit_vector)
    requires
        bit(a, 0) == bit(b, 0),
        bit(a, 1) == bit(b, 1),
        bit(a, 2) == bit(b, 2),
        bit(a, 3) == bit(b, 3),
        bit(a, 4) == bit(b, 4),
        bit(a, 5) == bit(b, 5),
        bit(a, 6) == bit(b, 6),
        bit(a, 7) == bit(b, 7),
        bit(a, 8) == bit(b, 8),
        bit(a, 9) == bit(b, 9),
        bit(a, 10) == bit(b, 10),
        bit(a, 11) == bit(b, 11),
        bit(a, 12) == bit(b, 12),
        bit(a, 13) == bit(b, 13),
        bit(a, 14) == bit(b, 14),
        bit(a, 15) == bit(b, 15),
    ensures
        a == b,
{
}

/// Two words with the same sixteen bits are the same word.
pub proof fn lemma_bits_decide(a: u16, b: u16)
    requires
        forall|at: u16| at < 16 ==> bit(a, at) == bit(b, at),
    ensures
        a == b,
{
    lemma_bits_decide_each(a, b);
}

/// What the test of a lock bit, and the attempt to set it, tell of the bit.
pub proof fn lemma_lock_bit(word: u16, shift: u16)
    by (bit_vector)
    requires
        shift < 15,
    ensures
        (word & (2u16 << shift) == 0u16) == !bit(word, (shift + 1) as u16),
        ((word | (2u16 << shift)) == word) == bit(word, (shift + 1) as u16),
{
}

/// Setting the lock bit of slot `pos` changes nothing else.
pub proof fn lemma_lock_effect(word: u16, pos: u16, other: u16)
    requires
        pos < 8,
        other < 8,
    ensures
        present(word | lock_mask(pos), other) == present(word, other),
        locked(word | lock_mask(pos), other) == (locked(word, other) || other == pos),
{
    let shift = (2 * pos) as u16;
    lemma_bit_or(word, lock_mask(pos), (2 * other) as u16);
    lemma_bit_or(word, lock_mask(pos), (2 * other + 1) as u16);
    lemma_bit_shl_two(shift, (2 * other) as u16);
    lemma_bit_shl_two(shift, (2 * other + 1) as u16);
}

/// Flipping both bits of slot `pos` changes nothing else.
pub proof fn lemma_pair_effect(word: u16, pos: u16, other: u16)
    requires
        pos < 8,
        other < 8,
    ensures
        present(word ^ pair_mask(pos), other) == (present(word, other) != (other == pos)),
        locked(word ^ pair_mask(pos), other) == (locked(word, other) != (other == pos)),
{
    let shift = (2 * pos) as u16;
    lemma_bit_xor(word, pair_mask(pos), (2 * other) as u16);
    lemma_bit_xor(word, pair_mask(pos), (2 * other + 1) as u16);
    lemma_bit_shl_two(shift, (2 * other) as u16);
    lemma_bit_shl_two(shift, (2 * other + 1) as u16);
}

/// After the XOR with the mask of its kind, a claimable slot reads `0b11`.
proof fn lemma_masked_pair(word: u16, get: bool, pos: u16)
    requires
        pos < 8,
    ensures
        claimable(word, get, pos) == (bit(word ^ claim_mask(get), (2 * pos) as u16) && bit(
            word ^ claim_mask(get),
            (2 * pos + 1) as u16,
        )),
{
    lemma_bit_xor(word, claim_mask(get), (2 * pos) as u16);
    lemma_bit_xor(word, claim_mask(get), (2 * pos + 1) as u16);
    lemma_bit_masks((2 * pos) as u16);
    lemma_bit_masks((2 * pos + 1) as u16);
}

/// The mask that `enter` applies for a claim of the given kind.
pub open spec fn claim_mask(get: bool) -> u16 {
    if get {
        GET_MASK
    } else {
        PUT_MASK
    }
}

/// At most one slot is the lowest claimable one, and `locate` names it.
pub proof fn lemma_locate(word: u16, get: bool)
    ensures
        forall|pos: u16| first_claimable(word, get, pos) ==> locate(word, get) == Some(pos),
        none_claimable(word, get) ==> locate(word, get) is None,
        locate(word, get) matches Some(pos) ==> first_claimable(word, get, pos),
        locate(word, get) is None ==> none_claimable(word, get),
{
    assert forall|pos: u16| first_claimable(word, get, pos) implies locate(word, get) == Some(
        pos,
    ) by {}
    if locate(word, get) is None {
        lemma_none_below(word, get, 8);
    }
}

/// If no slot is the lowest claimable one, none below `upto` is claimable at all.
proof fn lemma_none_below(word: u16, get: bool, upto: u16)
    requires
        upto <= 8,
        forall|pos: u16| !first_claimable(word, get, pos),
    ensures
        forall|j: u16| j < upto ==> !claimable(word, get, j),
    decreases upto,
{
    if upto > 0 {
        lemma_none_below(word, get, (upto - 1) as u16);
        assert(!first_claimable(word, get, (upto - 1) as u16));
    }
}

/// `std::hint::spin_loop` tells the processor that the caller is busy-waiting.
/// It returns nothing and touches no value of the program; nothing is claimed of it.
pub assume_specification[ core::hint::spin_loop ]();

/// Busy-waits for `2^count` spin hints.
pub fn cpu_relax(count: usize)
    requires
        count < usize::BITS,
{
    let rounds: usize = 1usize << count;
    let mut done: usize = 0;
    while done < rounds
        invariant
            done <= rounds,
        decreases rounds - done,
    {
        std::hint::spin_loop();
        done += 1;
    }
}

/// Finds the slot that a claim on `src` is granted: the lowest slot that nobody
/// owns and that holds a value (`get`) or is empty (otherwise).
pub fn enter(src: u16, get: bool) -> (r: Result<u16, ()>)
    ensures
        match r {
            Ok(pos) => first_claimable(src, get, pos),
            Err(_) => none_claimable(src, get),
        },
        r is Ok <==> locate(src, get) is Some,
        r matches Ok(pos) ==> locate(src, get) == Some(pos),
{
    proof {
    }
    // a word without values grants no checkout, a word full of them no release
    let masked: u16 = if get {
        if src == 0 {
            proof {
                assert forall|j: u16| j < 8 implies !claimable(src, get, j) by {
                    lemma_bit_masks((2 * j) as u16);
                }
            }
            return Err(());
        }
        src ^ GET_MASK
    } else {
        if src == FULL_FLAG {
            proof {
                assert forall|j: u16| j < 8 implies !claimable(src, get, j) by {
                    lemma_bit_masks((2 * j) as u16);
                }
            }
            return Err(());
        }
        src ^ PUT_MASK
    };

    // the lowest set bit tells where the search can start
    let val: u16 = masked.trailing_zeros() as u16;
    proof {
    }
    if val > 14 {
        proof {
            assert forall|j: u16| j < 8 implies !claimable(src, get, j) by {
                lemma_masked_pair(src, get, j);
            }
        }
        return Err(());
    }
    let mut base: u16;
    let mut pos: u16;
    if val % 2 == 1 {
        base = masked >> (val + 1);
        pos = (val + 1) / 2;
    } else {
        base = masked >> val;
        pos = val / 2;
    }
    proof {
        assert forall|j: u16| j < pos implies !claimable(src, get, j) by {
            lemma_masked_pair(src, get, j);
        }
        assert forall|at: u16| at < 16 implies bit(base, at) == (at + 2 * pos < 16 && bit(
            masked,
            (at + 2 * pos) as u16,
        )) by {
            lemma_bit_shr(masked, (2 * pos) as u16, at);
        }
    }

    while base > 0
        invariant
            pos <= 8,
            masked == src ^ claim_mask(get),
            forall|j: u16| j < pos ==> !claimable(src, get, j),
            forall|at: u16|
                at < 16 ==> bit(base, at) == (at + 2 * pos < 16 && bit(
                    masked,
                    (at + 2 * pos) as u16,
                )),
        decreases 8 - pos,
    {
        proof {
            // a word that is not zero has a bit, so the search is not past the end
            let low = vstd::std_specs::bits::u16_trailing_zeros(base) as u16;
            assert(bit(base, low));
            lemma_low_pair(base);
            lemma_masked_pair(src, get, pos);
        }
        if base & 0b11 == 0b11 {
            return Ok(pos);
        }
        let ghost before = base;
        pos += 1;
        base = base >> 2;
        proof {
            assert forall|at: u16| at < 16 implies bit(base, at) == (at + 2 * pos < 16 && bit(
                masked,
                (at + 2 * pos) as u16,
            )) by {
                lemma_bit_shr(before, 2, at);
            }
        }
    }

    proof {
        assert forall|j: u16| j < 8 implies !claimable(src, get, j) by {
            if j >= pos {
                lemma_masked_pair(src, get, j);
                lemma_bit_masks((2 * j - 2 * pos) as u16);
            }
        }
    }
    Err(())
}

/// The state word after the owner of slot `pos` has left: the lock bit cleared
/// and the presence bit flipped. Fails if nobody owns the slot.
pub fn exit(src: u16, pos: u16) -> (r: Result<u16, ()>)
    requires
        pos < 8,
    ensures
        r == if locked(src, pos) {
            Ok::<u16, ()>(src ^ pair_mask(pos))
        } else {
            Err::<u16, ()>(())
        },
{
    out_state(src, 2 * pos)
}

/// Marks the lock bit that sits one above bit `pad_pos`. Fails if it is
/// marked already.
pub fn in_state(origin: u16, pad_pos: u16) -> (r: Result<u16, ()>)
    requires
        pad_pos < 15,
    ensures
        r == if bit(origin, (pad_pos + 1) as u16) {
            Err::<u16, ()>(())
        } else {
            Ok::<u16, ()>(origin | (2u16 << pad_pos))
        },
{
    let next: u16 = origin | (0b10u16 << pad_pos);
    proof {
        lemma_lock_bit(origin, pad_pos);
    }
    if next == origin {
        return Err(());
    }
    Ok(next)
}

/// Clears the lock bit that sits one above bit `pad_pos` and flips bit `pad_pos`.
/// Fails if the lock bit is not marked.
pub fn out_state(origin: u16, pad_pos: u16) -> (r: Result<u16, ()>)
    requires
        pad_pos < 15,
    ensures
        r == if bit(origin, (pad_pos + 1) as u16) {
            Ok::<u16, ()>(origin ^ (3u16 << pad_pos))
        } else {
            Err::<u16, ()>(())
        },
{
    proof {
        lemma_lock_bit(origin, pad_pos);
    }
    if (origin & (0b10u16 << pad_pos)) == 0 {
        return Err(());
    }
    Ok(origin ^ (0b11u16 << pad_pos))
}

/// Slots that hold nothing add nothing to the count.
pub proof fn lemma_present_rest(word: u16, from: nat, upto: nat)
    requires
        from <= upto <= 8,
        forall|j: u16| from <= j < upto ==> !present(word, j),
    ensures
        present_below(word, upto) == present_below(word, from),
    decreases upto,
{
    if from < upto {
        lemma_present_rest(word, from, (upto - 1) as nat);
    }
}

/// Slots that all hold a value count one each.
pub proof fn lemma_present_all(word: u16, upto: nat)
    requires
        upto <= 8,
        forall|j: u16| j < upto ==> present(word, j),
    ensures
        present_below(word, upto) == upto,
    decreases upto,
{
    if 0 < upto {
        lemma_present_all(word, (upto - 1) as nat);
    }
}

/// No count exceeds the number of slots it ranges over.
pub proof fn lemma_count_bounds(word: u16, upto: nat)
    ensures
        present_below(word, upto) <= upto,
        settling_below(word, upto) <= upto,
    decreases upto,
{
    if 0 < upto {
        lemma_count_bounds(word, (upto - 1) as nat);
    }
}

/// Counts the slots of `src` that hold a value.
pub fn check_len(src: u16) -> (r: usize)
    ensures
        r == occupancy(src),
        r <= SLOT_CAP,
{
    let kept: u16 = src & FULL_FLAG;
    proof {
        assert forall|j: u16| j < 8 implies bit(kept, (2 * j) as u16) == present(src, j) by {
            lemma_bit_and(src, FULL_FLAG, (2 * j) as u16);
            lemma_bit_masks((2 * j) as u16);
        }
    }
    if kept == 0 {
        proof {
            assert forall|j: u16| j < 8 implies !present(src, j) by {
                lemma_bit_masks((2 * j) as u16);
            }
            lemma_present_rest(src, 0, 8);
        }
        return 0;
    }
    if kept == FULL_FLAG {
        proof {
            assert forall|j: u16| j < 8 implies present(src, j) by {
                lemma_bit_masks((2 * j) as u16);
            }
            lemma_present_all(src, 8);
        }
        return 8;
    }
    let mut base: u16 = kept;
    let mut count: usize = 0;
    let ghost mut pos: u16 = 0;
    proof {
        assert forall|at: u16| at < 16 implies bit(base, at) == (at + 2 * pos < 16 && bit(
            kept,
            (at + 2 * pos) as u16,
        )) by {}
    }
    while base > 0
        invariant
            pos <= 8,
            count == present_below(src, pos as nat),
            count <= pos,
            forall|j: u16| j < 8 ==> bit(kept, (2 * j) as u16) == present(src, j),
            forall|at: u16|
                at < 16 ==> bit(base, at) == (at + 2 * pos < 16 && bit(
                    kept,
                    (at + 2 * pos) as u16,
                )),
        decreases 8 - pos,
    {
        proof {
            let low = vstd::std_specs::bits::u16_trailing_zeros(base) as u16;
            assert(bit(base, low));
            lemma_low_pair(base);
        }
        if base & 1 == 1 {
            count += 1;
        }
        let ghost before = base;
        base = base >> 2;
        proof {
            pos = (pos + 1) as u16;
            assert forall|at: u16| at < 16 implies bit(base, at) == (at + 2 * pos < 16 && bit(
                kept,
                (at + 2 * pos) as u16,
            )) by {
                lemma_bit_shr(before, 2, at);
            }
        }
    }
    proof {
        assert forall|j: u16| pos <= j < 8 implies !present(src, j) by {
            lemma_bit_masks((2 * j - 2 * pos) as u16);
        }
        lemma_present_rest(src, pos as nat, 8);
    }
    count
}

/// The worth of one slot in the settling count.
pub open spec fn settling_at(word: u16, pos: u16) -> nat {
    if settles_present(word, pos) {
        1
    } else {
        0
    }
}

/// Two words that differ in one slot only differ in their settling counts by
/// what that slot is worth.
pub proof fn lemma_settling_one_slot(before: u16, after: u16, pos: u16, upto: nat)
    requires
        pos < 8,
        upto <= 8,
        forall|j: u16|
            j < 8 && j != pos ==> settles_present(after, j) == settles_present(before, j),
    ensures
        settling_below(after, upto) + (if pos < upto {
            settling_at(before, pos)
        } else {
            0
        }) == settling_below(before, upto) + (if pos < upto {
            settling_at(after, pos)
        } else {
            0
        }),
    decreases upto,
{
    if 0 < upto {
        lemma_settling_one_slot(before, after, pos, (upto - 1) as nat);
        if upto - 1 != pos {
            assert(settles_present(after, (upto - 1) as u16) == settles_present(
                before,
                (upto - 1) as u16,
            ));
        }
    }
}

/// Where no slot is owned, the slots that will hold a value are those that do.
pub proof fn lemma_quiet_settling(word: u16, upto: nat)
    requires
        upto <= 8,
        quiet(word),
    ensures
        settling_below(word, upto) == present_below(word, upto),
    decreases upto,
{
    if 0 < upto {
        lemma_quiet_settling(word, (upto - 1) as nat);
    }
}

/// A count above zero has a slot that holds a value; a count below the number of
/// slots has one that holds none.
pub proof fn lemma_count_witness(word: u16, upto: nat)
    requires
        upto <= 8,
    ensures
        present_below(word, upto) > 0 ==> exists|j: u16| j < upto && present(word, j),
        present_below(word, upto) < upto ==> exists|j: u16| j < upto && !present(word, j),
    decreases upto,
{
    if 0 < upto {
        lemma_count_witness(word, (upto - 1) as nat);
    }
}

/// On a word that nobody owns a slot of, a checkout finds a slot exactly if some
/// slot holds a value, and a release exactly if some slot holds none.
pub proof fn lemma_quiet_locate(word: u16, get: bool)
    requires
        quiet(word),
    ensures
        locate(word, true) is Some <==> occupancy(word) > 0,
        locate(word, false) is Some <==> occupancy(word) < 8,
{
    lemma_locate(word, true);
    lemma_locate(word, false);
    lemma_count_witness(word, 8);
    if occupancy(word) > 0 {
        let j = choose|j: u16| j < 8 && present(word, j);
        assert(claimable(word, true, j));
    } else {
        if locate(word, true) is Some {
            assert forall|j: u16| j < 8 implies !present(word, j) by {
                if present(word, j) {
                    lemma_present_positive(word, j, 8);
                }
            }
        }
    }
    if occupancy(word) < 8 {
        let j = choose|j: u16| j < 8 && !present(word, j);
        assert(claimable(word, false, j));
    } else {
        if locate(word, false) is Some {
            let p = locate(word, false).unwrap();
            lemma_absent_short(word, p, 8);
        }
    }
}

/// A slot that holds a value makes the count positive.
pub proof fn lemma_present_positive(word: u16, pos: u16, upto: nat)
    requires
        pos < upto <= 8,
        present(word, pos),
    ensures
        present_below(word, upto) > 0,
    decreases upto,
{
    if pos < upto - 1 {
        lemma_present_positive(word, pos, (upto - 1) as nat);
    }
}

/// A slot that holds nothing keeps the count below the number of slots.
pub proof fn lemma_absent_short(word: u16, pos: u16, upto: nat)
    requires
        pos < upto <= 8,
        !present(word, pos),
    ensures
        present_below(word, upto) < upto,
    decreases upto,
{
    lemma_count_bounds(word, (upto - 1) as nat);
    if pos < upto - 1 {
        lemma_absent_short(word, pos, (upto - 1) as nat);
    }
}

/// A whole round on a slot — find it, lock it, leave it — ends with the lock
/// bit clear and the presence bit flipped, and touches no other slot.
pub proof fn lemma_round_unlocks(word: u16, get: bool)
    requires
        locate(word, get) is Some,
    ensures
        ({
            let pos = locate(word, get).unwrap();
            let after = (word | lock_mask(pos)) ^ pair_mask(pos);
            &&& pos < 8
            &&& !locked(after, pos)
            &&& present(after, pos) == !get
            &&& forall|other: u16|
                other < 8 && other != pos ==> locked(after, other) == locked(word, other)
                    && present(after, other) == present(word, other)
        }),
{
    let pos = locate(word, get).unwrap();
    let held = word | lock_mask(pos);
    assert forall|other: u16| other < 8 implies locked(held ^ pair_mask(pos), other) == (locked(
        word,
        other,
    ) && other != pos) && present(held ^ pair_mask(pos), other) == (present(word, other) != (
    other == pos)) by {
        lemma_lock_effect(word, pos, other);
        lemma_pair_effect(held, pos, other);
    }
}
} // verus!
