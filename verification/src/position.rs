//! Position encoding for the ring buffer.
//!
//! A logical stream position is an unsigned integer, monotonic over the
//! lifetime of the queue.  For a ring of capacity `cap` it decomposes into a
//! physical slot index `p % cap` and a wraparound epoch `p / cap`.  Two
//! positions that share a slot index but differ in epoch denote different
//! logical elements that occupy the same physical slot at different times.
//! Overflow of the position counter itself is an accepted boundary of the
//! design: operations that would advance a position past the machine word
//! state that bound in their preconditions rather than guarding it.

use vstd::prelude::*;
use vstd::arithmetic::div_mod::{
    lemma_fundamental_div_mod, lemma_mod_add_multiples_vanish,
    lemma_mod_division_less_than_divisor,
};
use vstd::arithmetic::power2::{pow2, lemma_pow2_unfold, lemma_pow2_strictly_increases};
use vstd::bits::{low_bits_mask, lemma_usize_low_bits_mask_is_mod};

verus! {

/// The physical slot a position lands in.
pub open spec fn slot_of(p: int, cap: int) -> int {
    p % cap
}

/// How many times the ring has wrapped when a position is reached.
pub open spec fn epoch_of(p: int, cap: int) -> int {
    p / cap
}

/// Accepted capacities are the powers of two.
pub open spec fn is_pow2(n: nat) -> bool
    decreases n,
{
    if n == 0 {
        false
    } else if n == 1 {
        true
    } else {
        n % 2 == 0 && is_pow2(n / 2)
    }
}

/// Runtime check for the construction-time capacity contract.
pub fn is_power_of_two(n: usize) -> (r: bool)
    ensures
        r == is_pow2(n as nat),
{
    if n == 0 {
        return false;
    }
    let mut m: usize = n;
    while m % 2 == 0
        invariant
            m >= 1,
            is_pow2(n as nat) == is_pow2(m as nat),
        decreases m,
    {
        m = m / 2;
    }
    m == 1
}

/// An accepted capacity is an exact power of two that fits the machine word.
pub proof fn lemma_pow2_witness(c: nat)
    requires
        is_pow2(c),
        c <= usize::MAX,
    ensures
        exists|n: nat| n < usize::BITS as nat && c == pow2(n),
    decreases c,
{
    vstd::layout::unsigned_int_max_values();
    if c == 1 {
        assert(pow2(0) == 1) by {
            vstd::arithmetic::power2::lemma_pow2_unfold(1);
            assert(pow2(1) == 2 * pow2(0));
            vstd::arithmetic::power2::lemma2_to64();
        };
        if usize::BITS as nat == 0 {
            assert(usize::MAX as nat == pow2(0) - 1);
        }
        assert(0 < usize::BITS as nat && c == pow2(0));
    } else {
        lemma_pow2_witness(c / 2);
        let n = choose|n: nat| n < usize::BITS as nat && c / 2 == pow2(n);
        lemma_pow2_unfold(n + 1);
        assert(c == pow2(n + 1));
        if n + 1 == usize::BITS as nat {
            assert(pow2(n + 1) == usize::MAX as nat + 1);
        }
        if n + 1 > usize::BITS as nat {
            lemma_pow2_strictly_increases(usize::BITS as nat, n + 1);
        }
        assert(n + 1 < usize::BITS as nat && c == pow2(n + 1));
    }
}

/// The slot index of a position, computed by masking as the ring does: on a
/// power-of-two capacity, `pos & (cap - 1)` is exactly `pos % cap`.
pub fn ring_index(pos: usize, cap: usize) -> (i: usize)
    requires
        is_pow2(cap as nat),
    ensures
        i == pos % cap,
        i < cap,
{
    proof {
        lemma_pow2_witness(cap as nat);
        let n = choose|n: nat| n < usize::BITS as nat && cap as nat == pow2(n);
        lemma_usize_low_bits_mask_is_mod(pos, n);
        assert(low_bits_mask(n) == pow2(n) - 1);
        assert((cap - 1) as usize == low_bits_mask(n) as usize);
    }
    pos & (cap - 1)
}

/// A position is exactly recovered from its slot index and epoch.
pub proof fn lemma_encode_decode(p: int, cap: int)
    requires
        cap >= 1,
        p >= 0,
    ensures
        p == epoch_of(p, cap) * cap + slot_of(p, cap),
        0 <= slot_of(p, cap) < cap,
        epoch_of(p, cap) >= 0,
{
    lemma_fundamental_div_mod(p, cap);
    lemma_mod_division_less_than_divisor(p, cap);
    vstd::arithmetic::mul::lemma_mul_is_commutative(cap, p / cap);
    vstd::arithmetic::div_mod::lemma_div_pos_is_pos(p, cap);
}

/// Comparison of encoded positions agrees with the order of the underlying
/// integers: epochs compare first, slot indices break ties.
pub proof fn lemma_encoding_preserves_order(p1: int, p2: int, cap: int)
    requires
        cap >= 1,
        p1 >= 0,
        p2 >= 0,
    ensures
        (p1 < p2) <==> (epoch_of(p1, cap) < epoch_of(p2, cap)
            || (epoch_of(p1, cap) == epoch_of(p2, cap) && slot_of(p1, cap) < slot_of(p2, cap))),
{
    lemma_encode_decode(p1, cap);
    lemma_encode_decode(p2, cap);
    assert((p1 < p2) <==> (epoch_of(p1, cap) < epoch_of(p2, cap)
        || (epoch_of(p1, cap) == epoch_of(p2, cap) && slot_of(p1, cap) < slot_of(p2, cap))))
        by (nonlinear_arith)
        requires
            cap >= 1,
            p1 == epoch_of(p1, cap) * cap + slot_of(p1, cap),
            p2 == epoch_of(p2, cap) * cap + slot_of(p2, cap),
            0 <= slot_of(p1, cap) < cap,
            0 <= slot_of(p2, cap) < cap,
    ;
}

/// Distinct positions less than one full ring apart never collide on a slot.
/// This is what lets a slot's position tag disambiguate occupancy.
pub proof fn lemma_window_distinct(p1: int, p2: int, cap: int)
    requires
        cap >= 1,
        0 <= p1 < p2,
        p2 - p1 < cap,
    ensures
        slot_of(p1, cap) != slot_of(p2, cap),
{
    lemma_encode_decode(p1, cap);
    lemma_encode_decode(p2, cap);
    assert(slot_of(p1, cap) != slot_of(p2, cap)) by (nonlinear_arith)
        requires
            cap >= 1,
            0 <= p1 < p2,
            p2 - p1 < cap,
            p1 == epoch_of(p1, cap) * cap + slot_of(p1, cap),
            p2 == epoch_of(p2, cap) * cap + slot_of(p2, cap),
            0 <= slot_of(p1, cap) < cap,
            0 <= slot_of(p2, cap) < cap,
    ;
}

/// Matching slot index and epoch identify a position uniquely.
pub proof fn lemma_decode_unique(p1: int, p2: int, cap: int)
    requires
        cap >= 1,
        p1 >= 0,
        p2 >= 0,
        slot_of(p1, cap) == slot_of(p2, cap),
        epoch_of(p1, cap) == epoch_of(p2, cap),
    ensures
        p1 == p2,
{
    lemma_encode_decode(p1, cap);
    lemma_encode_decode(p2, cap);
}

/// One epoch back, the same physical slot was used.
pub proof fn lemma_prev_epoch_same_slot(p: int, cap: int)
    requires
        cap >= 1,
        p >= cap,
    ensures
        slot_of(p - cap, cap) == slot_of(p, cap),
{
    lemma_mod_add_multiples_vanish(p - cap, cap);
}

} // verus!
