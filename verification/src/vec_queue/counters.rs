//! Counters that go round the range of a `usize`, and the cells of a ring that they point at.
use crate::ring::physical_index;
use super::{ring_slot, usize_range};
use vstd::arithmetic::div_mod::{
    lemma_add_mod_noop, lemma_mod_bound, lemma_mod_equivalence, lemma_mod_multiples_vanish,
    lemma_small_mod,
};
use vstd::arithmetic::power2::{
    is_pow2, is_pow2_equiv, is_pow2_exists, lemma2_to64, lemma_pow2, lemma_pow2_adds,
    lemma_pow2_pos, lemma_pow2_strictly_increases, pow2,
};
use vstd::bits::{lemma_usize_low_bits_mask_is_mod, low_bits_mask};
use vstd::prelude::*;

verus! {

/// Every power of two that a `usize` can hold is two to the power of less
/// than the bits of a `usize`.
pub proof fn lemma_exponent(capacity: usize) -> (n: nat)
    requires
        is_pow2(capacity as int),
    ensures
        n < usize::BITS,
        capacity == pow2(n),
        capacity > 0,
{
    is_pow2_equiv(capacity as int);
    assert(is_pow2_exists(capacity as int));
    let i = choose|i: nat| vstd::arithmetic::power::pow(2, i) == capacity as int;
    lemma_pow2(i);
    lemma_pow2_pos(i);
    lemma2_to64();
    assert(usize::BITS == 32 || usize::BITS == 64);
    if i >= usize::BITS {
        if i > usize::BITS {
            lemma_pow2_strictly_increases(usize::BITS as nat, i);
        }
        assert(usize::MAX == 0xffff_ffff || usize::MAX == 0xffff_ffff_ffff_ffff);
        assert(false);
    }
    i
}

/// In a ring whose size is a power of two, masking a counter with the size
/// less one gives the counter modulo the size.
pub proof fn lemma_mask(x: usize, capacity: usize)
    requires
        is_pow2(capacity as int),
    ensures
        x & ((capacity - 1) as usize) == x % capacity,
        0 <= x % capacity < capacity,
{
    let n = lemma_exponent(capacity);
    lemma_usize_low_bits_mask_is_mod(x, n);
    assert(low_bits_mask(n) == capacity - 1);
}

/// A counter that has gone round the range of a `usize` stands at the same
/// cell of a ring whose size is a power of two.
pub proof fn lemma_wrap(a: int, capacity: usize)
    requires
        is_pow2(capacity as int),
    ensures
        (a + usize_range()) % (capacity as int) == a % (capacity as int),
        (a - usize_range()) % (capacity as int) == a % (capacity as int),
{
    let n = lemma_exponent(capacity);
    let rest = (usize::BITS - n) as nat;
    lemma_pow2_adds(n, rest);
    lemma_pow2_pos(rest);
    lemma2_to64();
    assert(usize::MAX == 0xffff_ffff || usize::MAX == 0xffff_ffff_ffff_ffff);
    assert(usize::BITS == 32 || usize::BITS == 64);
    assert(usize_range() == pow2(usize::BITS as nat));
    let q = pow2(rest) as int;
    assert(usize_range() == capacity * q);
    lemma_mod_multiples_vanish(q, a, capacity as int);
    lemma_mod_multiples_vanish(-q, a, capacity as int);
    assert(capacity * (-q) == -(capacity * q)) by (nonlinear_arith);
}

/// Elements less than a ring's size apart stand in different cells.
pub proof fn lemma_distinct(head: int, j: int, k: int, capacity: int)
    requires
        0 <= j < k < capacity,
    ensures
        (head + j) % capacity != (head + k) % capacity,
{
    lemma_mod_equivalence(head + k, head + j, capacity);
    lemma_small_mod((k - j) as nat, capacity as nat);
}

/// A counter that stands `d` steps from `head`, however often either has
/// gone round the range of a `usize`, points `d` cells further.
pub proof fn lemma_shift(head: usize, moved: usize, d: int, k: int, capacity: usize)
    requires
        is_pow2(capacity as int),
        moved == head + d || moved == head + d - usize_range() || moved == head + d + usize_range(),
    ensures
        ring_slot(moved, k, capacity as nat) == ring_slot(head, k + d, capacity as nat),
{
    lemma_wrap(head + d + k, capacity);
}

/// Counted from the cell that the head counter points at, the element `k`
/// steps behind stands `k` cells further round the ring.
pub proof fn lemma_ring_slot_from_cell(head: usize, k: int, capacity: usize)
    requires
        is_pow2(capacity as int),
        0 <= k < capacity,
    ensures
        ring_slot(head, k, capacity as nat) == physical_index(
            head as int % capacity as int,
            k,
            capacity as int,
        ),
{
    let cap = capacity as int;
    let cell = head as int % cap;
    lemma_mod_bound(head as int, cap);
    lemma_add_mod_noop(head as int, k, cap);
    lemma_small_mod(k as nat, capacity as nat);
    assert((head + k) % cap == (cell + k) % cap);
    if cell + k >= cap {
        lemma_mod_multiples_vanish(1, cell + k - cap, cap);
        lemma_small_mod((cell + k - cap) as nat, capacity as nat);
    } else {
        lemma_small_mod((cell + k) as nat, capacity as nat);
    }
}

/// Twice a power of two is a power of two.
pub proof fn lemma_double(capacity: int)
    requires
        is_pow2(capacity),
    ensures
        is_pow2(capacity + capacity),
{
    reveal_with_fuel(is_pow2, 2);
    assert(capacity > 0);
    assert((capacity + capacity) / 2 == capacity);
    assert((capacity + capacity) % 2 == 0);
}

/// Four and sixteen are powers of two.
pub proof fn lemma_sixteen()
    ensures
        is_pow2(4),
        is_pow2(16),
{
    reveal_with_fuel(is_pow2, 6);
}

} // verus!
