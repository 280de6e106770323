//! How the table grows: the capacities that are tried, and the first that fits.
use super::{NumberKeyMap, VACANT_KEY};
use vstd::arithmetic::div_mod::{lemma_mod_bound, lemma_small_mod};
use vstd::arithmetic::power2::is_pow2;
use vstd::prelude::*;

verus! {

/// The slot that `key` lives in when the table has `capacity` slots.
pub open spec fn direct_index(key: usize, capacity: nat) -> int
    recommends
        capacity > 0,
{
    key as int % capacity as int
}

/// The capacity that the growth policy proposes after `capacity`, before any
/// machine limit: small tables double and add two, larger ones grow by a
/// seventh, and a power of two is stepped over.
pub open spec fn grown(capacity: nat) -> nat {
    if capacity < 16 {
        capacity * 2 + 2
    } else {
        let n = capacity * 8 / 7;
        if is_pow2(n as int) {
            n + 1
        } else {
            n
        }
    }
}

/// The next candidate capacity: [`grown`], held at `usize::MAX`.
pub open spec fn greater_capacity_spec(capacity: nat) -> nat {
    if grown(capacity) <= usize::MAX {
        grown(capacity)
    } else {
        usize::MAX as nat
    }
}

/// No two different keys of `keys` share a slot in a table of `capacity`
/// slots.
pub open spec fn collision_free(keys: Set<usize>, capacity: nat) -> bool {
    capacity > 0 && forall|a: usize, b: usize|
        keys.contains(a) && keys.contains(b) && a != b ==> direct_index(a, capacity)
            != direct_index(b, capacity)
}

/// The first capacity, going from `capacity` along the growth policy, at
/// which `keys` are free of collisions. At `usize::MAX` every key has a slot
/// of its own, so the search ends there at the latest.
pub open spec fn first_fit(keys: Set<usize>, capacity: nat) -> nat
    decreases usize::MAX - capacity,
{
    if capacity >= usize::MAX || collision_free(keys, capacity) {
        capacity
    } else {
        first_fit(keys, greater_capacity_spec(capacity))
    }
}

/// Some key of `keys` has `idx` as its direct index in a table of
/// `capacity` slots.
pub open spec fn slot_taken(keys: Set<usize>, capacity: nat, idx: int) -> bool {
    exists|k: usize| keys.contains(k) && #[trigger] direct_index(k, capacity) == idx
}

/// The capacity of a map after `key` was offered to it: a first table has
/// one slot; the table stays as it is where `key` is there or its slot is
/// free; else it grows to the first capacity that fits.
pub open spec fn capacity_after_insert(keys: Set<usize>, capacity: nat, key: usize) -> nat {
    if capacity == 0 {
        1
    } else if keys.contains(key) || !slot_taken(keys, capacity, direct_index(key, capacity)) {
        capacity
    } else {
        first_fit(keys.insert(key), greater_capacity_spec(capacity))
    }
}

/// The growth policy moves strictly upwards below `usize::MAX`.
pub proof fn lemma_greater_capacity_grows(capacity: nat)
    requires
        capacity < usize::MAX,
    ensures
        capacity < greater_capacity_spec(capacity) <= usize::MAX,
{
    if capacity >= 16 {
        assert(capacity * 8 / 7 > capacity) by (nonlinear_arith)
            requires
                capacity >= 16,
        ;
    }
}

impl<V> NumberKeyMap<V> {
    /// The next capacity to try when the table must grow.
    pub fn greater_capacity(capacity: usize) -> (r: usize)
        ensures
            r == greater_capacity_spec(capacity as nat),
    {
        if capacity < 16 {
            return capacity * 2 + 2;
        }
        let wide: u128 = capacity as u128 * 8 / 7;
        if wide >= usize::MAX as u128 {
            proof {
                lemma_max_is_no_power_of_two();
            }
            return usize::MAX;
        }
        let new_capacity: usize = wide as usize;
        if new_capacity.is_power_of_two() {
            new_capacity + 1
        } else {
            new_capacity
        }
    }
}

/// The direct index of a key is a slot of the table.
pub proof fn lemma_direct_index_in_table(key: usize, capacity: nat)
    requires
        capacity > 0,
    ensures
        0 <= direct_index(key, capacity) < capacity,
{
    lemma_mod_bound(key as int, capacity as int);
}

/// In a table of `usize::MAX` slots every key but the vacant one is its own
/// direct index, so no two keys collide.
pub proof fn lemma_no_collision_at_max(keys: Set<usize>)
    requires
        !keys.contains(VACANT_KEY),
    ensures
        collision_free(keys, usize::MAX as nat),
{
    assert forall|a: usize, b: usize|
        keys.contains(a) && keys.contains(b) && a != b implies direct_index(a, usize::MAX as nat)
        != direct_index(b, usize::MAX as nat) by {
        lemma_small_mod(a as nat, usize::MAX as nat);
        lemma_small_mod(b as nat, usize::MAX as nat);
    }
}

/// The growth policy never proposes less than it was given.
pub proof fn lemma_greater_capacity_is_no_less(capacity: nat)
    requires
        capacity <= usize::MAX,
    ensures
        capacity <= greater_capacity_spec(capacity) <= usize::MAX,
        0 < greater_capacity_spec(capacity),
{
    if capacity < usize::MAX {
        lemma_greater_capacity_grows(capacity);
    }
}

/// The capacity that fits is never below the one the search starts from.
pub proof fn lemma_first_fit_is_no_less(keys: Set<usize>, capacity: nat)
    requires
        capacity <= usize::MAX,
    ensures
        capacity <= first_fit(keys, capacity) <= usize::MAX,
    decreases usize::MAX - capacity,
{
    if capacity >= usize::MAX || collision_free(keys, capacity) {
    } else {
        lemma_greater_capacity_grows(capacity);
        lemma_first_fit_is_no_less(keys, greater_capacity_spec(capacity));
    }
}

/// The capacity that fits does fit: the keys are free of collisions at it.
pub proof fn lemma_first_fit_fits(keys: Set<usize>, capacity: nat)
    requires
        !keys.contains(VACANT_KEY),
        0 < capacity <= usize::MAX,
    ensures
        collision_free(keys, first_fit(keys, capacity)),
    decreases usize::MAX - capacity,
{
    if capacity >= usize::MAX {
        lemma_no_collision_at_max(keys);
    } else if !collision_free(keys, capacity) {
        lemma_greater_capacity_grows(capacity);
        lemma_first_fit_fits(keys, greater_capacity_spec(capacity));
    }
}

/// From sixteen slots on, the growth policy proposes no power of two.
pub proof fn lemma_greater_capacity_is_no_power_of_two(capacity: nat)
    requires
        capacity >= 16,
    ensures
        !is_pow2(greater_capacity_spec(capacity) as int),
{
    reveal_with_fuel(is_pow2, 2);
    lemma_max_is_no_power_of_two();
    let n = capacity * 8 / 7;
    assert(n >= 18) by (nonlinear_arith)
        requires
            capacity >= 16,
            n == capacity * 8 / 7,
    ;
}

/// A table that grows from sixteen slots or more never gets a power of two
/// for its size.
pub proof fn lemma_first_fit_is_no_power_of_two(keys: Set<usize>, capacity: nat)
    requires
        capacity >= 16,
    ensures
        !is_pow2(first_fit(keys, greater_capacity_spec(capacity)) as int),
    decreases usize::MAX - capacity,
{
    lemma_greater_capacity_is_no_power_of_two(capacity);
    let next = greater_capacity_spec(capacity);
    if capacity < usize::MAX {
        lemma_greater_capacity_grows(capacity);
        if next < usize::MAX && !collision_free(keys, next) {
            lemma_first_fit_is_no_power_of_two(keys, next);
        }
    }
}

/// Offering a key never makes the table smaller.
pub proof fn lemma_capacity_after_insert_is_no_less(keys: Set<usize>, capacity: nat, key: usize)
    requires
        capacity <= usize::MAX,
    ensures
        capacity <= capacity_after_insert(keys, capacity, key),
{
    lemma_greater_capacity_is_no_less(capacity);
    lemma_first_fit_is_no_less(keys.insert(key), greater_capacity_spec(capacity));
}

/// `usize::MAX` is odd and greater than one, so it is no power of two.
proof fn lemma_max_is_no_power_of_two()
    ensures
        !is_pow2(usize::MAX as int),
{
    reveal(is_pow2);
    assert(usize::MAX as int % 2 == 1) by {
        assert(usize::MAX == 0xffff_ffff || usize::MAX == 0xffff_ffff_ffff_ffff);
    }
}

} // verus!
