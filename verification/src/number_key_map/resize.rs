//! Growing the table until every key has a slot of its own.
use crate::number_key_map::policy::{
    collision_free, direct_index, first_fit, greater_capacity_spec, lemma_direct_index_in_table,
    lemma_first_fit_is_no_less, lemma_greater_capacity_grows, lemma_greater_capacity_is_no_less,
    lemma_no_collision_at_max,
};
use super::{InsertFailErr, NumberKeyMap, Slot, VACANT_KEY, holds, table_view, table_wf};
use vstd::prelude::*;

verus! {

/// The keys of the first `upto` slots of `src` stand in `fresh` at their
/// direct slots, and nothing else does; `fresh` has no values yet.
spec fn placed<V>(src: Seq<Slot<V>>, fresh: Seq<Slot<V>>, upto: int) -> bool {
    &&& fresh.len() > 0
    &&& forall|j: int|
        0 <= j < fresh.len() ==> {
            let s = #[trigger] fresh[j];
            &&& s.value is None
            &&& s.key != VACANT_KEY ==> direct_index(s.key, fresh.len()) == j && holds(src, s.key)
                && direct_index(s.key, src.len()) < upto
        }
    &&& forall|i: int|
        0 <= i < upto && i < src.len() && (#[trigger] src[i]).key != VACANT_KEY ==>
            fresh[direct_index(
            src[i].key,
            fresh.len(),
        )].key == src[i].key
}

/// Every key of `dst` stands at its direct slot, and every key of `src` is
/// among them.
spec fn ready_for_values<V>(src: Seq<Slot<V>>, dst: Seq<Slot<V>>) -> bool {
    &&& dst.len() > 0
    &&& forall|j: int|
        0 <= j < dst.len() && (#[trigger] dst[j]).key != VACANT_KEY ==> direct_index(
            dst[j].key,
            dst.len(),
        ) == j
    &&& forall|i: int|
        0 <= i < src.len() && (#[trigger] src[i]).key != VACANT_KEY ==> dst[direct_index(
            src[i].key,
            dst.len(),
        )].key == src[i].key
}

/// `now` is `before` with the values of the first `upto` slots of `src`
/// moved in, each to the slot that holds its key.
spec fn values_moved<V>(
    src: Seq<Slot<V>>,
    before: Seq<Slot<V>>,
    now: Seq<Slot<V>>,
    upto: int,
) -> bool {
    &&& now.len() == before.len()
    &&& forall|j: int|
        0 <= j < now.len() ==> {
            let s = #[trigger] now[j];
            &&& s.key == before[j].key
            &&& s.value == if holds(src, s.key) && direct_index(s.key, src.len()) < upto {
                src[direct_index(s.key, src.len())].value
            } else {
                before[j].value
            }
        }
}

impl<V> NumberKeyMap<V> {
    /// A table of `capacity` vacant slots.
    fn vacant_table(capacity: usize) -> (slots: Vec<Slot<V>>)
        ensures
            slots@.len() == capacity,
            forall|i: int| 0 <= i < capacity ==> #[trigger] slots@[i] == Slot::<V>::vacant(),
    {
        let mut slots: Vec<Slot<V>> = Vec::new();
        let mut i: usize = 0;
        while i < capacity
            invariant
                i <= capacity,
                slots@.len() == i,
                forall|j: int| 0 <= j < i ==> #[trigger] slots@[j] == Slot::<V>::vacant(),
            decreases capacity - i,
        {
            slots.push(Slot { key: VACANT_KEY, value: None });
            i += 1;
        }
        slots
    }

    /// Moves every value of `src` into the slot of `dst` that holds its key.
    fn move_values(src: &mut Vec<Slot<V>>, dst: &mut Vec<Slot<V>>)
        requires
            table_wf(old(src)@),
            ready_for_values(old(src)@, old(dst)@),
        ensures
            values_moved(old(src)@, old(dst)@, final(dst)@, old(src)@.len() as int),
    {
        let ghost src0 = src@;
        let ghost dst0 = dst@;
        let n = src.len();
        let mut i: usize = 0;
        while i < n
            invariant
                i <= n,
                n == src0.len(),
                src@.len() == n,
                table_wf(src0),
                ready_for_values(src0, dst0),
                forall|j: int| 0 <= j < n ==> (#[trigger] src@[j]).key == src0[j].key,
                forall|j: int| i <= j < n ==> #[trigger] src@[j] == src0[j],
                values_moved(src0, dst0, dst@, i as int),
            decreases n - i,
        {
            let key = src[i].key;
            if key != VACANT_KEY {
                let value = src[i].value.take();
                let at = Self::get_started_slot_idx_for_key(key, dst.len());
                let ghost before = dst@;
                dst[at].value = value;
                proof {
                    assert(src0[i as int].sound_at(i as int, src0.len()));
                    assert(dst@ =~= before.update(
                        at as int,
                        Slot { key: before[at as int].key, value },
                    ));
                    assert forall|j: int| 0 <= j < dst@.len() implies {
                        let s = #[trigger] dst@[j];
                        &&& s.key == dst0[j].key
                        &&& s.value == if holds(src0, s.key) && direct_index(s.key, src0.len()) < i
                            + 1 {
                            src0[direct_index(s.key, src0.len())].value
                        } else {
                            dst0[j].value
                        }
                    } by {
                        let s = dst@[j];
                        let b = before[j];
                        assert(b.key == dst0[j].key);
                        if j != at && holds(src0, s.key) && direct_index(s.key, src0.len()) == i {
                            assert(s.key == key);
                            assert(dst0[j].key != VACANT_KEY);
                        }
                    }
                }
            }
            i += 1;
        }
    }

    /// Grows the table until `key` and every key of the map has a slot of
    /// its own, moves the map over and puts `key` in, unless it is there.
    pub fn slow_insert(&mut self, key: usize, value: V) -> (r: Result<(), V>)
        requires
            old(self).wf(),
            key != VACANT_KEY,
        ensures
            final(self).wf(),
            final(self).spec_capacity() == first_fit(
                old(self)@.dom().insert(key),
                greater_capacity_spec(old(self).spec_capacity()),
            ),
            final(self).spec_capacity() >= old(self).spec_capacity(),
            match r {
                Ok(()) => !old(self)@.contains_key(key) && final(self)@ == old(self)@.insert(
                    key,
                    value,
                ),
                Err(back) => old(self)@.contains_key(key) && back == value && final(self)@
                    == old(self)@,
            },
    {
        let ghost src = self.slots@;
        let ghost keys = table_view(src).dom().insert(key);
        let ghost target = first_fit(keys, greater_capacity_spec(src.len()));
        let n = self.slots.len();
        let mut new_capacity = Self::greater_capacity(n);
        proof {
            lemma_greater_capacity_is_no_less(n as nat);
            lemma_first_fit_is_no_less(keys, new_capacity as nat);
        }
        loop
            invariant
                self.slots@ == src,
                src == old(self).slots@,
                n == src.len(),
                table_wf(src),
                key != VACANT_KEY,
                keys == table_view(src).dom().insert(key),
                target == first_fit(keys, greater_capacity_spec(src.len())),
                target >= src.len(),
                0 < new_capacity <= usize::MAX,
                first_fit(keys, new_capacity as nat) == target,
            decreases usize::MAX - new_capacity,
        {
            let mut fresh = Self::vacant_table(new_capacity);
            let mut fits = true;
            let mut idx: usize = 0;
            while idx < n && fits
                invariant
                    self.slots@ == src,
                    n == src.len(),
                    table_wf(src),
                    keys == table_view(src).dom().insert(key),
                    idx <= n,
                    key != VACANT_KEY,
                    0 < new_capacity <= usize::MAX,
                    first_fit(keys, new_capacity as nat) == target,
                    fresh@.len() == new_capacity,
                    fits ==> placed(src, fresh@, idx as int),
                    !fits ==> !collision_free(keys, new_capacity as nat),
                decreases n - idx + if fits { 1int } else { 0int },
            {
                let k = self.slots[idx].key;
                if k != VACANT_KEY {
                    let ghost before = fresh@;
                    proof {
                        assert(src[idx as int].sound_at(idx as int, src.len()));
                        assert(holds(src, k));
                    }
                    match Self::claim_slot(&mut fresh, k) {
                        Ok(_) => {},
                        Err(_) => {
                            fits = false;
                            proof {
                                lemma_direct_index_in_table(k, new_capacity as nat);
                                let at = direct_index(k, new_capacity as nat);
                                let other = before[at].key;
                                assert(holds(src, other));
                                assert(keys.contains(k) && keys.contains(other));
                            }
                        },
                    }
                }
                if fits {
                    idx += 1;
                }
            }
            if fits {
                let ghost before = fresh@;
                match Self::claim_slot(&mut fresh, key) {
                    Ok(at) => {
                        let ghost claimed = fresh@;
                        Self::move_values(&mut self.slots, &mut fresh);
                        let ghost moved = fresh@;
                        fresh[at].value = Some(value);
                        proof {
                            assert(fresh@ =~= moved.update(
                                at as int,
                                Slot { key: moved[at as int].key, value: Some(value) },
                            ));
                            lemma_resized(src, before, claimed, moved, fresh@, key, value, true);
                        }
                        self.slots = fresh;
                        return Ok(());
                    },
                    Err(InsertFailErr::KeyAlreadyExists) => {
                        Self::move_values(&mut self.slots, &mut fresh);
                        proof {
                            lemma_resized(src, before, before, fresh@, fresh@, key, value, false);
                        }
                        self.slots = fresh;
                        return Err(value);
                    },
                    Err(InsertFailErr::NotEnoughSpace) => {
                        proof {
                            lemma_direct_index_in_table(key, new_capacity as nat);
                            let at = direct_index(key, new_capacity as nat);
                            let other = before[at].key;
                            assert(holds(src, other));
                            assert(keys.contains(key) && keys.contains(other));
                        }
                    },
                }
            }
            proof {
                lemma_no_collision_at_max(keys);
                lemma_greater_capacity_grows(new_capacity as nat);
            }
            new_capacity = Self::greater_capacity(new_capacity);
        }
    }
}

/// What the move into a fitted table gives. `placed_keys` holds the keys of
/// `src`; `claimed` has `key` added where `stored`; `moved` has the values of
/// `src` moved in; `now` has `value` beside `key` where `stored`. Then `now`
/// is a sound table that holds the map of `src`, with `key` added where
/// `stored`; without, `key` was a key of `src`.
proof fn lemma_resized<V>(
    src: Seq<Slot<V>>,
    placed_keys: Seq<Slot<V>>,
    claimed: Seq<Slot<V>>,
    moved: Seq<Slot<V>>,
    now: Seq<Slot<V>>,
    key: usize,
    value: V,
    stored: bool,
)
    requires
        table_wf(src),
        key != VACANT_KEY,
        placed(src, placed_keys, src.len() as int),
        stored ==> placed_keys[direct_index(key, placed_keys.len())].key == VACANT_KEY,
        !stored ==> placed_keys[direct_index(key, placed_keys.len())].key == key,
        claimed == if stored {
            placed_keys.update(
                direct_index(key, placed_keys.len()),
                Slot { key, value: placed_keys[direct_index(key, placed_keys.len())].value },
            )
        } else {
            placed_keys
        },
        values_moved(src, claimed, moved, src.len() as int),
        now == if stored {
            moved.update(
                direct_index(key, placed_keys.len()),
                Slot {
                    key: moved[direct_index(key, placed_keys.len())].key,
                    value: Some(value),
                },
            )
        } else {
            moved
        },
    ensures
        table_wf(now),
        now.len() == placed_keys.len(),
        collision_free(table_view(src).dom().insert(key), now.len()),
        stored ==> !table_view(src).contains_key(key) && table_view(now) == table_view(src).insert(
            key,
            value,
        ),
        !stored ==> table_view(src).contains_key(key) && table_view(now) == table_view(src),
{
    let cap = placed_keys.len();
    let at = direct_index(key, cap);
    lemma_direct_index_in_table(key, cap);
    assert forall|k: usize| 0 <= #[trigger] direct_index(k, cap) < cap by {
        lemma_direct_index_in_table(k, cap);
    }
    assert(now.len() == cap);
    // every key of `src` stands in `now` at its direct slot, with its value
    assert forall|k: usize| holds(src, k) implies holds(now, k) && now[direct_index(k, cap)].value
        == src[direct_index(k, src.len())].value && (stored ==> k != key) by {
        let i = direct_index(k, src.len());
        assert(src[i].key == k);
        assert(placed_keys[direct_index(src[i].key, cap)].key == src[i].key);
        let j = direct_index(k, cap);
        assert(moved[j].key == claimed[j].key);
    }
    // and nothing else does, but `key`
    assert forall|k: usize| holds(now, k) implies holds(src, k) || (stored && k == key) by {
        let j = direct_index(k, cap);
        assert(moved[j].key == claimed[j].key);
        if !(stored && j == at) {
            assert(placed_keys[j].key == k);
        }
    }
    if stored {
        assert(holds(now, key));
    } else {
        assert(placed_keys[at].key == key);
        assert(holds(src, key));
    }
    assert forall|j: int| 0 <= j < now.len() implies (#[trigger] now[j]).sound_at(j, now.len()) by {
        let s = now[j];
        assert(moved[j].key == claimed[j].key);
        if stored && j == at {
        } else {
            assert(s.key == placed_keys[j].key);
            if s.key != VACANT_KEY {
                let i = direct_index(s.key, src.len());
                assert(holds(src, s.key));
                assert(src[i].sound_at(i, src.len()));
            }
        }
    }
    let keys = table_view(src).dom().insert(key);
    assert forall|a: usize, b: usize|
        keys.contains(a) && keys.contains(b) && a != b implies direct_index(a, cap)
        != direct_index(b, cap) by {
        assert(holds(now, a) && holds(now, b));
    }
    if stored {
        assert(table_view(now) =~= table_view(src).insert(key, value));
    } else {
        assert(table_view(now) =~= table_view(src));
    }
}

} // verus!
