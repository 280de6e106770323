//! A direct-index map for `usize` keys.
//!
//! A key lives in the slot `key % capacity` and nowhere else, so that a lookup is one probe.
//! When a new key finds its slot taken by another key, the table grows until every key
//! has a slot of its own.
pub mod laws;
pub mod listing;
pub mod policy;
mod resize;
pub mod walks;

pub use self::laws::{inserted, inserted_all};
pub use self::listing::{occupied_between, origin_of, owned_pairs, pair_of};
pub use self::policy::{
    capacity_after_insert, collision_free, direct_index, first_fit, greater_capacity_spec, grown,
    slot_taken,
};
pub use self::walks::{Drain, IntoIter};
use crate::number_key_map::policy::{
    lemma_direct_index_in_table, lemma_first_fit_is_no_less, lemma_greater_capacity_is_no_less,
};
use vstd::prelude::*;

verus! {

/// The key that marks a vacant slot. It is never a key of the map.
pub const VACANT_KEY: usize = usize::MAX;

/// One cell of the table: vacant when `key` is [`VACANT_KEY`], else it holds
/// the pair `(key, value)`.
struct Slot<V> {
    key: usize,
    value: Option<V>,
}

/// A map from `usize` keys to values in which the only slot a key can live
/// in is `key % capacity`.
pub struct NumberKeyMap<V> {
    slots: Vec<Slot<V>>,
}

/// Why the direct slot of a key did not take it.
enum InsertFailErr {
    /// The slot holds another key.
    NotEnoughSpace,
    /// The slot holds this very key.
    KeyAlreadyExists,
}

impl<V> Slot<V> {
    /// The slot that holds nothing.
    spec fn vacant() -> Self {
        Slot { key: VACANT_KEY, value: None }
    }

    /// A vacant slot holds no value; an occupied one holds a value and
    /// stands at the direct index of its key.
    spec fn sound_at(self, i: int, capacity: nat) -> bool {
        if self.key == VACANT_KEY {
            self.value is None
        } else {
            self.value is Some && direct_index(self.key, capacity) == i
        }
    }
}

/// Every slot of the table is sound where it stands.
spec fn table_wf<V>(slots: Seq<Slot<V>>) -> bool {
    forall|i: int| 0 <= i < slots.len() ==> (#[trigger] slots[i]).sound_at(i, slots.len())
}

/// The direct slot of `key` holds `key`.
spec fn holds<V>(slots: Seq<Slot<V>>, key: usize) -> bool {
    key != VACANT_KEY && slots.len() > 0 && slots[direct_index(key, slots.len())].key == key
}

/// The pairs that a table holds.
spec fn table_view<V>(slots: Seq<Slot<V>>) -> Map<usize, V> {
    Map::new(|k: usize| holds(slots, k), |k: usize| slots[direct_index(k, slots.len())].value->0)
}

/// What a slot holds: nothing, or a key with its value.
spec fn cell_of<V>(slot: Slot<V>) -> Option<(usize, V)> {
    if slot.key == VACANT_KEY {
        None
    } else {
        Some((slot.key, slot.value->0))
    }
}

/// The cells of a table, slot by slot.
spec fn table_cells<V>(slots: Seq<Slot<V>>) -> Seq<Option<(usize, V)>> {
    Seq::new(slots.len(), |i: int| cell_of(slots[i]))
}

impl<V> NumberKeyMap<V> {
    /// The table behind the map: every occupied slot sits at the direct index
    /// of its key and holds a value; every vacant slot holds none.
    pub closed spec fn wf(&self) -> bool {
        table_wf(self.slots@)
    }

    /// The number of slots. Zero before the first insertion.
    pub closed spec fn spec_capacity(&self) -> nat {
        self.slots@.len()
    }

    /// The pairs of the map.
    pub closed spec fn view(&self) -> Map<usize, V> {
        table_view(self.slots@)
    }

    /// What each slot holds, in the order of the slots.
    pub closed spec fn cells(&self) -> Seq<Option<(usize, V)>> {
        table_cells(self.slots@)
    }

    /// The pairs of the map in the order of their slots.
    pub open spec fn entries(&self) -> Seq<(usize, V)> {
        occupied_between(self.cells(), 0, self.cells().len() as int)
    }

    /// Creates an empty map that owns no table yet.
    pub fn new() -> (m: Self)
        ensures
            m.wf(),
            m@ == Map::<usize, V>::empty(),
            m.spec_capacity() == 0,
    {
        let m = NumberKeyMap { slots: Vec::new() };
        assert(m@ =~= Map::<usize, V>::empty());
        m
    }

    /// The number of slots in the table.
    pub fn capacity(&self) -> (c: usize)
        ensures
            c == self.spec_capacity(),
    {
        self.slots.len()
    }

    /// The slot index of `key` in a table of `capacity` slots.
    pub fn get_started_slot_idx_for_key(key: usize, capacity: usize) -> (idx: usize)
        requires
            capacity > 0,
        ensures
            idx == direct_index(key, capacity as nat),
            idx < capacity,
    {
        key % capacity
    }

    /// Looks `key` up with a single probe.
    pub fn get(&self, key: usize) -> (r: Option<&V>)
        requires
            self.wf(),
            key != VACANT_KEY,
        ensures
            match r {
                Some(v) => self@.contains_key(key) && *v == self@[key],
                None => !self@.contains_key(key),
            },
    {
        if self.slots.len() == 0 {
            return None;
        }
        let idx = Self::get_started_slot_idx_for_key(key, self.slots.len());
        let slot = &self.slots[idx];
        if slot.key == key {
            return slot.value.as_ref();
        }
        None
    }

    /// Looks `key` up with a single probe and hands out its value for change.
    pub fn get_mut(&mut self, key: usize) -> (r: Option<&mut V>)
        requires
            old(self).wf(),
            key != VACANT_KEY,
        ensures
            final(self).wf(),
            final(self).spec_capacity() == old(self).spec_capacity(),
            match r {
                Some(v) => old(self)@.contains_key(key) && *v == old(self)@[key]
                    && final(self)@ == old(self)@.insert(key, *final(v)),
                None => !old(self)@.contains_key(key) && final(self)@ == old(self)@,
            },
    {
        if self.slots.len() == 0 {
            return None;
        }
        let idx = Self::get_started_slot_idx_for_key(key, self.slots.len());
        let slot = &mut self.slots[idx];
        if slot.key == key {
            return slot.value.as_mut();
        }
        None
    }

    /// Writes `key` into its direct slot if that slot is vacant, and says
    /// which slot it was; else says why not and leaves the table as it is.
    fn claim_slot(slots: &mut Vec<Slot<V>>, key: usize) -> (r: Result<usize, InsertFailErr>)
        requires
            old(slots)@.len() > 0,
            key != VACANT_KEY,
        ensures
            final(slots)@.len() == old(slots)@.len(),
            0 <= direct_index(key, old(slots)@.len()) < old(slots)@.len(),
            ({
                let idx = direct_index(key, old(slots)@.len());
                let held = old(slots)@[idx];
                let now = final(slots)@;
                match r {
                    Ok(at) => at == idx && held.key == VACANT_KEY && now == old(slots)@.update(
                        idx,
                        Slot { key, value: held.value },
                    ),
                    Err(InsertFailErr::KeyAlreadyExists) => held.key == key && now == old(slots)@,
                    Err(InsertFailErr::NotEnoughSpace) => held.key != VACANT_KEY && held.key != key
                        && now == old(slots)@,
                }
            }),
    {
        let idx = Self::get_started_slot_idx_for_key(key, slots.len());
        let slot = &mut slots[idx];
        if slot.key == VACANT_KEY {
            slot.key = key;
            proof {
                assert(final(slots)@ =~= old(slots)@.update(
                    idx as int,
                    Slot { key, value: old(slots)@[idx as int].value },
                ));
            }
            Ok(idx)
        } else if slot.key == key {
            Err(InsertFailErr::KeyAlreadyExists)
        } else {
            Err(InsertFailErr::NotEnoughSpace)
        }
    }

    /// Says whether `key` may be used as a key: every `usize` but
    /// [`VACANT_KEY`] may.
    pub fn validate_key(key: usize) -> (ok: bool)
        ensures
            ok == (key != VACANT_KEY),
    {
        key != VACANT_KEY
    }

    /// Puts the pair into the direct slot of `key` if that slot is vacant;
    /// else hands the value back and says why.
    fn insert_or_fail(slots: &mut Vec<Slot<V>>, key: usize, value: V) -> (r: Result<
        (),
        (InsertFailErr, V),
    >)
        requires
            old(slots)@.len() > 0,
            key != VACANT_KEY,
        ensures
            final(slots)@.len() == old(slots)@.len(),
            0 <= direct_index(key, old(slots)@.len()) < old(slots)@.len(),
            ({
                let idx = direct_index(key, old(slots)@.len());
                let held = old(slots)@[idx];
                let now = final(slots)@;
                match r {
                    Ok(()) => held.key == VACANT_KEY && now == old(slots)@.update(
                        idx,
                        Slot { key, value: Some(value) },
                    ),
                    Err((InsertFailErr::KeyAlreadyExists, back)) => held.key == key && back == value
                        && now == old(slots)@,
                    Err((InsertFailErr::NotEnoughSpace, back)) => held.key != VACANT_KEY && held.key
                        != key && back == value && now == old(slots)@,
                }
            }),
    {
        match Self::claim_slot(slots, key) {
            Ok(at) => {
                let ghost claimed = slots@;
                slots[at].value = Some(value);
                proof {
                    assert(slots@ =~= claimed.update(
                        at as int,
                        Slot { key: claimed[at as int].key, value: Some(value) },
                    ));
                    assert(slots@ =~= old(slots)@.update(
                        at as int,
                        Slot { key, value: Some(value) },
                    ));
                }
                Ok(())
            },
            Err(why) => Err((why, value)),
        }
    }

    /// Makes the first table, of one slot, with the pair in it.
    fn insert_first(&mut self, key: usize, value: V)
        requires
            old(self).wf(),
            old(self).spec_capacity() == 0,
            key != VACANT_KEY,
        ensures
            final(self).wf(),
            final(self).spec_capacity() == 1,
            final(self)@ == old(self)@.insert(key, value),
    {
        let mut slots: Vec<Slot<V>> = Vec::new();
        slots.push(Slot { key, value: Some(value) });
        self.slots = slots;
        proof {
            assert(final(self)@ =~= old(self)@.insert(key, value));
        }
    }

    /// Adds the pair unless `key` is a key of the map already; then the map
    /// stays as it is and the value comes back. A key whose slot another key
    /// holds makes the table grow until every key has a slot of its own.
    pub fn insert(&mut self, key: usize, value: V) -> (r: Result<(), V>)
        requires
            old(self).wf(),
            key != VACANT_KEY,
        ensures
            final(self).wf(),
            final(self)@ == inserted(old(self)@, key, value),
            final(self).spec_capacity() == capacity_after_insert(
                old(self)@.dom(),
                old(self).spec_capacity(),
                key,
            ),
            final(self).spec_capacity() >= old(self).spec_capacity(),
            match r {
                Ok(()) => !old(self)@.contains_key(key) && final(self)@ == old(self)@.insert(
                    key,
                    value,
                ),
                Err(back) => old(self)@.contains_key(key) && back == value && final(self)@
                    == old(self)@,
            },
    {
        if self.slots.len() == 0 {
            self.insert_first(key, value);
            return Ok(());
        }
        let ghost src = self.slots@;
        proof {
            lemma_slot_taken(src, key);
            lemma_first_fit_is_no_less(
                table_view(src).dom().insert(key),
                greater_capacity_spec(src.len()),
            );
            lemma_greater_capacity_is_no_less(src.len());
        }
        match Self::insert_or_fail(&mut self.slots, key, value) {
            Ok(()) => {
                proof {
                    lemma_direct_insert(src, self.slots@, key, value);
                }
                Ok(())
            },
            Err((InsertFailErr::KeyAlreadyExists, value)) => Err(value),
            Err((InsertFailErr::NotEnoughSpace, value)) => self.slow_insert(key, value),
        }
    }

    /// Takes `key` and its value out of the map, if it is there. No other
    /// slot is touched, and the table keeps its size.
    pub fn remove(&mut self, key: usize) -> (r: Option<V>)
        requires
            old(self).wf(),
            key != VACANT_KEY,
        ensures
            final(self).wf(),
            final(self).spec_capacity() == old(self).spec_capacity(),
            final(self)@ == old(self)@.remove(key),
            r == if old(self)@.contains_key(key) {
                Some(old(self)@[key])
            } else {
                None
            },
    {
        if self.slots.len() == 0 {
            proof {
                assert(final(self)@ =~= old(self)@.remove(key));
            }
            return None;
        }
        let idx = Self::get_started_slot_idx_for_key(key, self.slots.len());
        let slot = &mut self.slots[idx];
        if slot.key != key {
            proof {
                assert(final(self)@ =~= old(self)@.remove(key));
            }
            return None;
        }
        slot.key = VACANT_KEY;
        let value = slot.value.take();
        proof {
            let src = old(self).slots@;
            assert(src[idx as int].sound_at(idx as int, src.len()));
            assert(self.slots@ =~= src.update(idx as int, Slot::<V>::vacant()));
            lemma_direct_remove(src, self.slots@, key);
        }
        value
    }

    /// Empties the map, handing each pair to `func`, in the order of the
    /// slots. The table keeps its size.
    pub fn clear_with<F: Fn((usize, V))>(&mut self, func: F)
        requires
            old(self).wf(),
            forall|k: usize, v: V|
                old(self)@.contains_key(k) && old(self)@[k] == v ==> #[trigger] func.requires(
                    ((k, v),),
                ),
        ensures
            final(self).wf(),
            final(self).spec_capacity() == old(self).spec_capacity(),
            final(self)@ == Map::<usize, V>::empty(),
            forall|k: usize, v: V|
                old(self)@.contains_key(k) && old(self)@[k] == v ==> #[trigger] func.ensures(
                    ((k, v),),
                    (),
                ),
    {
        let ghost src = self.slots@;
        let n = self.slots.len();
        let mut i: usize = 0;
        while i < n
            invariant
                i <= n,
                n == src.len(),
                src == old(self).slots@,
                self.slots@.len() == n,
                table_wf(src),
                forall|k: usize, v: V|
                    table_view(src).contains_key(k) && table_view(src)[k] == v
                        ==> #[trigger] func.requires(((k, v),)),
                forall|j: int| 0 <= j < i ==> #[trigger] self.slots@[j] == Slot::<V>::vacant(),
                forall|j: int| i <= j < n ==> #[trigger] self.slots@[j] == src[j],
                forall|k: usize, v: V|
                    table_view(src).contains_key(k) && table_view(src)[k] == v && direct_index(
                        k,
                        n as nat,
                    ) < i ==> #[trigger] func.ensures(((k, v),), ()),
            decreases n - i,
        {
            proof {
                assert(src[i as int].sound_at(i as int, n as nat));
            }
            let slot = &mut self.slots[i];
            let key = slot.key;
            if key != VACANT_KEY {
                slot.key = VACANT_KEY;
                match slot.value.take() {
                    Some(value) => {
                        proof {
                            assert(holds(src, key));
                            assert(table_view(src).contains_key(key));
                        }
                        func((key, value));
                    },
                    None => {},
                }
            }
            i += 1;
        }
        proof {
            lemma_vacant_table_is_empty(self.slots@);
        }
    }

    /// Empties the map and drops its values. The table keeps its size.
    pub fn clear(&mut self)
        requires
            old(self).wf(),
        ensures
            final(self).wf(),
            final(self).spec_capacity() == old(self).spec_capacity(),
            final(self)@ == Map::<usize, V>::empty(),
    {
        let n = self.slots.len();
        let mut i: usize = 0;
        while i < n
            invariant
                i <= n,
                self.slots@.len() == n,
                n == old(self).slots@.len(),
                forall|j: int| 0 <= j < i ==> #[trigger] self.slots@[j] == Slot::<V>::vacant(),
            decreases n - i,
        {
            let slot = &mut self.slots[i];
            slot.key = VACANT_KEY;
            slot.value = None;
            i += 1;
        }
        proof {
            lemma_vacant_table_is_empty(self.slots@);
        }
    }
}

/// The direct slot of `key` is taken by a key of the table exactly when it
/// is not vacant.
proof fn lemma_slot_taken<V>(slots: Seq<Slot<V>>, key: usize)
    requires
        table_wf(slots),
        slots.len() > 0,
    ensures
        slot_taken(table_view(slots).dom(), slots.len(), direct_index(key, slots.len()))
            <==> slots[direct_index(key, slots.len())].key != VACANT_KEY,
{
    let cap = slots.len();
    let idx = direct_index(key, cap);
    lemma_direct_index_in_table(key, cap);
    let held = slots[idx].key;
    if held != VACANT_KEY {
        assert(slots[idx].sound_at(idx, cap));
        assert(table_view(slots).dom().contains(held) && direct_index(held, cap) == idx);
    }
}

/// Filling the vacant direct slot of `key` adds the pair and nothing else.
proof fn lemma_direct_insert<V>(src: Seq<Slot<V>>, now: Seq<Slot<V>>, key: usize, value: V)
    requires
        table_wf(src),
        src.len() > 0,
        key != VACANT_KEY,
        src[direct_index(key, src.len())].key == VACANT_KEY,
        now == src.update(direct_index(key, src.len()), Slot { key, value: Some(value) }),
    ensures
        table_wf(now),
        !table_view(src).contains_key(key),
        table_view(now) == table_view(src).insert(key, value),
{
    let cap = src.len();
    lemma_direct_index_in_table(key, cap);
    assert forall|k: usize| 0 <= #[trigger] direct_index(k, cap) < cap by {
        lemma_direct_index_in_table(k, cap);
    }
    assert forall|i: int| 0 <= i < now.len() implies (#[trigger] now[i]).sound_at(i, now.len()) by {
        assert(src[i].sound_at(i, cap));
    }
    assert(table_view(now) =~= table_view(src).insert(key, value));
}

/// Vacating the direct slot of `key`, which holds `key`, removes the pair
/// and nothing else.
proof fn lemma_direct_remove<V>(src: Seq<Slot<V>>, now: Seq<Slot<V>>, key: usize)
    requires
        table_wf(src),
        src.len() > 0,
        key != VACANT_KEY,
        src[direct_index(key, src.len())].key == key,
        now == src.update(direct_index(key, src.len()), Slot::<V>::vacant()),
    ensures
        table_wf(now),
        table_view(src).contains_key(key),
        table_view(now) == table_view(src).remove(key),
{
    let cap = src.len();
    lemma_direct_index_in_table(key, cap);
    assert forall|k: usize| 0 <= #[trigger] direct_index(k, cap) < cap by {
        lemma_direct_index_in_table(k, cap);
    }
    assert forall|i: int| 0 <= i < now.len() implies (#[trigger] now[i]).sound_at(i, now.len()) by {
        assert(src[i].sound_at(i, cap));
    }
    assert forall|k: usize| holds(now, k) <==> holds(src, k) && k != key by {
        let j = direct_index(k, cap);
        if holds(src, k) && k != key {
            assert(src[j].sound_at(j, cap));
        }
    }
    assert(table_view(now) =~= table_view(src).remove(key));
}

/// A table whose every slot is vacant holds no pair.
proof fn lemma_vacant_table_is_empty<V>(slots: Seq<Slot<V>>)
    requires
        forall|i: int| 0 <= i < slots.len() ==> #[trigger] slots[i] == Slot::<V>::vacant(),
    ensures
        table_wf(slots),
        table_view(slots) == Map::<usize, V>::empty(),
{
    assert forall|k: usize| !holds(slots, k) by {
        if slots.len() > 0 {
            lemma_direct_index_in_table(k, slots.len());
        }
    }
    assert(table_view(slots) =~= Map::<usize, V>::empty());
}

} // verus!
