//! What holds of every sound map, and of maps as their pairs.
use crate::number_key_map::listing::{
    lemma_listed, lemma_origin, lemma_origin_rises, occupied_between, origin_of,
};
use crate::number_key_map::policy::{
    collision_free, direct_index, lemma_direct_index_in_table, slot_taken,
};
use super::{NumberKeyMap, VACANT_KEY};
use vstd::prelude::*;

verus! {

impl<V> NumberKeyMap<V> {
    /// One probe finds every pair: in a sound map each pair stands in the
    /// direct slot of its key, each occupied slot holds a pair of the map
    /// whose key has that slot as its direct index, and the vacant key is no
    /// key of the map.
    pub proof fn lemma_single_probe(&self)
        requires
            self.wf(),
        ensures
            self.cells().len() == self.spec_capacity(),
            !self@.contains_key(VACANT_KEY),
            forall|k: usize| #[trigger]
                self@.contains_key(k) ==> self.spec_capacity() > 0 && self.cells()[direct_index(
                    k,
                    self.spec_capacity(),
                )] == Some((k, self@[k])),
            forall|i: int|
                0 <= i < self.spec_capacity() ==> match #[trigger] self.cells()[i] {
                    Some(pair) => self@.contains_key(pair.0) && self@[pair.0] == pair.1
                        && direct_index(pair.0, self.spec_capacity()) == i,
                    None => !slot_taken(self@.dom(), self.spec_capacity(), i),
                },
    {
        let slots = self.slots@;
        let cap = slots.len();
        assert forall|k: usize| #[trigger] self@.contains_key(k) implies cap > 0
            && self.cells()[direct_index(k, cap)] == Some((k, self@[k])) by {
            lemma_direct_index_in_table(k, cap);
        }
        assert forall|i: int| 0 <= i < cap implies match #[trigger] self.cells()[i] {
            Some(pair) => self@.contains_key(pair.0) && self@[pair.0] == pair.1 && direct_index(
                pair.0,
                cap,
            ) == i,
            None => !slot_taken(self@.dom(), cap, i),
        } by {
            assert(slots[i].sound_at(i, cap));
        }
    }

    /// In a sound map no two keys share a slot.
    pub proof fn lemma_keys_are_collision_free(&self)
        requires
            self.wf(),
            self.spec_capacity() > 0,
        ensures
            collision_free(self@.dom(), self.spec_capacity()),
    {
        self.lemma_single_probe();
    }

    /// The listing of a sound map holds exactly the pairs of the map, each
    /// once, in the order of their direct indexes.
    pub proof fn lemma_entries_are_the_map(&self)
        requires
            self.wf(),
        ensures
            forall|t: int|
                0 <= t < self.entries().len() ==> self@.contains_key(
                    (#[trigger] self.entries()[t]).0,
                ) && self@[self.entries()[t].0] == self.entries()[t].1,
            forall|s: int, t: int|
                0 <= s < t < self.entries().len() ==> direct_index(
                    (#[trigger] self.entries()[s]).0,
                    self.spec_capacity(),
                ) < direct_index((#[trigger] self.entries()[t]).0, self.spec_capacity()),
            forall|k: usize| #[trigger]
                self@.contains_key(k) ==> self.entries().contains((k, self@[k])),
    {
        self.lemma_single_probe();
        let cells = self.cells();
        let n = cells.len() as int;
        assert forall|t: int| 0 <= t < self.entries().len() implies self@.contains_key(
            (#[trigger] self.entries()[t]).0,
        ) && self@[self.entries()[t].0] == self.entries()[t].1 && direct_index(
            self.entries()[t].0,
            self.spec_capacity(),
        ) == origin_of(cells, 0, n, t) by {
            lemma_origin(cells, 0, n, t);
            let j = origin_of(cells, 0, n, t);
            assert(cells[j] is Some);
        }
        assert forall|s: int, t: int| 0 <= s < t < self.entries().len() implies direct_index(
            (#[trigger] self.entries()[s]).0,
            self.spec_capacity(),
        ) < direct_index((#[trigger] self.entries()[t]).0, self.spec_capacity()) by {
            lemma_origin_rises(cells, 0, n, s, t);
        }
        assert forall|k: usize| #[trigger] self@.contains_key(k) implies self.entries().contains(
            (k, self@[k]),
        ) by {
            let j = direct_index(k, self.spec_capacity());
            lemma_direct_index_in_table(k, self.spec_capacity());
            lemma_listed(cells, 0, n, j);
            let t = occupied_between(cells, 0, j).len() as int;
            assert(self.entries()[t] == (k, self@[k]));
        }
    }

    /// A map whose every slot is vacant holds no pair.
    pub proof fn lemma_swept_is_empty(&self)
        requires
            self.wf(),
            forall|j: int| 0 <= j < self.cells().len() ==> self.cells()[j] is None,
        ensures
            self@ == Map::<usize, V>::empty(),
    {
        self.lemma_single_probe();
        assert forall|k: usize| !self@.contains_key(k) by {
            if self@.contains_key(k) {
                lemma_direct_index_in_table(k, self.spec_capacity());
            }
        }
        assert(self@ =~= Map::<usize, V>::empty());
    }
}

/// The map after `key` was offered with `value`: a key that is there keeps
/// its value.
pub open spec fn inserted<V>(m: Map<usize, V>, key: usize, value: V) -> Map<usize, V> {
    if m.contains_key(key) {
        m
    } else {
        m.insert(key, value)
    }
}

/// The map after the pairs were offered one after the other.
pub open spec fn inserted_all<V>(m: Map<usize, V>, pairs: Seq<(usize, V)>) -> Map<usize, V>
    decreases pairs.len(),
{
    if pairs.len() == 0 {
        m
    } else {
        inserted(inserted_all(m, pairs.drop_last()), pairs.last().0, pairs.last().1)
    }
}

/// Offering pairs keeps every pair that was there.
pub proof fn lemma_inserted_all_keeps<V>(m: Map<usize, V>, pairs: Seq<(usize, V)>, key: usize)
    requires
        m.contains_key(key),
    ensures
        inserted_all(m, pairs).contains_key(key),
        inserted_all(m, pairs)[key] == m[key],
    decreases pairs.len(),
{
    if pairs.len() > 0 {
        lemma_inserted_all_keeps(m, pairs.drop_last(), key);
    }
}

/// Offering pairs adds no key but theirs.
pub proof fn lemma_inserted_all_adds_only<V>(m: Map<usize, V>, pairs: Seq<(usize, V)>, key: usize)
    requires
        !m.contains_key(key),
        forall|j: int| 0 <= j < pairs.len() ==> (#[trigger] pairs[j]).0 != key,
    ensures
        !inserted_all(m, pairs).contains_key(key),
    decreases pairs.len(),
{
    if pairs.len() > 0 {
        lemma_inserted_all_adds_only(m, pairs.drop_last(), key);
    }
}

/// After pairs with keys that differ from each other and from those of `m`
/// were inserted one after the other, each of their keys gives the value
/// that was inserted with it.
pub proof fn lemma_round_trip<V>(m: Map<usize, V>, pairs: Seq<(usize, V)>, i: int)
    requires
        0 <= i < pairs.len(),
        forall|a: int, b: int|
            0 <= a < b < pairs.len() ==> (#[trigger] pairs[a]).0 != (#[trigger] pairs[b]).0,
        forall|j: int| 0 <= j < pairs.len() ==> !m.contains_key((#[trigger] pairs[j]).0),
    ensures
        inserted_all(m, pairs).contains_key(pairs[i].0),
        inserted_all(m, pairs)[pairs[i].0] == pairs[i].1,
    decreases pairs.len(),
{
    let front = pairs.drop_last();
    let before = inserted_all(m, front);
    if i == pairs.len() - 1 {
        assert forall|j: int| 0 <= j < front.len() implies (#[trigger] front[j]).0
            != pairs[i].0 by {
            assert(front[j] == pairs[j]);
        }
        lemma_inserted_all_adds_only(m, front, pairs[i].0);
    } else {
        assert forall|a: int, b: int| 0 <= a < b < front.len() implies (#[trigger] front[a]).0 != (
        #[trigger] front[b]).0 by {
            assert(front[a] == pairs[a] && front[b] == pairs[b]);
        }
        assert forall|j: int| 0 <= j < front.len() implies !m.contains_key(
            (#[trigger] front[j]).0,
        ) by {
            assert(front[j] == pairs[j]);
        }
        assert(front[i] == pairs[i]);
        lemma_round_trip(m, front, i);
    }
}

/// A key that was removed is gone, and removing it again changes nothing.
pub proof fn lemma_remove_twice<V>(m: Map<usize, V>, key: usize)
    ensures
        !m.remove(key).contains_key(key),
        m.remove(key).remove(key) == m.remove(key),
{
    assert(m.remove(key).remove(key) =~= m.remove(key));
}

} // verus!
