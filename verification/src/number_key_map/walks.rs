//! Going through the pairs of a map: borrowed, for change, draining and by value.
use crate::number_key_map::listing::{
    lemma_occupied_extend, lemma_occupied_first, lemma_occupied_same, occupied_between,
    owned_pairs, pair_of,
};
use super::{NumberKeyMap, Slot, VACANT_KEY, cell_of, lemma_direct_remove, table_cells, table_wf};
use vstd::prelude::*;

verus! {

impl<V> NumberKeyMap<V> {
    /// Lists the pairs of the map in the order of their slots, with the
    /// values borrowed. The whole table is walked, vacant slots too.
    pub fn iter(&self) -> (r: Vec<(usize, &V)>)
        requires
            self.wf(),
        ensures
            owned_pairs(r@) == self.entries(),
    {
        let ghost cells = table_cells(self.slots@);
        let mut out: Vec<(usize, &V)> = Vec::new();
        let n = self.slots.len();
        let mut i: usize = 0;
        while i < n
            invariant
                i <= n,
                n == self.slots@.len(),
                self.wf(),
                cells == table_cells(self.slots@),
                owned_pairs(out@) == occupied_between(cells, 0, i as int),
            decreases n - i,
        {
            let slot = &self.slots[i];
            proof {
                lemma_occupied_extend(cells, 0, i as int);
                assert(self.slots@[i as int].sound_at(i as int, n as nat));
            }
            if slot.key != VACANT_KEY {
                let ghost before = out@;
                match slot.value.as_ref() {
                    Some(value) => {
                        out.push((slot.key, value));
                        proof {
                            assert(owned_pairs(out@) =~= owned_pairs(before) + pair_of(
                                cells[i as int],
                            ));
                        }
                    },
                    None => {},
                }
            } else {
                proof {
                    assert(owned_pairs(out@) + pair_of(cells[i as int]) =~= owned_pairs(out@));
                }
            }
            i += 1;
        }
        out
    }

    /// Lists the pairs of the map in the order of their slots, with the
    /// values handed out for change. Keys and slots stay as they are: the
    /// map afterwards holds each key with the value left behind its
    /// reference.
    pub fn iter_mut(&mut self) -> (r: Vec<(usize, &mut V)>)
        requires
            old(self).wf(),
        ensures
            r@.len() == old(self).entries().len(),
            forall|t: int|
                0 <= t < r@.len() ==> (#[trigger] r@[t]).0 == old(self).entries()[t].0 && *r@[t].1
                    == old(self).entries()[t].1,
            final(self).wf(),
            final(self).spec_capacity() == old(self).spec_capacity(),
            final(self).entries().len() == r@.len(),
            forall|t: int|
                0 <= t < r@.len() ==> #[trigger] final(self).entries()[t] == (
                    r@[t].0,
                    *final(r@[t].1),
                ),
    {
        Self::values_of(self.slots.as_mut_slice())
    }

    /// The pairs of a sound table in the order of the slots, with the values
    /// handed out for change.
    fn values_of<'a>(slots: &'a mut [Slot<V>]) -> (r: Vec<(usize, &'a mut V)>)
        requires
            table_wf(old(slots)@),
        ensures
            r@.len() == occupied_between(
                table_cells(old(slots)@),
                0,
                old(slots)@.len() as int,
            ).len(),
            forall|t: int|
                0 <= t < r@.len() ==> (#[trigger] r@[t]).0 == occupied_between(
                    table_cells(old(slots)@),
                    0,
                    old(slots)@.len() as int,
                )[t].0 && *r@[t].1 == occupied_between(
                    table_cells(old(slots)@),
                    0,
                    old(slots)@.len() as int,
                )[t].1,
            final(slots)@.len() == old(slots)@.len(),
            table_wf(final(slots)@),
            r@.len() == occupied_between(
                table_cells(final(slots)@),
                0,
                old(slots)@.len() as int,
            ).len(),
            forall|t: int|
                0 <= t < r@.len() ==> #[trigger] occupied_between(
                    table_cells(final(slots)@),
                    0,
                    old(slots)@.len() as int,
                )[t] == (r@[t].0, *final(r@[t].1)),
    {
        let ghost src = slots@;
        let ghost cells = table_cells(src);
        let ghost n = src.len() as int;
        let mut out: Vec<(usize, &'a mut V)> = Vec::new();
        let mut rest = slots;
        let ghost mut i: int = 0;
        while rest.len() > 0
            invariant
                src == old(slots)@,
                cells == table_cells(src),
                n == src.len(),
                table_wf(src),
                0 <= i <= n,
                rest@.len() == n - i,
                forall|j: int| 0 <= j < rest@.len() ==> #[trigger] rest@[j] == src[i + j],
                out@.len() == occupied_between(cells, 0, i).len(),
                forall|t: int|
                    0 <= t < out@.len() ==> (#[trigger] out@[t]).0 == occupied_between(
                        cells,
                        0,
                        i,
                    )[t].0 && *out@[t].1 == occupied_between(cells, 0, i)[t].1,
                final(slots)@.len() == i + final(rest)@.len(),
                forall|j: int|
                    i <= j < final(slots)@.len() ==> #[trigger] final(slots)@[j] == final(rest)@[j
                        - i],
                forall|j: int|
                    0 <= j < i ==> (#[trigger] final(slots)@[j]).key == src[j].key
                        && (final(slots)@[j].value is Some <==> src[j].value is Some),
                out@.len() == occupied_between(table_cells(final(slots)@), 0, i).len(),
                forall|t: int|
                    0 <= t < out@.len() ==> #[trigger] occupied_between(
                        table_cells(final(slots)@),
                        0,
                        i,
                    )[t] == (out@[t].0, *final(out@[t].1)),
            decreases rest@.len(),
        {
            let tmp = rest;
            let (head, tail) = tmp.split_at_mut(1);
            proof {
                lemma_occupied_extend(cells, 0, i);
                lemma_occupied_extend(table_cells(final(slots)@), 0, i);
                assert(src[i].sound_at(i, src.len()));
                assert(head@[0] == src[i]);
            }
            match head.first_mut() {
                Some(slot) => {
                    let key = slot.key;
                    if key != VACANT_KEY {
                        match slot.value.as_mut() {
                            Some(value) => {
                                out.push((key, value));
                            },
                            None => {},
                        }
                    }
                },
                None => {},
            }
            rest = tail;
            proof {
                i = i + 1;
            }
        }
        proof {
            assert forall|j: int| 0 <= j < final(slots)@.len() implies
                (#[trigger] final(slots)@[j]).sound_at(j, final(slots)@.len()) by {
                assert(src[j].sound_at(j, src.len()));
            }
        }
        out
    }

    /// Starts a walk that takes the pairs out of the map one by one, in the
    /// order of the slots. A pair that the walk has not handed out when it
    /// is given up stays in the map.
    pub fn drain(&mut self) -> (d: Drain<'_, V>)
        ensures
            *d.map == *old(self),
            *final(d.map) == *final(self),
            d.i == 0,
    {
        Drain { map: self, i: 0 }
    }

    /// Turns the map into a walk over its pairs that owns the table.
    pub fn into_iter(self) -> (it: IntoIter<V>)
        requires
            self.wf(),
        ensures
            it.wf(),
            it@ == self.entries(),
    {
        proof {
            assert forall|j: int|
                0 <= j < self.slots@.len() && (#[trigger] self.slots@[j]).key
                    != VACANT_KEY implies self.slots@[j].value is Some by {
                assert(self.slots@[j].sound_at(j, self.slots@.len()));
            }
        }
        IntoIter { slots: self.slots, i: 0 }
    }
}

/// A walk that takes the pairs out of a map, in the order of the slots.
/// The map keeps its table, and every pair that the walk has not handed
/// out.
pub struct Drain<'a, V> {
    /// The map that is drained.
    pub map: &'a mut NumberKeyMap<V>,
    /// The slot that the walk looks at next.
    pub i: usize,
}

impl<'a, V> Drain<'a, V> {
    /// The pairs still to come.
    pub open spec fn remaining(&self) -> Seq<(usize, V)> {
        occupied_between(self.map.cells(), self.i as int, self.map.cells().len() as int)
    }

    /// Every slot behind the walk is vacant.
    pub open spec fn swept(&self) -> bool {
        forall|j: int|
            0 <= j < self.i && j < self.map.cells().len() ==> (#[trigger] self.map.cells()[j])
                is None
    }

    /// Takes the next pair out of the map and hands it out, if any is left.
    pub fn next(&mut self) -> (r: Option<(usize, V)>)
        requires
            old(self).map.wf(),
        ensures
            *final(final(self).map) == *final(old(self).map),
            final(self).map.wf(),
            final(self).map.spec_capacity() == old(self).map.spec_capacity(),
            old(self).swept() ==> final(self).swept(),
            match r {
                Some(pair) => old(self).remaining().len() > 0 && pair == old(self).remaining()[0]
                    && final(self).remaining() == old(self).remaining().skip(1) && final(self).map@
                        == old(self).map@.remove(pair.0),
                None => old(self).remaining().len() == 0 && final(self).map@ == old(self).map@
                    && final(self).i >= final(self).map.spec_capacity(),
            },
    {
        let n = self.map.slots.len();
        let ghost src = self.map.slots@;
        let ghost cells = table_cells(src);
        while self.i < n
            invariant
                n == src.len(),
                src == old(self).map.slots@,
                self.map.slots@ == src,
                cells == table_cells(src),
                table_wf(src),
                *final(self.map) == *final(old(self).map),
                self.remaining() == old(self).remaining(),
                old(self).swept() ==> self.swept(),
            decreases n - self.i,
        {
            let at = self.i;
            proof {
                assert(src[at as int].sound_at(at as int, n as nat));
                assert(cells[at as int] == cell_of(src[at as int]));
                lemma_occupied_first(cells, at as int, n as int);
                assert(self.remaining() == occupied_between(cells, at as int, n as int));
                if src[at as int].key == VACANT_KEY {
                    assert(pair_of(cells[at as int]) + occupied_between(cells, at + 1, n as int)
                        =~= occupied_between(cells, at + 1, n as int));
                }
                if old(self).swept() && src[at as int].key == VACANT_KEY {
                    assert forall|j: int| 0 <= j < at + 1 && j < cells.len() implies cells[j]
                        is None by {
                        if j < at {
                            assert(self.map.cells()[j] is None);
                        }
                    }
                }
            }
            self.i += 1;
            let slot = &mut self.map.slots[at];
            let key = slot.key;
            if key != VACANT_KEY {
                slot.key = VACANT_KEY;
                match slot.value.take() {
                    Some(value) => {
                        proof {
                            let rest = occupied_between(cells, at + 1, n as int);
                            assert(self.map.slots@ =~= src.update(at as int, Slot::<V>::vacant()));
                            lemma_occupied_same(
                                cells,
                                table_cells(self.map.slots@),
                                at + 1,
                                n as int,
                            );
                            assert(cells[at as int] == Some((key, value)));
                            assert(old(self).remaining() =~= seq![(key, value)] + rest);
                            assert(old(self).remaining().skip(1) =~= rest);
                            lemma_direct_remove(src, self.map.slots@, key);
                            if old(self).swept() {
                                let now = table_cells(self.map.slots@);
                                assert forall|j: int| 0 <= j < self.i && j < now.len() implies
                                    now[j]
                                    is None by {
                                    if j < at {
                                        assert(cells[j] is None);
                                    }
                                }
                            }
                        }
                        return Some((key, value));
                    },
                    None => {
                        assert(false);
                    },
                }
            }
            assert(self.map.slots@ == src);
            assert(self.i == at + 1);
            assert(self.remaining() == occupied_between(cells, at + 1, n as int));
        }
        None
    }
}

/// A walk over the pairs of a map that was given up for it, in the order of
/// the slots. What is not taken is dropped with the walk.
pub struct IntoIter<V> {
    slots: Vec<Slot<V>>,
    i: usize,
}

impl<V> IntoIter<V> {
    /// The walk stands inside its table, and every occupied slot ahead of
    /// it holds a value.
    pub closed spec fn wf(&self) -> bool {
        &&& self.i <= self.slots@.len()
        &&& forall|j: int|
            self.i <= j < self.slots@.len() && (#[trigger] self.slots@[j]).key != VACANT_KEY
                ==> self.slots@[j].value is Some
    }

    /// The pairs still to come.
    pub closed spec fn view(&self) -> Seq<(usize, V)> {
        occupied_between(table_cells(self.slots@), self.i as int, self.slots@.len() as int)
    }

    /// Hands out the next pair, if any is left.
    pub fn next(&mut self) -> (r: Option<(usize, V)>)
        requires
            old(self).wf(),
        ensures
            final(self).wf(),
            match r {
                Some(pair) => old(self)@.len() > 0 && pair == old(self)@[0] && final(self)@
                    == old(self)@.skip(1),
                None => old(self)@.len() == 0 && final(self)@.len() == 0,
            },
    {
        let n = self.slots.len();
        let ghost cells = table_cells(self.slots@);
        while self.i < n
            invariant
                self.wf(),
                n == self.slots@.len(),
                self.slots@ == old(self).slots@,
                cells == table_cells(self.slots@),
                self@ == old(self)@,
            decreases n - self.i,
        {
            let at = self.i;
            proof {
                assert(cells[at as int] == cell_of(self.slots@[at as int]));
                lemma_occupied_first(cells, at as int, n as int);
                if self.slots@[at as int].key == VACANT_KEY {
                    assert(pair_of(cells[at as int]) + occupied_between(cells, at + 1, n as int)
                        =~= occupied_between(cells, at + 1, n as int));
                }
            }
            self.i += 1;
            let slot = &mut self.slots[at];
            let key = slot.key;
            if key != VACANT_KEY {
                match slot.value.take() {
                    Some(value) => {
                        proof {
                            let rest = occupied_between(cells, at + 1, n as int);
                            lemma_occupied_same(cells, table_cells(self.slots@), at + 1, n as int);
                            assert(cells[at as int] == Some((key, value)));
                            assert(old(self)@ =~= seq![(key, value)] + rest);
                            assert(old(self)@.skip(1) =~= rest);
                        }
                        return Some((key, value));
                    },
                    None => {},
                }
            }
        }
        None
    }
}

} // verus!
