//! A queue that grows, kept in a ring whose size is a power of two.
mod counters;

use crate::ring::{physical_index, ring_refs};
use crate::vec_queue::counters::{
    lemma_distinct, lemma_double, lemma_exponent, lemma_mask, lemma_ring_slot_from_cell,
    lemma_shift, lemma_sixteen,
};
use vstd::arithmetic::div_mod::{lemma_mod_bound, lemma_small_mod};
use vstd::arithmetic::power2::is_pow2;
use vstd::prelude::*;

verus! {

/// The number of values that a `usize` can take.
pub open spec fn usize_range() -> int {
    usize::MAX + 1
}

/// The cell in a ring of `capacity` cells of the element `k` steps behind
/// the one that the counter `head` points at.
pub open spec fn ring_slot(head: usize, k: int, capacity: nat) -> int {
    (head + k) % (capacity as int)
}

/// A queue that takes and gives at both ends and grows when it is full.
pub struct VecQueue<T> {
    cells: Vec<Option<T>>,
    head: usize,
    tail: usize,
    mask: usize,
}

impl<T> VecQueue<T> {
    /// The number of cells in the ring.
    pub closed spec fn spec_capacity(&self) -> nat {
        self.cells@.len()
    }

    /// The number of elements: the way from the head counter to the tail
    /// counter.
    pub closed spec fn spec_len(&self) -> nat {
        vstd::wrapping::usize_specs::wrapping_sub(self.tail, self.head) as nat
    }

    /// The elements, the first first.
    pub closed spec fn view(&self) -> Seq<T> {
        Seq::new(
            self.spec_len(),
            |k: int| self.cells@[ring_slot(self.head, k, self.cells@.len())]->0,
        )
    }

    /// The ring is empty or a power of two in size, the mask fits it, and
    /// the cells from the head on hold the elements.
    pub closed spec fn wf(&self) -> bool {
        &&& self.cells@.len() <= usize::MAX
        &&& self.cells@.len() == 0 ==> self.head == self.tail && self.mask == 0
        &&& self.cells@.len() > 0 ==> is_pow2(self.cells@.len() as int) && self.mask
            == self.cells@.len() - 1
        &&& self.spec_len() <= self.cells@.len()
        &&& forall|k: int|
            0 <= k < self.spec_len() ==> (#[trigger] self.cells@[ring_slot(
                self.head,
                k,
                self.cells@.len(),
            )]) is Some
    }

    /// A sound queue holds no more than its ring has cells, and a ring with
    /// cells is a power of two in size.
    pub proof fn lemma_bounds(&self)
        requires
            self.wf(),
        ensures
            self@.len() <= self.spec_capacity(),
            self.spec_capacity() <= usize::MAX,
            self.spec_capacity() > 0 ==> is_pow2(self.spec_capacity() as int),
    {
    }

    /// A ring of `capacity` cells, none of which holds anything.
    fn allocate(capacity: usize) -> (cells: Vec<Option<T>>)
        ensures
            cells@.len() == capacity,
            forall|i: int| 0 <= i < capacity ==> (#[trigger] cells@[i]) is None,
    {
        let mut cells: Vec<Option<T>> = Vec::new();
        let mut i: usize = 0;
        while i < capacity
            invariant
                i <= capacity,
                cells@.len() == i,
                forall|j: int| 0 <= j < i ==> (#[trigger] cells@[j]) is None,
            decreases capacity - i,
        {
            cells.push(None);
            i += 1;
        }
        cells
    }

    /// The mask that turns a counter into a cell of a ring of `capacity`
    /// cells.
    pub fn get_mask_for_capacity(capacity: usize) -> (mask: usize)
        requires
            is_pow2(capacity as int),
        ensures
            mask == capacity - 1,
    {
        proof {
            let n = lemma_exponent(capacity);
        }
        capacity - 1
    }

    /// The cell that the counter `index` points at.
    pub fn get_physical_index(&self, index: usize) -> (r: usize)
        requires
            self.wf(),
        ensures
            self.spec_capacity() > 0 ==> r == index as int % self.spec_capacity() as int && r
                < self.spec_capacity(),
            self.spec_capacity() == 0 ==> r == 0,
    {
        proof {
            if self.cells@.len() > 0 {
                lemma_mask(index, self.cells@.len() as usize);
            } else {
                assert(index & 0 == 0) by (bit_vector);
            }
        }
        index & self.mask
    }

    /// A queue without a ring. The first element makes one.
    pub fn new_const() -> (q: Self)
        ensures
            q.wf(),
            q@ == Seq::<T>::empty(),
            q.spec_capacity() == 0,
    {
        let q = Self { cells: Vec::new(), head: 0, tail: 0, mask: 0 };
        assert(q@ =~= Seq::<T>::empty());
        q
    }

    /// An empty queue with a ring of sixteen cells.
    pub fn new() -> (q: Self)
        ensures
            q.wf(),
            q@ == Seq::<T>::empty(),
            q.spec_capacity() == 16,
    {
        proof {
            lemma_sixteen();
        }
        let q = Self {
            cells: Self::allocate(16),
            head: 0,
            tail: 0,
            mask: Self::get_mask_for_capacity(16),
        };
        assert(q@ =~= Seq::<T>::empty());
        q
    }

    /// The number of cells in the ring.
    pub fn capacity(&self) -> (c: usize)
        ensures
            c == self.spec_capacity(),
    {
        self.cells.len()
    }

    /// The number of elements in the queue.
    pub fn len(&self) -> (n: usize)
        ensures
            n == self@.len(),
    {
        self.tail.wrapping_sub(self.head)
    }

    /// Whether the queue holds nothing.
    pub fn is_empty(&self) -> (e: bool)
        ensures
            e == (self@.len() == 0),
    {
        self.head == self.tail
    }
}

/// The capacity that doubling reaches from `capacity` when `needed`
/// elements must fit.
pub open spec fn doubled_until(capacity: nat, needed: nat) -> nat
    decreases
        (if needed > capacity {
            needed - capacity
        } else {
            0
        }),
{
    if capacity >= needed || capacity == 0 {
        capacity
    } else {
        doubled_until(capacity + capacity, needed)
    }
}

/// The capacity that a growing queue starts to double from: twice what it
/// has, or four where it has none.
pub open spec fn grown_once(capacity: nat) -> nat {
    if capacity == 0 {
        4
    } else {
        capacity * 2
    }
}

impl<T> VecQueue<T> {
    /// The cell of the element `k` steps behind the counter `head` in the
    /// ring that `mask` belongs to.
    fn slot(head: usize, k: usize, mask: usize) -> (r: usize)
        requires
            mask < usize::MAX,
            is_pow2(mask + 1),
        ensures
            r == ring_slot(head, k as int, (mask + 1) as nat),
            r <= mask,
    {
        let index = head.wrapping_add(k);
        proof {
            lemma_mask(index, (mask + 1) as usize);
            lemma_shift(head, index, k as int, 0, (mask + 1) as usize);
            lemma_shift(head, head, 0, k as int, (mask + 1) as usize);
        }
        index & mask
    }

    /// Moves the queue into a ring of `capacity` cells; a queue without a
    /// ring that is moved into none gets a ring of four.
    pub fn extend_to(&mut self, capacity: usize)
        requires
            old(self).wf(),
            (old(self).spec_capacity() == 0 && capacity == 0) || (is_pow2(capacity as int)
                && capacity > old(self).spec_capacity()),
        ensures
            final(self).wf(),
            final(self)@ == old(self)@,
            final(self).spec_capacity() == if capacity == 0 {
                4
            } else {
                capacity as nat
            },
    {
        if self.cells.len() == 0 && capacity == 0 {
            proof {
                lemma_sixteen();
            }
            self.mask = Self::get_mask_for_capacity(4);
            self.cells = Self::allocate(4);
            proof {
                assert(final(self)@ =~= old(self)@);
            }
            return ;
        }
        let mut fresh = Self::allocate(capacity);
        let len = self.len();
        let ghost src = self.cells@;
        let mut i: usize = 0;
        while i < len
            invariant
                i <= len,
                len == old(self).spec_len(),
                old(self).wf(),
                src == old(self).cells@,
                self.head == old(self).head,
                self.tail == old(self).tail,
                self.mask == old(self).mask,
                self.cells@.len() == src.len(),
                len < capacity,
                fresh@.len() == capacity,
                forall|k: int|
                    i <= k < len ==> #[trigger] self.cells@[ring_slot(self.head, k, src.len())]
                        == src[ring_slot(self.head, k, src.len())],
                forall|k: int|
                    0 <= k < i ==> #[trigger] fresh@[k] == src[ring_slot(self.head, k, src.len())],
            decreases len - i,
        {
            let from = Self::slot(self.head, i, self.mask);
            let value = self.cells[from].take();
            fresh[i] = value;
            proof {
                assert forall|k: int| i + 1 <= k < len implies #[trigger] self.cells@[ring_slot(
                    self.head,
                    k,
                    src.len(),
                )] == src[ring_slot(self.head, k, src.len())] by {
                    lemma_distinct(self.head as int, i as int, k, src.len() as int);
                    lemma_mod_bound(self.head + k, src.len() as int);
                }
            }
            i += 1;
        }
        self.cells = fresh;
        self.head = 0;
        self.tail = len;
        self.mask = Self::get_mask_for_capacity(capacity);
        proof {
            assert forall|k: int| 0 <= k < len implies ring_slot(0usize, k, capacity as nat)
                == k by {
                lemma_small_mod(k as nat, capacity as nat);
            }
            assert forall|k: int| 0 <= k < len implies (#[trigger] self.cells@[ring_slot(
                self.head,
                k,
                self.cells@.len(),
            )]) is Some && final(self)@[k] == old(self)@[k] by {
                assert(self.cells@[k] == src[ring_slot(old(self).head, k, src.len())]);
                assert(src[ring_slot(old(self).head, k, src.len())] is Some);
            }
            assert(final(self)@ =~= old(self)@);
        }
    }

    /// Makes room for `additional` more elements, by doubling the ring as
    /// often as it takes. Does nothing where the room is there.
    pub fn reserve(&mut self, additional: usize)
        requires
            old(self).wf(),
            old(self)@.len() + additional <= usize::MAX / 2,
        ensures
            final(self).wf(),
            final(self)@ == old(self)@,
            final(self).spec_capacity() >= old(self)@.len() + additional,
            final(self).spec_capacity()
                == if old(self)@.len() + additional <= old(self).spec_capacity() {
                old(self).spec_capacity()
            } else {
                doubled_until(
                    grown_once(old(self).spec_capacity()),
                    (old(self)@.len() + additional) as nat,
                )
            },
    {
        let needed = self.len() + additional;
        let capacity = self.cells.len();
        if needed <= capacity {
            return ;
        }
        proof {
            lemma_sixteen();
        }
        proof {
            if capacity > 0 {
                lemma_double(capacity as int);
            }
        }
        let mut new_capacity: usize = if capacity == 0 {
            4
        } else {
            capacity * 2
        };
        while needed > new_capacity
            invariant
                needed <= usize::MAX / 2,
                new_capacity > capacity,
                is_pow2(new_capacity as int),
                doubled_until(new_capacity as nat, needed as nat) == doubled_until(
                    grown_once(capacity as nat),
                    needed as nat,
                ),
            decreases
                (if needed > new_capacity {
                    needed - new_capacity
                } else {
                    0
                }),
        {
            proof {
                lemma_double(new_capacity as int);
            }
            new_capacity *= 2;
        }
        self.extend_to(new_capacity);
    }

    /// Puts `value` behind the last element. A full ring is doubled first.
    pub fn push(&mut self, value: T)
        requires
            old(self).wf(),
            old(self)@.len() <= usize::MAX / 2,
        ensures
            final(self).wf(),
            final(self)@ == old(self)@.push(value),
            final(self).spec_capacity() == if old(self)@.len() == old(self).spec_capacity() {
                grown_once(old(self).spec_capacity())
            } else {
                old(self).spec_capacity()
            },
    {
        if self.len() == self.cells.len() {
            let capacity = self.cells.len();
            proof {
                if capacity > 0 {
                    lemma_double(capacity as int);
                }
            }
            self.extend_to(capacity * 2);
        }
        let ghost before = *self;
        let at = Self::slot(self.tail, 0, self.mask);
        self.cells[at] = Some(value);
        self.tail = self.tail.wrapping_add(1);
        proof {
            let cap = before.cells@.len() as usize;
            let len = before.spec_len() as int;
            lemma_shift(before.head, before.tail, len, 0, cap);
            assert forall|k: int| 0 <= k < len + 1 implies (#[trigger] self.cells@[ring_slot(
                self.head,
                k,
                self.cells@.len(),
            )]) is Some && final(self)@[k] == old(self)@.push(value)[k] by {
                if k < len {
                    lemma_distinct(self.head as int, k, len, cap as int);
                    lemma_mod_bound(self.head + k, cap as int);
                    assert(before.cells@[ring_slot(before.head, k, cap as nat)] is Some);
                    assert(before@[k] == old(self)@[k]);
                }
            }
            assert(final(self)@ =~= old(self)@.push(value));
        }
    }

    /// Puts `value` before the first element. A full ring is doubled first.
    pub fn push_priority_value(&mut self, value: T)
        requires
            old(self).wf(),
            old(self)@.len() <= usize::MAX / 2,
        ensures
            final(self).wf(),
            final(self)@ == seq![value] + old(self)@,
            final(self).spec_capacity() == if old(self)@.len() == old(self).spec_capacity() {
                grown_once(old(self).spec_capacity())
            } else {
                old(self).spec_capacity()
            },
    {
        if self.len() == self.cells.len() {
            let capacity = self.cells.len();
            proof {
                if capacity > 0 {
                    lemma_double(capacity as int);
                }
            }
            self.extend_to(capacity * 2);
        }
        let ghost before = *self;
        self.head = self.head.wrapping_sub(1);
        let at = Self::slot(self.head, 0, self.mask);
        self.cells[at] = Some(value);
        proof {
            let cap = before.cells@.len() as usize;
            let len = before.spec_len() as int;
            assert forall|k: int| 0 <= k < len + 1 implies (#[trigger] self.cells@[ring_slot(
                self.head,
                k,
                self.cells@.len(),
            )]) is Some && final(self)@[k] == (seq![value] + old(self)@)[k] by {
                if k > 0 {
                    lemma_shift(before.head, self.head, -1, k, cap);
                    lemma_distinct(self.head as int, 0, k, cap as int);
                    lemma_mod_bound(self.head + k, cap as int);
                    assert(before.cells@[ring_slot(before.head, k - 1, cap as nat)] is Some);
                    assert(before@[k - 1] == old(self)@[k - 1]);
                }
            }
            assert(final(self)@ =~= seq![value] + old(self)@);
        }
    }

    /// Takes the first element, if there is one.
    pub fn pop(&mut self) -> (r: Option<T>)
        requires
            old(self).wf(),
        ensures
            final(self).wf(),
            final(self).spec_capacity() == old(self).spec_capacity(),
            old(self)@.len() == 0 ==> r == None::<T> && final(self)@ == old(self)@,
            old(self)@.len() > 0 ==> r == Some(old(self)@[0]) && final(self)@ == old(self)@.skip(1),
    {
        if self.is_empty() {
            return None;
        }
        let at = Self::slot(self.head, 0, self.mask);
        proof {
            assert(self.cells@[ring_slot(self.head, 0, self.cells@.len())] is Some);
        }
        let value = self.cells[at].take();
        self.head = self.head.wrapping_add(1);
        proof {
            let cap = self.cells@.len() as usize;
            let len = old(self).spec_len() as int;
            assert forall|k: int| 0 <= k < len - 1 implies (#[trigger] self.cells@[ring_slot(
                self.head,
                k,
                self.cells@.len(),
            )]) is Some && final(self)@[k] == old(self)@.skip(1)[k] by {
                lemma_shift(old(self).head, self.head, 1, k, cap);
                lemma_distinct(old(self).head as int, 0, k + 1, cap as int);
                lemma_mod_bound(old(self).head + k + 1, cap as int);
                assert(old(self).cells@[ring_slot(old(self).head, k + 1, cap as nat)] is Some);
            }
            assert(final(self)@ =~= old(self)@.skip(1));
        }
        value
    }

    /// Takes the last element, if there is one.
    pub fn pop_less_priority_value(&mut self) -> (r: Option<T>)
        requires
            old(self).wf(),
        ensures
            final(self).wf(),
            final(self).spec_capacity() == old(self).spec_capacity(),
            old(self)@.len() == 0 ==> r == None::<T> && final(self)@ == old(self)@,
            old(self)@.len() > 0 ==> r == Some(old(self)@.last()) && final(self)@
                == old(self)@.drop_last(),
    {
        if self.is_empty() {
            return None;
        }
        self.tail = self.tail.wrapping_sub(1);
        let at = Self::slot(self.tail, 0, self.mask);
        proof {
            let cap = self.cells@.len() as usize;
            let len = old(self).spec_len() as int;
            lemma_shift(self.head, self.tail, len - 1, 0, cap);
            assert(self.cells@[ring_slot(self.head, len - 1, self.cells@.len())] is Some);
        }
        let value = self.cells[at].take();
        proof {
            let cap = self.cells@.len() as usize;
            let len = old(self).spec_len() as int;
            assert forall|k: int| 0 <= k < len - 1 implies (#[trigger] self.cells@[ring_slot(
                self.head,
                k,
                self.cells@.len(),
            )]) is Some && final(self)@[k] == old(self)@.drop_last()[k] by {
                lemma_distinct(self.head as int, k, len - 1, cap as int);
                lemma_mod_bound(self.head + k, cap as int);
                assert(old(self).cells@[ring_slot(self.head, k, cap as nat)] is Some);
            }
            assert(final(self)@ =~= old(self)@.drop_last());
        }
        value
    }

    /// The cell that the head counter points at; zero in a queue without a
    /// ring.
    pub closed spec fn spec_head_cell(&self) -> int {
        if self.cells@.len() == 0 {
            0
        } else {
            self.head as int % self.cells@.len() as int
        }
    }

    /// Puts the elements of `slice` behind the last element, in their
    /// order, after making room for all of them.
    pub fn extend_from_slice(&mut self, slice: &[T]) where T: Copy
        requires
            old(self).wf(),
            old(self)@.len() + slice@.len() <= usize::MAX / 2,
        ensures
            final(self).wf(),
            final(self)@ == old(self)@ + slice@,
            final(self).spec_capacity()
                == if old(self)@.len() + slice@.len() <= old(self).spec_capacity() {
                old(self).spec_capacity()
            } else {
                doubled_until(
                    grown_once(old(self).spec_capacity()),
                    (old(self)@.len() + slice@.len()) as nat,
                )
            },
    {
        self.reserve(slice.len());
        let ghost capacity = self.spec_capacity();
        let n = slice.len();
        let mut i: usize = 0;
        while i < n
            invariant
                i <= n,
                n == slice@.len(),
                self.wf(),
                self.spec_capacity() == capacity,
                old(self)@.len() + n <= capacity,
                old(self)@.len() + n <= usize::MAX / 2,
                self@ == old(self)@ + slice@.take(i as int),
            decreases n - i,
        {
            self.push(slice[i]);
            proof {
                assert(slice@.take(i + 1) =~= slice@.take(i as int).push(slice@[i as int]));
                assert(self@ =~= old(self)@ + slice@.take(i + 1));
            }
            i += 1;
        }
        proof {
            assert(slice@.take(n as int) =~= slice@);
        }
    }

    /// Takes up to `limit` elements from the front and hands them to `f` in
    /// two runs: those that stood from the head up to the end of the ring,
    /// then those that went on from the ring's start.
    pub fn take_batch<R, F: FnOnce(Vec<T>, Vec<T>) -> R>(&mut self, f: F, limit: usize) -> (r: R)
        requires
            old(self).wf(),
            forall|first: Vec<T>, second: Vec<T>|
                old(self).batch(limit, first@, second@) ==> #[trigger] f.requires((first, second)),
        ensures
            final(self).wf(),
            final(self).spec_capacity() == old(self).spec_capacity(),
            final(self)@ == old(self)@.skip(old(self).batch_len(limit)),
            exists|first: Vec<T>, second: Vec<T>|
                old(self).batch(limit, first@, second@) && #[trigger] f.ensures(
                    (first, second),
                    r,
                ),
    {
        let len = self.len();
        let count = if len < limit {
            len
        } else {
            limit
        };
        let right_occupied = self.cells.len() - self.get_physical_index(self.head);
        let mut first: Vec<T> = Vec::new();
        let mut second: Vec<T> = Vec::new();
        let mut i: usize = 0;
        while i < count
            invariant
                i <= count,
                count == old(self).batch_len(limit),
                count <= old(self)@.len(),
                right_occupied == old(self).spec_capacity() - old(self).spec_head_cell(),
                self.wf(),
                self.spec_capacity() == old(self).spec_capacity(),
                self@ == old(self)@.skip(i as int),
                first@.len() == if i <= right_occupied {
                    i
                } else {
                    right_occupied
                },
                first@ + second@ == old(self)@.take(i as int),
            decreases count - i,
        {
            let ghost before = first@ + second@;
            match self.pop() {
                Some(value) => {
                    if i < right_occupied {
                        first.push(value);
                    } else {
                        second.push(value);
                    }
                    proof {
                        assert(first@ + second@ =~= before.push(value));
                        assert(old(self)@.take(i + 1) =~= old(self)@.take(i as int).push(
                            old(self)@[i as int],
                        ));
                        assert(self@ =~= old(self)@.skip(i + 1));
                    }
                },
                None => {
                    assert(false);
                },
            }
            i += 1;
        }
        f(first, second)
    }

    /// The first `limit` elements, or all where there are fewer: what
    /// [`take_batch`](Self::take_batch) hands over.
    pub open spec fn batch_len(&self, limit: usize) -> int {
        if self@.len() < limit {
            self@.len() as int
        } else {
            limit as int
        }
    }

    /// `first` and `second` are the two runs that
    /// [`take_batch`](Self::take_batch) hands over for `limit`.
    pub open spec fn batch(&self, limit: usize, first: Seq<T>, second: Seq<T>) -> bool {
        &&& first + second == self@.take(self.batch_len(limit))
        &&& first.len() == if self.batch_len(limit) <= self.spec_capacity()
            - self.spec_head_cell() {
            self.batch_len(limit)
        } else {
            self.spec_capacity() - self.spec_head_cell()
        }
    }

    /// Empties the queue, handing its elements to `f` from the first to the
    /// last. The ring keeps its size.
    pub fn clear_with<F: Fn(T)>(&mut self, f: F)
        requires
            old(self).wf(),
            forall|i: int| 0 <= i < old(self)@.len() ==> f.requires((#[trigger] old(self)@[i],)),
        ensures
            final(self).wf(),
            final(self)@ == Seq::<T>::empty(),
            final(self).spec_capacity() == old(self).spec_capacity(),
            forall|i: int| 0 <= i < old(self)@.len() ==> f.ensures((#[trigger] old(self)@[i],), ()),
    {
        let n = self.len();
        let mut i: usize = 0;
        while i < n
            invariant
                i <= n,
                n == old(self)@.len(),
                self.wf(),
                self.spec_capacity() == old(self).spec_capacity(),
                self@ == old(self)@.skip(i as int),
                forall|k: int| 0 <= k < n ==> f.requires((#[trigger] old(self)@[k],)),
                forall|k: int| 0 <= k < i ==> f.ensures((#[trigger] old(self)@[k],), ()),
            decreases n - i,
        {
            match self.pop() {
                Some(value) => {
                    proof {
                        assert(value == old(self)@[i as int]);
                        assert(self@ =~= old(self)@.skip(i + 1));
                    }
                    f(value);
                },
                None => {
                    assert(false);
                },
            }
            i += 1;
        }
        self.head = 0;
        self.tail = 0;
        proof {
            assert(final(self)@ =~= Seq::<T>::empty());
        }
    }

    /// Empties the queue and drops its elements. The ring keeps its size.
    pub fn clear(&mut self)
        requires
            old(self).wf(),
        ensures
            final(self).wf(),
            final(self)@ == Seq::<T>::empty(),
            final(self).spec_capacity() == old(self).spec_capacity(),
    {
        let n = self.cells.len();
        let mut i: usize = 0;
        while i < n
            invariant
                i <= n,
                self.cells@.len() == n,
                n == old(self).cells@.len(),
                self.mask == old(self).mask,
            decreases n - i,
        {
            self.cells[i] = None;
            i += 1;
        }
        self.head = 0;
        self.tail = 0;
        proof {
            assert(final(self)@ =~= Seq::<T>::empty());
        }
    }

    /// The elements, the first first, borrowed.
    pub fn iter(&self) -> (r: Vec<&T>)
        requires
            self.wf(),
        ensures
            r@.len() == self@.len(),
            forall|i: int| 0 <= i < r@.len() ==> *(#[trigger] r@[i]) == self@[i],
    {
        let mut out: Vec<&T> = Vec::new();
        let n = self.len();
        let mut i: usize = 0;
        while i < n
            invariant
                self.wf(),
                n == self@.len(),
                i <= n,
                out@.len() == i,
                forall|j: int| 0 <= j < i ==> *(#[trigger] out@[j]) == self@[j],
            decreases n - i,
        {
            let at = Self::slot(self.head, i, self.mask);
            proof {
                assert(self.cells@[ring_slot(self.head, i as int, self.cells@.len())] is Some);
            }
            match self.cells[at].as_ref() {
                Some(value) => {
                    out.push(value);
                },
                None => {},
            }
            i += 1;
        }
        out
    }

    /// The elements, the first first, handed out for change. What is left
    /// behind reference `i` is element `i` afterwards.
    pub fn iter_mut(&mut self) -> (r: Vec<&mut T>)
        requires
            old(self).wf(),
        ensures
            r@.len() == old(self)@.len(),
            forall|i: int| 0 <= i < r@.len() ==> *(#[trigger] r@[i]) == old(self)@[i],
            final(self).wf(),
            final(self).spec_capacity() == old(self).spec_capacity(),
            final(self)@.len() == r@.len(),
            forall|i: int| 0 <= i < r@.len() ==> #[trigger] final(self)@[i] == *final(r@[i]),
    {
        let len = self.len();
        let cell = self.get_physical_index(self.head);
        proof {
            if self.cells@.len() > 0 {
                assert forall|k: int| 0 <= k < len implies (#[trigger] self.cells@[physical_index(
                    cell as int,
                    k,
                    self.cells@.len() as int,
                )]) is Some by {
                    lemma_ring_slot_from_cell(self.head, k, self.cells@.len() as usize);
                    assert(self.cells@[ring_slot(self.head, k, self.cells@.len())] is Some);
                }
            }
        }
        Self::joined_refs(self.cells.as_mut_slice(), self.head, cell, len)
    }

    /// The values of the ring's elements, handed out for change, the first
    /// first.
    fn joined_refs<'a>(cells: &'a mut [Option<T>], head: usize, cell: usize, len: usize) -> (r:
        Vec<&'a mut T>)
        requires
            old(cells)@.len() <= usize::MAX,
            old(cells)@.len() > 0 ==> is_pow2(old(cells)@.len() as int) && cell == head as int % (
            old(cells)@.len() as int),
            old(cells)@.len() == 0 ==> cell == 0,
            len <= old(cells)@.len(),
            forall|k: int|
                0 <= k < len ==> (#[trigger] old(cells)@[physical_index(
                    cell as int,
                    k,
                    old(cells)@.len() as int,
                )]) is Some,
        ensures
            r@.len() == len,
            final(cells)@.len() == old(cells)@.len(),
            forall|k: int|
                0 <= k < len ==> *(#[trigger] r@[k]) == old(cells)@[ring_slot(
                    head,
                    k,
                    old(cells)@.len(),
                )]->0,
            forall|k: int|
                0 <= k < len ==> (#[trigger] final(cells)@[ring_slot(
                    head,
                    k,
                    old(cells)@.len(),
                )]) == Some(*final(r@[k])),
    {
        let ghost n = cells@.len();
        proof {
            if n > 0 {
                lemma_mod_bound(head as int, n as int);
            }
        }
        let whole = cells;
        let (mut first, mut second) = ring_refs(whole, cell, len);
        let ghost a = first@;
        let ghost b = second@;
        first.append(&mut second);
        proof {
            assert forall|k: int| 0 <= k < len implies *(#[trigger] first@[k])
                == old(cells)@[ring_slot(head, k, n)]->0 by {
                lemma_ring_slot_from_cell(head, k, n as usize);
                if k < a.len() {
                    assert(first@[k] == a[k]);
                } else {
                    assert(first@[k] == b[k - a.len()]);
                }
            }
            assert forall|k: int| 0 <= k < len implies (#[trigger] final(cells)@[ring_slot(
                head,
                k,
                n,
            )]) == Some(*final(first@[k])) by {
                lemma_ring_slot_from_cell(head, k, n as usize);
                assert(final(cells)@[physical_index(cell as int, k, n as int)] is Some);
                if k < a.len() {
                    assert(first@[k] == a[k]);
                } else {
                    assert(first@[k] == b[k - a.len()]);
                }
            }
        }
        first
    }
}

impl<T> Default for VecQueue<T> {
    fn default() -> (q: Self)
        ensures
            q.wf(),
            q@ == Seq::<T>::empty(),
            q.spec_capacity() == 16,
    {
        Self::new()
    }
}

} // verus!
