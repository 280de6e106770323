//! A queue with room for a fixed number of elements, kept in a ring.
use crate::ring::{physical_index, ring_refs};
use vstd::prelude::*;
use vstd::std_specs::convert::FromSpecImpl;

verus! {

/// Said by [`ArrayQueue::extend_from_slice`] where the queue has not the
/// room for the whole slice.
#[derive(Debug)]
pub struct NotEnoughSpace;

impl NotEnoughSpace {
    /// What the error says of itself.
    pub fn message(&self) -> (m: &'static str)
        ensures
            m@ == "Not enough space"@,
    {
        "Not enough space"
    }
}

/// A queue of at most `N` elements that takes and gives at both ends.
pub struct ArrayQueue<T, const N: usize> {
    array: Vec<Option<T>>,
    len: usize,
    head: usize,
}

impl<T, const N: usize> ArrayQueue<T, N> {
    /// The cell of the first element.
    pub closed spec fn spec_head(&self) -> int {
        self.head as int
    }

    /// The elements, the first first.
    pub closed spec fn view(&self) -> Seq<T> {
        Seq::new(
            self.len as nat,
            |k: int| self.array@[physical_index(self.head as int, k, N as int)]->0,
        )
    }

    /// The ring has `N` cells, the head stands in it, and the cells from
    /// the head on hold the elements.
    pub closed spec fn wf(&self) -> bool {
        &&& self.array@.len() == N
        &&& self.len <= N
        &&& self.head < N || (N == 0 && self.head == 0)
        &&& forall|k: int|
            0 <= k < self.len ==> (#[trigger] self.array@[physical_index(
                self.head as int,
                k,
                N as int,
            )]) is Some
    }

    /// A sound queue holds no more than `N` elements, and its head is a
    /// cell of the ring.
    pub proof fn lemma_bounds(&self)
        requires
            self.wf(),
        ensures
            self@.len() <= N,
            0 <= self.spec_head() <= N,
            N > 0 ==> self.spec_head() < N,
    {
    }

    /// An empty queue.
    pub fn new() -> (q: Self)
        ensures
            q.wf(),
            q@ == Seq::<T>::empty(),
            q.spec_head() == 0,
    {
        let mut array: Vec<Option<T>> = Vec::new();
        let mut i: usize = 0;
        while i < N
            invariant
                i <= N,
                array@.len() == i,
            decreases N - i,
        {
            array.push(None);
            i += 1;
        }
        let q = Self { array, len: 0, head: 0 };
        assert(q@ =~= Seq::<T>::empty());
        q
    }

    /// The number of elements that the queue has room for.
    pub fn capacity(&self) -> (c: usize)
        ensures
            c == N,
    {
        N
    }

    /// The number of elements in the queue.
    pub fn len(&self) -> (n: usize)
        ensures
            n == self@.len(),
    {
        self.len
    }

    /// Whether the queue holds nothing.
    pub fn is_empty(&self) -> (e: bool)
        ensures
            e == (self@.len() == 0),
    {
        self.len == 0
    }

    /// The cell of the element `idx` steps behind the first.
    pub fn to_physical_idx_from_head(&self, idx: usize) -> (r: usize)
        requires
            self.wf(),
            idx <= N,
        ensures
            r == physical_index(self.spec_head(), idx as int, N as int),
            N > 0 ==> r < N,
    {
        Self::wrap(self.head, idx)
    }

    /// The cell `idx` steps behind the cell `head`, going round the ring.
    fn wrap(head: usize, idx: usize) -> (r: usize)
        requires
            head <= N,
            idx <= N,
        ensures
            r == physical_index(head as int, idx as int, N as int),
    {
        let room = N - head;
        if idx >= room {
            idx - room
        } else {
            head + idx
        }
    }

    /// Puts `value` behind the last element of a queue that has room.
    pub fn push_unchecked(&mut self, value: T)
        requires
            old(self).wf(),
            old(self)@.len() < N,
        ensures
            final(self).wf(),
            final(self)@ == old(self)@.push(value),
            final(self).spec_head() == old(self).spec_head(),
    {
        let idx = self.to_physical_idx_from_head(self.len);
        self.array[idx] = Some(value);
        self.len += 1;
        proof {
            assert(final(self)@ =~= old(self)@.push(value));
        }
    }

    /// Puts `value` behind the last element, or hands it back where the
    /// queue is full.
    pub fn push(&mut self, value: T) -> (r: Result<(), T>)
        requires
            old(self).wf(),
        ensures
            final(self).wf(),
            old(self)@.len() < N ==> r == Ok::<(), T>(()) && final(self)@ == old(self)@.push(
                value,
            ),
            old(self)@.len() == N ==> r == Err::<(), T>(value) && final(self)@ == old(self)@,
    {
        if self.len < N {
            self.push_unchecked(value);
            Ok(())
        } else {
            Err(value)
        }
    }

    /// Puts `value` before the first element of a queue that has room.
    pub fn push_priority_value_unchecked(&mut self, value: T)
        requires
            old(self).wf(),
            old(self)@.len() < N,
        ensures
            final(self).wf(),
            final(self)@ == seq![value] + old(self)@,
    {
        let idx = if self.head > 0 {
            self.head - 1
        } else {
            N - 1
        };
        self.array[idx] = Some(value);
        self.head = idx;
        self.len += 1;
        proof {
            assert forall|k: int| 0 <= k < self.len implies (#[trigger] self.array@[physical_index(
                self.head as int,
                k,
                N as int,
            )]) is Some by {
                if k > 0 {
                    assert(physical_index(self.head as int, k, N as int) == physical_index(
                        old(self).head as int,
                        k - 1,
                        N as int,
                    ));
                }
            }
            assert forall|k: int| 0 <= k < self.len implies final(self)@[k]
                == (seq![value] + old(self)@)[k] by {
                if k > 0 {
                    assert(physical_index(self.head as int, k, N as int) == physical_index(
                        old(self).head as int,
                        k - 1,
                        N as int,
                    ));
                }
            }
            assert(final(self)@ =~= seq![value] + old(self)@);
        }
    }

    /// Puts `value` before the first element, or hands it back where the
    /// queue is full.
    pub fn push_priority_value(&mut self, value: T) -> (r: Result<(), T>)
        requires
            old(self).wf(),
        ensures
            final(self).wf(),
            old(self)@.len() < N ==> r == Ok::<(), T>(()) && final(self)@
                == seq![value] + old(self)@,
            old(self)@.len() == N ==> r == Err::<(), T>(value) && final(self)@ == old(self)@,
    {
        if self.len < N {
            self.push_priority_value_unchecked(value);
            Ok(())
        } else {
            Err(value)
        }
    }

    /// Takes the first element, if there is one.
    pub fn pop(&mut self) -> (r: Option<T>)
        requires
            old(self).wf(),
        ensures
            final(self).wf(),
            old(self)@.len() == 0 ==> r == None::<T> && final(self)@ == old(self)@,
            old(self)@.len() > 0 ==> r == Some(old(self)@[0]) && final(self)@ == old(self)@.skip(1),
    {
        if self.len == 0 {
            return None;
        }
        let idx = self.head;
        let next = self.to_physical_idx_from_head(1);
        proof {
            assert(self.array@[physical_index(self.head as int, 0, N as int)] is Some);
        }
        self.len -= 1;
        self.head = next;
        let value = self.array[idx].take();
        proof {
            assert forall|k: int| 0 <= k < self.len implies (#[trigger] self.array@[physical_index(
                self.head as int,
                k,
                N as int,
            )]) is Some && final(self)@[k] == old(self)@.skip(1)[k] by {
                assert(physical_index(self.head as int, k, N as int) == physical_index(
                    old(self).head as int,
                    k + 1,
                    N as int,
                ));
                assert(old(self).array@[physical_index(old(self).head as int, k + 1, N as int)]
                    is Some);
            }
            assert(final(self)@ =~= old(self)@.skip(1));
        }
        value
    }

    /// Takes the last element, if there is one.
    pub fn pop_less_priority_value(&mut self) -> (r: Option<T>)
        requires
            old(self).wf(),
        ensures
            final(self).wf(),
            old(self)@.len() == 0 ==> r == None::<T> && final(self)@ == old(self)@,
            old(self)@.len() > 0 ==> r == Some(old(self)@.last()) && final(self)@
                == old(self)@.drop_last(),
    {
        if self.len == 0 {
            return None;
        }
        self.len -= 1;
        let idx = Self::wrap(self.head, self.len);
        proof {
            assert(old(self).array@[physical_index(self.head as int, self.len as int, N as int)]
                is Some);
        }
        let value = self.array[idx].take();
        proof {
            assert forall|k: int| 0 <= k < self.len implies (#[trigger] self.array@[physical_index(
                self.head as int,
                k,
                N as int,
            )]) is Some && final(self)@[k] == old(self)@.drop_last()[k] by {
                assert(old(self).array@[physical_index(self.head as int, k, N as int)] is Some);
            }
            assert(final(self)@ =~= old(self)@.drop_last());
        }
        value
    }
}

impl<T, const N: usize> ArrayQueue<T, N> {
    /// Drops the first `number` elements.
    pub fn inc_head_by(&mut self, number: usize)
        requires
            old(self).wf(),
            number <= old(self)@.len(),
        ensures
            final(self).wf(),
            final(self)@ == old(self)@.skip(number as int),
    {
        let next = self.to_physical_idx_from_head(number);
        self.head = next;
        self.len -= number;
        proof {
            assert forall|k: int| 0 <= k < self.len implies (#[trigger] self.array@[physical_index(
                self.head as int,
                k,
                N as int,
            )]) is Some && final(self)@[k] == old(self)@.skip(number as int)[k] by {
                assert(physical_index(self.head as int, k, N as int) == physical_index(
                    old(self).head as int,
                    k + number,
                    N as int,
                ));
                assert(old(self).array@[physical_index(
                    old(self).head as int,
                    k + number,
                    N as int,
                )] is Some);
            }
            assert(final(self)@ =~= old(self)@.skip(number as int));
        }
    }

    /// Drops the last `number` elements.
    pub fn dec_len_by(&mut self, number: usize)
        requires
            old(self).wf(),
            number <= old(self)@.len(),
        ensures
            final(self).wf(),
            final(self)@ == old(self)@.take(old(self)@.len() - number),
    {
        self.len -= number;
        proof {
            assert forall|k: int| 0 <= k < self.len implies (#[trigger] self.array@[physical_index(
                self.head as int,
                k,
                N as int,
            )]) is Some by {
                assert(old(self).array@[physical_index(self.head as int, k, N as int)] is Some);
            }
            assert(final(self)@ =~= old(self)@.take(old(self)@.len() - number));
        }
    }

    /// Puts the elements of `slice` behind the last element, in their
    /// order, or none of them where the queue has not the room for all.
    pub fn extend_from_slice(&mut self, slice: &[T]) -> (r: Result<(), NotEnoughSpace>) where
        T: Copy,

        requires
            old(self).wf(),
        ensures
            final(self).wf(),
            old(self)@.len() + slice@.len() <= N ==> r is Ok && final(self)@ == old(self)@
                + slice@,
            old(self)@.len() + slice@.len() > N ==> r is Err && final(self)@ == old(self)@,
    {
        if slice.len() > N - self.len {
            return Err(NotEnoughSpace);
        }
        let n = slice.len();
        let mut i: usize = 0;
        while i < n
            invariant
                i <= n,
                n == slice@.len(),
                self.wf(),
                old(self)@.len() + n <= N,
                self@ == old(self)@ + slice@.take(i as int),
            decreases n - i,
        {
            let ghost before = self@;
            self.push_unchecked(slice[i]);
            proof {
                assert(slice@.take(i + 1) =~= slice@.take(i as int).push(slice@[i as int]));
                assert(self@ =~= old(self)@ + slice@.take(i + 1));
            }
            i += 1;
        }
        proof {
            assert(slice@.take(n as int) =~= slice@);
        }
        Ok(())
    }

    /// Empties the queue, handing its elements to `f` from the first to the
    /// last. The head stays where it is.
    pub fn clear_with<F: FnMut(T)>(&mut self, f: F)
        requires
            old(self).wf(),
            forall|i: int| 0 <= i < old(self)@.len() ==> f.requires((#[trigger] old(self)@[i],)),
        ensures
            final(self).wf(),
            final(self)@ == Seq::<T>::empty(),
            final(self).spec_head() == old(self).spec_head(),
            forall|i: int| 0 <= i < old(self)@.len() ==> f.ensures((#[trigger] old(self)@[i],), ()),
    {
        let mut call = f;
        let n = self.len;
        let mut i: usize = 0;
        while i < n
            invariant
                i <= n,
                n == old(self).len,
                self.len == n,
                self.head == old(self).head,
                old(self).wf(),
                self.array@.len() == N,
                forall|k: int|
                    i <= k < n ==> #[trigger] self.array@[physical_index(
                        self.head as int,
                        k,
                        N as int,
                    )] == old(self).array@[physical_index(self.head as int, k, N as int)],
                call == f,
                forall|k: int| 0 <= k < n ==> f.requires((#[trigger] old(self)@[k],)),
                forall|k: int| 0 <= k < i ==> f.ensures((#[trigger] old(self)@[k],), ()),
            decreases n - i,
        {
            let idx = Self::wrap(self.head, i);
            proof {
                assert(old(self).array@[physical_index(self.head as int, i as int, N as int)]
                    is Some);
                assert(old(self)@[i as int] == old(self).array@[physical_index(
                    self.head as int,
                    i as int,
                    N as int,
                )]->0);
            }
            match self.array[idx].take() {
                Some(value) => {
                    call(value);
                },
                None => {},
            }
            i += 1;
        }
        self.len = 0;
        proof {
            assert(final(self)@ =~= Seq::<T>::empty());
        }
    }

    /// Empties the queue and drops its elements. The head stays where it
    /// is.
    pub fn clear(&mut self)
        requires
            old(self).wf(),
        ensures
            final(self).wf(),
            final(self)@ == Seq::<T>::empty(),
            final(self).spec_head() == old(self).spec_head(),
    {
        let n = self.len;
        let mut i: usize = 0;
        while i < n
            invariant
                i <= n,
                n <= N,
                self.len == n,
                self.head == old(self).head,
                self.head < N || (N == 0 && self.head == 0),
                self.array@.len() == N,
            decreases n - i,
        {
            let idx = Self::wrap(self.head, i);
            self.array[idx] = None;
            i += 1;
        }
        self.len = 0;
        proof {
            assert(final(self)@ =~= Seq::<T>::empty());
        }
    }

    /// The elements, the first first, borrowed.
    pub fn iter(&self) -> (r: Vec<&T>)
        requires
            self.wf(),
        ensures
            r@.len() == self@.len(),
            forall|i: int| 0 <= i < r@.len() ==> *(#[trigger] r@[i]) == self@[i],
    {
        let mut out: Vec<&T> = Vec::new();
        let mut i: usize = 0;
        while i < self.len
            invariant
                self.wf(),
                i <= self.len,
                out@.len() == i,
                forall|j: int| 0 <= j < i ==> *(#[trigger] out@[j]) == self@[j],
            decreases self.len - i,
        {
            let idx = self.to_physical_idx_from_head(i);
            proof {
                assert(self.array@[physical_index(self.head as int, i as int, N as int)] is Some);
            }
            match self.array[idx].as_ref() {
                Some(value) => {
                    out.push(value);
                },
                None => {},
            }
            i += 1;
        }
        out
    }

    /// The elements in two runs, borrowed: first those that stand from the
    /// head up to the end of the ring, then those that go on from the
    /// ring's start.
    pub fn as_slices(&self) -> (r: (Vec<&T>, Vec<&T>))
        requires
            self.wf(),
        ensures
            r.0@.len() + r.1@.len() == self@.len(),
            r.0@.len() == if self@.len() <= N - self.spec_head() {
                self@.len() as int
            } else {
                N - self.spec_head()
            },
            forall|i: int| 0 <= i < r.0@.len() ==> *(#[trigger] r.0@[i]) == self@[i],
            forall|i: int| 0 <= i < r.1@.len() ==> *(#[trigger] r.1@[i]) == self@[r.0@.len() + i],
    {
        let all = self.iter();
        let room = N - self.head;
        let cut = if self.len <= room {
            self.len
        } else {
            room
        };
        let mut first: Vec<&T> = Vec::new();
        let mut second: Vec<&T> = Vec::new();
        let mut i: usize = 0;
        while i < all.len()
            invariant
                i <= all@.len(),
                cut <= all@.len(),
                first@.len() == if i <= cut { i } else { cut },
                second@.len() == if i <= cut { 0 } else { i - cut },
                forall|j: int| 0 <= j < first@.len() ==> #[trigger] first@[j] == all@[j],
                forall|j: int| 0 <= j < second@.len() ==> #[trigger] second@[j] == all@[cut + j],
            decreases all@.len() - i,
        {
            if i < cut {
                first.push(all[i]);
            } else {
                second.push(all[i]);
            }
            i += 1;
        }
        (first, second)
    }
}

impl<T, const N: usize> ArrayQueue<T, N> {
    /// The elements in two runs, handed out for change: first those that
    /// stand from the head up to the end of the ring, then those that go on
    /// from the ring's start. What is left behind a reference is the
    /// element afterwards.
    pub fn as_mut_slices(&mut self) -> (r: (Vec<&mut T>, Vec<&mut T>))
        requires
            old(self).wf(),
        ensures
            r.0@.len() + r.1@.len() == old(self)@.len(),
            r.0@.len() == if old(self)@.len() <= N - old(self).spec_head() {
                old(self)@.len() as int
            } else {
                N - old(self).spec_head()
            },
            forall|i: int| 0 <= i < r.0@.len() ==> *(#[trigger] r.0@[i]) == old(self)@[i],
            forall|i: int|
                0 <= i < r.1@.len() ==> *(#[trigger] r.1@[i]) == old(self)@[r.0@.len() + i],
            final(self).wf(),
            final(self).spec_head() == old(self).spec_head(),
            final(self)@.len() == old(self)@.len(),
            forall|i: int| 0 <= i < r.0@.len() ==> #[trigger] final(self)@[i] == *final(r.0@[i]),
            forall|i: int|
                #![trigger r.1@[i]]
                0 <= i < r.1@.len() ==> final(self)@[r.0@.len() + i] == *final(r.1@[i]),
    {
        let head = self.head;
        let len = self.len;
        ring_refs(self.array.as_mut_slice(), head, len)
    }

    /// The elements, the first first, handed out for change. What is left
    /// behind reference `i` is element `i` afterwards.
    pub fn iter_mut(&mut self) -> (r: Vec<&mut T>)
        requires
            old(self).wf(),
        ensures
            r@.len() == old(self)@.len(),
            forall|i: int| 0 <= i < r@.len() ==> *(#[trigger] r@[i]) == old(self)@[i],
            final(self).wf(),
            final(self).spec_head() == old(self).spec_head(),
            final(self)@.len() == r@.len(),
            forall|i: int| 0 <= i < r@.len() ==> #[trigger] final(self)@[i] == *final(r@[i]),
    {
        let (mut first, mut second) = self.as_mut_slices();
        let ghost a = first@;
        let ghost b = second@;
        first.append(&mut second);
        proof {
            assert forall|i: int| 0 <= i < first@.len() implies *(#[trigger] first@[i])
                == old(self)@[i] by {
                if i >= a.len() {
                    assert(first@[i] == b[i - a.len()]);
                }
            }
        }
        first
    }
}

impl<T, const N: usize> Default for ArrayQueue<T, N> {
    fn default() -> (q: Self)
        ensures
            q.wf(),
            q@ == Seq::<T>::empty(),
    {
        Self::new()
    }
}

impl<T, const N: usize> From<[T; N]> for ArrayQueue<T, N> {
    /// A full queue with the elements of `array`, the first first.
    fn from(array: [T; N]) -> (q: Self)
        ensures
            q.wf(),
            q@ == array@,
    {
        let items: Vec<T> = Vec::from(array);
        let ghost src = items@;
        let mut cells: Vec<Option<T>> = Vec::new();
        for item in it: items
            invariant
                src == items@,
                cells@.len() == it.index@,
                forall|j: int| 0 <= j < cells@.len() ==> #[trigger] cells@[j] == Some(src[j]),
        {
            cells.push(Some(item));
        }
        let q = Self { array: cells, len: N, head: 0 };
        proof {
            assert(q@ =~= array@);
        }
        q
    }
}

impl<T, const N: usize> FromSpecImpl<[T; N]> for ArrayQueue<T, N> {
    /// What `from` gives is stated by its own contract, over the view.
    open spec fn obeys_from_spec() -> bool {
        false
    }

    open spec fn from_spec(array: [T; N]) -> Self {
        arbitrary()
    }
}

} // verus!
