//! A buffer with room for a fixed number of elements.
use crate::mut_refs::refs_of;
use core::ops::{Deref, DerefMut};
use vstd::prelude::*;
use vstd::std_specs::convert::FromSpecImpl;

verus! {

/// A stack of at most `N` elements.
pub struct ArrayBuffer<T, const N: usize> {
    items: Vec<T>,
}

impl<T, const N: usize> ArrayBuffer<T, N> {
    /// The elements, the oldest first.
    pub closed spec fn view(&self) -> Seq<T> {
        self.items@
    }

    /// The buffer holds no more than it has room for.
    pub open spec fn wf(&self) -> bool {
        self@.len() <= N
    }

    /// An empty buffer.
    pub fn new() -> (b: Self)
        ensures
            b.wf(),
            b@ == Seq::<T>::empty(),
    {
        Self { items: Vec::new() }
    }

    /// The number of elements that the buffer has room for.
    pub fn capacity(&self) -> (c: usize)
        ensures
            c == N,
    {
        N
    }

    /// The number of elements in the buffer.
    pub fn len(&self) -> (n: usize)
        ensures
            n == self@.len(),
    {
        self.items.len()
    }

    /// Whether the buffer holds nothing.
    pub fn is_empty(&self) -> (e: bool)
        ensures
            e == (self@.len() == 0),
    {
        self.items.len() == 0
    }

    /// Puts `item` on top of a buffer that has room for it.
    pub fn push_unchecked(&mut self, item: T)
        requires
            old(self).wf(),
            old(self)@.len() < N,
        ensures
            final(self).wf(),
            final(self)@ == old(self)@.push(item),
    {
        self.items.push(item);
    }

    /// Puts `item` on top, or hands it back where the buffer is full.
    pub fn push(&mut self, item: T) -> (r: Result<(), T>)
        requires
            old(self).wf(),
        ensures
            final(self).wf(),
            old(self)@.len() < N ==> r == Ok::<(), T>(()) && final(self)@ == old(self)@.push(item),
            old(self)@.len() == N ==> r == Err::<(), T>(item) && final(self)@ == old(self)@,
    {
        if self.items.len() == self.capacity() {
            return Err(item);
        }
        self.push_unchecked(item);
        Ok(())
    }

    /// Takes the element on top, if there is one.
    pub fn pop(&mut self) -> (r: Option<T>)
        requires
            old(self).wf(),
        ensures
            final(self).wf(),
            old(self)@.len() == 0 ==> r == None::<T> && final(self)@ == old(self)@,
            old(self)@.len() > 0 ==> r == Some(old(self)@.last()) && final(self)@
                == old(self)@.drop_last(),
    {
        self.items.pop()
    }

    /// Empties the buffer, handing its elements to `f` from the oldest to
    /// the one on top.
    pub fn clear_with<F: FnMut(T)>(&mut self, f: F)
        requires
            forall|i: int| 0 <= i < old(self)@.len() ==> f.requires((#[trigger] old(self)@[i],)),
        ensures
            final(self).wf(),
            final(self)@ == Seq::<T>::empty(),
            forall|i: int| 0 <= i < old(self)@.len() ==> f.ensures((#[trigger] old(self)@[i],), ()),
    {
        proof {
            assert forall|i: int| 0 <= i < self.items@.len() implies f.requires(
                (#[trigger] self.items@[i],),
            ) by {
                assert(self.items@[i] == old(self)@[i]);
            }
        }
        crate::clear_with::clear_with(&mut self.items, f);
        proof {
            assert forall|i: int| 0 <= i < old(self)@.len() implies f.ensures(
                (#[trigger] old(self)@[i],),
                (),
            ) by {
                assert(old(self).items@[i] == old(self)@[i]);
            }
        }
    }

    /// Empties the buffer and drops its elements.
    pub fn clear(&mut self)
        ensures
            final(self).wf(),
            final(self)@ == Seq::<T>::empty(),
    {
        self.items.clear();
    }

    /// The elements, the oldest first, borrowed.
    pub fn iter(&self) -> (r: Vec<&T>)
        ensures
            r@.len() == self@.len(),
            forall|i: int| 0 <= i < r@.len() ==> *(#[trigger] r@[i]) == self@[i],
    {
        let mut out: Vec<&T> = Vec::new();
        let n = self.items.len();
        let mut i: usize = 0;
        while i < n
            invariant
                i <= n,
                n == self.items@.len(),
                out@.len() == i,
                forall|j: int| 0 <= j < i ==> *(#[trigger] out@[j]) == self@[j],
            decreases n - i,
        {
            out.push(&self.items[i]);
            i += 1;
        }
        out
    }

    /// The elements, the oldest first, handed out for change.
    pub fn iter_mut(&mut self) -> (r: Vec<&mut T>)
        ensures
            r@.len() == old(self)@.len(),
            forall|i: int| 0 <= i < r@.len() ==> *(#[trigger] r@[i]) == old(self)@[i],
            final(self)@.len() == r@.len(),
            forall|i: int| 0 <= i < r@.len() ==> #[trigger] final(self)@[i] == *final(r@[i]),
    {
        refs_of(self.items.as_mut_slice())
    }
}

impl<T, const N: usize> Deref for ArrayBuffer<T, N> {
    type Target = [T];

    /// The elements as a slice, the oldest first.
    fn deref(&self) -> (r: &[T])
        ensures
            r@ == self@,
    {
        self.items.as_slice()
    }
}

impl<T, const N: usize> DerefMut for ArrayBuffer<T, N> {
    /// The elements as a slice, the oldest first, handed out for change.
    fn deref_mut(&mut self) -> (r: &mut [T])
        ensures
            r@ == old(self)@,
            final(self)@ == final(r)@,
    {
        self.items.as_mut_slice()
    }
}

impl<T, const N: usize> AsRef<[T]> for ArrayBuffer<T, N> {
    /// The elements as a slice, the oldest first.
    fn as_ref(&self) -> (r: &[T])
        ensures
            r@ == self@,
    {
        self.items.as_slice()
    }
}

impl<T, const N: usize> AsMut<[T]> for ArrayBuffer<T, N> {
    /// The elements as a slice, the oldest first, handed out for change.
    fn as_mut(&mut self) -> (r: &mut [T])
        ensures
            r@ == old(self)@,
            final(self)@ == final(r)@,
    {
        self.items.as_mut_slice()
    }
}

impl<T, const N: usize> Default for ArrayBuffer<T, N> {
    fn default() -> (b: Self)
        ensures
            b.wf(),
            b@ == Seq::<T>::empty(),
    {
        Self::new()
    }
}

impl<T, const N: usize> From<[T; N]> for ArrayBuffer<T, N> {
    /// A full buffer with the elements of `array`, the first the oldest.
    fn from(array: [T; N]) -> (b: Self)
        ensures
            b.wf(),
            b@ == array@,
    {
        Self { items: Vec::from(array) }
    }
}

impl<T, const N: usize> FromSpecImpl<[T; N]> for ArrayBuffer<T, N> {
    /// What `from` gives is stated by its own contract, over the view.
    open spec fn obeys_from_spec() -> bool {
        false
    }

    open spec fn from_spec(array: [T; N]) -> Self {
        arbitrary()
    }
}

} // verus!
