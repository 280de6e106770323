//! Cells in a ring: which cell an element stands in, and handing the elements' values out.
use vstd::prelude::*;

verus! {

/// The place in a ring of `n` cells of the element `idx` steps behind the
/// one at `head`.
pub open spec fn physical_index(head: int, idx: int, n: int) -> int {
    if head + idx >= n {
        head + idx - n
    } else {
        head + idx
    }
}

/// Hands out the values of the first `limit` cells for change, in order.
/// Those cells hold, afterwards, what is left behind the references; the
/// other cells stay as they are.
fn some_refs<'a, T>(cells: &'a mut [Option<T>], limit: usize) -> (r: Vec<&'a mut T>)
    requires
        limit <= old(cells)@.len(),
        forall|k: int| 0 <= k < limit ==> (#[trigger] old(cells)@[k]) is Some,
    ensures
        r@.len() == limit,
        forall|k: int| 0 <= k < limit ==> *(#[trigger] r@[k]) == old(cells)@[k]->0,
        final(cells)@.len() == old(cells)@.len(),
        forall|k: int| 0 <= k < limit ==> #[trigger] final(cells)@[k] == Some(*final(r@[k])),
        forall|k: int|
            limit <= k < old(cells)@.len() ==> #[trigger] final(cells)@[k] == old(cells)@[k],
{
    let mut out: Vec<&'a mut T> = Vec::new();
    let mut rest = cells;
    while out.len() < limit
        invariant
            out@.len() <= limit <= old(cells)@.len(),
            out@.len() + rest@.len() == old(cells)@.len(),
            forall|k: int| 0 <= k < limit ==> (#[trigger] old(cells)@[k]) is Some,
            forall|k: int| 0 <= k < out@.len() ==> *(#[trigger] out@[k]) == old(cells)@[k]->0,
            forall|k: int|
                0 <= k < rest@.len() ==> #[trigger] rest@[k] == old(cells)@[out@.len() + k],
            final(cells)@.len() == out@.len() + final(rest)@.len(),
            forall|k: int|
                0 <= k < out@.len() ==> #[trigger] final(cells)@[k] == Some(*final(out@[k])),
            forall|j: int|
                out@.len() <= j < final(cells)@.len() ==> #[trigger] final(cells)@[j]
                    == final(rest)@[j - out@.len()],
        decreases limit - out@.len(),
    {
        let tmp = rest;
        let (head, tail) = tmp.split_at_mut(1);
        proof {
            assert(head@[0] == old(cells)@[out@.len() as int]);
        }
        match head.first_mut() {
            Some(cell) => {
                match cell.as_mut() {
                    Some(value) => {
                        out.push(value);
                    },
                    None => {
                        assert(false);
                    },
                }
            },
            None => {
                assert(false);
            },
        }
        rest = tail;
    }
    out
}

/// The values of the ring's elements in two runs, handed out for
/// change: those from the head up to the end of the ring, then those
/// that go on from the ring's start.
pub fn ring_refs<'a, T>(array: &'a mut [Option<T>], head: usize, len: usize) -> (r: (
    Vec<&'a mut T>,
    Vec<&'a mut T>,
))
    requires
        head < old(array)@.len() || head == 0,
        len <= old(array)@.len(),
        forall|k: int|
            0 <= k < len ==>
                (#[trigger] old(array)@[physical_index(head as int, k, old(array)@.len() as int)])
                is Some,
    ensures
        r.0@.len() == if len <= old(array)@.len() - head {
            len as int
        } else {
            old(array)@.len() - head
        },
        r.0@.len() + r.1@.len() == len,
        forall|k: int|
            0 <= k < r.0@.len() ==> *(#[trigger] r.0@[k]) == old(array)@[physical_index(
                head as int,
                k,
                old(array)@.len() as int,
            )]->0,
        forall|k: int|
            0 <= k < r.1@.len() ==> *(#[trigger] r.1@[k]) == old(array)@[physical_index(
                head as int,
                r.0@.len() + k,
                old(array)@.len() as int,
            )]->0,
        final(array)@.len() == old(array)@.len(),
        forall|k: int|
            0 <= k < len ==> (#[trigger] final(array)@[physical_index(
                head as int,
                k,
                old(array)@.len() as int,
            )]) is Some,
        forall|k: int|
            0 <= k < r.0@.len() ==> (#[trigger] final(array)@[physical_index(
                head as int,
                k,
                old(array)@.len() as int,
            )])->0 == *final(r.0@[k]),
        forall|k: int|
            #![trigger r.1@[k]]
            0 <= k < r.1@.len() ==> final(array)@[physical_index(
                head as int,
                r.0@.len() + k,
                old(array)@.len() as int,
            )]->0 == *final(r.1@[k]),
{
    let ghost src = array@;
    let ghost n = array@.len() as int;
    let room = array.len() - head;
    let in_back = if len <= room {
        len
    } else {
        room
    };
    let whole = array;
    let (front, back) = whole.split_at_mut(head);
    proof {
        assert forall|k: int| 0 <= k < in_back implies (#[trigger] back@[k]) is Some by {
            assert(back@[k] == src[physical_index(head as int, k, n)]);
        }
        assert forall|k: int| 0 <= k < len - in_back implies (#[trigger] front@[k]) is Some by {
            assert(front@[k] == src[physical_index(head as int, in_back + k, n)]);
        }
    }
    let ghost front0 = front@;
    let ghost back0 = back@;
    let back_cells = back;
    let front_cells = front;
    let first = some_refs(back_cells, in_back);
    let second = some_refs(front_cells, len - in_back);
    proof {
        assert(final(array)@ =~= final(front)@ + final(back)@);
        assert forall|k: int| 0 <= k < first@.len() implies *(#[trigger] first@[k])
            == src[physical_index(head as int, k, n)]->0
            && final(array)@[physical_index(head as int, k, n)] == Some(*final(first@[k])) by {
            assert(back0[k] == src[physical_index(head as int, k, n)]);
            assert(final(array)@[head + k] == final(back)@[k]);
        }
        assert forall|k: int| 0 <= k < second@.len() implies *(#[trigger] second@[k])
            == src[physical_index(head as int, first@.len() + k, n)]->0
            && final(array)@[physical_index(head as int, first@.len() + k, n)] == Some(
            *final(second@[k]),
        ) by {
            assert(front0[k] == src[physical_index(head as int, first@.len() + k, n)]);
            assert(final(array)@[k] == final(front)@[k]);
        }
        assert forall|k: int| 0 <= k < len implies (#[trigger] final(array)@[physical_index(
            head as int,
            k,
            n,
        )]) is Some by {
            if k < first@.len() {
                assert(*final(first@[k]) == *final(first@[k]));
            } else {
                let j = k - first@.len();
                assert(*final(second@[j]) == *final(second@[j]));
            }
        }
    }
    (first, second)
}

} // verus!
