//! Splitting a slice into one mutable reference per element.
use vstd::prelude::*;

verus! {

/// Hands out every element of `items` for change, in order. What is left
/// behind reference `i` is element `i` of the slice afterwards.
pub fn refs_of<'a, T>(items: &'a mut [T]) -> (r: Vec<&'a mut T>)
    ensures
        r@.len() == old(items)@.len(),
        forall|i: int| 0 <= i < r@.len() ==> *(#[trigger] r@[i]) == old(items)@[i],
        final(items)@.len() == r@.len(),
        forall|i: int| 0 <= i < r@.len() ==> #[trigger] final(items)@[i] == *final(r@[i]),
{
    let mut out: Vec<&'a mut T> = Vec::new();
    let mut rest = items;
    while rest.len() > 0
        invariant
            out@.len() + rest@.len() == old(items)@.len(),
            forall|i: int| 0 <= i < out@.len() ==> *(#[trigger] out@[i]) == old(items)@[i],
            forall|i: int|
                0 <= i < rest@.len() ==> #[trigger] rest@[i] == old(items)@[out@.len() + i],
            final(items)@.len() == out@.len() + final(rest)@.len(),
            forall|i: int| 0 <= i < out@.len() ==> #[trigger] final(items)@[i] == *final(out@[i]),
            forall|j: int|
                out@.len() <= j < final(items)@.len() ==> #[trigger] final(items)@[j]
                    == final(rest)@[j - out@.len()],
        decreases rest@.len(),
    {
        let tmp = rest;
        let (head, tail) = tmp.split_at_mut(1);
        match head.first_mut() {
            Some(x) => {
                out.push(x);
            },
            None => {},
        }
        rest = tail;
    }
    out
}

} // verus!
