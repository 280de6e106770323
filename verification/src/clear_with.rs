//! Emptying a vector by handing each element to a function.
use vstd::prelude::*;

verus! {

/// Empties `vec`, handing its elements to `f` from the first to the last.
pub fn clear_with<T, F: FnMut(T)>(vec: &mut Vec<T>, f: F)
    requires
        forall|i: int| 0 <= i < old(vec)@.len() ==> f.requires((#[trigger] old(vec)@[i],)),
    ensures
        final(vec)@ == Seq::<T>::empty(),
        forall|i: int| 0 <= i < old(vec)@.len() ==> f.ensures((#[trigger] old(vec)@[i],), ()),
{
    let mut call = f;
    let mut taken: Vec<T> = Vec::new();
    core::mem::swap(vec, &mut taken);
    for item in it: taken
        invariant
            vec@ == Seq::<T>::empty(),
            taken@ == old(vec)@,
            call == f,
            forall|i: int| 0 <= i < taken@.len() ==> f.requires((#[trigger] taken@[i],)),
            forall|i: int| 0 <= i < it.index@ ==> f.ensures((#[trigger] taken@[i],), ()),
    {
        call(item);
    }
}

} // verus!
