//! What the library takes on trust of the standard library, where `vstd` says nothing: each
//! contract below restates the documentation of the function it is about, and is not proved.
use std::time::Duration;
use vstd::arithmetic::power2::is_pow2;
use vstd::prelude::*;

verus! {

/// `usize::is_power_of_two` of std: true exactly for the powers of two,
/// one included and zero not.
pub assume_specification[ usize::is_power_of_two ](n: usize) -> (r: bool)
    ensures
        r == is_pow2(n as int),
;

/// `<[T; N]>::as_mut_slice` of std: the whole array as a mutable slice, so
/// that what is written through the slice is written to the array.
pub assume_specification<E, const LEN: usize>[ <[E; LEN]>::as_mut_slice ](
    ar: &mut [E; LEN],
) -> (out: &mut [E])
    ensures
        out@ == old(ar)@,
        final(out)@ == final(ar)@,
;

/// `Vec::from` of std for an array: the vector that holds the array's
/// elements in the array's order.
pub assume_specification<E, const LEN: usize>[ <Vec<E> as From<[E; LEN]>>::from ](
    array: [E; LEN],
) -> (v: Vec<E>)
    ensures
        v@ == array@,
;

/// `core::hint::spin_loop` of std: tells the processor that the thread is
/// busy waiting. It returns nothing and changes nothing that a program can
/// see.
pub assume_specification[ core::hint::spin_loop ]()
;

/// The length of a `Duration` in nanoseconds.
pub uninterp spec fn duration_nanos(duration: Duration) -> nat;

/// `Duration::from_nanos` of std: the duration that lasts `nanos`
/// nanoseconds.
pub assume_specification[ Duration::from_nanos ](nanos: u64) -> (d: Duration)
    ensures
        duration_nanos(d) == nanos,
;

/// `Duration::as_nanos` of std: the whole length of the duration in
/// nanoseconds.
pub assume_specification[ Duration::as_nanos ](d: &Duration) -> (nanos: u128)
    ensures
        nanos == duration_nanos(*d),
;

} // verus!
