//! Small helpers on arrays.
use vstd::prelude::*;

verus! {

/// All of `array`'s entries, when none is missing.
pub fn array_transpose<T: Copy, const N: usize>(array: [Option<T>; N]) -> (r: Option<[T; N]>)
    requires
        N > 0,
    ensures
        r is Some <==> forall|i: int| 0 <= i < N ==> (#[trigger] array[i]) is Some,
        r matches Some(out) ==> forall|i: int| 0 <= i < N ==> Some(#[trigger] out[i]) == array[i],
{
    let mut i: usize = 0;
    while i < N
        invariant
            i <= N,
            forall|k: int| 0 <= k < i ==> (#[trigger] array[k]) is Some,
        decreases N - i,
    {
        if array[i].is_none() {
            return None;
        }
        i = i + 1;
    }
    let first = array[0].unwrap();
    let mut out = [first; N];
    let mut i: usize = 0;
    while i < N
        invariant
            i <= N,
            forall|k: int| 0 <= k < N ==> (#[trigger] array[k]) is Some,
            forall|k: int| 0 <= k < i ==> Some(#[trigger] out[k]) == array[k],
        decreases N - i,
    {
        let value = array[i].unwrap();
        out[i] = value;
        i = i + 1;
    }
    Some(out)
}

} // verus!
