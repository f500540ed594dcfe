//! Small collection helpers the scanner's callers use.
pub mod chunk_while;

use vstd::prelude::*;

verus! {

/// Every window of `size` consecutive elements of `collection`, in order:
/// one window per starting offset, `len - size + 1` of them.
pub fn windowed<T: Copy>(collection: &[T], size: usize) -> (r: Vec<Vec<T>>)
    requires
        size > 0,
        collection@.len() >= size,
    ensures
        r@.len() == collection@.len() - size + 1,
        forall|i: int|
            0 <= i < r@.len() ==> (#[trigger] r@[i])@ == collection@.subrange(i, i + size),
{
    let n = collection.len();
    let mut out: Vec<Vec<T>> = Vec::new();
    let mut start: usize = 0;
    while start <= n - size
        invariant
            size > 0,
            n == collection@.len(),
            n >= size,
            0 <= start <= n - size + 1,
            out@.len() == start,
            forall|i: int|
                0 <= i < out@.len() ==> (#[trigger] out@[i])@ == collection@.subrange(i, i + size),
        decreases n - start,
    {
        let window = vstd::slice::slice_to_vec(vstd::slice::slice_subrange(
            collection,
            start,
            start + size,
        ));
        out.push(window);
        start = start + 1;
    }
    out
}

} // verus!
