//! Search by going through an array from its start.

use vstd::prelude::*;

verus! {

/// The position of the first occurrence of `needle` in `haystack`, or
/// nothing where it does not occur.
pub fn linear_search(haystack: &[u32], needle: u32) -> (found: Option<usize>)
    ensures
        found is None <==> !haystack@.contains(needle),
        found matches Some(i) ==> i < haystack@.len() && haystack@[i as int] == needle
            && forall|j: int| 0 <= j < i ==> haystack@[j] != needle,
{
    let mut i: usize = 0;
    while i < haystack.len()
        invariant
            i <= haystack@.len(),
            forall|j: int| 0 <= j < i ==> haystack@[j] != needle,
        decreases haystack@.len() - i,
    {
        if haystack[i] == needle {
            return Some(i);
        }
        i += 1;
    }
    None
}

} // verus!
