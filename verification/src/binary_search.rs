//! Search by halving in an array.

use vstd::prelude::*;

verus! {

/// `s` is in ascending order.
pub open spec fn spec_sorted(s: Seq<u32>) -> bool {
    forall|i: int, j: int| 0 <= i <= j < s.len() ==> s[i] <= s[j]
}

/// The outcome of halving the window from `low` up to, not including,
/// `high`: the midpoint where it holds `needle`, else the outcome on the
/// half that an ascending order would leave.
pub open spec fn spec_halving(s: Seq<u32>, needle: u32, low: int, high: int) -> Option<usize>
    decreases high - low,
{
    if 0 <= low < high <= s.len() {
        let mid = low + (high - low) / 2;
        if s[mid] == needle {
            Some(mid as usize)
        } else if s[mid] < needle {
            spec_halving(s, needle, mid + 1, high)
        } else {
            spec_halving(s, needle, low, mid)
        }
    } else {
        None
    }
}

/// Looks for `needle` by halving. What comes back is a position of
/// `needle` in any case; in an ascending array nothing comes back only
/// where `needle` does not occur.
pub fn binary_search(haystack: &[u32], needle: u32) -> (found: Option<usize>)
    ensures
        found == spec_halving(haystack@, needle, 0, haystack@.len() as int),
        found matches Some(i) ==> i < haystack@.len() && haystack@[i as int] == needle,
        spec_sorted(haystack@) ==> (found is None <==> !haystack@.contains(needle)),
{
    let mut low: usize = 0;
    let mut high: usize = haystack.len();
    while low < high
        invariant
            low <= high <= haystack@.len(),
            spec_halving(haystack@, needle, low as int, high as int) == spec_halving(
                haystack@,
                needle,
                0,
                haystack@.len() as int,
            ),
            spec_sorted(haystack@) ==> forall|j: int|
                0 <= j < haystack@.len() && haystack@[j] == needle ==> low <= j < high,
        decreases high - low,
    {
        let mid = low + (high - low) / 2;
        if haystack[mid] == needle {
            return Some(mid);
        } else if haystack[mid] < needle {
            low = mid + 1;
        } else {
            high = mid;
        }
    }
    None
}

} // verus!
