//! Sorting in place by swapping neighbours.

use vstd::prelude::*;

verus! {

/// `s` is in ascending order.
pub open spec fn spec_sorted(s: Seq<u32>) -> bool {
    forall|i: int, j: int| 0 <= i <= j < s.len() ==> s[i] <= s[j]
}

/// The tail of `s` from `from` on is ascending, and nothing before it is
/// greater than anything in it.
spec fn settled_from(s: Seq<u32>, from: int) -> bool {
    &&& forall|i: int, j: int| from <= i <= j < s.len() ==> s[i] <= s[j]
    &&& forall|i: int, j: int| 0 <= i < from <= j < s.len() ==> s[i] <= s[j]
}

/// Exchanging two elements keeps what a sequence holds.
proof fn lemma_swap_keeps_elements(s: Seq<u32>, i: int, j: int)
    requires
        0 <= i < s.len(),
        0 <= j < s.len(),
    ensures
        s.update(i, s[j]).update(j, s[i]).to_multiset() == s.to_multiset(),
{
    broadcast use vstd::seq_lib::to_multiset_update;

    let t = s.update(i, s[j]);
    assert(t.to_multiset() == s.to_multiset().insert(s[j]).remove(s[i]));
    assert(t.update(j, s[i]).to_multiset() == t.to_multiset().insert(s[i]).remove(t[j]));
    assert(t[j] == s[j]);
    assert(s.to_multiset().insert(s[j]).remove(s[i]).insert(s[i]).remove(s[j])
        =~= s.to_multiset()) by {
        assert(s.to_multiset().count(s[i]) > 0) by {
            vstd::seq_lib::to_multiset_contains(s, s[i]);
            assert(s.contains(s[i]));
        }
    }
}

/// Sorts `array` in place: afterwards it is ascending and holds the same
/// elements, each as often as before.
pub fn bubble_sort(array: &mut [u32])
    ensures
        final(array)@.len() == old(array)@.len(),
        spec_sorted(final(array)@),
        final(array)@.to_multiset() == old(array)@.to_multiset(),
{
    let n = array.len();
    let mut i: usize = 0;
    while i < n
        invariant
            i <= n,
            array@.len() == n,
            array@.to_multiset() == old(array)@.to_multiset(),
            settled_from(array@, n - i),
        decreases n - i,
    {
        let mut j: usize = 0;
        while j < n - i - 1
            invariant
                i < n,
                j <= n - i - 1,
                array@.len() == n,
                array@.to_multiset() == old(array)@.to_multiset(),
                settled_from(array@, n - i),
                forall|k: int| 0 <= k <= j ==> array@[k] <= array@[j as int],
            decreases n - i - 1 - j,
        {
            let left = array[j];
            let right = array[j + 1];
            if left > right {
                proof {
                    lemma_swap_keeps_elements(array@, j as int, j + 1);
                }
                array[j] = right;
                array[j + 1] = left;
            }
            j += 1;
        }
        i += 1;
    }
}

} // verus!
