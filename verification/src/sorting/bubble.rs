use vstd::prelude::*;

verus! {

/// Bubble sort: repeatedly floats the largest remaining element to the end
/// of the unsorted prefix by exchanging adjacent out-of-order pairs.
pub fn sort(vec: &mut Vec<i64>)
    ensures
        crate::sorted(final(vec)@),
        final(vec)@.to_multiset() == old(vec)@.to_multiset(),
        final(vec)@.len() == old(vec)@.len(),
{
    let length = vec.len();
    if length < 2 {
        return ;
    }
    let mut end = length - 1;
    while end > 0
        invariant
            vec@.len() == length,
            0 < length,
            end < length,
            vec@.to_multiset() == old(vec)@.to_multiset(),
            forall|k1: int, k2: int|
                0 <= k1 <= k2 < length && end < k2 ==> vec@[k1] <= vec@[k2],
        decreases end,
    {
        let mut i: usize = 0;
        while i < end
            invariant
                vec@.len() == length,
                0 < end < length,
                i <= end,
                vec@.to_multiset() == old(vec)@.to_multiset(),
                forall|k1: int, k2: int|
                    0 <= k1 <= k2 < length && end < k2 ==> vec@[k1] <= vec@[k2],
                forall|k: int| 0 <= k <= i ==> vec@[k] <= vec@[i as int],
            decreases end - i,
        {
            if vec[i] > vec[i + 1] {
                crate::sorting::swap_at(vec, i, i + 1);
            }
            i += 1;
        }
        end -= 1;
    }
}

} // verus!
