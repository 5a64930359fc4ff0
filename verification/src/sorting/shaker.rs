use vstd::prelude::*;

verus! {

/// Shaker sort: alternating bubble passes, floating the largest remaining
/// element up to the back, then sinking the smallest down to the front.
pub fn sort(vec: &mut Vec<i64>)
    ensures
        crate::sorted(final(vec)@),
        final(vec)@.to_multiset() == old(vec)@.to_multiset(),
        final(vec)@.len() == old(vec)@.len(),
{
    let length = vec.len();
    if length < 2 {
        return ;
    }
    let mut start: usize = 0;
    let mut end = length - 1;
    while start < end
        invariant
            vec@.len() == length,
            end < length,
            start <= end + 1,
            vec@.to_multiset() == old(vec)@.to_multiset(),
            forall|k1: int, k2: int|
                0 <= k1 <= k2 < length && end < k2 ==> vec@[k1] <= vec@[k2],
            forall|k1: int, k2: int|
                0 <= k1 <= k2 < length && k1 < start ==> vec@[k1] <= vec@[k2],
        decreases end + 1 - start,
    {
        let mut i = start;
        while i < end
            invariant
                vec@.len() == length,
                start <= i <= end,
                end < length,
                vec@.to_multiset() == old(vec)@.to_multiset(),
                forall|k1: int, k2: int|
                    0 <= k1 <= k2 < length && end < k2 ==> vec@[k1] <= vec@[k2],
                forall|k1: int, k2: int|
                    0 <= k1 <= k2 < length && k1 < start ==> vec@[k1] <= vec@[k2],
                forall|k: int| start <= k <= i ==> vec@[k] <= vec@[i as int],
            decreases end - i,
        {
            if vec[i] > vec[i + 1] {
                crate::sorting::swap_at(vec, i, i + 1);
            }
            i += 1;
        }
        i -= 1;
        end -= 1;
        while i > start
            invariant
                vec@.len() == length,
                start <= i <= end,
                end < length,
                vec@.to_multiset() == old(vec)@.to_multiset(),
                forall|k1: int, k2: int|
                    0 <= k1 <= k2 < length && end < k2 ==> vec@[k1] <= vec@[k2],
                forall|k1: int, k2: int|
                    0 <= k1 <= k2 < length && k1 < start ==> vec@[k1] <= vec@[k2],
                forall|k: int| i <= k <= end ==> vec@[i as int] <= vec@[k],
            decreases i,
        {
            if vec[i] < vec[i - 1] {
                crate::sorting::swap_at(vec, i - 1, i);
            }
            i -= 1;
        }
        start += 1;
    }
}

} // verus!
