use vstd::prelude::*;

verus! {

/// Selection sort: finds the least element of the unsorted suffix and
/// exchanges it with the suffix's first position.
pub fn sort(vec: &mut Vec<i64>)
    ensures
        crate::sorted(final(vec)@),
        final(vec)@.to_multiset() == old(vec)@.to_multiset(),
        final(vec)@.len() == old(vec)@.len(),
{
    let length = vec.len();
    if length < 2 {
        return ;
    }
    let mut i: usize = 0;
    while i < length - 1
        invariant
            vec@.len() == length,
            2 <= length,
            i < length,
            vec@.to_multiset() == old(vec)@.to_multiset(),
            forall|k1: int, k2: int|
                0 <= k1 <= k2 < length && k1 < i ==> vec@[k1] <= vec@[k2],
        decreases length - i,
    {
        let mut j = i + 1;
        let mut k = i;
        while j < length
            invariant
                vec@.len() == length,
                i < j <= length,
                i <= k < j,
                vec@.to_multiset() == old(vec)@.to_multiset(),
                forall|k1: int, k2: int|
                    0 <= k1 <= k2 < length && k1 < i ==> vec@[k1] <= vec@[k2],
                forall|m: int| i <= m < j ==> vec@[k as int] <= vec@[m],
            decreases length - j,
        {
            if vec[j] < vec[k] {
                k = j;
            }
            j += 1;
        }
        if k != i {
            crate::sorting::swap_at(vec, i, k);
        }
        i += 1;
    }
}

} // verus!
