use vstd::prelude::*;

verus! {

/// Gnome sort: walks each element back over its larger predecessors, one
/// adjacent exchange at a time, until it sits in order.
pub fn sort(vec: &mut Vec<i64>)
    ensures
        crate::sorted(final(vec)@),
        final(vec)@.to_multiset() == old(vec)@.to_multiset(),
        final(vec)@.len() == old(vec)@.len(),
{
    let length = vec.len();
    if length < 2 {
        return ;
    }
    let mut i: usize = 1;
    while i < length
        invariant
            vec@.len() == length,
            1 <= i <= length,
            vec@.to_multiset() == old(vec)@.to_multiset(),
            forall|k1: int, k2: int| 0 <= k1 <= k2 < i ==> vec@[k1] <= vec@[k2],
        decreases length - i,
    {
        let mut j = i;
        while j > 0 && vec[j - 1] > vec[j]
            invariant
                vec@.len() == length,
                j <= i < length,
                vec@.to_multiset() == old(vec)@.to_multiset(),
                forall|k1: int, k2: int|
                    0 <= k1 <= k2 <= i && k1 != j && k2 != j ==> vec@[k1] <= vec@[k2],
                forall|k: int| j < k <= i ==> vec@[j as int] <= vec@[k],
            decreases j,
        {
            crate::sorting::swap_at(vec, j - 1, j);
            j -= 1;
        }
        i += 1;
    }
}

} // verus!
