use vstd::prelude::*;

verus! {

/// Insertion sort: shifts the larger part of the sorted prefix one place up
/// and drops each new element into the gap it leaves.
pub fn sort(vec: &mut Vec<i64>)
    ensures
        crate::sorted(final(vec)@),
        final(vec)@.to_multiset() == old(vec)@.to_multiset(),
        final(vec)@.len() == old(vec)@.len(),
{
    let length = vec.len();
    if length < 2 {
        return ;
    }
    let mut i: usize = 1;
    while i < length
        invariant
            vec@.len() == length,
            1 <= i <= length,
            vec@.to_multiset() == old(vec)@.to_multiset(),
            forall|k1: int, k2: int| 0 <= k1 <= k2 < i ==> vec@[k1] <= vec@[k2],
        decreases length - i,
    {
        let value = vec[i];
        let mut j = i;
        proof {
            assert(vec@.update(i as int, value) =~= vec@);
        }
        while j > 0 && value < vec[j - 1]
            invariant
                vec@.len() == length,
                j <= i < length,
                vec@.update(j as int, value).to_multiset() == old(vec)@.to_multiset(),
                forall|k1: int, k2: int|
                    0 <= k1 <= k2 <= i && k1 != j && k2 != j ==> vec@[k1] <= vec@[k2],
                forall|k: int| j < k <= i ==> value < vec@[k],
            decreases j,
        {
            let ghost w = vec@.update(j as int, value);
            vec[j] = vec[j - 1];
            j = j - 1;
            proof {
                crate::sorting::lemma_swap_multiset(w, j as int, j + 1);
                assert(vec@.update(j as int, value) =~= w.update(j as int, w[j + 1]).update(
                    j + 1,
                    w[j as int],
                ));
            }
        }
        vec[j] = value;
        i += 1;
    }
}

} // verus!
