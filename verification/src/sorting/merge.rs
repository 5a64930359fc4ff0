use vstd::multiset::Multiset;
use vstd::prelude::*;

verus! {

/// Appending an element adds exactly it to the sequence's multiset.
proof fn lemma_push_multiset(s: Seq<i64>, x: i64)
    ensures
        s.push(x).to_multiset() == s.to_multiset().insert(x),
{
    broadcast use vstd::seq_lib::group_to_multiset_ensures;

    assert(s.push(x).to_multiset() =~= s.to_multiset().insert(x));
}

/// Interleaves two ascending runs into one ascending run holding the
/// elements of both.
fn merge(left: Vec<i64>, right: Vec<i64>) -> (r: Vec<i64>)
    requires
        crate::sorted(left@),
        crate::sorted(right@),
        left@.len() + right@.len() <= usize::MAX,
    ensures
        crate::sorted(r@),
        r@.to_multiset() == left@.to_multiset().add(right@.to_multiset()),
        r@.len() == left@.len() + right@.len(),
{
    broadcast use vstd::seq_lib::group_to_multiset_ensures;
    broadcast use vstd::multiset::group_multiset_axioms;

    let mut result: Vec<i64> = Vec::with_capacity(left.len() + right.len());
    let mut i: usize = 0;
    let mut j: usize = 0;
    proof {
        assert(left@.subrange(0, 0).to_multiset() =~= Multiset::<i64>::empty());
        assert(right@.subrange(0, 0).to_multiset() =~= Multiset::<i64>::empty());
    }
    while i < left.len() && j < right.len()
        invariant
            i <= left@.len(),
            j <= right@.len(),
            crate::sorted(left@),
            crate::sorted(right@),
            result@.len() == i + j,
            crate::sorted(result@),
            result@.to_multiset() == left@.subrange(0, i as int).to_multiset().add(
                right@.subrange(0, j as int).to_multiset(),
            ),
            forall|k: int, m: int|
                0 <= k < result@.len() && i <= m < left@.len() ==> result@[k] <= left@[m],
            forall|k: int, m: int|
                0 <= k < result@.len() && j <= m < right@.len() ==> result@[k] <= right@[m],
        decreases left@.len() - i + right@.len() - j,
    {
        let ghost r0 = result@;
        if left[i] < right[j] {
            result.push(left[i]);
            proof {
                let x = left@[i as int];
                lemma_push_multiset(r0, x);
                lemma_push_multiset(left@.subrange(0, i as int), x);
                assert(left@.subrange(0, i + 1) =~= left@.subrange(0, i as int).push(x));
                assert(result@.to_multiset() =~= left@.subrange(0, i + 1).to_multiset().add(
                    right@.subrange(0, j as int).to_multiset(),
                ));
            }
            i += 1;
        } else {
            result.push(right[j]);
            proof {
                let x = right@[j as int];
                lemma_push_multiset(r0, x);
                lemma_push_multiset(right@.subrange(0, j as int), x);
                assert(right@.subrange(0, j + 1) =~= right@.subrange(0, j as int).push(x));
                assert(result@.to_multiset() =~= left@.subrange(0, i as int).to_multiset().add(
                    right@.subrange(0, j + 1).to_multiset(),
                ));
            }
            j += 1;
        }
    }
    while i < left.len()
        invariant
            i <= left@.len(),
            j <= right@.len(),
            crate::sorted(left@),
            result@.len() == i + j,
            crate::sorted(result@),
            result@.to_multiset() == left@.subrange(0, i as int).to_multiset().add(
                right@.subrange(0, j as int).to_multiset(),
            ),
            forall|k: int, m: int|
                0 <= k < result@.len() && i <= m < left@.len() ==> result@[k] <= left@[m],
            forall|k: int, m: int|
                0 <= k < result@.len() && j <= m < right@.len() ==> result@[k] <= right@[m],
            i >= left@.len() || j >= right@.len(),
        decreases left@.len() - i,
    {
        let ghost r0 = result@;
        result.push(left[i]);
        proof {
            let x = left@[i as int];
            lemma_push_multiset(r0, x);
            lemma_push_multiset(left@.subrange(0, i as int), x);
            assert(left@.subrange(0, i + 1) =~= left@.subrange(0, i as int).push(x));
            assert(result@.to_multiset() =~= left@.subrange(0, i + 1).to_multiset().add(
                right@.subrange(0, j as int).to_multiset(),
            ));
        }
        i += 1;
    }
    while j < right.len()
        invariant
            i == left@.len(),
            j <= right@.len(),
            crate::sorted(right@),
            result@.len() == i + j,
            crate::sorted(result@),
            result@.to_multiset() == left@.subrange(0, i as int).to_multiset().add(
                right@.subrange(0, j as int).to_multiset(),
            ),
            forall|k: int, m: int|
                0 <= k < result@.len() && j <= m < right@.len() ==> result@[k] <= right@[m],
        decreases right@.len() - j,
    {
        let ghost r0 = result@;
        result.push(right[j]);
        proof {
            let x = right@[j as int];
            lemma_push_multiset(r0, x);
            lemma_push_multiset(right@.subrange(0, j as int), x);
            assert(right@.subrange(0, j + 1) =~= right@.subrange(0, j as int).push(x));
            assert(result@.to_multiset() =~= left@.subrange(0, i as int).to_multiset().add(
                right@.subrange(0, j + 1).to_multiset(),
            ));
        }
        j += 1;
    }
    proof {
        assert(left@.subrange(0, i as int) =~= left@);
        assert(right@.subrange(0, j as int) =~= right@);
    }
    result
}

/// Sorts a run by splitting it in half, sorting each half, and merging the
/// halves back together.
fn split_and_merge(vec: &[i64]) -> (r: Vec<i64>)
    ensures
        crate::sorted(r@),
        r@.to_multiset() == vec@.to_multiset(),
        r@.len() == vec@.len(),
    decreases vec@.len(),
{
    broadcast use vstd::seq_lib::group_to_multiset_ensures;
    broadcast use vstd::multiset::group_multiset_axioms;

    let length = vec.len();
    if length < 2 {
        let mut out: Vec<i64> = Vec::new();
        if length == 1 {
            out.push(vec[0]);
        }
        proof {
            assert(out@ =~= vec@);
        }
        return out;
    }
    let middle = length / 2;
    let (a, b) = vec.split_at(middle);
    let left = split_and_merge(a);
    let right = split_and_merge(b);
    let r = merge(left, right);
    proof {
        vstd::seq_lib::lemma_multiset_commutative(a@, b@);
        assert(a@ + b@ =~= vec@);
    }
    r
}

/// Merge sort: the run is rebuilt in ascending order out of recursively
/// sorted halves.
pub fn sort(vec: &mut Vec<i64>)
    ensures
        crate::sorted(final(vec)@),
        final(vec)@.to_multiset() == old(vec)@.to_multiset(),
        final(vec)@.len() == old(vec)@.len(),
{
    let length = vec.len();
    if length < 2 {
        return ;
    }
    *vec = split_and_merge(vec.as_slice());
}

} // verus!
