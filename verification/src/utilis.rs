//! Support functions over index arrays.
use crate::vertices::seq_min;
use crate::IndexType;
use vstd::prelude::*;

verus! {

/// How far `fast_prune` lowers the indices: 0 where there are none, else the smallest
/// index, but at most the length of the data (taken modulo `2^32`).
pub open spec fn prune_shift(data_len: nat, indices: Seq<IndexType>) -> IndexType {
    if indices.len() == 0 {
        0
    } else if seq_min(indices) < (data_len as IndexType) {
        seq_min(indices)
    } else {
        data_len as IndexType
    }
}

/// What `fast_prune` leaves of `data` and `indices`.
pub open spec fn pruned<T>(data: Seq<T>, indices: Seq<IndexType>) -> (Seq<T>, Seq<IndexType>) {
    if exists|i: int| 0 <= i < indices.len() && #[trigger] indices[i] == 0 {
        (data, indices)
    } else {
        let shift = prune_shift(data.len(), indices);
        (data.skip(shift as int), indices.map_values(|i: IndexType| (i - shift) as IndexType))
    }
}

/// Removes the unused elements at the start of `data`, below the smallest index, and lowers
/// the indices to match. It is fast, not thorough: where some index is 0 it changes nothing,
/// and it removes nothing else that is unused.
pub fn fast_prune<T>(data: &mut Vec<T>, indices: &mut [IndexType])
    ensures
        (exists|i: int| 0 <= i < old(indices)@.len() && #[trigger] old(indices)@[i] == 0) ==> (
        final(data)@ == old(data)@ && final(indices)@ == old(indices)@),
        (forall|i: int| 0 <= i < old(indices)@.len() ==> #[trigger] old(indices)@[i] != 0) ==> {
            let shift = prune_shift(old(data)@.len(), old(indices)@);
            &&& final(data)@ == old(data)@.skip(shift as int)
            &&& final(indices)@ == old(indices)@.map_values(|i: IndexType| (i - shift) as IndexType)
        },
        (final(data)@, final(indices)@) == pruned(old(data)@, old(indices)@),
{
    let mut min_index: IndexType = data.len() as IndexType;
    let ghost data_len = data@.len();
    let ghost ind = indices@;
    if indices.len() == 0 {
        min_index = 0;
    }
    let mut i: usize = 0;
    while i < indices.len()
        invariant
            i <= indices@.len(),
            indices@ == ind,
            data@.len() == data_len,
            forall|k: int| 0 <= k < i ==> #[trigger] ind[k] != 0,
            ind.len() == 0 ==> min_index == 0,
            ind.len() > 0 ==> min_index == if i == 0 || (data_len as IndexType) <= seq_min(ind.take(i as int)) {
                data_len as IndexType
            } else {
                seq_min(ind.take(i as int))
            },
        decreases indices@.len() - i,
    {
        let index = indices[i];
        if index == 0 {
            return;
        }
        proof {
            assert(ind.take(i + 1).drop_last() =~= ind.take(i as int));
        }
        if index < min_index {
            min_index = index;
        }
        i = i + 1;
    }
    proof {
        assert(ind.take(ind.len() as int) =~= ind);
        if ind.len() > 0 {
            assert(min_index == prune_shift(data_len, ind));
        }
        assert(min_index as nat <= data_len);
        assert forall|k: int| 0 <= k < ind.len() implies #[trigger] ind[k] >= min_index by {
            crate::vertices::lemma_seq_min_le(ind, k);
        }
    }
    let tail = data.split_off(min_index as usize);
    *data = tail;
    let mut j: usize = 0;
    while j < indices.len()
        invariant
            j <= indices@.len() == ind.len(),
            min_index == prune_shift(data_len, ind),
            forall|k: int| 0 <= k < ind.len() ==> #[trigger] ind[k] >= min_index,
            forall|k: int| 0 <= k < j ==> #[trigger] indices@[k] == (ind[k] - min_index) as IndexType,
            forall|k: int| j <= k < ind.len() ==> #[trigger] indices@[k] == ind[k],
        decreases indices@.len() - j,
    {
        indices[j] = indices[j] - min_index;
        j = j + 1;
    }
    proof {
        assert(indices@ =~= ind.map_values(|i: IndexType| (i - min_index) as IndexType));
    }
}

/// The distinct values of `s`, in the order of their first appearance.
pub open spec fn distinct_values(s: Seq<IndexType>) -> Seq<IndexType>
    decreases s.len(),
{
    if s.len() == 0 {
        Seq::empty()
    } else {
        let before = distinct_values(s.drop_last());
        if before.contains(s.last()) {
            before
        } else {
            before.push(s.last())
        }
    }
}

/// Renumbers the indices in the order in which they first appear: each index becomes the
/// position of its value among the distinct values in order of first appearance. The data is
/// given back unchanged; so is everything where either array is empty.
pub fn optimize_triangle_indices<T: Copy>(indices: &[IndexType], data: &[T]) -> (res: (
    Vec<IndexType>,
    Vec<T>,
))
    requires
        indices@.len() > 0 && data@.len() > 0 ==> forall|i: int|
            0 <= i < indices@.len() ==> #[trigger] indices@[i] < data@.len(),
        data@.len() <= u32::MAX + 1,
    ensures
        res.1@ == data@,
        indices@.len() == 0 || data@.len() == 0 ==> res.0@ == indices@,
        indices@.len() > 0 && data@.len() > 0 ==> {
            let d = distinct_values(indices@);
            &&& res.0@.len() == indices@.len()
            &&& forall|i: int|
                0 <= i < indices@.len() ==> #[trigger] res.0@[i] < d.len() && d[res.0@[i] as int]
                    == indices@[i]
        },
{
    let new_data = data_copy(data);
    if indices.len() == 0 || data.len() == 0 {
        return (data_copy(indices), new_data);
    }
    let mut first_occurs: Vec<usize> = vec![usize::MAX; data.len()];
    let mut curr_occurance: usize = 0;
    let mut p: usize = 0;
    while p < indices.len()
        invariant
            p <= indices@.len(),
            first_occurs@.len() == data@.len(),
            data@.len() <= u32::MAX + 1,
            forall|i: int| 0 <= i < indices@.len() ==> #[trigger] indices@[i] < data@.len(),
            curr_occurance == distinct_values(indices@.take(p as int)).len(),
            curr_occurance <= p,
            forall|x: int|
                0 <= x < data@.len() ==> {
                    let d = distinct_values(indices@.take(p as int));
                    if d.contains(x as IndexType) {
                        (#[trigger] first_occurs@[x]) < d.len() && d[first_occurs@[x] as int] == x
                    } else {
                        first_occurs@[x] == usize::MAX
                    }
                },
        decreases indices@.len() - p,
    {
        let index = indices[p] as usize;
        let ghost before = distinct_values(indices@.take(p as int));
        proof {
            assert(indices@.take(p + 1).drop_last() =~= indices@.take(p as int));
            assert(indices@.take(p + 1).last() == indices@[p as int]);
        }
        if first_occurs[index] > curr_occurance {
            first_occurs.set(index, curr_occurance);
            curr_occurance = curr_occurance + 1;
        }
        proof {
            let after = distinct_values(indices@.take(p + 1));
            assert forall|x: int| 0 <= x < data@.len() implies {
                if after.contains(x as IndexType) {
                    (#[trigger] first_occurs@[x]) < after.len() && after[first_occurs@[x] as int] == x
                } else {
                    first_occurs@[x] == usize::MAX
                }
            } by {
                if before.contains(indices@[p as int]) {
                } else {
                    if x == index {
                        assert(after[before.len() as int] == x);
                    } else if after.contains(x as IndexType) {
                        let k = choose|k: int| 0 <= k < after.len() && after[k] == x as IndexType;
                        if k < before.len() {
                            assert(before[k] == x as IndexType);
                        }
                    } else {
                        assert forall|k: int| 0 <= k < before.len() implies before[k] != x as IndexType by {
                            assert(after[k] == before[k]);
                        }
                    }
                }
            }
        }
        p = p + 1;
    }
    proof {
        assert(indices@.take(indices@.len() as int) =~= indices@);
    }
    let mut new_indices: Vec<IndexType> = Vec::new();
    let mut q: usize = 0;
    while q < indices.len()
        invariant
            q <= indices@.len(),
            first_occurs@.len() == data@.len(),
            data@.len() <= u32::MAX + 1,
            forall|i: int| 0 <= i < indices@.len() ==> #[trigger] indices@[i] < data@.len(),
            forall|x: int|
                0 <= x < data@.len() ==> {
                    let d = distinct_values(indices@);
                    if d.contains(x as IndexType) {
                        (#[trigger] first_occurs@[x]) < d.len() && d[first_occurs@[x] as int] == x
                    } else {
                        first_occurs@[x] == usize::MAX
                    }
                },
            new_indices@.len() == q,
            forall|i: int|
                0 <= i < q ==> #[trigger] new_indices@[i] < distinct_values(indices@).len()
                    && distinct_values(indices@)[new_indices@[i] as int] == indices@[i],
        decreases indices@.len() - q,
    {
        let index = indices[q] as usize;
        proof {
            lemma_distinct_values_contains(indices@, q as int);
            lemma_distinct_values_len(indices@, data@.len());
        }
        new_indices.push(first_occurs[index] as IndexType);
        q = q + 1;
    }
    (new_indices, new_data)
}

/// A copy of the elements of `data`.
fn data_copy<T: Copy>(data: &[T]) -> (res: Vec<T>)
    ensures
        res@ == data@,
{
    let mut res: Vec<T> = Vec::new();
    let mut i: usize = 0;
    while i < data.len()
        invariant
            i <= data@.len(),
            res@ == data@.take(i as int),
        decreases data@.len() - i,
    {
        res.push(data[i]);
        proof {
            assert(res@ =~= data@.take(i + 1));
        }
        i = i + 1;
    }
    proof {
        assert(data@.take(data@.len() as int) =~= data@);
    }
    res
}

/// Every value of `s` is among its distinct values.
proof fn lemma_distinct_values_contains(s: Seq<IndexType>, i: int)
    requires
        0 <= i < s.len(),
    ensures
        distinct_values(s).contains(s[i]),
    decreases s.len(),
{
    let before = distinct_values(s.drop_last());
    if i < s.len() - 1 {
        lemma_distinct_values_contains(s.drop_last(), i);
        let k = choose|k: int| 0 <= k < before.len() && before[k] == s[i];
        if !before.contains(s.last()) {
            assert(distinct_values(s)[k] == s[i]);
        }
    } else if !before.contains(s.last()) {
        assert(distinct_values(s)[before.len() as int] == s[i]);
    }
}

/// Where every value is below `bound`, there are at most `bound` distinct values.
proof fn lemma_distinct_values_len(s: Seq<IndexType>, bound: nat)
    requires
        forall|i: int| 0 <= i < s.len() ==> #[trigger] s[i] < bound,
    ensures
        distinct_values(s).len() <= bound,
        forall|k: int| 0 <= k < distinct_values(s).len() ==> #[trigger] distinct_values(s)[k] < bound,
        distinct_values(s).no_duplicates(),
    decreases s.len(),
{
    if s.len() > 0 {
        lemma_distinct_values_len(s.drop_last(), bound);
        let before = distinct_values(s.drop_last());
        if !before.contains(s.last()) {
            let after = before.push(s.last());
            lemma_bounded_distinct_len(after, bound);
        }
    }
}

/// A sequence of distinct values below `bound` has at most `bound` elements.
proof fn lemma_bounded_distinct_len(s: Seq<IndexType>, bound: nat)
    requires
        s.no_duplicates(),
        forall|k: int| 0 <= k < s.len() ==> #[trigger] s[k] < bound,
    ensures
        s.len() <= bound,
{
    let ints = s.map_values(|x: IndexType| x as int);
    assert(ints.no_duplicates()) by {
        assert forall|i: int, j: int| 0 <= i < j < ints.len() implies ints[i] != ints[j] by {
            assert(s[i] != s[j]);
        }
    }
    ints.unique_seq_to_set();
    let range = vstd::set_lib::set_int_range(0, bound as int);
    assert(ints.to_set().subset_of(range));
    vstd::set_lib::lemma_int_range(0, bound as int);
    vstd::set_lib::lemma_len_subset(ints.to_set(), range);
}

} // verus!
