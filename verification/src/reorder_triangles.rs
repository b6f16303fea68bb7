//! Reordering of triangles so that those whose indices change little from one to the next
//! come first.
use crate::unify_data::{index_arrays, same_lengths};
use crate::IndexType;
use vstd::prelude::*;

verus! {

/// The distance between two indices.
pub open spec fn index_distance(a: IndexType, b: IndexType) -> nat {
    if a >= b {
        (a - b) as nat
    } else {
        (b - a) as nat
    }
}

/// The largest change, over the arrays, from the index before position `p` (0 before the
/// first) to the index at `p`.
pub open spec fn max_delta(arrays: Seq<Seq<IndexType>>, p: int, k: nat) -> nat
    decreases k,
{
    if k == 0 {
        0
    } else {
        let before = if p == 0 {
            0
        } else {
            arrays[k - 1][p - 1]
        };
        let d = index_distance(arrays[k - 1][p], before);
        let rest = max_delta(arrays, p, (k - 1) as nat);
        if d > rest {
            d
        } else {
            rest
        }
    }
}

/// Triangle `i` changes little: the largest change at its three corners is below 16.
pub open spec fn is_close(arrays: Seq<Seq<IndexType>>, i: int) -> bool {
    let n = arrays.len();
    &&& max_delta(arrays, 3 * i, n) < 16
    &&& max_delta(arrays, 3 * i + 1, n) < 16
    &&& max_delta(arrays, 3 * i + 2, n) < 16
}

/// The index before position `p` of an array: 0 before the first.
pub open spec fn previous_index(a: Seq<IndexType>, p: int) -> int {
    if p == 0 {
        0
    } else {
        a[p - 1] as int
    }
}

/// The largest change at a position is below 16 exactly when, in every array, the index
/// there differs from the one before by less than 16.
pub proof fn lemma_max_delta_small(arrays: Seq<Seq<IndexType>>, p: int, n: nat)
    requires
        n <= arrays.len(),
        0 <= p,
        forall|k: int| 0 <= k < n ==> p < #[trigger] arrays[k].len(),
    ensures
        max_delta(arrays, p, n) < 16 <==> forall|k: int|
            0 <= k < n ==> -16 < (#[trigger] arrays[k])[p] - previous_index(arrays[k], p) < 16,
    decreases n,
{
    if n > 0 {
        lemma_max_delta_small(arrays, p, (n - 1) as nat);
        let k = n - 1;
        assert(p < arrays[k].len());
        if max_delta(arrays, p, n) < 16 {
            assert forall|k2: int| 0 <= k2 < n implies -16 < (#[trigger] arrays[k2])[p] - previous_index(
                arrays[k2],
                p,
            ) < 16 by {
                if k2 < k {
                    assert(max_delta(arrays, p, (n - 1) as nat) < 16);
                }
            }
        } else {
            if max_delta(arrays, p, (n - 1) as nat) >= 16 {
                let k2 = choose|k2: int|
                    0 <= k2 < n - 1 && !(-16 < (#[trigger] arrays[k2])[p] - previous_index(arrays[k2], p) < 16);
                assert(!(-16 < arrays[k2][p] - previous_index(arrays[k2], p) < 16));
            } else {
                assert(!(-16 < arrays[k][p] - previous_index(arrays[k], p) < 16));
            }
        }
    }
}

/// A triangle is put in the first group exactly when, in every array and at each of its
/// three corners, the index differs from the index before it by less than 16.
pub proof fn lemma_is_close_iff(arrays: Seq<Seq<IndexType>>, i: int)
    requires
        arrays.len() >= 1,
        forall|k: int| 0 <= k < arrays.len() ==> 0 <= 3 * i && 3 * i + 2 < (#[trigger] arrays[k]).len(),
    ensures
        is_close(arrays, i) <==> forall|k: int, p: int|
            0 <= k < arrays.len() && 3 * i <= p < 3 * i + 3 ==> -16 < #[trigger] arrays[k][p]
                - previous_index(arrays[k], p) < 16,
{
    let n = arrays.len();
    lemma_max_delta_small(arrays, 3 * i, n);
    lemma_max_delta_small(arrays, 3 * i + 1, n);
    lemma_max_delta_small(arrays, 3 * i + 2, n);
    if is_close(arrays, i) {
        assert forall|k: int, p: int| 0 <= k < n && 3 * i <= p < 3 * i + 3 implies -16
            < #[trigger] arrays[k][p] - previous_index(arrays[k], p) < 16 by {
            let c = p - 3 * i;
            if c == 0 {
                assert(-16 < arrays[k][3 * i] - previous_index(arrays[k], 3 * i) < 16);
            } else if c == 1 {
                assert(-16 < arrays[k][3 * i + 1] - previous_index(arrays[k], 3 * i + 1) < 16);
            } else {
                assert(-16 < arrays[k][3 * i + 2] - previous_index(arrays[k], 3 * i + 2) < 16);
            }
        }
    } else {
        if !(max_delta(arrays, 3 * i, n) < 16) {
            let k = choose|k: int| 0 <= k < n && !(-16 < (#[trigger] arrays[k])[3 * i] - previous_index(arrays[k], 3 * i) < 16);
            assert(!(-16 < arrays[k][3 * i + 0] - previous_index(arrays[k], 3 * i + 0) < 16));
        } else if !(max_delta(arrays, 3 * i + 1, n) < 16) {
            let k = choose|k: int| 0 <= k < n && !(-16 < (#[trigger] arrays[k])[3 * i + 1] - previous_index(arrays[k], 3 * i + 1) < 16);
            assert(!(-16 < arrays[k][3 * i + 1] - previous_index(arrays[k], 3 * i + 1) < 16));
        } else {
            let k = choose|k: int| 0 <= k < n && !(-16 < (#[trigger] arrays[k])[3 * i + 2] - previous_index(arrays[k], 3 * i + 2) < 16);
            assert(!(-16 < arrays[k][3 * i + 2] - previous_index(arrays[k], 3 * i + 2) < 16));
        }
    }
}

/// The corners, in array `k`, of those of the first `n` triangles that are close (or, for
/// `close == false`, that are not), in order.
pub open spec fn picked(arrays: Seq<Seq<IndexType>>, k: int, close: bool, n: nat) -> Seq<IndexType>
    decreases n,
{
    if n == 0 {
        Seq::empty()
    } else {
        let i = n - 1;
        let before = picked(arrays, k, close, (n - 1) as nat);
        if is_close(arrays, i) == close {
            before + seq![arrays[k][3 * i], arrays[k][3 * i + 1], arrays[k][3 * i + 2]]
        } else {
            before
        }
    }
}

/// The largest change at position `p` over the arrays.
fn delta_at(triangles: &[&[IndexType]], p: usize) -> (d: u64)
    requires
        triangles@.len() >= 1,
        same_lengths(index_arrays(triangles@), triangles@[0]@.len()),
        p < triangles@[0]@.len(),
    ensures
        d == max_delta(index_arrays(triangles@), p as int, triangles@.len() as nat),
{
    let ghost arrays = index_arrays(triangles@);
    let mut d: u64 = 0;
    let mut k: usize = 0;
    while k < triangles.len()
        invariant
            k <= triangles@.len(),
            arrays == index_arrays(triangles@),
            same_lengths(arrays, triangles@[0]@.len()),
            p < triangles@[0]@.len(),
            d == max_delta(arrays, p as int, k as nat),
            d <= u32::MAX,
        decreases triangles@.len() - k,
    {
        proof {
            assert(triangles@[k as int]@ == arrays[k as int]);
        }
        let curr = triangles[k][p];
        let last: IndexType = if p == 0 {
            0
        } else {
            triangles[k][p - 1]
        };
        let diff: u64 = if curr >= last {
            (curr - last) as u64
        } else {
            (last - curr) as u64
        };
        if diff > d {
            d = diff;
        }
        k = k + 1;
    }
    d
}

/// Reorders the triangles of the index arrays (equally long, at least one): first those
/// whose indices change little (by less than 16 at each corner, in every array, from the
/// index before), then the others, each group in its order. Indices after the last whole
/// triangle are left out.
pub fn reorder_triangles(triangles: &[&[IndexType]]) -> (res: Vec<Vec<IndexType>>)
    requires
        triangles@.len() >= 1,
        same_lengths(index_arrays(triangles@), triangles@[0]@.len()),
    ensures
        res@.len() == triangles@.len(),
        forall|k: int|
            0 <= k < triangles@.len() ==> #[trigger] res@[k]@ == picked(
                index_arrays(triangles@),
                k,
                true,
                triangles@[0]@.len() / 3,
            ) + picked(index_arrays(triangles@), k, false, triangles@[0]@.len() / 3),
{
    let ghost arrays = index_arrays(triangles@);
    let len = triangles[0].len();
    let mut max_deltas: Vec<u64> = Vec::new();
    let mut p: usize = 0;
    while p < len
        invariant
            p <= len == triangles@[0]@.len(),
            triangles@.len() >= 1,
            arrays == index_arrays(triangles@),
            same_lengths(arrays, len as nat),
            max_deltas@.len() == p,
            forall|q: int|
                0 <= q < p ==> #[trigger] max_deltas@[q] == max_delta(
                    arrays,
                    q,
                    triangles@.len() as nat,
                ),
        decreases len - p,
    {
        max_deltas.push(delta_at(triangles, p));
        p = p + 1;
    }
    let mut new_indices: Vec<Vec<IndexType>> = Vec::new();
    let mut k: usize = 0;
    while k < triangles.len()
        invariant
            k <= triangles@.len(),
            len == triangles@[0]@.len(),
            arrays == index_arrays(triangles@),
            same_lengths(arrays, len as nat),
            max_deltas@.len() == len,
            forall|q: int|
                0 <= q < len ==> #[trigger] max_deltas@[q] == max_delta(
                    arrays,
                    q,
                    triangles@.len() as nat,
                ),
            new_indices@.len() == k,
            forall|k2: int|
                0 <= k2 < k ==> #[trigger] new_indices@[k2]@ == picked(arrays, k2, true, len as nat / 3)
                    + picked(arrays, k2, false, len as nat / 3),
        decreases triangles@.len() - k,
    {
        let mut sorted: Vec<IndexType> = Vec::new();
        let mut unorganized: Vec<IndexType> = Vec::new();
        let mut i: usize = 0;
        proof {
            assert(triangles@[k as int]@ == arrays[k as int]);
        }
        while i < len / 3
            invariant
                i <= len / 3,
                k < triangles@.len(),
                len == triangles@[0]@.len(),
                arrays == index_arrays(triangles@),
                same_lengths(arrays, len as nat),
                triangles@[k as int]@ == arrays[k as int],
                max_deltas@.len() == len,
                forall|q: int|
                    0 <= q < len ==> #[trigger] max_deltas@[q] == max_delta(
                        arrays,
                        q,
                        triangles@.len() as nat,
                    ),
                sorted@ == picked(arrays, k as int, true, i as nat),
                unorganized@ == picked(arrays, k as int, false, i as nat),
            decreases len / 3 - i,
        {
            let a = max_deltas[i * 3];
            let b = max_deltas[i * 3 + 1];
            let c = max_deltas[i * 3 + 2];
            let max = if a > b {
                a
            } else {
                b
            };
            let max = if max > c {
                max
            } else {
                c
            };
            let row = triangles[k];
            if max < 16 {
                sorted.push(row[i * 3]);
                sorted.push(row[i * 3 + 1]);
                sorted.push(row[i * 3 + 2]);
            } else {
                unorganized.push(row[i * 3]);
                unorganized.push(row[i * 3 + 1]);
                unorganized.push(row[i * 3 + 2]);
            }
            proof {
                let n = triangles@.len() as nat;
                assert(is_close(arrays, i as int) == (max < 16));
                assert(sorted@ =~= picked(arrays, k as int, true, (i + 1) as nat));
                assert(unorganized@ =~= picked(arrays, k as int, false, (i + 1) as nat));
            }
            i = i + 1;
        }
        let ghost first = sorted@;
        sorted.append(&mut unorganized);
        proof {
            assert(sorted@ =~= first + picked(arrays, k as int, false, len as nat / 3));
        }
        new_indices.push(sorted);
        k = k + 1;
    }
    new_indices
}

/// Reordering keeps every whole triangle: the close and the other triangles together are
/// all of them, so each reordered array holds three indices per whole triangle.
pub proof fn lemma_reorder_keeps_all(arrays: Seq<Seq<IndexType>>, k: int, n: nat)
    ensures
        picked(arrays, k, true, n).len() + picked(arrays, k, false, n).len() == 3 * n,
    decreases n,
{
    if n > 0 {
        lemma_reorder_keeps_all(arrays, k, (n - 1) as nat);
    }
}

} // verus!
