//! Unification of several index arrays into one: every distinct combination of indices
//! (one from each array, at the same position) becomes one new element, and one array of
//! new indices replaces them all.
use crate::IndexType;
use std::collections::HashMap;
use vstd::arithmetic::power2::{lemma_pow2_adds, lemma_pow2_pos, pow2};
use vstd::prelude::*;

verus! {

broadcast use vstd::std_specs::hash::group_hash_axioms;

/// The contents of the index arrays.
pub open spec fn index_arrays(indices: Seq<&[IndexType]>) -> Seq<Seq<IndexType>> {
    indices.map_values(|s: &[IndexType]| s@)
}

/// The combination of indices at position `p`: the `p`-th index of each array.
pub open spec fn combo(arrays: Seq<Seq<IndexType>>, p: int) -> Seq<IndexType> {
    Seq::new(arrays.len(), |k: int| arrays[k][p])
}

/// The positions, among the first `n`, where a combination appears for the first time, in
/// increasing order.
pub open spec fn first_positions(arrays: Seq<Seq<IndexType>>, n: nat) -> Seq<nat>
    decreases n,
{
    if n == 0 {
        Seq::empty()
    } else {
        let before = first_positions(arrays, (n - 1) as nat);
        if exists|q: int| 0 <= q < n - 1 && #[trigger] combo(arrays, q) == combo(arrays, n - 1) {
            before
        } else {
            before.push((n - 1) as nat)
        }
    }
}

/// All arrays have `len` elements.
pub open spec fn same_lengths(arrays: Seq<Seq<IndexType>>, len: nat) -> bool {
    forall|k: int| 0 <= k < arrays.len() ==> #[trigger] arrays[k].len() == len
}

/// The number a combination stands for: its indices as the digits, most significant first,
/// of a number in base `2^32`.
pub open spec fn pack(c: Seq<IndexType>) -> nat
    decreases c.len(),
{
    if c.len() == 0 {
        0
    } else {
        pack(c.drop_last()) * pow2(32) + c.last() as nat
    }
}

/// Two combinations of the same length stand for the same number only where they are equal.
pub proof fn lemma_pack_injective(a: Seq<IndexType>, b: Seq<IndexType>)
    requires
        a.len() == b.len(),
        pack(a) == pack(b),
    ensures
        a == b,
    decreases a.len(),
{
    if a.len() > 0 {
        vstd::arithmetic::power2::lemma2_to64();
        let (pa, pb) = (pack(a.drop_last()), pack(b.drop_last()));
        vstd::arithmetic::div_mod::lemma_fundamental_div_mod_converse(
            pack(a) as int,
            pow2(32) as int,
            pa as int,
            a.last() as int,
        );
        vstd::arithmetic::div_mod::lemma_fundamental_div_mod_converse(
            pack(b) as int,
            pow2(32) as int,
            pb as int,
            b.last() as int,
        );
        lemma_pack_injective(a.drop_last(), b.drop_last());
        assert(a =~= a.drop_last().push(a.last()));
        assert(b =~= b.drop_last().push(b.last()));
    }
}

/// The number stands below `2^(32 * length)`.
pub proof fn lemma_pack_bound(c: Seq<IndexType>)
    ensures
        pack(c) < pow2(32 * c.len()),
    decreases c.len(),
{
    vstd::arithmetic::power2::lemma2_to64();
    if c.len() > 0 {
        let n = c.len();
        lemma_pack_bound(c.drop_last());
        lemma_pow2_adds(32 * (n - 1) as nat, 32);
        let p = pack(c.drop_last());
        assert(p * pow2(32) + c.last() < pow2(32 * (n - 1) as nat) * pow2(32)) by (nonlinear_arith)
            requires
                p < pow2(32 * (n - 1) as nat),
                c.last() < pow2(32),
        ;
        assert(32 * (n - 1) as nat + 32 == 32 * n);
    }
}

/// Where the combination at `q` stands in `firsts`, the list of first positions.
spec fn covered(arrays: Seq<Seq<IndexType>>, firsts: Seq<nat>, q: int) -> bool {
    exists|j: int| 0 <= j < firsts.len() && combo(arrays, firsts[j] as int) == combo(arrays, q)
}

/// The first positions lie before `n`, increase, and hold distinct combinations, and every
/// combination before `n` is among them.
proof fn lemma_first_positions(arrays: Seq<Seq<IndexType>>, n: nat)
    ensures
        forall|j: int|
            0 <= j < first_positions(arrays, n).len() ==> #[trigger] first_positions(arrays, n)[j]
                < n,
        forall|i: int, j: int|
            0 <= i < j < first_positions(arrays, n).len() ==> combo(
                arrays,
                #[trigger] first_positions(arrays, n)[i] as int,
            ) != combo(arrays, #[trigger] first_positions(arrays, n)[j] as int),
        forall|q: int| 0 <= q < n ==> covered(arrays, first_positions(arrays, n), q),
        first_positions(arrays, n).len() <= n,
    decreases n,
{
    if n > 0 {
        lemma_first_positions(arrays, (n - 1) as nat);
        let before = first_positions(arrays, (n - 1) as nat);
        let f = first_positions(arrays, n);
        if exists|q: int| 0 <= q < n - 1 && #[trigger] combo(arrays, q) == combo(arrays, n - 1) {
            let q = choose|q: int| 0 <= q < n - 1 && #[trigger] combo(arrays, q) == combo(arrays, n - 1);
            assert(covered(arrays, before, q));
            assert forall|r: int| 0 <= r < n implies covered(arrays, f, r) by {
                if r < n - 1 {
                    assert(covered(arrays, before, r));
                } else {
                    assert(covered(arrays, before, q));
                }
            }
        } else {
            assert forall|i: int, j: int| 0 <= i < j < f.len() implies combo(
                arrays,
                #[trigger] f[i] as int,
            ) != combo(arrays, #[trigger] f[j] as int) by {
                if j == f.len() - 1 {
                    assert(f[i] == before[i]);
                }
            }
            assert forall|r: int| 0 <= r < n implies covered(arrays, f, r) by {
                if r < n - 1 {
                    assert(covered(arrays, before, r));
                    let j = choose|j: int|
                        0 <= j < before.len() && combo(arrays, before[j] as int) == combo(arrays, r);
                    assert(f[j] == before[j]);
                } else {
                    assert(f[f.len() - 1] == r);
                }
            }
        }
    }
}

/// `new_indices` replaces the index arrays: it has their length, and at each position the
/// number, among the combinations in order of first appearance, of the combination there.
pub open spec fn unifies(arrays: Seq<Seq<IndexType>>, new_indices: Seq<IndexType>) -> bool {
    let firsts = first_positions(arrays, arrays[0].len());
    &&& new_indices.len() == arrays[0].len()
    &&& forall|p: int|
        0 <= p < arrays[0].len() ==> #[trigger] new_indices[p] < firsts.len() && combo(
            arrays,
            firsts[new_indices[p] as int] as int,
        ) == combo(arrays, p)
}

/// The `k`-th index of each distinct combination, in order of first appearance.
pub open spec fn unified_column(arrays: Seq<Seq<IndexType>>, k: int) -> Seq<IndexType> {
    let firsts = first_positions(arrays, arrays[0].len());
    Seq::new(firsts.len(), |j: int| arrays[k][firsts[j] as int])
}

/// The elements of `data` that the distinct combinations point at through their `k`-th
/// index, in order of first appearance.
pub open spec fn gathered<T>(data: Seq<T>, arrays: Seq<Seq<IndexType>>, k: int) -> Seq<T> {
    unified_column(arrays, k).map_values(|i: IndexType| data[i as int])
}

/// The number the combination at position `p` stands for.
fn combo_key(indices: &[&[IndexType]], p: usize) -> (key: u128)
    requires
        1 <= indices@.len() <= 4,
        same_lengths(index_arrays(indices@), indices@[0]@.len()),
        p < indices@[0]@.len(),
    ensures
        key == pack(combo(index_arrays(indices@), p as int)),
{
    let ghost arrays = index_arrays(indices@);
    let ghost c = combo(arrays, p as int);
    let mut key: u128 = 0;
    let mut k: usize = 0;
    proof {
        vstd::arithmetic::power2::lemma2_to64();
        assert(c.take(0) =~= Seq::<IndexType>::empty());
    }
    while k < indices.len()
        invariant
            k <= indices@.len() <= 4,
            arrays == index_arrays(indices@),
            c == combo(arrays, p as int),
            same_lengths(arrays, indices@[0]@.len()),
            p < indices@[0]@.len(),
            key == pack(c.take(k as int)),
        decreases indices@.len() - k,
    {
        proof {
            lemma_pack_bound(c.take(k as int));
            if k < 3 {
                vstd::arithmetic::power2::lemma_pow2_strictly_increases(32 * k as nat, 96);
            }
            vstd::arithmetic::power2::lemma_pow2_adds(96, 32);
            vstd::arithmetic::power2::lemma2_to64();
            assert(indices@[k as int]@.len() == arrays[k as int].len());
            assert(key * pow2(32) + 0xffff_ffff < pow2(128)) by (nonlinear_arith)
                requires
                    key < pow2(96),
                    pow2(96) * pow2(32) == pow2(128),
                    pow2(32) == 0x1_0000_0000,
            ;
            vstd::arithmetic::power2::lemma_pow2_adds(64, 64);
            assert(pow2(128) == 0x1_0000_0000_0000_0000_0000_0000_0000_0000) by (nonlinear_arith)
                requires
                    pow2(128) == pow2(64) * pow2(64),
                    pow2(64) == 0x1_0000_0000_0000_0000,
            ;
            assert(c.take(k + 1).drop_last() =~= c.take(k as int));
        }
        key = key * 0x1_0000_0000 + indices[k][p] as u128;
        k = k + 1;
    }
    proof {
        assert(c.take(indices@.len() as int) =~= c);
    }
    key
}

/// The new index of each position and the first position of each combination: `firsts`
/// holds the first positions of the combinations in order, and the new index at each
/// position is the number of its combination among them.
pub open spec fn first_ids(arrays: Seq<Seq<IndexType>>, new_indices: Seq<IndexType>, firsts: Seq<usize>) -> bool {
    let len = arrays[0].len();
    &&& firsts.map_values(|f: usize| f as nat) == first_positions(arrays, len)
    &&& new_indices.len() == len
    &&& forall|q: int|
        0 <= q < len ==> #[trigger] new_indices[q] < firsts.len() && combo(
            arrays,
            firsts[new_indices[q] as int] as int,
        ) == combo(arrays, q)
}

/// Finds the combinations by the number each stands for, kept in a map (for one to four
/// arrays, whose combinations fit in 128 bits).
fn first_ids_packed(indices: &[&[IndexType]]) -> (res: (Vec<IndexType>, Vec<usize>))
    requires
        1 <= indices@.len() <= 4,
        same_lengths(index_arrays(indices@), indices@[0]@.len()),
        indices@[0]@.len() <= u32::MAX + 1,
    ensures
        first_ids(index_arrays(indices@), res.0@, res.1@),
{
    let ghost arrays = index_arrays(indices@);
    let len = indices[0].len();
    let mut combos: HashMap<u128, usize> = HashMap::new();
    let mut firsts: Vec<usize> = Vec::new();
    let mut new_indices: Vec<IndexType> = Vec::new();
    let mut p: usize = 0;
    while p < len
        invariant
            p <= len,
            len == indices@[0]@.len(),
            len <= u32::MAX + 1,
            1 <= indices@.len() <= 4,
            arrays == index_arrays(indices@),
            same_lengths(arrays, len as nat),
            firsts@.map_values(|f: usize| f as nat) == first_positions(arrays, p as nat),
            new_indices@.len() == p,
            forall|q: int|
                0 <= q < p ==> #[trigger] new_indices@[q] < firsts@.len() && combo(
                    arrays,
                    firsts@[new_indices@[q] as int] as int,
                ) == combo(arrays, q),
            forall|key: u128|
                #[trigger] combos@.contains_key(key) ==> combos@[key] < firsts@.len() && key
                    == pack(combo(arrays, firsts@[combos@[key] as int] as int)),
            forall|j: int|
                0 <= j < firsts@.len() ==> #[trigger] combos@.contains_key(
                    pack(combo(arrays, firsts@[j] as int)) as u128,
                ) && combos@[pack(combo(arrays, firsts@[j] as int)) as u128] == j,
        decreases len - p,
    {
        proof {
            lemma_first_positions(arrays, p as nat);
        }
        let key = combo_key(indices, p);
        let ghost fp = first_positions(arrays, p as nat);
        let id: usize = match combos.get(&key) {
            Some(id) => {
                let id = *id;
                proof {
                    let f = firsts@[id as int] as int;
                    assert(fp[id as int] == f);
                    lemma_pack_injective(combo(arrays, f), combo(arrays, p as int));
                    assert(first_positions(arrays, (p + 1) as nat) == fp);
                }
                id
            },
            None => {
                let id = firsts.len();
                proof {
                    assert forall|q: int| 0 <= q < p implies combo(arrays, q) != combo(
                        arrays,
                        p as int,
                    ) by {
                        assert(covered(arrays, fp, q));
                        let j = choose|j: int|
                            0 <= j < fp.len() && combo(arrays, fp[j] as int) == combo(arrays, q);
                        assert(fp[j] == firsts@[j]);
                        if combo(arrays, q) == combo(arrays, p as int) {
                            assert(combos@.contains_key(
                                pack(combo(arrays, firsts@[j] as int)) as u128,
                            ));
                        }
                    }
                }
                let ghost firsts_before = firsts@;
                let ghost old_combos = combos@;
                combos.insert(key, id);
                firsts.push(p);
                proof {
                    assert(firsts@.map_values(|f: usize| f as nat) =~= first_positions(
                        arrays,
                        (p + 1) as nat,
                    ));
                    assert forall|k2: u128| #[trigger] combos@.contains_key(k2) implies combos@[k2]
                        < firsts@.len() && k2 == pack(
                        combo(arrays, firsts@[combos@[k2] as int] as int),
                    ) by {}
                    assert forall|j: int| 0 <= j < firsts@.len() implies #[trigger] combos@.contains_key(
                        pack(combo(arrays, firsts@[j] as int)) as u128,
                    ) && combos@[pack(combo(arrays, firsts@[j] as int)) as u128] == j by {
                        if j < id {
                            assert(firsts@[j] == firsts_before[j]);
                            let kj = pack(combo(arrays, firsts@[j] as int)) as u128;
                            let fj = firsts_before[j] as int;
                            assert(old_combos.contains_key(kj));
                            assert(kj == pack(combo(arrays, fj)));
                            assert(fp[j] == fj);
                            if kj == key {
                                lemma_pack_injective(combo(arrays, fj), combo(arrays, p as int));
                            }
                        } else {
                            assert(firsts@[j] == p);
                            assert(pack(combo(arrays, p as int)) == key);
                            assert(pack(combo(arrays, p as int)) as u128 == key);
                        }
                    }
                }
                id
            },
        };
        assert(forall|j: int|
            0 <= j < firsts@.len() ==> #[trigger] combos@.contains_key(
                pack(combo(arrays, firsts@[j] as int)) as u128,
            ) && combos@[pack(combo(arrays, firsts@[j] as int)) as u128] == j);
        new_indices.push(id as IndexType);
        p = p + 1;
    }
    (new_indices, firsts)
}

/// Whether the combinations at positions `p` and `q` are equal.
fn same_combo(indices: &[&[IndexType]], p: usize, q: usize) -> (res: bool)
    requires
        1 <= indices@.len(),
        same_lengths(index_arrays(indices@), indices@[0]@.len()),
        p < indices@[0]@.len(),
        q < indices@[0]@.len(),
    ensures
        res == (combo(index_arrays(indices@), p as int) == combo(index_arrays(indices@), q as int)),
{
    let ghost arrays = index_arrays(indices@);
    let mut k: usize = 0;
    while k < indices.len()
        invariant
            k <= indices@.len(),
            arrays == index_arrays(indices@),
            same_lengths(arrays, indices@[0]@.len()),
            p < indices@[0]@.len(),
            q < indices@[0]@.len(),
            forall|k2: int| 0 <= k2 < k ==> #[trigger] arrays[k2][p as int] == arrays[k2][q as int],
        decreases indices@.len() - k,
    {
        proof {
            assert(arrays[k as int].len() == indices@[0]@.len());
        }
        if indices[k][p] != indices[k][q] {
            proof {
                assert(combo(arrays, p as int)[k as int] != combo(arrays, q as int)[k as int]);
            }
            return false;
        }
        k = k + 1;
    }
    proof {
        assert(combo(arrays, p as int) =~= combo(arrays, q as int));
    }
    true
}

/// The number, among the combinations at `firsts`, of the one equal to the combination at
/// `p`, if there is one.
fn find_combo(indices: &[&[IndexType]], firsts: &Vec<usize>, p: usize) -> (res: Option<usize>)
    requires
        1 <= indices@.len(),
        same_lengths(index_arrays(indices@), indices@[0]@.len()),
        p < indices@[0]@.len(),
        forall|j: int| 0 <= j < firsts@.len() ==> #[trigger] firsts@[j] < indices@[0]@.len(),
    ensures
        match res {
            Some(j) => j < firsts@.len() && combo(index_arrays(indices@), firsts@[j as int] as int)
                == combo(index_arrays(indices@), p as int),
            None => forall|j: int|
                0 <= j < firsts@.len() ==> combo(index_arrays(indices@), #[trigger] firsts@[j] as int)
                    != combo(index_arrays(indices@), p as int),
        },
{
    let mut j: usize = 0;
    while j < firsts.len()
        invariant
            j <= firsts@.len(),
            1 <= indices@.len(),
            same_lengths(index_arrays(indices@), indices@[0]@.len()),
            p < indices@[0]@.len(),
            forall|j2: int| 0 <= j2 < firsts@.len() ==> #[trigger] firsts@[j2] < indices@[0]@.len(),
            forall|j2: int|
                0 <= j2 < j ==> combo(index_arrays(indices@), #[trigger] firsts@[j2] as int)
                    != combo(index_arrays(indices@), p as int),
        decreases firsts@.len() - j,
    {
        if same_combo(indices, firsts[j], p) {
            return Some(j);
        }
        j = j + 1;
    }
    None
}

/// Finds the combinations by comparing each with those seen before (for any number of arrays).
fn first_ids_searched(indices: &[&[IndexType]]) -> (res: (Vec<IndexType>, Vec<usize>))
    requires
        1 <= indices@.len(),
        same_lengths(index_arrays(indices@), indices@[0]@.len()),
        indices@[0]@.len() <= u32::MAX + 1,
    ensures
        first_ids(index_arrays(indices@), res.0@, res.1@),
{
    let ghost arrays = index_arrays(indices@);
    let len = indices[0].len();
    let mut firsts: Vec<usize> = Vec::new();
    let mut new_indices: Vec<IndexType> = Vec::new();
    let mut p: usize = 0;
    while p < len
        invariant
            p <= len,
            len == indices@[0]@.len(),
            len <= u32::MAX + 1,
            1 <= indices@.len(),
            arrays == index_arrays(indices@),
            same_lengths(arrays, len as nat),
            firsts@.map_values(|f: usize| f as nat) == first_positions(arrays, p as nat),
            new_indices@.len() == p,
            forall|q: int|
                0 <= q < p ==> #[trigger] new_indices@[q] < firsts@.len() && combo(
                    arrays,
                    firsts@[new_indices@[q] as int] as int,
                ) == combo(arrays, q),
        decreases len - p,
    {
        proof {
            lemma_first_positions(arrays, p as nat);
        }
        let ghost fp = first_positions(arrays, p as nat);
        proof {
            assert forall|j: int| 0 <= j < firsts@.len() implies #[trigger] firsts@[j] < len by {
                assert(firsts@.map_values(|f: usize| f as nat)[j] == firsts@[j] as nat);
            }
        }
        let id: usize = match find_combo(indices, &firsts, p) {
            Some(id) => {
                proof {
                    let f = firsts@[id as int] as int;
                    assert(firsts@.map_values(|f: usize| f as nat)[id as int] == f);
                    assert(fp[id as int] == f);
                    assert(0 <= f < p && combo(arrays, f) == combo(arrays, p as int));
                    assert(first_positions(arrays, (p + 1) as nat) == fp);
                }
                id
            },
            None => {
                let id = firsts.len();
                proof {
                    assert forall|q: int| 0 <= q < p implies combo(arrays, q) != combo(
                        arrays,
                        p as int,
                    ) by {
                        assert(covered(arrays, fp, q));
                        let j = choose|j: int|
                            0 <= j < fp.len() && combo(arrays, fp[j] as int) == combo(arrays, q);
                        assert(firsts@.map_values(|f: usize| f as nat)[j] == firsts@[j] as nat);
                        assert(fp[j] == firsts@[j]);
                    }
                }
                firsts.push(p);
                proof {
                    assert(firsts@.map_values(|f: usize| f as nat) =~= first_positions(
                        arrays,
                        (p + 1) as nat,
                    ));
                }
                id
            },
        };
        proof {
            assert(id < firsts@.len() <= p + 1 <= len);
        }
        new_indices.push(id as IndexType);
        p = p + 1;
    }
    (new_indices, firsts)
}

/// Unifies the index arrays (of equal length; at least one of them): gives, for each
/// position, the number of its combination of indices in the order in which combinations
/// first appear, and for each array the index each of those combinations holds.
pub fn unfiy_data_common(indices: &[&[IndexType]]) -> (res: (Vec<IndexType>, Vec<Vec<IndexType>>))
    requires
        1 <= indices@.len(),
        same_lengths(index_arrays(indices@), indices@[0]@.len()),
        indices@[0]@.len() <= u32::MAX + 1,
    ensures
        unifies(index_arrays(indices@), res.0@),
        res.1@.len() == indices@.len(),
        forall|k: int|
            0 <= k < indices@.len() ==> #[trigger] res.1@[k]@ == unified_column(
                index_arrays(indices@),
                k,
            ),
{
    let ghost arrays = index_arrays(indices@);
    let len = indices[0].len();
    let (new_indices, firsts) = if indices.len() <= 4 {
        first_ids_packed(indices)
    } else {
        first_ids_searched(indices)
    };
    proof {
        lemma_first_positions(arrays, len as nat);
        assert forall|j: int| 0 <= j < firsts@.len() implies firsts@[j] as nat == first_positions(
            arrays,
            len as nat,
        )[j] && #[trigger] firsts@[j] < len by {
            assert(firsts@.map_values(|f: usize| f as nat)[j] == firsts@[j] as nat);
        }
    }
    let mut data_map: Vec<Vec<IndexType>> = Vec::new();
    let mut k: usize = 0;
    while k < indices.len()
        invariant
            k <= indices@.len(),
            arrays == index_arrays(indices@),
            same_lengths(arrays, len as nat),
            len == indices@[0]@.len(),
            forall|j: int| 0 <= j < firsts@.len() ==> #[trigger] firsts@[j] < len,
            data_map@.len() == k,
            forall|k2: int|
                0 <= k2 < k ==> #[trigger] data_map@[k2]@ == Seq::new(
                    firsts@.len(),
                    |j: int| arrays[k2][firsts@[j] as int],
                ),
        decreases indices@.len() - k,
    {
        let mut column: Vec<IndexType> = Vec::new();
        let mut j: usize = 0;
        while j < firsts.len()
            invariant
                j <= firsts@.len(),
                k < indices@.len(),
                arrays == index_arrays(indices@),
                same_lengths(arrays, len as nat),
                forall|j2: int| 0 <= j2 < firsts@.len() ==> #[trigger] firsts@[j2] < len,
                column@ == Seq::new(j as nat, |j2: int| arrays[k as int][firsts@[j2] as int]),
            decreases firsts@.len() - j,
        {
            proof {
                assert(arrays[k as int].len() == len);
            }
            column.push(indices[k][firsts[j]]);
            proof {
                assert(column@ =~= Seq::new(
                    (j + 1) as nat,
                    |j2: int| arrays[k as int][firsts@[j2] as int],
                ));
            }
            j = j + 1;
        }
        data_map.push(column);
        k = k + 1;
    }
    (new_indices, data_map)
}


/// Unification keeps every index: at each position, the new index picks out a combination
/// that holds, in every array, the index that stood there.
pub proof fn lemma_unified_lookup(arrays: Seq<Seq<IndexType>>, new_indices: Seq<IndexType>, k: int, p: int)
    requires
        unifies(arrays, new_indices),
        0 <= k < arrays.len(),
        0 <= p < arrays[0].len(),
    ensures
        unified_column(arrays, k)[new_indices[p] as int] == arrays[k][p],
{
    let firsts = first_positions(arrays, arrays[0].len());
    assert(combo(arrays, firsts[new_indices[p] as int] as int)[k] == combo(arrays, p)[k]);
}

/// The new indices are determined by the index arrays: two arrays of new indices that both
/// replace them are equal.
pub proof fn lemma_unifies_unique(arrays: Seq<Seq<IndexType>>, a: Seq<IndexType>, b: Seq<IndexType>)
    requires
        unifies(arrays, a),
        unifies(arrays, b),
    ensures
        a == b,
{
    let n = arrays[0].len();
    let firsts = first_positions(arrays, n);
    lemma_first_positions(arrays, n);
    assert forall|p: int| 0 <= p < n implies a[p] == b[p] by {
        if a[p] < b[p] {
            assert(combo(arrays, firsts[a[p] as int] as int) != combo(arrays, firsts[b[p] as int] as int));
        } else if b[p] < a[p] {
            assert(combo(arrays, firsts[b[p] as int] as int) != combo(arrays, firsts[a[p] as int] as int));
        }
    }
    assert(a =~= b);
}

/// The index arrays can be merged over data of the given lengths: they are equally long, at
/// most `2^32` each, and every index points into its data.
pub open spec fn merge_fits(arrays: Seq<Seq<IndexType>>, lens: Seq<nat>) -> bool {
    &&& arrays.len() == lens.len()
    &&& 1 <= arrays.len()
    &&& same_lengths(arrays, arrays[0].len())
    &&& arrays[0].len() <= u32::MAX + 1
    &&& forall|k: int, p: int|
        0 <= k < arrays.len() && 0 <= p < arrays[0].len() ==> #[trigger] arrays[k][p] < lens[k]
}

/// Every entry of a unified column is an index that stood in the array.
proof fn lemma_column_in_range(arrays: Seq<Seq<IndexType>>, lens: Seq<nat>, k: int)
    requires
        merge_fits(arrays, lens),
        0 <= k < arrays.len(),
    ensures
        forall|j: int|
            0 <= j < unified_column(arrays, k).len() ==> #[trigger] unified_column(arrays, k)[j]
                < lens[k],
{
    let n = arrays[0].len();
    lemma_first_positions(arrays, n);
    let firsts = first_positions(arrays, n);
    assert forall|j: int| 0 <= j < unified_column(arrays, k).len() implies #[trigger] unified_column(
        arrays,
        k,
    )[j] < lens[k] by {
        assert(firsts[j] < n);
        assert(arrays[k][firsts[j] as int] < lens[k]);
    }
}

/// The elements of `data` at the indices of `map`.
fn gather<T: Copy>(data: &[T], map: &[IndexType]) -> (res: Vec<T>)
    requires
        forall|i: int| 0 <= i < map@.len() ==> #[trigger] map@[i] < data@.len(),
    ensures
        res@ == map@.map_values(|i: IndexType| data@[i as int]),
{
    let mut res: Vec<T> = Vec::new();
    let mut i: usize = 0;
    while i < map.len()
        invariant
            i <= map@.len(),
            forall|i2: int| 0 <= i2 < map@.len() ==> #[trigger] map@[i2] < data@.len(),
            res@ == map@.take(i as int).map_values(|x: IndexType| data@[x as int]),
        decreases map@.len() - i,
    {
        res.push(data[map[i] as usize]);
        proof {
            assert(res@ =~= map@.take(i + 1).map_values(|x: IndexType| data@[x as int]));
        }
        i = i + 1;
    }
    proof {
        assert(map@.take(map@.len() as int) =~= map@);
    }
    res
}

/// Unifies two index arrays and the data they point into.
pub fn merge_data_2<A: Copy, B: Copy>(indices: &[&[IndexType]; 2], a: &[A], b: &[B]) -> (res: (
    Vec<IndexType>,
    Vec<A>,
    Vec<B>,
))
    requires
        merge_fits(index_arrays(indices@), seq![a@.len(), b@.len()]),
    ensures
        unifies(index_arrays(indices@), res.0@),
        res.1@ == gathered(a@, index_arrays(indices@), 0),
        res.2@ == gathered(b@, index_arrays(indices@), 1),
{
    let ghost arrays = index_arrays(indices@);
    let ghost lens = seq![a@.len(), b@.len()];
    let (new_indices, index_map) = unfiy_data_common(indices.as_slice());
    proof {
        lemma_column_in_range(arrays, lens, 0);
        lemma_column_in_range(arrays, lens, 1);
    }
    let a = gather(a, index_map[0].as_slice());
    let b = gather(b, index_map[1].as_slice());
    (new_indices, a, b)
}

/// Unifies three index arrays and the data they point into.
pub fn merge_data_3<A: Copy, B: Copy, C: Copy>(
    indices: &[&[IndexType]; 3],
    a: &[A],
    b: &[B],
    c: &[C],
) -> (res: (Vec<IndexType>, Vec<A>, Vec<B>, Vec<C>))
    requires
        merge_fits(index_arrays(indices@), seq![a@.len(), b@.len(), c@.len()]),
    ensures
        unifies(index_arrays(indices@), res.0@),
        res.1@ == gathered(a@, index_arrays(indices@), 0),
        res.2@ == gathered(b@, index_arrays(indices@), 1),
        res.3@ == gathered(c@, index_arrays(indices@), 2),
{
    let ghost arrays = index_arrays(indices@);
    let ghost lens = seq![a@.len(), b@.len(), c@.len()];
    let (new_indices, index_map) = unfiy_data_common(indices.as_slice());
    proof {
        lemma_column_in_range(arrays, lens, 0);
        lemma_column_in_range(arrays, lens, 1);
        lemma_column_in_range(arrays, lens, 2);
    }
    let a = gather(a, index_map[0].as_slice());
    let b = gather(b, index_map[1].as_slice());
    let c = gather(c, index_map[2].as_slice());
    (new_indices, a, b, c)
}

/// Unifies four index arrays and the data they point into.
pub fn merge_data_4<A: Copy, B: Copy, C: Copy, D: Copy>(
    indices: &[&[IndexType]; 4],
    a: &[A],
    b: &[B],
    c: &[C],
    d: &[D],
) -> (res: (Vec<IndexType>, Vec<A>, Vec<B>, Vec<C>, Vec<D>))
    requires
        merge_fits(index_arrays(indices@), seq![a@.len(), b@.len(), c@.len(), d@.len()]),
    ensures
        unifies(index_arrays(indices@), res.0@),
        res.1@ == gathered(a@, index_arrays(indices@), 0),
        res.2@ == gathered(b@, index_arrays(indices@), 1),
        res.3@ == gathered(c@, index_arrays(indices@), 2),
        res.4@ == gathered(d@, index_arrays(indices@), 3),
{
    let ghost arrays = index_arrays(indices@);
    let ghost lens = seq![a@.len(), b@.len(), c@.len(), d@.len()];
    let (new_indices, index_map) = unfiy_data_common(indices.as_slice());
    proof {
        lemma_column_in_range(arrays, lens, 0);
        lemma_column_in_range(arrays, lens, 1);
        lemma_column_in_range(arrays, lens, 2);
        lemma_column_in_range(arrays, lens, 3);
    }
    let a = gather(a, index_map[0].as_slice());
    let b = gather(b, index_map[1].as_slice());
    let c = gather(c, index_map[2].as_slice());
    let d = gather(d, index_map[3].as_slice());
    (new_indices, a, b, c, d)
}

/// Two of the given index arrays differ.
pub open spec fn merge_needed(indices: Seq<Option<&[IndexType]>>) -> bool {
    exists|i: int, j: int|
        0 <= i < indices.len() && 0 <= j < indices.len() && #[trigger] indices[i] is Some
            && #[trigger] indices[j] is Some && indices[i]->0@ != indices[j]->0@
}

/// The two slices hold the same indices.
pub fn slices_equal(a: &[IndexType], b: &[IndexType]) -> (res: bool)
    ensures
        res == (a@ == b@),
{
    if a.len() != b.len() {
        return false;
    }
    let mut i: usize = 0;
    while i < a.len()
        invariant
            i <= a@.len(),
            a@.len() == b@.len(),
            forall|j: int| 0 <= j < i ==> a@[j] == b@[j],
        decreases a@.len() - i,
    {
        if a[i] != b[i] {
            return false;
        }
        i = i + 1;
    }
    assert(a@ =~= b@);
    true
}

/// Whether the index arrays that are given differ, so that the data must be merged.
pub fn is_merge_needed(indices: &[Option<&[IndexType]>]) -> (res: bool)
    ensures
        res == merge_needed(indices@),
{
    let mut first: Option<&[IndexType]> = None;
    let mut i: usize = 0;
    while i < indices.len()
        invariant
            i <= indices@.len(),
            first is None ==> forall|j: int| 0 <= j < i ==> #[trigger] indices@[j] is None,
            first matches Some(f) ==> (exists|j: int| 0 <= j < i && #[trigger] indices@[j] == Some(f))
                && forall|j: int| 0 <= j < i && #[trigger] indices@[j] is Some ==> indices@[j]->0@ == f@,
        decreases indices@.len() - i,
    {
        match indices[i] {
            Some(array) => match first {
                None => {
                    first = Some(array);
                },
                Some(f) => {
                    if !slices_equal(array, f) {
                        proof {
                            let j = choose|j: int| 0 <= j < i && #[trigger] indices@[j] == Some(f);
                            assert(indices@[i as int] is Some && indices@[j] is Some);
                        }
                        return true;
                    }
                },
            },
            None => {},
        }
        i = i + 1;
    }
    proof {
        if merge_needed(indices@) {
            let (a, b) = choose|a: int, b: int|
                0 <= a < indices@.len() && 0 <= b < indices@.len() && #[trigger] indices@[a] is Some
                    && #[trigger] indices@[b] is Some && indices@[a]->0@ != indices@[b]->0@;
            assert(indices@[a] is Some);
        }
    }
    false
}

/// The slice has elements.
pub open spec fn nonempty<T>(data: Option<&[T]>) -> bool {
    data matches Some(d) && d@.len() > 0
}

/// The contents of given index arrays.
pub open spec fn given_arrays(indices: Seq<Option<&[IndexType]>>) -> Seq<Seq<IndexType>> {
    indices.map_values(|i: Option<&[IndexType]>| i->0@)
}

/// Two data arrays and their index arrays are merged: the index arrays differ and all four
/// are given.
pub open spec fn merges_2<A, B>(a: Option<&[A]>, b: Option<&[B]>, indices: Seq<Option<&[IndexType]>>) -> bool {
    merge_needed(indices) && a is Some && b is Some && indices[0] is Some && indices[1] is Some
}

/// Merging two data arrays, where it happens, does not panic.
pub open spec fn smart_2_ok<A, B>(a: Option<&[A]>, b: Option<&[B]>, indices: Seq<Option<&[IndexType]>>) -> bool {
    merges_2(a, b, indices) ==> merge_fits(given_arrays(indices), seq![a->0@.len(), b->0@.len()])
}

/// What merging two data arrays gives: the merged data and new indices where they are
/// merged, nothing otherwise.
pub open spec fn smart_2_result<A, B>(
    a: Option<&[A]>,
    b: Option<&[B]>,
    indices: Seq<Option<&[IndexType]>>,
    res: (Option<Vec<A>>, Option<Vec<B>>, Option<Vec<IndexType>>),
) -> bool {
    if merges_2(a, b, indices) {
        let arrays = given_arrays(indices);
        &&& res.0 matches Some(ra) && ra@ == gathered(a->0@, arrays, 0)
        &&& res.1 matches Some(rb) && rb@ == gathered(b->0@, arrays, 1)
        &&& res.2 matches Some(ri) && unifies(arrays, ri@)
    } else {
        res.0 is None && res.1 is None && res.2 is None
    }
}

/// Merges two data arrays with their index arrays where the index arrays differ and all
/// four are given.
pub fn smart_merge_data_2<A: Copy, B: Copy>(
    a: Option<&[A]>,
    b: Option<&[B]>,
    indices: [Option<&[IndexType]>; 2],
) -> (res: (Option<Vec<A>>, Option<Vec<B>>, Option<Vec<IndexType>>))
    requires
        smart_2_ok(a, b, indices@),
    ensures
        smart_2_result(a, b, indices@, res),
{
    if !is_merge_needed(indices.as_slice()) {
        return (None, None, None);
    }
    match (a, indices[0], b, indices[1]) {
        (Some(a), Some(indices_a), Some(b), Some(indices_b)) => {
            let pair = [indices_a, indices_b];
            proof {
                assert(index_arrays(pair@) =~= given_arrays(indices@));
            }
            let (indices, a, b) = merge_data_2(&pair, a, b);
            (Some(a), Some(b), Some(indices))
        },
        _ => (None, None, None),
    }
}

/// Which way three data arrays are merged: not at all (0), without the first (1), the second
/// (2) or the third (3), each left out where its data is missing or empty or its index array
/// is missing, or all three (4).
pub open spec fn smart_3_case<A, B, C>(
    a: Option<&[A]>,
    b: Option<&[B]>,
    c: Option<&[C]>,
    indices: Seq<Option<&[IndexType]>>,
) -> u8 {
    if !merge_needed(indices) {
        0
    } else if !nonempty(a) || indices[0] is None {
        1
    } else if !nonempty(b) || indices[1] is None {
        2
    } else if !nonempty(c) || indices[2] is None {
        3
    } else {
        4
    }
}

/// Merging three data arrays, the way it happens, does not panic.
pub open spec fn smart_3_ok<A, B, C>(
    a: Option<&[A]>,
    b: Option<&[B]>,
    c: Option<&[C]>,
    indices: Seq<Option<&[IndexType]>>,
) -> bool {
    match smart_3_case(a, b, c, indices) {
        0 => true,
        1 => smart_2_ok(b, c, seq![indices[1], indices[2]]),
        2 => smart_2_ok(a, c, seq![indices[0], indices[2]]),
        3 => smart_2_ok(a, b, seq![indices[0], indices[1]]),
        _ => merge_fits(given_arrays(indices), seq![a->0@.len(), b->0@.len(), c->0@.len()]),
    }
}

/// What merging three data arrays gives, the way it happens.
pub open spec fn smart_3_result<A, B, C>(
    a: Option<&[A]>,
    b: Option<&[B]>,
    c: Option<&[C]>,
    indices: Seq<Option<&[IndexType]>>,
    res: (Option<Vec<A>>, Option<Vec<B>>, Option<Vec<C>>, Option<Vec<IndexType>>),
) -> bool {
    match smart_3_case(a, b, c, indices) {
        0 => res.0 is None && res.1 is None && res.2 is None && res.3 is None,
        1 => res.0 is None && smart_2_result(b, c, seq![indices[1], indices[2]], (res.1, res.2, res.3)),
        2 => res.1 is None && smart_2_result(a, c, seq![indices[0], indices[2]], (res.0, res.2, res.3)),
        3 => res.2 is None && smart_2_result(a, b, seq![indices[0], indices[1]], (res.0, res.1, res.3)),
        _ => {
            let arrays = given_arrays(indices);
            &&& res.0 matches Some(ra) && ra@ == gathered(a->0@, arrays, 0)
            &&& res.1 matches Some(rb) && rb@ == gathered(b->0@, arrays, 1)
            &&& res.2 matches Some(rc) && rc@ == gathered(c->0@, arrays, 2)
            &&& res.3 matches Some(ri) && unifies(arrays, ri@)
        },
    }
}

/// Merges three data arrays with their index arrays where the index arrays differ; data
/// that is missing or empty, or has no index array, is left out of the merge.
pub fn smart_merge_data_3<A: Copy, B: Copy, C: Copy>(
    a: Option<&[A]>,
    b: Option<&[B]>,
    c: Option<&[C]>,
    indices: [Option<&[IndexType]>; 3],
) -> (res: (Option<Vec<A>>, Option<Vec<B>>, Option<Vec<C>>, Option<Vec<IndexType>>))
    requires
        smart_3_ok(a, b, c, indices@),
    ensures
        smart_3_result(a, b, c, indices@, res),
{
    if !is_merge_needed(indices.as_slice()) {
        return (None, None, None, None);
    }
    let a_given = match a {
        Some(data) => data.len() > 0,
        None => false,
    };
    let b_given = match b {
        Some(data) => data.len() > 0,
        None => false,
    };
    let c_given = match c {
        Some(data) => data.len() > 0,
        None => false,
    };
    if !a_given || indices[0].is_none() {
        let sub = [indices[1], indices[2]];
        assert(sub@ =~= seq![indices@[1], indices@[2]]);
        let (b, c, indices) = smart_merge_data_2(b, c, sub);
        (None, b, c, indices)
    } else if !b_given || indices[1].is_none() {
        let sub = [indices[0], indices[2]];
        assert(sub@ =~= seq![indices@[0], indices@[2]]);
        let (a, c, indices) = smart_merge_data_2(a, c, sub);
        (a, None, c, indices)
    } else if !c_given || indices[2].is_none() {
        let sub = [indices[0], indices[1]];
        assert(sub@ =~= seq![indices@[0], indices@[1]]);
        let (a, b, indices) = smart_merge_data_2(a, b, sub);
        (a, b, None, indices)
    } else {
        match (a, indices[0], b, indices[1], c, indices[2]) {
            (Some(a), Some(indices_a), Some(b), Some(indices_b), Some(c), Some(indices_c)) => {
                let all = [indices_a, indices_b, indices_c];
                proof {
                    assert(index_arrays(all@) =~= given_arrays(indices@));
                }
                let (indices, a, b, c) = merge_data_3(&all, a, b, c);
                (Some(a), Some(b), Some(c), Some(indices))
            },
            _ => (None, None, None, None),
        }
    }
}

/// Which way four data arrays are merged: not at all (0), without the first (1), second (2),
/// third (3) or fourth (4), each left out where its data is missing or empty or its index
/// array is missing, or all four (5).
pub open spec fn smart_4_case<A, B, C, D>(
    a: Option<&[A]>,
    b: Option<&[B]>,
    c: Option<&[C]>,
    d: Option<&[D]>,
    indices: Seq<Option<&[IndexType]>>,
) -> u8 {
    if !merge_needed(indices) {
        0
    } else if !nonempty(a) || indices[0] is None {
        1
    } else if !nonempty(b) || indices[1] is None {
        2
    } else if !nonempty(c) || indices[2] is None {
        3
    } else if !nonempty(d) || indices[3] is None {
        4
    } else {
        5
    }
}

/// Merging four data arrays, the way it happens, does not panic.
pub open spec fn smart_4_ok<A, B, C, D>(
    a: Option<&[A]>,
    b: Option<&[B]>,
    c: Option<&[C]>,
    d: Option<&[D]>,
    indices: Seq<Option<&[IndexType]>>,
) -> bool {
    match smart_4_case(a, b, c, d, indices) {
        0 => true,
        1 => smart_3_ok(b, c, d, seq![indices[1], indices[2], indices[3]]),
        2 => smart_3_ok(a, c, d, seq![indices[0], indices[2], indices[3]]),
        3 => smart_3_ok(a, b, d, seq![indices[0], indices[1], indices[3]]),
        4 => smart_3_ok(a, b, c, seq![indices[0], indices[1], indices[2]]),
        _ => merge_fits(
            given_arrays(indices),
            seq![a->0@.len(), b->0@.len(), c->0@.len(), d->0@.len()],
        ),
    }
}

/// What merging four data arrays gives, the way it happens.
pub open spec fn smart_4_result<A, B, C, D>(
    a: Option<&[A]>,
    b: Option<&[B]>,
    c: Option<&[C]>,
    d: Option<&[D]>,
    indices: Seq<Option<&[IndexType]>>,
    res: (Option<Vec<A>>, Option<Vec<B>>, Option<Vec<C>>, Option<Vec<D>>, Option<Vec<IndexType>>),
) -> bool {
    match smart_4_case(a, b, c, d, indices) {
        0 => res.0 is None && res.1 is None && res.2 is None && res.3 is None && res.4 is None,
        1 => res.0 is None && smart_3_result(
            b,
            c,
            d,
            seq![indices[1], indices[2], indices[3]],
            (res.1, res.2, res.3, res.4),
        ),
        2 => res.1 is None && smart_3_result(
            a,
            c,
            d,
            seq![indices[0], indices[2], indices[3]],
            (res.0, res.2, res.3, res.4),
        ),
        3 => res.2 is None && smart_3_result(
            a,
            b,
            d,
            seq![indices[0], indices[1], indices[3]],
            (res.0, res.1, res.3, res.4),
        ),
        4 => res.3 is None && smart_3_result(
            a,
            b,
            c,
            seq![indices[0], indices[1], indices[2]],
            (res.0, res.1, res.2, res.4),
        ),
        _ => {
            let arrays = given_arrays(indices);
            &&& res.0 matches Some(ra) && ra@ == gathered(a->0@, arrays, 0)
            &&& res.1 matches Some(rb) && rb@ == gathered(b->0@, arrays, 1)
            &&& res.2 matches Some(rc) && rc@ == gathered(c->0@, arrays, 2)
            &&& res.3 matches Some(rd) && rd@ == gathered(d->0@, arrays, 3)
            &&& res.4 matches Some(ri) && unifies(arrays, ri@)
        },
    }
}

/// Merges four data arrays with their index arrays where the index arrays differ; data
/// that is missing or empty, or has no index array, is left out of the merge.
pub fn smart_merge_data_4<A: Copy, B: Copy, C: Copy, D: Copy>(
    a: Option<&[A]>,
    b: Option<&[B]>,
    c: Option<&[C]>,
    d: Option<&[D]>,
    indices: [Option<&[IndexType]>; 4],
) -> (res: (
    Option<Vec<A>>,
    Option<Vec<B>>,
    Option<Vec<C>>,
    Option<Vec<D>>,
    Option<Vec<IndexType>>,
))
    requires
        smart_4_ok(a, b, c, d, indices@),
    ensures
        smart_4_result(a, b, c, d, indices@, res),
{
    if !is_merge_needed(indices.as_slice()) {
        return (None, None, None, None, None);
    }
    let a_given = match a {
        Some(data) => data.len() > 0,
        None => false,
    };
    let b_given = match b {
        Some(data) => data.len() > 0,
        None => false,
    };
    let c_given = match c {
        Some(data) => data.len() > 0,
        None => false,
    };
    let d_given = match d {
        Some(data) => data.len() > 0,
        None => false,
    };
    if !a_given || indices[0].is_none() {
        let sub = [indices[1], indices[2], indices[3]];
        assert(sub@ =~= seq![indices@[1], indices@[2], indices@[3]]);
        let (b, c, d, indices) = smart_merge_data_3(b, c, d, sub);
        (None, b, c, d, indices)
    } else if !b_given || indices[1].is_none() {
        let sub = [indices[0], indices[2], indices[3]];
        assert(sub@ =~= seq![indices@[0], indices@[2], indices@[3]]);
        let (a, c, d, indices) = smart_merge_data_3(a, c, d, sub);
        (a, None, c, d, indices)
    } else if !c_given || indices[2].is_none() {
        let sub = [indices[0], indices[1], indices[3]];
        assert(sub@ =~= seq![indices@[0], indices@[1], indices@[3]]);
        let (a, b, d, indices) = smart_merge_data_3(a, b, d, sub);
        (a, b, None, d, indices)
    } else if !d_given || indices[3].is_none() {
        let sub = [indices[0], indices[1], indices[2]];
        assert(sub@ =~= seq![indices@[0], indices@[1], indices@[2]]);
        let (a, b, c, indices) = smart_merge_data_3(a, b, c, sub);
        (a, b, c, None, indices)
    } else {
        match (a, indices[0], b, indices[1], c, indices[2], d, indices[3]) {
            (
                Some(a),
                Some(indices_a),
                Some(b),
                Some(indices_b),
                Some(c),
                Some(indices_c),
                Some(d),
                Some(indices_d),
            ) => {
                let all = [indices_a, indices_b, indices_c, indices_d];
                proof {
                    assert(index_arrays(all@) =~= given_arrays(indices@));
                }
                let (indices, a, b, c, d) = merge_data_4(&all, a, b, c, d);
                (Some(a), Some(b), Some(c), Some(d), Some(indices))
            },
            _ => (None, None, None, None, None),
        }
    }
}

} // verus!
