//! What merging and splitting segments (see [`crate::tmf::plan_segments`]) does to the mesh
//! they build: nothing, as long as no two segments write the same array.
use crate::custom_data::CustomDataSegment;
use crate::mesh::{appended, applied, apply_all, MeshView};
use crate::tmf::{merge_all, merge_view, optimized_view, optimized_views, shareable, tri_kind, tri_view, SegView};
use crate::IndexType;
use vstd::prelude::*;
use vstd::string::StringSliceAdditionalSpecFns;

verus! {

/// The arrays of a mesh a segment writes: vertices (0), normals (1), uvs (2), tangents (3),
/// vertex (4), normal (5), uv (6) and tangent (7) triangles.
pub open spec fn touches<V3, V2, T, C>(s: SegView<V3, V2, T, C>, ch: int) -> bool {
    match s {
        SegView::Vertex(_) => ch == 0,
        SegView::Normal(_) => ch == 1,
        SegView::Uv(_) => ch == 2,
        SegView::Tangent(_) => ch == 3,
        SegView::TriVertex(_) => ch == 4,
        SegView::TriNormal(_) => ch == 5,
        SegView::TriUv(_) => ch == 6,
        SegView::TriTangent(_) => ch == 7,
        SegView::Shared(m, _) => (ch == 4 && m & 0x1 != 0) || (ch == 5 && m & 0x2 != 0) || (ch == 6
            && m & 0x4 != 0),
        _ => false,
    }
}

/// Two segments write no array in common.
pub open spec fn apart<V3, V2, T, C>(a: SegView<V3, V2, T, C>, b: SegView<V3, V2, T, C>) -> bool {
    forall|ch: int| !(#[trigger] touches(a, ch) && touches(b, ch))
}

/// No two of the segments write the same array, and none is custom data.
pub open spec fn independent<V3, V2, T, C>(segs: Seq<SegView<V3, V2, T, C>>) -> bool {
    &&& forall|i: int| 0 <= i < segs.len() ==> !(#[trigger] segs[i] is Custom)
    &&& forall|i: int, j: int| 0 <= i < segs.len() && 0 <= j < segs.len() && i != j ==> apart(
        #[trigger] segs[i],
        #[trigger] segs[j],
    )
}

/// Segments that write different arrays, not both custom data, can be added in either order.
#[verifier::spinoff_prover]
#[verifier::rlimit(40)]
pub proof fn lemma_applied_commute<V3, V2, T, D>(
    m: MeshView<V3, V2, T, D>,
    a: SegView<V3, V2, T, CustomDataSegment<D>>,
    b: SegView<V3, V2, T, CustomDataSegment<D>>,
)
    requires
        apart(a, b),
        !(a is Custom && b is Custom),
    ensures
        applied(applied(m, a), b) == applied(applied(m, b), a),
{
    assert(!(touches(a, 0) && touches(b, 0)));
    assert(!(touches(a, 1) && touches(b, 1)));
    assert(!(touches(a, 2) && touches(b, 2)));
    assert(!(touches(a, 3) && touches(b, 3)));
    assert(!(touches(a, 4) && touches(b, 4)));
    assert(!(touches(a, 5) && touches(b, 5)));
    assert(!(touches(a, 6) && touches(b, 6)));
    assert(!(touches(a, 7) && touches(b, 7)));
}

/// The bits of the masks of single triangle arrays.
proof fn lemma_unit_masks()
    ensures
        0x1u8 & 0x1u8 != 0,
        0x1u8 & 0x2u8 == 0,
        0x1u8 & 0x4u8 == 0,
        0x2u8 & 0x1u8 == 0,
        0x2u8 & 0x2u8 != 0,
        0x2u8 & 0x4u8 == 0,
        0x4u8 & 0x1u8 == 0,
        0x4u8 & 0x2u8 == 0,
        0x4u8 & 0x4u8 != 0,
{
    assert(0x1u8 & 0x1u8 != 0) by (bit_vector);
    assert(0x1u8 & 0x2u8 == 0) by (bit_vector);
    assert(0x1u8 & 0x4u8 == 0) by (bit_vector);
    assert(0x2u8 & 0x1u8 == 0) by (bit_vector);
    assert(0x2u8 & 0x2u8 != 0) by (bit_vector);
    assert(0x2u8 & 0x4u8 == 0) by (bit_vector);
    assert(0x4u8 & 0x1u8 == 0) by (bit_vector);
    assert(0x4u8 & 0x2u8 == 0) by (bit_vector);
    assert(0x4u8 & 0x4u8 != 0) by (bit_vector);
}

/// Merging one segment into another (see [`merge_view`]) changes neither what the two build
/// nor which arrays they write, where they write different arrays: a shared segment takes
/// over the arrays of both, and the other writes nothing any more.
pub proof fn lemma_merge_view_effect<V3, V2, T, D>(
    m: MeshView<V3, V2, T, D>,
    s: SegView<V3, V2, T, CustomDataSegment<D>>,
    o: SegView<V3, V2, T, CustomDataSegment<D>>,
)
    requires
        apart(s, o),
    ensures
        ({
            let (s1, o1) = merge_view(s, o);
            &&& applied(applied(m, s), o) == applied(applied(m, s1), o1)
            &&& apart(s1, o1)
            &&& (s1 is Custom <==> s is Custom)
            &&& (o1 is Custom ==> o is Custom)
            &&& forall|ch: int| #[trigger] touches(o1, ch) ==> touches(o, ch)
            &&& forall|ch: int| #[trigger] touches(s1, ch) ==> touches(s, ch) || touches(o, ch)
            &&& forall|ch: int| #[trigger] touches(s, ch) ==> touches(s1, ch)
        }),
{
    lemma_unit_masks();
    let (s1, o1) = merge_view(s, o);
    match shareable(o) {
        None => {},
        Some((om, ot)) => {
            let own: Option<(u8, Seq<crate::IndexType>)> = match s {
                SegView::Shared(mm, t) => Some((mm, t)),
                SegView::TriVertex(t) => Some((0x1u8, t)),
                SegView::TriNormal(t) => Some((0x2u8, t)),
                SegView::TriUv(t) => Some((0x4u8, t)),
                _ => None,
            };
            match own {
                Some((mm, t)) => {
                    if t == ot {
                        crate::tmf::lemma_shared_kind_combine(mm, om);
                        assert(!(touches(s, 4) && touches(o, 4)));
                        assert(!(touches(s, 5) && touches(o, 5)));
                        assert(!(touches(s, 6) && touches(o, 6)));
                        assert(applied(applied(m, s), o) == applied(applied(m, s1), o1));
                    }
                },
                None => {},
            }
        },
    }
}

/// One of the segments writes the array.
pub open spec fn chans_in<V3, V2, T, C>(segs: Seq<SegView<V3, V2, T, C>>, ch: int) -> bool {
    exists|i: int| 0 <= i < segs.len() && #[trigger] touches(segs[i], ch)
}

/// Adding a segment and then others.
proof fn lemma_apply_cons<V3, V2, T, D>(
    m: MeshView<V3, V2, T, D>,
    a: SegView<V3, V2, T, CustomDataSegment<D>>,
    rest: Seq<SegView<V3, V2, T, CustomDataSegment<D>>>,
)
    ensures
        apply_all(m, seq![a] + rest) == apply_all(applied(m, a), rest),
{
    assert((seq![a] + rest)[0] == a);
    assert((seq![a] + rest).skip(1) =~= rest);
}

/// Merging the others into a segment (see [`merge_all`]) changes neither what they all build
/// nor which arrays they write, where they write different arrays and none is custom data.
pub proof fn lemma_merge_all_effect<V3, V2, T, D>(
    m: MeshView<V3, V2, T, D>,
    s: SegView<V3, V2, T, CustomDataSegment<D>>,
    rest: Seq<SegView<V3, V2, T, CustomDataSegment<D>>>,
)
    requires
        !(s is Custom),
        independent(rest),
        forall|i: int| 0 <= i < rest.len() ==> apart(s, #[trigger] rest[i]),
    ensures
        ({
            let (s2, r2) = merge_all(s, rest);
            &&& r2.len() == rest.len()
            &&& apply_all(m, seq![s] + rest) == apply_all(m, seq![s2] + r2)
            &&& !(s2 is Custom)
            &&& independent(r2)
            &&& forall|i: int| 0 <= i < r2.len() ==> apart(s2, #[trigger] r2[i])
            &&& forall|ch: int| #[trigger] touches(s2, ch) ==> touches(s, ch) || chans_in(rest, ch)
            &&& forall|i: int, ch: int| 0 <= i < r2.len() && #[trigger] touches(r2[i], ch) ==> touches(
                rest[i],
                ch,
            )
        }),
    decreases rest.len(),
{
    crate::tmf::lemma_merge_all_len(s, rest);
    if rest.len() == 0 {
        assert(rest =~= Seq::<SegView<V3, V2, T, CustomDataSegment<D>>>::empty());
    } else {
        let r0 = rest[0];
        let tail = rest.skip(1);
        assert(apart(s, r0));
        lemma_merge_view_effect(m, s, r0);
        let (s1, o1) = merge_view(s, r0);
        assert forall|i: int| 0 <= i < tail.len() implies apart(s1, #[trigger] tail[i]) by {
            assert(tail[i] == rest[i + 1]);
            assert(apart(s, rest[i + 1]));
            assert(apart(rest[0], rest[i + 1]));
            assert forall|ch: int| !(#[trigger] touches(s1, ch) && touches(tail[i], ch)) by {
                if touches(s1, ch) && touches(tail[i], ch) {
                    assert(touches(s, ch) || touches(r0, ch));
                }
            }
        }
        assert(independent(tail)) by {
            assert forall|i: int, j: int| 0 <= i < tail.len() && 0 <= j < tail.len() && i != j implies apart(
                #[trigger] tail[i],
                #[trigger] tail[j],
            ) by {
                assert(tail[i] == rest[i + 1] && tail[j] == rest[j + 1]);
            }
            assert forall|i: int| 0 <= i < tail.len() implies !(#[trigger] tail[i] is Custom) by {
                assert(tail[i] == rest[i + 1]);
            }
        }
        lemma_merge_all_effect(applied(m, o1), s1, tail);
        let (s2, rr) = merge_all(s1, tail);
        assert(merge_all(s, rest) == (s2, seq![o1] + rr));
        let r2 = seq![o1] + rr;
        // s2 writes only arrays of s1 and the tail, none of which o1 writes.
        assert(apart(s2, o1)) by {
            assert forall|ch: int| !(#[trigger] touches(s2, ch) && touches(o1, ch)) by {
                if touches(s2, ch) && touches(o1, ch) {
                    assert(touches(r0, ch));
                    if !touches(s1, ch) {
                        assert(chans_in(tail, ch));
                        let i = choose|i: int| 0 <= i < tail.len() && #[trigger] touches(tail[i], ch);
                        assert(tail[i] == rest[i + 1]);
                        assert(apart(rest[0], rest[i + 1]));
                    }
                }
            }
        }
        // What they build.
        lemma_apply_cons(m, s, rest);
        assert(rest =~= seq![r0] + tail);
        lemma_apply_cons(applied(m, s), r0, tail);
        lemma_applied_commute(m, s1, o1);
        lemma_apply_cons(applied(m, o1), s1, tail);
        lemma_apply_cons(applied(m, o1), s2, rr);
        lemma_applied_commute(m, s2, o1);
        lemma_apply_cons(m, s2, r2);
        lemma_apply_cons(applied(m, s2), o1, rr);
        // Which arrays they write.
        assert forall|ch: int| #[trigger] touches(s2, ch) implies touches(s, ch) || chans_in(rest, ch) by {
            if touches(s1, ch) {
                if !touches(s, ch) {
                    assert(touches(r0, ch));
                    assert(touches(rest[0], ch));
                }
            } else {
                assert(chans_in(tail, ch));
                let i = choose|i: int| 0 <= i < tail.len() && #[trigger] touches(tail[i], ch);
                assert(tail[i] == rest[i + 1]);
                assert(touches(rest[i + 1], ch));
            }
        }
        assert forall|i: int, ch: int| 0 <= i < r2.len() && #[trigger] touches(r2[i], ch) implies touches(
            rest[i],
            ch,
        ) by {
            if i > 0 {
                assert(r2[i] == rr[i - 1]);
                assert(tail[i - 1] == rest[i]);
            }
        }
        assert forall|i: int| 0 <= i < r2.len() implies apart(s2, #[trigger] r2[i]) by {
            if i > 0 {
                assert(r2[i] == rr[i - 1]);
            }
        }
        assert(independent(r2)) by {
            assert forall|i: int, j: int| 0 <= i < r2.len() && 0 <= j < r2.len() && i != j implies apart(
                #[trigger] r2[i],
                #[trigger] r2[j],
            ) by {
                assert(apart(rest[i], rest[j]));
                assert forall|ch: int| !(#[trigger] touches(r2[i], ch) && touches(r2[j], ch)) by {
                    if touches(r2[i], ch) && touches(r2[j], ch) {
                        assert(touches(rest[i], ch) && touches(rest[j], ch));
                    }
                }
            }
            assert forall|i: int| 0 <= i < r2.len() implies !(#[trigger] r2[i] is Custom) by {
                if i > 0 {
                    assert(r2[i] == rr[i - 1]);
                } else {
                    assert(!(rest[0] is Custom));
                }
            }
        }
    }
}

/// A segment that writes none of the arrays the others write, and none of them custom data,
/// can be added before them as well as after them.
proof fn lemma_move_to_front<V3, V2, T, D>(
    m: MeshView<V3, V2, T, D>,
    rest: Seq<SegView<V3, V2, T, CustomDataSegment<D>>>,
    x: SegView<V3, V2, T, CustomDataSegment<D>>,
)
    requires
        !(x is Custom),
        forall|i: int| 0 <= i < rest.len() ==> apart(x, #[trigger] rest[i]),
    ensures
        apply_all(m, rest.push(x)) == apply_all(m, seq![x] + rest),
    decreases rest.len(),
{
    if rest.len() == 0 {
        assert(rest.push(x) =~= seq![x] + rest);
    } else {
        let r0 = rest[0];
        let tail = rest.skip(1);
        assert(rest.push(x)[0] == r0);
        assert(rest.push(x).skip(1) =~= tail.push(x));
        assert forall|i: int| 0 <= i < tail.len() implies apart(x, #[trigger] tail[i]) by {
            assert(tail[i] == rest[i + 1]);
        }
        lemma_move_to_front(applied(m, r0), tail, x);
        lemma_apply_cons(applied(m, r0), x, tail);
        assert(apart(x, r0));
        lemma_applied_commute(m, r0, x);
        lemma_apply_cons(applied(m, x), r0, tail);
        assert(rest =~= seq![r0] + tail);
        lemma_apply_cons(m, x, rest);
    }
}

/// Merging segments (see [`crate::tmf::spec_merge_segments`]) does not change what they
/// build, where no two write the same array and none is custom data.
pub proof fn lemma_merge_segments_effect<V3, V2, T, D>(
    m: MeshView<V3, V2, T, D>,
    segs: Seq<SegView<V3, V2, T, CustomDataSegment<D>>>,
)
    requires
        independent(segs),
    ensures
        apply_all(m, crate::tmf::spec_merge_segments(segs)) == apply_all(m, segs),
    decreases segs.len(),
{
    if segs.len() > 0 {
        let last = segs.last();
        let rest = segs.drop_last();
        assert(independent(rest)) by {
            assert forall|i: int, j: int| 0 <= i < rest.len() && 0 <= j < rest.len() && i != j implies apart(
                #[trigger] rest[i],
                #[trigger] rest[j],
            ) by {
                assert(rest[i] == segs[i] && rest[j] == segs[j]);
            }
            assert forall|i: int| 0 <= i < rest.len() implies !(#[trigger] rest[i] is Custom) by {
                assert(rest[i] == segs[i]);
            }
        }
        assert(segs =~= rest.push(last));
        if last is Nothing {
            lemma_merge_segments_effect(m, rest);
            crate::mesh::lemma_apply_all_concat(m, rest, seq![last]);
            assert(rest + seq![last] =~= segs);
            assert(apply_all(apply_all(m, rest), seq![last]) == applied(apply_all(m, rest), last)) by {
                let one = seq![last];
                assert(one[0] == last);
                assert(one.skip(1) =~= Seq::<SegView<V3, V2, T, CustomDataSegment<D>>>::empty());
                assert(apply_all(applied(apply_all(m, rest), last), one.skip(1)) == applied(
                    apply_all(m, rest),
                    last,
                ));
            }
        } else {
            assert(!(last is Custom));
            assert forall|i: int| 0 <= i < rest.len() implies apart(last, #[trigger] rest[i]) by {
                assert(rest[i] == segs[i]);
                assert(last == segs[segs.len() - 1]);
            }
            lemma_merge_all_effect(m, last, rest);
            let (mm, r2) = merge_all(last, rest);
            crate::tmf::lemma_merge_all_len(last, rest);
            lemma_merge_segments_effect(applied(m, mm), r2);
            lemma_apply_cons(m, mm, crate::tmf::spec_merge_segments(r2));
            lemma_apply_cons(m, mm, r2);
            lemma_move_to_front(m, rest, last);
        }
    }
}

/// Pieces of `t` cut at ranges that lie end to end from `a` to `b` make up `t` from `a` to `b`.
proof fn lemma_pieces_flatten(t: Seq<IndexType>, r: Seq<(int, int)>, a: int, b: int)
    requires
        r.len() >= 1,
        r[0].0 == a,
        r.last().1 == b,
        forall|i: int| 0 <= i < r.len() ==> 0 <= #[trigger] r[i].0 <= r[i].1 <= t.len(),
        forall|i: int| 0 <= i < r.len() - 1 ==> #[trigger] r[i].1 == r[i + 1].0,
    ensures
        r.map_values(|x: (int, int)| t.subrange(x.0, x.1)).flatten() == t.subrange(a, b),
        a <= b <= t.len(),
    decreases r.len(),
{
    let ps = r.map_values(|x: (int, int)| t.subrange(x.0, x.1));
    if r.len() == 1 {
        ps.lemma_flatten_one_element();
    } else {
        let rest = r.drop_first();
        assert(r[0].1 == r[1].0);
        assert forall|i: int| 0 <= i < rest.len() - 1 implies #[trigger] rest[i].1 == rest[i + 1].0 by {
            assert(rest[i] == r[i + 1] && rest[i + 1] == r[i + 2]);
        }
        assert forall|i: int| 0 <= i < rest.len() implies 0 <= #[trigger] rest[i].0 <= rest[i].1 <= t.len() by {
            assert(rest[i] == r[i + 1]);
        }
        lemma_pieces_flatten(t, rest, r[1].0, b);
        assert(ps.drop_first() =~= rest.map_values(|x: (int, int)| t.subrange(x.0, x.1)));
        assert(ps.first() == t.subrange(a, r[0].1));
        assert(rest[0] == r[1]);
        assert(rest.last() == r.last());
        assert(t.subrange(a, r[0].1) + t.subrange(r[0].1, b) =~= t.subrange(a, b));
    }
}

/// The pieces a triangle array is split into make it up again, in order.
pub proof fn lemma_pieces_make_up(t: Seq<IndexType>)
    ensures
        crate::tmf::pieces(t).flatten() == t,
        crate::tmf::pieces(t).len() >= 1,
{
    crate::tmf_exporter::lemma_opt_ranges_partition(t);
    let r = crate::tmf_exporter::spec_opt_ranges(t);
    lemma_pieces_flatten(t, r, 0, t.len() as int);
    assert(t.subrange(0, t.len() as int) =~= t);
}

/// Adding two triangle arrays of a kind one after the other is adding them joined.
proof fn lemma_tri_join<V3, V2, T, D>(m: MeshView<V3, V2, T, D>, k: u8, a: Seq<IndexType>, b: Seq<IndexType>)
    ensures
        applied(applied(m, tri_view::<V3, V2, T, CustomDataSegment<D>>(k, a)), tri_view(k, b)) == applied(
            m,
            tri_view::<V3, V2, T, CustomDataSegment<D>>(k, a + b),
        ),
{
    assert forall|o: Option<Seq<IndexType>>| #[trigger] appended(appended(o, a), b) == appended(o, a + b) by {
        match o {
            Some(x) => {
                assert(x + a + b =~= x + (a + b));
            },
            None => {},
        }
    }
}

/// Adding the triangle arrays `ps` of a kind one after the other is adding them joined.
proof fn lemma_apply_tri_pieces<V3, V2, T, D>(m: MeshView<V3, V2, T, D>, k: u8, ps: Seq<Seq<IndexType>>)
    requires
        ps.len() >= 1,
    ensures
        apply_all(m, ps.map_values(|p: Seq<IndexType>| tri_view::<V3, V2, T, CustomDataSegment<D>>(k, p)))
            == applied(m, tri_view::<V3, V2, T, CustomDataSegment<D>>(k, ps.flatten())),
    decreases ps.len(),
{
    let segs = ps.map_values(|p: Seq<IndexType>| tri_view::<V3, V2, T, CustomDataSegment<D>>(k, p));
    assert(segs[0] == tri_view::<V3, V2, T, CustomDataSegment<D>>(k, ps[0]));
    if ps.len() == 1 {
        ps.lemma_flatten_one_element();
        assert(segs.skip(1) =~= Seq::<SegView<V3, V2, T, CustomDataSegment<D>>>::empty());
        assert(apply_all(applied(m, segs[0]), segs.skip(1)) == applied(m, segs[0]));
    } else {
        let rest = ps.drop_first();
        assert(segs.skip(1) =~= rest.map_values(
            |p: Seq<IndexType>| tri_view::<V3, V2, T, CustomDataSegment<D>>(k, p),
        ));
        lemma_apply_tri_pieces(applied(m, segs[0]), k, rest);
        lemma_tri_join(m, k, ps[0], rest.flatten());
    }
}

/// Splitting segments (see [`crate::tmf::optimized_views`]) does not change what they build.
pub proof fn lemma_optimized_effect<V3, V2, T, D>(
    m: MeshView<V3, V2, T, D>,
    segs: Seq<SegView<V3, V2, T, CustomDataSegment<D>>>,
)
    ensures
        apply_all(m, optimized_views(segs)) == apply_all(m, segs),
    decreases segs.len(),
{
    if segs.len() > 0 {
        let s0 = segs[0];
        let tail = segs.skip(1);
        crate::mesh::lemma_apply_all_concat(m, optimized_view(s0), optimized_views(tail));
        match tri_kind(s0) {
            Some((k, t)) => {
                lemma_pieces_make_up(t);
                lemma_apply_tri_pieces(m, k, crate::tmf::pieces(t));
                assert(tri_view::<V3, V2, T, CustomDataSegment<D>>(k, t) == s0);
            },
            None => {
                assert(optimized_view(s0)[0] == s0);
                assert(optimized_view(s0).skip(1) =~= Seq::<SegView<V3, V2, T, CustomDataSegment<D>>>::empty());
                assert(apply_all(applied(m, s0), optimized_view(s0).skip(1)) == applied(m, s0));
            },
        }
        lemma_optimized_effect(applied(m, s0), tail);
    }
}

/// Merging and then splitting segments, as a mesh is written (see
/// [`crate::tmf::plan_segments`]), does not change what they build, where no two write the
/// same array and none is custom data.
pub proof fn lemma_plan_effect<V3, V2, T, D>(
    m: MeshView<V3, V2, T, D>,
    segs: Seq<SegView<V3, V2, T, CustomDataSegment<D>>>,
)
    requires
        independent(segs),
    ensures
        apply_all(m, optimized_views(crate::tmf::spec_merge_segments(segs))) == apply_all(m, segs),
{
    lemma_optimized_effect(m, crate::tmf::spec_merge_segments(segs));
    lemma_merge_segments_effect(m, segs);
}

/// Merging the others into custom data changes nothing.
proof fn lemma_merge_all_custom<V3, V2, T, C>(c: SegView<V3, V2, T, C>, rest: Seq<SegView<V3, V2, T, C>>)
    requires
        c is Custom,
    ensures
        merge_all(c, rest) == (c, rest),
    decreases rest.len(),
{
    if rest.len() > 0 {
        lemma_merge_all_custom(c, rest.skip(1));
        assert(seq![rest[0]] + rest.skip(1) =~= rest);
    }
}

/// Custom data segments at the end come first after merging, in reverse order.
proof fn lemma_merge_customs_last<V3, V2, T, C>(h: Seq<SegView<V3, V2, T, C>>, cs: Seq<SegView<V3, V2, T, C>>)
    requires
        forall|i: int| 0 <= i < cs.len() ==> #[trigger] cs[i] is Custom,
    ensures
        crate::tmf::spec_merge_segments(h + cs) == cs.reverse() + crate::tmf::spec_merge_segments(h),
    decreases cs.len(),
{
    if cs.len() == 0 {
        assert(h + cs =~= h);
        assert(cs.reverse() =~= Seq::<SegView<V3, V2, T, C>>::empty());
        assert(cs.reverse() + crate::tmf::spec_merge_segments(h) =~= crate::tmf::spec_merge_segments(h));
    } else {
        let segs = h + cs;
        let last = cs.last();
        assert(last == cs[cs.len() - 1]);
        assert(segs.last() == last);
        let rest = segs.drop_last();
        assert(rest =~= h + cs.drop_last());
        lemma_merge_all_custom(last, rest);
        assert forall|i: int| 0 <= i < cs.drop_last().len() implies #[trigger] cs.drop_last()[i] is Custom by {
            assert(cs.drop_last()[i] == cs[i]);
        }
        lemma_merge_customs_last(h, cs.drop_last());
        assert(crate::tmf::spec_merge_segments(segs) == seq![last] + crate::tmf::spec_merge_segments(rest));
        assert(cs.reverse() =~= seq![last] + cs.drop_last().reverse());
    }
}

/// The place of a segment in the order a mesh is written in: vertices, normals, uvs, vertex,
/// normal and uv triangles, tangents, tangent triangles; 8 for anything else.
pub open spec fn write_rank<V3, V2, T, C>(s: SegView<V3, V2, T, C>) -> int {
    match s {
        SegView::Vertex(_) => 0,
        SegView::Normal(_) => 1,
        SegView::Uv(_) => 2,
        SegView::TriVertex(_) => 3,
        SegView::TriNormal(_) => 4,
        SegView::TriUv(_) => 5,
        SegView::Tangent(_) => 6,
        SegView::TriTangent(_) => 7,
        _ => 8,
    }
}

/// The segments come in strictly increasing places, all below `bound`.
pub open spec fn ranked<V3, V2, T, C>(segs: Seq<SegView<V3, V2, T, C>>, bound: int) -> bool {
    &&& forall|i: int| 0 <= i < segs.len() ==> #[trigger] write_rank(segs[i]) < bound
    &&& forall|i: int, j: int| 0 <= i < j < segs.len() ==> write_rank(#[trigger] segs[i]) < write_rank(
        #[trigger] segs[j],
    )
}

/// Adding at most one segment of place `k` after segments below `k` keeps them ranked.
proof fn lemma_ranked_push<V3, V2, T, D, X>(
    a: Seq<SegView<V3, V2, T, CustomDataSegment<D>>>,
    k: int,
    o: Option<X>,
    f: spec_fn(X) -> SegView<V3, V2, T, CustomDataSegment<D>>,
)
    requires
        ranked(a, k),
        forall|x: X| write_rank(#[trigger] f(x)) == k,
    ensures
        ranked(a + crate::mesh::opt_segment(o, f), k + 1),
{
    let b = a + crate::mesh::opt_segment(o, f);
    match o {
        Some(x) => {
            assert(b =~= a.push(f(x)));
            assert(write_rank(f(x)) == k);
        },
        None => {
            assert(b =~= a);
        },
    }
}

/// Segments in strictly increasing places write different arrays, and none is custom data.
proof fn lemma_ranked_independent<V3, V2, T, C>(segs: Seq<SegView<V3, V2, T, C>>)
    requires
        ranked(segs, 8),
    ensures
        independent(segs),
{
    assert forall|i: int, j: int| 0 <= i < segs.len() && 0 <= j < segs.len() && i != j implies apart(
        #[trigger] segs[i],
        #[trigger] segs[j],
    ) by {
        assert(write_rank(segs[i]) < 8 && write_rank(segs[j]) < 8);
        if i < j {
            assert(write_rank(segs[i]) < write_rank(segs[j]));
        } else {
            assert(write_rank(segs[j]) < write_rank(segs[i]));
        }
    }
    assert forall|i: int| 0 <= i < segs.len() implies !(#[trigger] segs[i] is Custom) by {
        assert(write_rank(segs[i]) < 8);
    }
}

/// A mesh written as segments (see [`crate::mesh::TMFMesh::into_segments`]), merged and
/// split as a mesh is written (see [`crate::tmf::plan_segments`]), then read back by adding
/// the segments in order to a mesh with no data (see [`crate::tmf::DecodedSegment::apply`]),
/// gives back every array of the mesh; its custom data segments come back in reverse order.
pub proof fn lemma_written_mesh_rebuilds<V3, V2, T, D>(m: MeshView<V3, V2, T, D>)
    ensures
        apply_all(
            crate::mesh::empty_mesh_view(),
            optimized_views(crate::tmf::spec_merge_segments(crate::mesh::mesh_segment_views(m))),
        ) == (MeshView { custom: m.custom.reverse(), ..m }),
{
    let f1 = |s: Seq<V3>| SegView::<V3, V2, T, CustomDataSegment<D>>::Vertex(s);
    let f2 = |s: Seq<V3>| SegView::<V3, V2, T, CustomDataSegment<D>>::Normal(s);
    let f3 = |s: Seq<V2>| SegView::<V3, V2, T, CustomDataSegment<D>>::Uv(s);
    let f4 = |s: Seq<IndexType>| SegView::<V3, V2, T, CustomDataSegment<D>>::TriVertex(s);
    let f5 = |s: Seq<IndexType>| SegView::<V3, V2, T, CustomDataSegment<D>>::TriNormal(s);
    let f6 = |s: Seq<IndexType>| SegView::<V3, V2, T, CustomDataSegment<D>>::TriUv(s);
    let f7 = |s: Seq<T>| SegView::<V3, V2, T, CustomDataSegment<D>>::Tangent(s);
    let f8 = |s: Seq<IndexType>| SegView::<V3, V2, T, CustomDataSegment<D>>::TriTangent(s);
    let s1 = crate::mesh::opt_segment(m.vertices, f1);
    let s2 = crate::mesh::opt_segment(m.normals, f2);
    let s3 = crate::mesh::opt_segment(m.uvs, f3);
    let s4 = crate::mesh::opt_segment(m.vertex_triangles, f4);
    let s5 = crate::mesh::opt_segment(m.normal_triangles, f5);
    let s6 = crate::mesh::opt_segment(m.uv_triangles, f6);
    let s7 = crate::mesh::opt_segment(m.tangents, f7);
    let s8 = crate::mesh::opt_segment(m.tangent_triangles, f8);
    let cs = m.custom.map_values(|c: CustomDataSegment<D>| SegView::<V3, V2, T, CustomDataSegment<D>>::Custom(c));
    let h = s1 + s2 + s3 + s4 + s5 + s6 + s7 + s8;
    let e = crate::mesh::empty_mesh_view::<V3, V2, T, D>();
    assert(crate::mesh::mesh_segment_views(m) == h + cs);
    // The custom data segments come first, reversed.
    assert forall|i: int| 0 <= i < cs.len() implies #[trigger] cs[i] is Custom by {}
    lemma_merge_customs_last(h, cs);
    let rev = m.custom.reverse();
    assert(cs.reverse() =~= rev.map_values(|c: CustomDataSegment<D>| SegView::<V3, V2, T, CustomDataSegment<D>>::Custom(c)));
    lemma_optimized_effect(e, cs.reverse() + crate::tmf::spec_merge_segments(h));
    crate::mesh::lemma_apply_all_concat(e, cs.reverse(), crate::tmf::spec_merge_segments(h));
    crate::mesh::lemma_apply_customs(e, rev);
    let e1 = MeshView { custom: e.custom + rev, ..e };
    assert(e.custom + rev =~= rev);
    // The arrays: merging does not change what they build.
    assert(ranked(Seq::<SegView<V3, V2, T, CustomDataSegment<D>>>::empty(), 0));
    lemma_ranked_push(Seq::empty(), 0, m.vertices, f1);
    assert(Seq::<SegView<V3, V2, T, CustomDataSegment<D>>>::empty() + s1 =~= s1);
    lemma_ranked_push(s1, 1, m.normals, f2);
    lemma_ranked_push(s1 + s2, 2, m.uvs, f3);
    lemma_ranked_push(s1 + s2 + s3, 3, m.vertex_triangles, f4);
    lemma_ranked_push(s1 + s2 + s3 + s4, 4, m.normal_triangles, f5);
    lemma_ranked_push(s1 + s2 + s3 + s4 + s5, 5, m.uv_triangles, f6);
    lemma_ranked_push(s1 + s2 + s3 + s4 + s5 + s6, 6, m.tangents, f7);
    lemma_ranked_push(s1 + s2 + s3 + s4 + s5 + s6 + s7, 7, m.tangent_triangles, f8);
    lemma_ranked_independent(h);
    lemma_merge_segments_effect(e1, h);
    // Adding the arrays one by one.
    crate::mesh::lemma_apply_all_concat(e1, s1 + s2 + s3 + s4 + s5 + s6 + s7, s8);
    crate::mesh::lemma_apply_all_concat(e1, s1 + s2 + s3 + s4 + s5 + s6, s7);
    crate::mesh::lemma_apply_all_concat(e1, s1 + s2 + s3 + s4 + s5, s6);
    crate::mesh::lemma_apply_all_concat(e1, s1 + s2 + s3 + s4, s5);
    crate::mesh::lemma_apply_all_concat(e1, s1 + s2 + s3, s4);
    crate::mesh::lemma_apply_all_concat(e1, s1 + s2, s3);
    crate::mesh::lemma_apply_all_concat(e1, s1, s2);
    let m1 = apply_all(e1, s1);
    crate::mesh::lemma_apply_opt(e1, m.vertices, f1);
    let m2 = apply_all(m1, s2);
    crate::mesh::lemma_apply_opt(m1, m.normals, f2);
    let m3 = apply_all(m2, s3);
    crate::mesh::lemma_apply_opt(m2, m.uvs, f3);
    let m4 = apply_all(m3, s4);
    crate::mesh::lemma_apply_opt(m3, m.vertex_triangles, f4);
    let m5 = apply_all(m4, s5);
    crate::mesh::lemma_apply_opt(m4, m.normal_triangles, f5);
    let m6 = apply_all(m5, s6);
    crate::mesh::lemma_apply_opt(m5, m.uv_triangles, f6);
    let m7 = apply_all(m6, s7);
    crate::mesh::lemma_apply_opt(m6, m.tangents, f7);
    crate::mesh::lemma_apply_opt(m7, m.tangent_triangles, f8);
}

/// A triangle array a file can hold and give back: at most `MAX_SEG_SIZE` indices.
pub open spec fn tris_storable(t: Seq<IndexType>) -> bool {
    t.len() <= crate::MAX_SEG_SIZE
}

/// A segment of storable triangles (see [`tris_storable`]), of storable shared triangles, or
/// nothing.
pub open spec fn tri_segment_storable<V3, V2, T, C>(s: SegView<V3, V2, T, C>) -> bool {
    match s {
        SegView::TriVertex(t) => tris_storable(t),
        SegView::TriNormal(t) => tris_storable(t),
        SegView::TriUv(t) => tris_storable(t),
        SegView::TriTangent(t) => tris_storable(t),
        SegView::Shared(_, t) => tris_storable(t),
        SegView::Nothing => true,
        _ => false,
    }
}

/// A segment of float data or custom data, which the library carries but does not encode.
pub open spec fn is_data_segment<V3, V2, T, C>(s: SegView<V3, V2, T, C>) -> bool {
    match s {
        SegView::Vertex(_) | SegView::Normal(_) | SegView::Uv(_) | SegView::Tangent(_)
        | SegView::Custom(_) => true,
        _ => false,
    }
}

/// A segment of storable triangles (see [`tri_segment_storable`]) or of data.
pub open spec fn seg_storable<V3, V2, T, C>(s: SegView<V3, V2, T, C>) -> bool {
    tri_segment_storable(s) || is_data_segment(s)
}

/// Every segment is storable (see [`seg_storable`]), and, where `solid`, none is nothing.
pub open spec fn all_storable<V3, V2, T, C>(segs: Seq<SegView<V3, V2, T, C>>, solid: bool) -> bool {
    forall|i: int| 0 <= i < segs.len() ==> seg_storable(#[trigger] segs[i]) && (solid ==> !(
    segs[i] is Nothing))
}

/// A part of a storable triangle array is storable.
proof fn lemma_subrange_storable(t: Seq<IndexType>, a: int, b: int)
    requires
        tris_storable(t),
        0 <= a <= b <= t.len(),
    ensures
        tris_storable(t.subrange(a, b)),
{
}

/// Merging keeps segments storable triangles.
proof fn lemma_merge_all_storable<V3, V2, T, C>(s: SegView<V3, V2, T, C>, rest: Seq<SegView<V3, V2, T, C>>)
    requires
        seg_storable(s),
        !(s is Nothing),
        all_storable(rest, false),
    ensures
        seg_storable(merge_all(s, rest).0),
        !(merge_all(s, rest).0 is Nothing),
        all_storable(merge_all(s, rest).1, false),
    decreases rest.len(),
{
    crate::tmf::lemma_merge_all_len(s, rest);
    if rest.len() > 0 {
        let (s1, r0) = merge_view(s, rest[0]);
        assert(seg_storable(rest[0]));
        let tail = rest.skip(1);
        assert forall|i: int| 0 <= i < tail.len() implies seg_storable(#[trigger] tail[i]) by {
            assert(tail[i] == rest[i + 1]);
        }
        lemma_merge_all_storable(s1, tail);
        let (s2, rr) = merge_all(s1, tail);
        let r2 = merge_all(s, rest).1;
        assert(r2 == seq![r0] + rr);
        assert forall|i: int| 0 <= i < r2.len() implies seg_storable(#[trigger] r2[i]) by {
            if i > 0 {
                assert(r2[i] == rr[i - 1]);
            }
        }
    }
}

/// Merging storable triangle segments gives storable triangle segments, none of them nothing.
proof fn lemma_merge_segments_storable<V3, V2, T, C>(segs: Seq<SegView<V3, V2, T, C>>)
    requires
        all_storable(segs, false),
    ensures
        all_storable(crate::tmf::spec_merge_segments(segs), true),
    decreases segs.len(),
{
    if segs.len() > 0 {
        let last = segs.last();
        let rest = segs.drop_last();
        assert(seg_storable(segs[segs.len() - 1]));
        assert forall|i: int| 0 <= i < rest.len() implies seg_storable(#[trigger] rest[i]) by {
            assert(rest[i] == segs[i]);
        }
        if last is Nothing {
            lemma_merge_segments_storable(rest);
        } else {
            lemma_merge_all_storable(last, rest);
            crate::tmf::lemma_merge_all_len(last, rest);
            let (mm, r2) = merge_all(last, rest);
            lemma_merge_segments_storable(r2);
            let out = crate::tmf::spec_merge_segments(segs);
            assert(out == seq![mm] + crate::tmf::spec_merge_segments(r2));
            assert forall|i: int| 0 <= i < out.len() implies seg_storable(#[trigger] out[i]) && !(
            out[i] is Nothing) by {
                if i > 0 {
                    assert(out[i] == crate::tmf::spec_merge_segments(r2)[i - 1]);
                }
            }
        }
    }
}

/// Splitting storable triangle segments gives storable triangle segments, none of them
/// nothing.
proof fn lemma_optimized_storable<V3, V2, T, C>(segs: Seq<SegView<V3, V2, T, C>>)
    requires
        all_storable(segs, true),
    ensures
        all_storable(optimized_views(segs), true),
    decreases segs.len(),
{
    if segs.len() > 0 {
        let s0 = segs[0];
        let tail = segs.skip(1);
        assert forall|i: int| 0 <= i < tail.len() implies seg_storable(#[trigger] tail[i]) && !(
        tail[i] is Nothing) by {
            assert(tail[i] == segs[i + 1]);
        }
        lemma_optimized_storable(tail);
        let first = optimized_view(s0);
        assert forall|i: int| 0 <= i < first.len() implies seg_storable(#[trigger] first[i]) && !(
        first[i] is Nothing) by {
            match tri_kind(s0) {
                Some((k, t)) => {
                    crate::tmf_exporter::lemma_opt_ranges_partition(t);
                    let r = crate::tmf_exporter::spec_opt_ranges(t);
                    assert(0 <= r[i].0 <= r[i].1 <= t.len());
                    assert(crate::tmf::pieces(t)[i] == t.subrange(r[i].0, r[i].1));
                    lemma_subrange_storable(t, r[i].0, r[i].1);
                },
                None => {},
            }
        }
        let all = optimized_views(segs);
        assert(all == first + optimized_views(tail));
        assert forall|i: int| 0 <= i < all.len() implies seg_storable(#[trigger] all[i]) && !(
        all[i] is Nothing) by {
            if i >= first.len() {
                assert(all[i] == optimized_views(tail)[i - first.len()]);
            }
        }
    }
}

/// The segments of a mesh of storable triangle arrays alone are storable triangles.
proof fn lemma_push_storable<V3, V2, T, C>(
    a: Seq<SegView<V3, V2, T, C>>,
    o: Option<Seq<IndexType>>,
    f: spec_fn(Seq<IndexType>) -> SegView<V3, V2, T, C>,
)
    requires
        all_storable(a, false),
        o matches Some(t) ==> seg_storable(f(t)),
    ensures
        all_storable(a + crate::mesh::opt_segment(o, f), false),
{
    let b = a + crate::mesh::opt_segment(o, f);
    assert forall|i: int| 0 <= i < b.len() implies seg_storable(#[trigger] b[i]) by {
        if i < a.len() {
            assert(b[i] == a[i]);
        }
    }
}

/// The triangles of a mesh that has no other data, written to a file (its segments merged,
/// split, encoded and framed as a mesh is written) and read back, come back exactly: where
/// each array has at most `MAX_SEG_SIZE` indices, its name is
/// at most 65535 bytes of UTF-8, there are at most 65535 segments and each holds at most
/// `u32::MAX` bytes, reading the mesh gives its name and the written segments, decoding each
/// gives the segment it was encoded from, and adding those in order to a mesh with no data
/// gives back the mesh.
pub proof fn lemma_triangle_mesh_file_roundtrip<V3, V2, T, D>(
    m: MeshView<V3, V2, T, D>,
    name: &str,
    enc: Seq<crate::tmf::EncodedSegment>,
    prefix: Seq<u8>,
    rest: Seq<u8>,
)
    requires
        m.vertices is None,
        m.normals is None,
        m.uvs is None,
        m.tangents is None,
        m.custom.len() == 0,
        m.vertex_triangles matches Some(t) ==> tris_storable(t),
        m.normal_triangles matches Some(t) ==> tris_storable(t),
        m.uv_triangles matches Some(t) ==> tris_storable(t),
        m.tangent_triangles matches Some(t) ==> tris_storable(t),
        name.spec_bytes().len() <= u16::MAX,
        enc.len() <= u16::MAX,
        enc.len() == optimized_views(crate::tmf::spec_merge_segments(crate::mesh::mesh_segment_views(m))).len(),
        forall|i: int| 0 <= i < enc.len() ==> #[trigger] crate::tmf::encodes_view(
            enc[i],
            optimized_views(crate::tmf::spec_merge_segments(crate::mesh::mesh_segment_views(m)))[i],
        ),
        forall|i: int| 0 <= i < enc.len() ==> #[trigger] enc[i].data@.len() <= u32::MAX,
    ensures
        ({
            let planned = optimized_views(crate::tmf::spec_merge_segments(crate::mesh::mesh_segment_views(m)));
            let parts = enc.map_values(|s: crate::tmf::EncodedSegment| crate::tmf_importer::seg_parts(s));
            let data = prefix + crate::tmf_exporter::mesh_bytes(name, parts) + rest;
            &&& crate::tmf_importer::spec_read_mesh(true, data, prefix.len()) == Ok::<
                (Seq<char>, Seq<crate::tmf_importer::SegParts>, nat),
                crate::TMFImportError,
            >((name@, parts, prefix.len() + crate::tmf_exporter::mesh_bytes(name, parts).len()))
            &&& forall|i: int| 0 <= i < enc.len() ==> #[trigger] crate::tmf::spec_decode::<
                V3,
                V2,
                T,
                CustomDataSegment<D>,
            >(enc[i], true) == Ok::<SegView<V3, V2, T, CustomDataSegment<D>>, crate::TMFImportError>(planned[i])
            &&& apply_all(crate::mesh::empty_mesh_view(), planned) == m
        }),
{
    let planned = optimized_views(crate::tmf::spec_merge_segments(crate::mesh::mesh_segment_views(m)));
    let parts = enc.map_values(|s: crate::tmf::EncodedSegment| crate::tmf_importer::seg_parts(s));
    // The planned segments are storable triangles.
    let f4 = |s: Seq<IndexType>| SegView::<V3, V2, T, CustomDataSegment<D>>::TriVertex(s);
    let f5 = |s: Seq<IndexType>| SegView::<V3, V2, T, CustomDataSegment<D>>::TriNormal(s);
    let f6 = |s: Seq<IndexType>| SegView::<V3, V2, T, CustomDataSegment<D>>::TriUv(s);
    let f8 = |s: Seq<IndexType>| SegView::<V3, V2, T, CustomDataSegment<D>>::TriTangent(s);
    let s4 = crate::mesh::opt_segment(m.vertex_triangles, f4);
    let s5 = crate::mesh::opt_segment(m.normal_triangles, f5);
    let s6 = crate::mesh::opt_segment(m.uv_triangles, f6);
    let s8 = crate::mesh::opt_segment(m.tangent_triangles, f8);
    let e = Seq::<SegView<V3, V2, T, CustomDataSegment<D>>>::empty();
    let views = crate::mesh::mesh_segment_views(m);
    assert(views =~= s4 + s5 + s6 + s8);
    lemma_push_storable(e, m.vertex_triangles, f4);
    assert(e + s4 =~= s4);
    lemma_push_storable(s4, m.normal_triangles, f5);
    lemma_push_storable(s4 + s5, m.uv_triangles, f6);
    lemma_push_storable(s4 + s5 + s6, m.tangent_triangles, f8);
    lemma_merge_segments_storable(views);
    lemma_optimized_storable(crate::tmf::spec_merge_segments(views));
    // Decoding gives back each segment.
    assert forall|i: int| 0 <= i < enc.len() implies #[trigger] crate::tmf::spec_decode::<
        V3,
        V2,
        T,
        CustomDataSegment<D>,
    >(enc[i], true) == Ok::<SegView<V3, V2, T, CustomDataSegment<D>>, crate::TMFImportError>(planned[i]) by {
        assert(crate::tmf::encodes_view(enc[i], planned[i]));
        assert(tri_segment_storable(planned[i]) && !(planned[i] is Nothing));
        crate::tmf::lemma_triangle_segment_roundtrip::<V3, V2, T, CustomDataSegment<D>>(planned[i], enc[i]);
    }
    // Reading gives back the segments.
    assert forall|i: int| 0 <= i < parts.len() implies crate::tmf::is_readable_section(#[trigger] parts[i].0)
        && parts[i].2.len() <= u32::MAX by {
        assert(parts[i] == crate::tmf_importer::seg_parts(enc[i]));
        assert(crate::tmf::encodes_view(enc[i], planned[i]));
        assert(tri_segment_storable(planned[i]) && !(planned[i] is Nothing));
        assert(enc[i].data@.len() <= u32::MAX);
    }
    crate::tmf_exporter::lemma_mesh_roundtrip(prefix, name, parts, rest);
    // Adding the segments gives back the mesh.
    lemma_written_mesh_rebuilds(m);
    assert(m.custom.reverse() =~= m.custom);
    assert((MeshView { custom: m.custom.reverse(), ..m }) == m);
}

/// A mesh with any data, written to a file (its segments merged, split, encoded and framed
/// as a mesh is written) and read back: where each triangle array has at most
/// `MAX_SEG_SIZE` indices, its name is at most 65535 bytes of UTF-8, there are at most 65535
/// segments, each holds at most `u32::MAX` bytes, the triangle segments are encoded by the
/// library and the float and custom data segments with a kind a reader recognises, reading
/// the mesh gives its name and every written segment byte for byte, decoding each triangle
/// segment gives the segment it was encoded from, and adding the planned segments in order to
/// a mesh with no data gives back the mesh, its custom data segments in reverse order. So
/// where the float and custom segments decode to what they were encoded from, the mesh read
/// back is the mesh written, and its triangle arrays come back exactly in any case.
pub proof fn lemma_mesh_file_roundtrip<V3, V2, T, D>(
    m: MeshView<V3, V2, T, D>,
    name: &str,
    enc: Seq<crate::tmf::EncodedSegment>,
    prefix: Seq<u8>,
    rest: Seq<u8>,
)
    requires
        m.vertex_triangles matches Some(t) ==> tris_storable(t),
        m.normal_triangles matches Some(t) ==> tris_storable(t),
        m.uv_triangles matches Some(t) ==> tris_storable(t),
        m.tangent_triangles matches Some(t) ==> tris_storable(t),
        name.spec_bytes().len() <= u16::MAX,
        enc.len() <= u16::MAX,
        enc.len() == optimized_views(crate::tmf::spec_merge_segments(crate::mesh::mesh_segment_views(m))).len(),
        forall|i: int| 0 <= i < enc.len() ==> {
            let v = #[trigger] optimized_views(
                crate::tmf::spec_merge_segments(crate::mesh::mesh_segment_views(m)),
            )[i];
            if is_data_segment(v) {
                crate::tmf::is_readable_section(enc[i].seg_type)
            } else {
                crate::tmf::encodes_view(enc[i], v)
            }
        },
        forall|i: int| 0 <= i < enc.len() ==> #[trigger] enc[i].data@.len() <= u32::MAX,
    ensures
        ({
            let planned = optimized_views(crate::tmf::spec_merge_segments(crate::mesh::mesh_segment_views(m)));
            let parts = enc.map_values(|s: crate::tmf::EncodedSegment| crate::tmf_importer::seg_parts(s));
            let data = prefix + crate::tmf_exporter::mesh_bytes(name, parts) + rest;
            &&& crate::tmf_importer::spec_read_mesh(true, data, prefix.len()) == Ok::<
                (Seq<char>, Seq<crate::tmf_importer::SegParts>, nat),
                crate::TMFImportError,
            >((name@, parts, prefix.len() + crate::tmf_exporter::mesh_bytes(name, parts).len()))
            &&& forall|i: int| 0 <= i < enc.len() && !is_data_segment(#[trigger] planned[i])
                ==> crate::tmf::spec_decode::<V3, V2, T, CustomDataSegment<D>>(enc[i], true) == Ok::<
                SegView<V3, V2, T, CustomDataSegment<D>>,
                crate::TMFImportError,
            >(planned[i])
            &&& apply_all(crate::mesh::empty_mesh_view(), planned) == (MeshView { custom: m.custom.reverse(), ..m })
        }),
{
    let views = crate::mesh::mesh_segment_views(m);
    let planned = optimized_views(crate::tmf::spec_merge_segments(views));
    let parts = enc.map_values(|s: crate::tmf::EncodedSegment| crate::tmf_importer::seg_parts(s));
    // Every segment of the mesh is storable.
    assert forall|i: int| 0 <= i < views.len() implies seg_storable(#[trigger] views[i]) by {
        match views[i] {
            SegView::TriVertex(t) => {
                assert(m.vertex_triangles == Some(t)) by {
                    lemma_tri_view_source(m, i);
                }
            },
            SegView::TriNormal(t) => {
                assert(m.normal_triangles == Some(t)) by {
                    lemma_tri_view_source(m, i);
                }
            },
            SegView::TriUv(t) => {
                assert(m.uv_triangles == Some(t)) by {
                    lemma_tri_view_source(m, i);
                }
            },
            SegView::TriTangent(t) => {
                assert(m.tangent_triangles == Some(t)) by {
                    lemma_tri_view_source(m, i);
                }
            },
            _ => {
                lemma_tri_view_source(m, i);
            },
        }
    }
    lemma_merge_segments_storable(views);
    lemma_optimized_storable(crate::tmf::spec_merge_segments(views));
    // Decoding gives back each triangle segment.
    assert forall|i: int| 0 <= i < enc.len() && !is_data_segment(#[trigger] planned[i]) implies
        crate::tmf::spec_decode::<V3, V2, T, CustomDataSegment<D>>(enc[i], true) == Ok::<
        SegView<V3, V2, T, CustomDataSegment<D>>,
        crate::TMFImportError,
    >(planned[i]) by {
        assert(crate::tmf::encodes_view(enc[i], planned[i]));
        assert(tri_segment_storable(planned[i]) && !(planned[i] is Nothing));
        crate::tmf::lemma_triangle_segment_roundtrip::<V3, V2, T, CustomDataSegment<D>>(planned[i], enc[i]);
    }
    // Reading gives back the segments.
    assert forall|i: int| 0 <= i < parts.len() implies crate::tmf::is_readable_section(#[trigger] parts[i].0)
        && parts[i].2.len() <= u32::MAX by {
        assert(parts[i] == crate::tmf_importer::seg_parts(enc[i]));
        assert(enc[i].data@.len() <= u32::MAX);
        if !is_data_segment(planned[i]) {
            assert(crate::tmf::encodes_view(enc[i], planned[i]));
            assert(tri_segment_storable(planned[i]) && !(planned[i] is Nothing));
        }
    }
    crate::tmf_exporter::lemma_mesh_roundtrip(prefix, name, parts, rest);
    lemma_written_mesh_rebuilds(m);
}

/// A triangle segment among the segments of a mesh stands for the mesh's array of that kind.
proof fn lemma_tri_view_source<V3, V2, T, D>(m: MeshView<V3, V2, T, D>, i: int)
    requires
        0 <= i < crate::mesh::mesh_segment_views(m).len(),
    ensures
        ({
            let v = crate::mesh::mesh_segment_views(m)[i];
            &&& v matches SegView::TriVertex(t) ==> m.vertex_triangles == Some(t)
            &&& v matches SegView::TriNormal(t) ==> m.normal_triangles == Some(t)
            &&& v matches SegView::TriUv(t) ==> m.uv_triangles == Some(t)
            &&& v matches SegView::TriTangent(t) ==> m.tangent_triangles == Some(t)
            &&& !(v is Shared) && !(v is Nothing)
        }),
{
    let views = crate::mesh::mesh_segment_views(m);
    let s1 = crate::mesh::opt_segment(m.vertices, |s: Seq<V3>| SegView::<V3, V2, T, CustomDataSegment<D>>::Vertex(s));
    let s2 = crate::mesh::opt_segment(m.normals, |s: Seq<V3>| SegView::<V3, V2, T, CustomDataSegment<D>>::Normal(s));
    let s3 = crate::mesh::opt_segment(m.uvs, |s: Seq<V2>| SegView::<V3, V2, T, CustomDataSegment<D>>::Uv(s));
    let s4 = crate::mesh::opt_segment(m.vertex_triangles, |s: Seq<IndexType>| SegView::<V3, V2, T, CustomDataSegment<D>>::TriVertex(s));
    let s5 = crate::mesh::opt_segment(m.normal_triangles, |s: Seq<IndexType>| SegView::<V3, V2, T, CustomDataSegment<D>>::TriNormal(s));
    let s6 = crate::mesh::opt_segment(m.uv_triangles, |s: Seq<IndexType>| SegView::<V3, V2, T, CustomDataSegment<D>>::TriUv(s));
    let s7 = crate::mesh::opt_segment(m.tangents, |s: Seq<T>| SegView::<V3, V2, T, CustomDataSegment<D>>::Tangent(s));
    let s8 = crate::mesh::opt_segment(m.tangent_triangles, |s: Seq<IndexType>| SegView::<V3, V2, T, CustomDataSegment<D>>::TriTangent(s));
    let cs = m.custom.map_values(|c: CustomDataSegment<D>| SegView::<V3, V2, T, CustomDataSegment<D>>::Custom(c));
    assert(views == s1 + s2 + s3 + s4 + s5 + s6 + s7 + s8 + cs);
    if i < s1.len() {
        assert(views[i] == s1[i]);
    } else if i < s1.len() + s2.len() {
        assert(views[i] == s2[i - s1.len()]);
    } else if i < s1.len() + s2.len() + s3.len() {
        assert(views[i] == s3[i - s1.len() - s2.len()]);
    } else if i < s1.len() + s2.len() + s3.len() + s4.len() {
        assert(views[i] == s4[i - s1.len() - s2.len() - s3.len()]);
    } else if i < s1.len() + s2.len() + s3.len() + s4.len() + s5.len() {
        assert(views[i] == s5[i - s1.len() - s2.len() - s3.len() - s4.len()]);
    } else if i < s1.len() + s2.len() + s3.len() + s4.len() + s5.len() + s6.len() {
        assert(views[i] == s6[i - s1.len() - s2.len() - s3.len() - s4.len() - s5.len()]);
    } else if i < s1.len() + s2.len() + s3.len() + s4.len() + s5.len() + s6.len() + s7.len() {
        assert(views[i] == s7[i - s1.len() - s2.len() - s3.len() - s4.len() - s5.len() - s6.len()]);
    } else if i < s1.len() + s2.len() + s3.len() + s4.len() + s5.len() + s6.len() + s7.len() + s8.len() {
        assert(views[i] == s8[i - s1.len() - s2.len() - s3.len() - s4.len() - s5.len() - s6.len() - s7.len()]);
    } else {
        assert(views[i] == cs[i - s1.len() - s2.len() - s3.len() - s4.len() - s5.len() - s6.len() - s7.len() - s8.len()]);
    }
}

} // verus!
