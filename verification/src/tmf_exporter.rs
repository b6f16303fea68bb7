//! Writing of TMF files: the file header, mesh names, and the splitting of triangle arrays
//! into segments that need fewer bits per index.
use crate::read_extension::{write_bytes, write_u16, write_u32, write_u8};
use crate::tmf::{is_readable_section, section_code, segment_bytes};
use crate::tmf::EncodedSegment;
use crate::tmf_importer::{
    lemma_read_segments_step, seg_parts, spec_read_mesh, spec_read_segment, spec_read_segments, spec_read_string,
    spec_read_tmf_header, SegParts, TMFHeader,
};
use crate::vertices::{bit_width, calc_prec, seq_min};
use crate::{IndexType, MIN_TMF_MAJOR, MIN_TMF_MINOR, TMF_MAJOR, TMF_MINOR};
use vstd::bytes::{spec_u16_to_le_bytes, spec_u32_from_le_bytes, spec_u32_to_le_bytes};
use smallvec::SmallVec;
use vstd::prelude::*;
use vstd::slice::slice_subrange;
use vstd::string::StringSliceAdditionalSpecFns;

verus! {

/// The bytes of a file header: magic `TMF`, the versions and the mesh count.
pub open spec fn tmf_header_bytes(mesh_count: u32) -> Seq<u8> {
    seq![0x54u8, 0x4du8, 0x46u8] + spec_u16_to_le_bytes(TMF_MAJOR) + spec_u16_to_le_bytes(TMF_MINOR)
        + spec_u16_to_le_bytes(MIN_TMF_MAJOR) + spec_u16_to_le_bytes(MIN_TMF_MINOR)
        + spec_u32_to_le_bytes(mesh_count)
}

/// Appends the header of a file holding `mesh_count` meshes.
pub fn write_tmf_header(w: &mut Vec<u8>, mesh_count: u32)
    ensures
        final(w)@ == old(w)@ + tmf_header_bytes(mesh_count),
{
    write_bytes(w, &[0x54u8, 0x4du8, 0x46u8]);
    write_u16(w, TMF_MAJOR);
    write_u16(w, TMF_MINOR);
    write_u16(w, MIN_TMF_MAJOR);
    write_u16(w, MIN_TMF_MINOR);
    write_u32(w, mesh_count);
    assert(final(w)@ =~= old(w)@ + tmf_header_bytes(mesh_count));
}

/// The bytes of a mesh name: its UTF-8 length in 16 bits, then its UTF-8 bytes.
pub open spec fn mesh_name_bytes(name: &str) -> Seq<u8> {
    spec_u16_to_le_bytes(name.spec_bytes().len() as u16) + name.spec_bytes()
}

/// Appends a mesh name.
pub fn write_mesh_name(w: &mut Vec<u8>, s: &str)
    ensures
        final(w)@ == old(w)@ + mesh_name_bytes(s),
{
    let bytes = s.as_bytes();
    write_u16(w, bytes.len() as u16);
    write_bytes(w, bytes);
    assert(final(w)@ =~= old(w)@ + mesh_name_bytes(s));
}

/// A written file header reads back as the versions this library writes, followed by the
/// mesh count.
pub proof fn lemma_tmf_header_roundtrip(prefix: Seq<u8>, mesh_count: u32, rest: Seq<u8>)
    ensures
        ({
            let data = prefix + tmf_header_bytes(mesh_count) + rest;
            &&& spec_read_tmf_header(data, prefix.len()) == Ok::<(TMFHeader, nat), crate::TMFImportError>(
                (
                    TMFHeader {
                        major: TMF_MAJOR,
                        minor: TMF_MINOR,
                        min_major: MIN_TMF_MAJOR,
                        min_minor: MIN_TMF_MINOR,
                    },
                    prefix.len() + 11,
                ),
            )
            &&& spec_u32_from_le_bytes(data.subrange(prefix.len() + 11 as int, prefix.len() + 15 as int))
                == mesh_count
        }),
{
    vstd::bytes::lemma_auto_spec_u16_to_from_le_bytes();
    vstd::bytes::lemma_auto_spec_u32_to_from_le_bytes();
    let data = prefix + tmf_header_bytes(mesh_count) + rest;
    let p = prefix.len() as int;
    assert(data.subrange(p, p + 3) =~= seq![0x54u8, 0x4du8, 0x46u8]);
    let v = data.subrange(p + 3, p + 11);
    assert(v.subrange(0, 2) =~= spec_u16_to_le_bytes(TMF_MAJOR));
    assert(v.subrange(2, 4) =~= spec_u16_to_le_bytes(TMF_MINOR));
    assert(v.subrange(4, 6) =~= spec_u16_to_le_bytes(MIN_TMF_MAJOR));
    assert(v.subrange(6, 8) =~= spec_u16_to_le_bytes(MIN_TMF_MINOR));
    assert(data.subrange(p + 11, p + 15) =~= spec_u32_to_le_bytes(mesh_count));
}

/// A written mesh name reads back as the same name, where its UTF-8 form is at most
/// 65535 bytes long.
pub proof fn lemma_mesh_name_roundtrip(prefix: Seq<u8>, name: &str, rest: Seq<u8>)
    requires
        name.spec_bytes().len() <= u16::MAX,
    ensures
        spec_read_string(prefix + mesh_name_bytes(name) + rest, prefix.len()) == Ok::<
            (Seq<char>, nat),
            crate::StreamError,
        >((name@, prefix.len() + 2 + name.spec_bytes().len())),
{
    vstd::bytes::lemma_auto_spec_u16_to_from_le_bytes();
    vstd::utf8::encode_utf8_valid_utf8(name@);
    vstd::utf8::encode_utf8_decode_utf8(name@);
    let data = prefix + mesh_name_bytes(name) + rest;
    let p = prefix.len() as int;
    let n = name.spec_bytes().len() as int;
    assert(data.subrange(p, p + 2) =~= spec_u16_to_le_bytes(n as u16));
    assert(data.subrange(p + 2, p + 2 + n) =~= name.spec_bytes());
}

/// A written segment of a recognised kind, with at most `u32::MAX` bytes of data, reads back
/// as the same kind, compression and data.
pub proof fn lemma_segment_roundtrip(
    prefix: Seq<u8>,
    seg_type: crate::tmf::SectionType,
    compression: crate::tmf::CompressionType,
    data: Seq<u8>,
    rest: Seq<u8>,
)
    requires
        is_readable_section(seg_type),
        data.len() <= u32::MAX,
    ensures
        spec_read_segment(true, prefix + segment_bytes(seg_type, compression, data) + rest, prefix.len())
            == Ok::<
            (crate::tmf::SectionType, crate::tmf::CompressionType, Seq<u8>, nat),
            crate::TMFImportError,
        >((seg_type, compression, data, prefix.len() + 6 + data.len())),
{
    vstd::bytes::lemma_auto_spec_u32_to_from_le_bytes();
    let all = prefix + segment_bytes(seg_type, compression, data) + rest;
    let p = prefix.len() as int;
    assert(all.subrange(p, p + 1) =~= seq![section_code(seg_type) as u8]);
    assert(all.subrange(p + 1, p + 5) =~= spec_u32_to_le_bytes(data.len() as u32));
    assert(all.subrange(p + 5, p + 6) =~= seq![crate::tmf::compression_code(compression)]);
    assert(all.subrange(p + 6, p + 6 + data.len()) =~= data);
}

/// The bytes of segments, one after the other.
pub open spec fn segments_bytes(segs: Seq<SegParts>) -> Seq<u8>
    decreases segs.len(),
{
    if segs.len() == 0 {
        Seq::empty()
    } else {
        segment_bytes(segs[0].0, segs[0].1, segs[0].2) + segments_bytes(segs.skip(1))
    }
}

/// The bytes of a mesh: its name, the number of segments in 16 bits, and the segments.
pub open spec fn mesh_bytes(name: &str, segs: Seq<SegParts>) -> Seq<u8> {
    mesh_name_bytes(name) + spec_u16_to_le_bytes(segs.len() as u16) + segments_bytes(segs)
}

/// One more segment adds its bytes at the end.
proof fn lemma_segments_bytes_push(segs: Seq<SegParts>, x: SegParts)
    ensures
        segments_bytes(segs.push(x)) == segments_bytes(segs) + segment_bytes(x.0, x.1, x.2),
    decreases segs.len(),
{
    let sp = segs.push(x);
    if segs.len() == 0 {
        assert(sp.skip(1) =~= Seq::<SegParts>::empty());
        assert(segments_bytes(sp.skip(1)) == Seq::<u8>::empty());
        assert(sp[0] == x);
        assert(segments_bytes(sp) == segment_bytes(x.0, x.1, x.2) + Seq::<u8>::empty());
        assert(segments_bytes(sp) =~= segment_bytes(x.0, x.1, x.2));
        assert(segments_bytes(segs) == Seq::<u8>::empty());
        assert(segments_bytes(segs) + segment_bytes(x.0, x.1, x.2) =~= segment_bytes(x.0, x.1, x.2));
    } else {
        assert(sp.skip(1) =~= segs.skip(1).push(x));
        lemma_segments_bytes_push(segs.skip(1), x);
        assert(sp[0] == segs[0]);
        assert(segments_bytes(sp) =~= segments_bytes(segs) + segment_bytes(x.0, x.1, x.2));
    }
}

/// Appends a mesh: its name, the number of segments and the segments.
pub fn write_mesh_segments(w: &mut Vec<u8>, name: &str, segments: &[EncodedSegment])
    ensures
        final(w)@ == old(w)@ + mesh_bytes(name, segments@.map_values(|s: EncodedSegment| seg_parts(s))),
{
    let ghost parts = segments@.map_values(|s: EncodedSegment| seg_parts(s));
    write_mesh_name(w, name);
    write_u16(w, segments.len() as u16);
    let ghost head = w@;
    let mut i: usize = 0;
    while i < segments.len()
        invariant
            i <= segments@.len(),
            parts == segments@.map_values(|s: EncodedSegment| seg_parts(s)),
            w@ == head + segments_bytes(parts.take(i as int)),
        decreases segments@.len() - i,
    {
        segments[i].write(w);
        proof {
            assert(parts.take(i + 1) =~= parts.take(i as int).push(parts[i as int]));
            lemma_segments_bytes_push(parts.take(i as int), parts[i as int]);
        }
        i = i + 1;
    }
    proof {
        assert(parts.take(i as int) =~= parts);
        assert(final(w)@ =~= old(w)@ + mesh_bytes(name, parts));
    }
}

/// The length of a segment's bytes.
proof fn lemma_segment_bytes_len(x: SegParts)
    ensures
        segment_bytes(x.0, x.1, x.2).len() == 6 + x.2.len(),
{
    vstd::bytes::lemma_auto_spec_u32_to_from_le_bytes();
}

/// Written segments of recognised kinds, each with at most `u32::MAX` bytes of data, read
/// back as the same segments.
pub proof fn lemma_segments_roundtrip(prefix: Seq<u8>, segs: Seq<SegParts>, rest: Seq<u8>)
    requires
        forall|i: int| 0 <= i < segs.len() ==> is_readable_section(#[trigger] segs[i].0) && segs[i].2.len() <= u32::MAX,
    ensures
        spec_read_segments(true, prefix + segments_bytes(segs) + rest, prefix.len(), segs.len())
            == Ok::<(Seq<SegParts>, nat), crate::TMFImportError>(
            (segs, prefix.len() + segments_bytes(segs).len()),
        ),
    decreases segs.len(),
{
    if segs.len() == 0 {
        assert(segments_bytes(segs) =~= Seq::<u8>::empty());
        assert(prefix + segments_bytes(segs) + rest =~= prefix + rest);
        assert(segs =~= Seq::<SegParts>::empty());
    } else {
        let s0 = segs[0];
        let tail = segs.skip(1);
        let first = segment_bytes(s0.0, s0.1, s0.2);
        let tb = segments_bytes(tail);
        assert(is_readable_section(segs[0].0) && segs[0].2.len() <= u32::MAX);
        let data = prefix + segments_bytes(segs) + rest;
        assert(segments_bytes(segs) == first + tb);
        assert(data =~= prefix + first + (tb + rest));
        lemma_segment_roundtrip(prefix, s0.0, s0.1, s0.2, tb + rest);
        lemma_segment_bytes_len(s0);
        assert forall|i: int| 0 <= i < tail.len() implies is_readable_section(#[trigger] tail[i].0)
            && tail[i].2.len() <= u32::MAX by {
            assert(tail[i] == segs[i + 1]);
        }
        lemma_segments_roundtrip(prefix + first, tail, rest);
        assert(data =~= (prefix + first) + tb + rest);
        lemma_read_segments_step(
            true,
            data,
            prefix.len(),
            segs.len(),
            s0,
            prefix.len() + 6 + s0.2.len(),
            tail,
            prefix.len() + first.len() + tb.len(),
        );
        assert(seq![s0] + tail =~= segs);
        assert(prefix.len() + first.len() + tb.len() == prefix.len() + segments_bytes(segs).len());
    }
}

/// A written mesh reads back as the same name and segments, where the name's UTF-8 form is
/// at most 65535 bytes long, there are at most 65535 segments, and each is of a recognised
/// kind with at most `u32::MAX` bytes of data.
pub proof fn lemma_mesh_roundtrip(prefix: Seq<u8>, name: &str, segs: Seq<SegParts>, rest: Seq<u8>)
    requires
        name.spec_bytes().len() <= u16::MAX,
        segs.len() <= u16::MAX,
        forall|i: int| 0 <= i < segs.len() ==> is_readable_section(#[trigger] segs[i].0) && segs[i].2.len() <= u32::MAX,
    ensures
        spec_read_mesh(true, prefix + mesh_bytes(name, segs) + rest, prefix.len()) == Ok::<
            (Seq<char>, Seq<SegParts>, nat),
            crate::TMFImportError,
        >((name@, segs, prefix.len() + mesh_bytes(name, segs).len())),
{
    vstd::bytes::lemma_auto_spec_u16_to_from_le_bytes();
    let nb = mesh_name_bytes(name);
    let cb = spec_u16_to_le_bytes(segs.len() as u16);
    let sb = segments_bytes(segs);
    let data = prefix + mesh_bytes(name, segs) + rest;
    assert(data =~= prefix + nb + (cb + sb + rest));
    lemma_mesh_name_roundtrip(prefix, name, cb + sb + rest);
    let p1 = prefix.len() + nb.len();
    assert(data.subrange(p1 as int, p1 + 2 as int) =~= cb);
    assert(data =~= (prefix + nb + cb) + sb + rest);
    lemma_segments_roundtrip(prefix + nb + cb, segs, rest);
}

/// The index ranges of a split triangle array, in a `smallvec` list (four inline).
#[verifier::external_body]
pub struct SplitRanges {
    list: SmallVec<[(usize, usize); 4]>,
}

/// The ranges a split list holds, in order.
pub uninterp spec fn split_ranges(v: SplitRanges) -> Seq<(usize, usize)>;

/// `SmallVec::new`: an empty list.
#[verifier::external_body]
fn ranges_new() -> (v: SplitRanges)
    ensures
        split_ranges(v) == Seq::<(usize, usize)>::empty(),
{
    SplitRanges { list: SmallVec::new() }
}

/// `SmallVec::push`: appends `r`.
#[verifier::external_body]
fn ranges_push(v: &mut SplitRanges, r: (usize, usize))
    requires
        split_ranges(*old(v)).len() < usize::MAX,
    ensures
        split_ranges(*final(v)) == split_ranges(*old(v)).push(r),
{
    v.list.push(r)
}

/// `SmallVec::into_vec`: the same ranges in a `Vec`.
#[verifier::external_body]
pub(crate) fn ranges_into_vec(v: SplitRanges) -> (res: Vec<(usize, usize)>)
    ensures
        res@ == split_ranges(v),
{
    v.list.into_vec()
}

impl SplitRanges {
    /// The ranges, in order, in a `Vec`.
    pub fn into_ranges(self) -> (res: Vec<(usize, usize)>)
        ensures
            res@ == split_ranges(self),
    {
        ranges_into_vec(self)
    }
}

/// Bytes of a segment header: type, length and compression.
pub const TMF_SEG_SIZE: usize = 6;

/// The largest element of `s`, or 0 for an empty sequence.
pub open spec fn seq_max(s: Seq<u32>) -> u32
    decreases s.len(),
{
    if s.len() == 0 {
        0
    } else if s.len() == 1 {
        s[0]
    } else if s.last() > seq_max(s.drop_last()) {
        s.last()
    } else {
        seq_max(s.drop_last())
    }
}

pub proof fn lemma_seq_max_ge(s: Seq<u32>, i: int)
    requires
        0 <= i < s.len(),
    ensures
        s[i] <= seq_max(s),
    decreases s.len(),
{
    if s.len() > 1 && i < s.len() - 1 {
        lemma_seq_max_ge(s.drop_last(), i);
    }
}

/// The score of splitting a triangle array before element `len`: the bits saved on the
/// first `len` indices by writing them with the width of `lo` instead of that of `hi`, less
/// the bits of the extra segment and triangle headers.
pub open spec fn spec_split_score(len: nat, hi: u32, lo: u32) -> int {
    (bit_width(hi as nat) - bit_width(lo as nat)) * len - ((TMF_SEG_SIZE + 1 + 4) * 8)
}

/// The score of splitting before element `len`, the widths of the indices being those of
/// `delta_span.0` over the whole array and of `delta_span.1` before the split.
pub fn calc_spilt_score(len: usize, delta_span: (IndexType, IndexType)) -> (score: isize)
    requires
        bit_width(delta_span.0 as nat) >= bit_width(delta_span.1 as nat),
        (bit_width(delta_span.0 as nat) - bit_width(delta_span.1 as nat)) * len <= isize::MAX,
    ensures
        score == spec_split_score(len as nat, delta_span.0, delta_span.1),
{
    let gain_bits = calc_prec(delta_span.0 as usize) as usize - calc_prec(delta_span.1 as usize)
        as usize;
    let gain = (gain_bits * len) as isize;
    let loss = ((TMF_SEG_SIZE + 1 + 4) * 8) as isize;
    gain - loss
}

/// The largest index, or 1 for none.
pub open spec fn max_or_one(t: Seq<u32>) -> u32 {
    if t.len() == 0 {
        1
    } else {
        seq_max(t)
    }
}

/// The smallest index, or 1 for none.
pub open spec fn min_or_one(t: Seq<u32>) -> u32 {
    if t.len() == 0 {
        1
    } else {
        seq_min(t)
    }
}

/// The best split found among the first `k` positions, scoring each against the largest
/// index so far: (score, position, largest index so far). Ties keep the earlier position.
pub open spec fn scan_max(t: Seq<u32>, k: nat) -> (int, nat, u32)
    decreases k,
{
    if k == 0 {
        (isize::MIN as int, 0, 0)
    } else {
        let (bs, bi, m) = scan_max(t, (k - 1) as nat);
        let m2 = if t[k - 1] > m {
            t[k - 1]
        } else {
            m
        };
        let sc = spec_split_score((k - 1) as nat, max_or_one(t), m2);
        if sc > bs {
            (sc, (k - 1) as nat, m2)
        } else {
            (bs, bi, m2)
        }
    }
}

/// The best split found among the first `k` positions, scoring each against the smallest
/// index so far: (score, position, smallest index so far).
pub open spec fn scan_min(t: Seq<u32>, k: nat) -> (int, nat, u32)
    decreases k,
{
    if k == 0 {
        (isize::MIN as int, 0, u32::MAX)
    } else {
        let (bs, bi, m) = scan_min(t, (k - 1) as nat);
        let m2 = if t[k - 1] < m {
            t[k - 1]
        } else {
            m
        };
        let sc = spec_split_score((k - 1) as nat, m2, min_or_one(t));
        if sc > bs {
            (sc, (k - 1) as nat, m2)
        } else {
            (bs, bi, m2)
        }
    }
}

/// Ranges moved right by `d`.
pub open spec fn shift_ranges(r: Seq<(int, int)>, d: int) -> Seq<(int, int)> {
    r.map_values(|x: (int, int)| (x.0 + d, x.1 + d))
}

/// The ranges a triangle array is split into: where a split against the largest index
/// scores above zero, split there and split both parts again; else the same against the
/// smallest index; else keep the array whole.
pub open spec fn spec_opt_ranges(t: Seq<u32>) -> Seq<(int, int)>
    decreases t.len(),
{
    let (bs, bi, _) = scan_max(t, t.len());
    let (bs2, bi2, _) = scan_min(t, t.len());
    if bs > 0 && 0 < bi < t.len() {
        spec_opt_ranges(t.subrange(0, bi as int)) + shift_ranges(
            spec_opt_ranges(t.subrange(bi as int, t.len() as int)),
            bi as int,
        )
    } else if bs2 > 0 && 0 < bi2 < t.len() {
        spec_opt_ranges(t.subrange(0, bi2 as int)) + shift_ranges(
            spec_opt_ranges(t.subrange(bi2 as int, t.len() as int)),
            bi2 as int,
        )
    } else {
        seq![(0int, t.len() as int)]
    }
}

/// `v` holds the ranges `r`.
pub open spec fn ranges_match(v: Seq<(usize, usize)>, r: Seq<(int, int)>) -> bool {
    &&& v.len() == r.len()
    &&& forall|i: int| 0 <= i < v.len() ==> v[i].0 == r[i].0 && v[i].1 == r[i].1
}

/// The ranges lie end to end, from 0 to `len`.
pub open spec fn is_partition(r: Seq<(int, int)>, len: nat) -> bool {
    &&& r.len() >= 1
    &&& r[0].0 == 0
    &&& r.last().1 == len
    &&& forall|i: int| 0 <= i < r.len() ==> 0 <= #[trigger] r[i].0 <= r[i].1 <= len
    &&& forall|i: int| 0 <= i < r.len() - 1 ==> #[trigger] r[i].1 == r[i + 1].0
}

proof fn lemma_score_at_zero()
    ensures
        forall|hi: u32, lo: u32| #[trigger] spec_split_score(0, hi, lo) == -88,
{
    assert forall|hi: u32, lo: u32| #[trigger] spec_split_score(0, hi, lo) == -88 by {
        let d = bit_width(hi as nat) - bit_width(lo as nat);
        assert(d * 0 == 0) by (nonlinear_arith);
    }
}

proof fn lemma_scan_max_index(t: Seq<u32>, k: nat)
    requires
        k <= t.len(),
    ensures
        scan_max(t, k).0 > 0 ==> 0 < scan_max(t, k).1 < k,
    decreases k,
{
    if k > 0 {
        lemma_scan_max_index(t, (k - 1) as nat);
        lemma_score_at_zero();
    }
}

proof fn lemma_scan_min_index(t: Seq<u32>, k: nat)
    requires
        k <= t.len(),
    ensures
        scan_min(t, k).0 > 0 ==> 0 < scan_min(t, k).1 < k,
    decreases k,
{
    if k > 0 {
        lemma_scan_min_index(t, (k - 1) as nat);
        lemma_score_at_zero();
    }
}

proof fn lemma_join_partition(a: Seq<(int, int)>, b: Seq<(int, int)>, m: nat, len: nat)
    requires
        is_partition(a, m),
        is_partition(b, (len - m) as nat),
        m <= len,
    ensures
        is_partition(a + shift_ranges(b, m as int), len),
{
    let r = a + shift_ranges(b, m as int);
    assert forall|i: int| 0 <= i < r.len() - 1 implies #[trigger] r[i].1 == r[i + 1].0 by {
        if i == a.len() - 1 {
        } else if i < a.len() - 1 {
        } else {
            assert(b[i - a.len()].1 == b[i - a.len() + 1].0);
        }
    }
    assert forall|i: int| 0 <= i < r.len() implies 0 <= #[trigger] r[i].0 <= r[i].1 <= len by {
        if i >= a.len() {
            assert(0 <= b[i - a.len()].0 <= b[i - a.len()].1 <= len - m);
        }
    }
}

/// Splitting a triangle array loses and reorders nothing: the ranges lie end to end and
/// cover the array, and there are no more of them than indices (one for an empty array).
pub proof fn lemma_opt_ranges_partition(t: Seq<u32>)
    ensures
        is_partition(spec_opt_ranges(t), t.len()),
        spec_opt_ranges(t).len() <= if t.len() == 0 {
            1
        } else {
            t.len()
        },
    decreases t.len(),
{
    let (bs, bi, _) = scan_max(t, t.len());
    let (bs2, bi2, _) = scan_min(t, t.len());
    if bs > 0 && 0 < bi < t.len() {
        lemma_opt_ranges_partition(t.subrange(0, bi as int));
        lemma_opt_ranges_partition(t.subrange(bi as int, t.len() as int));
        lemma_join_partition(
            spec_opt_ranges(t.subrange(0, bi as int)),
            spec_opt_ranges(t.subrange(bi as int, t.len() as int)),
            bi,
            t.len(),
        );
    } else if bs2 > 0 && 0 < bi2 < t.len() {
        lemma_opt_ranges_partition(t.subrange(0, bi2 as int));
        lemma_opt_ranges_partition(t.subrange(bi2 as int, t.len() as int));
        lemma_join_partition(
            spec_opt_ranges(t.subrange(0, bi2 as int)),
            spec_opt_ranges(t.subrange(bi2 as int, t.len() as int)),
            bi2,
            t.len(),
        );
    }
}

/// Appends `r1` and then `r2` moved right by `offset`.
fn join_ranges(r1: SplitRanges, r2: SplitRanges, offset: usize, limit: usize) -> (res: SplitRanges)
    requires
        forall|i: int| 0 <= i < split_ranges(r2).len() ==> split_ranges(r2)[i].0 + offset
            <= limit && split_ranges(r2)[i].1 + offset <= limit,
        split_ranges(r1).len() + split_ranges(r2).len() < usize::MAX,
    ensures
        split_ranges(res) == split_ranges(r1) + split_ranges(r2).map_values(
            |x: (usize, usize)| ((x.0 + offset) as usize, (x.1 + offset) as usize),
        ),
{
    let v1 = ranges_into_vec(r1);
    let v2 = ranges_into_vec(r2);
    let mut res = ranges_new();
    let mut i: usize = 0;
    while i < v1.len()
        invariant
            i <= v1@.len(),
            split_ranges(res) == v1@.subrange(0, i as int),
            v1@.len() + v2@.len() < usize::MAX,
        decreases v1@.len() - i,
    {
        ranges_push(&mut res, v1[i]);
        i = i + 1;
        assert(split_ranges(res) =~= v1@.subrange(0, i as int));
    }
    let ghost shifted = v2@.map_values(
        |x: (usize, usize)| ((x.0 + offset) as usize, (x.1 + offset) as usize),
    );
    let mut j: usize = 0;
    assert(v1@.subrange(0, v1@.len() as int) =~= v1@ + shifted.subrange(0, 0));
    while j < v2.len()
        invariant
            j <= v2@.len(),
            v2@ == split_ranges(r2),
            shifted == v2@.map_values(
                |x: (usize, usize)| ((x.0 + offset) as usize, (x.1 + offset) as usize),
            ),
            split_ranges(res) == v1@ + shifted.subrange(0, j as int),
            v1@.len() + v2@.len() < usize::MAX,
            forall|i: int| 0 <= i < split_ranges(r2).len() ==> split_ranges(r2)[i].0 + offset
                <= limit && split_ranges(r2)[i].1 + offset <= limit,
        decreases v2@.len() - j,
    {
        let (a, b) = v2[j];
        ranges_push(&mut res, (a + offset, b + offset));
        j = j + 1;
        assert(split_ranges(res) =~= v1@ + shifted.subrange(0, j as int));
    }
    assert(shifted.subrange(0, v2@.len() as int) =~= shifted);
    res
}

proof fn lemma_bit_width_mono(a: nat, b: nat)
    requires
        a <= b,
    ensures
        bit_width(a) <= bit_width(b),
    decreases b,
{
    if a > 0 {
        lemma_bit_width_mono(a / 2, b / 2);
    }
}

proof fn lemma_bit_width_u32(x: u32)
    ensures
        bit_width(x as nat) <= 32,
{
    vstd::arithmetic::power2::lemma2_to64();
    crate::vertices::lemma_bit_width_le(x as nat, 32);
}

/// The largest index, or 1 for none.
fn max_or_one_of(t: &[IndexType]) -> (m: IndexType)
    ensures
        m == max_or_one(t@),
{
    if t.len() == 0 {
        return 1;
    }
    let mut m: u32 = t[0];
    let mut i: usize = 1;
    assert(t@.subrange(0, 1).len() == 1);
    while i < t.len()
        invariant
            1 <= i <= t@.len(),
            m == seq_max(t@.subrange(0, i as int)),
        decreases t@.len() - i,
    {
        assert(t@.subrange(0, i + 1).drop_last() =~= t@.subrange(0, i as int));
        if t[i] > m {
            m = t[i];
        }
        i = i + 1;
    }
    assert(t@.subrange(0, t@.len() as int) =~= t@);
    m
}

/// The smallest index, or 1 for none.
fn min_or_one_of(t: &[IndexType]) -> (m: IndexType)
    ensures
        m == min_or_one(t@),
{
    if t.len() == 0 {
        1
    } else {
        crate::vertices::triangles_min(t)
    }
}

/// Splits a triangle array where that saves bits: indices before a split point may need
/// fewer bits than the largest (or more than the smallest) index of the whole array. Gives
/// the ranges of the parts, in order.
pub fn opt_tris(triangles: &[IndexType]) -> (res: SplitRanges)
    requires
        triangles@.len() * 32 <= isize::MAX,
    ensures
        ranges_match(split_ranges(res), spec_opt_ranges(triangles@)),
    decreases triangles@.len(),
{
    let ghost t = triangles@;
    let len = triangles.len();
    let total_max = max_or_one_of(triangles);
    let mut best_score: isize = isize::MIN;
    let mut best_index: usize = 0;
    let mut max_index: IndexType = 0;
    let mut index: usize = 0;
    while index < len
        invariant
            index <= len == t.len(),
            t == triangles@,
            len * 32 <= isize::MAX,
            total_max == max_or_one(t),
            max_index <= total_max,
            (best_score as int, best_index as nat, max_index) == scan_max(t, index as nat),
        decreases len - index,
    {
        let tri = triangles[index];
        max_index = if tri > max_index {
            tri
        } else {
            max_index
        };
        proof {
            lemma_seq_max_ge(t, index as int);
            lemma_bit_width_mono(max_index as nat, total_max as nat);
            lemma_bit_width_u32(total_max);
            assert((bit_width(total_max as nat) - bit_width(max_index as nat)) * index <= 32
                * len) by (nonlinear_arith)
                requires
                    0 <= bit_width(total_max as nat) - bit_width(max_index as nat) <= 32,
                    index <= len,
            ;
        }
        let score = calc_spilt_score(index, (total_max, max_index));
        if score > best_score {
            best_index = index;
            best_score = score;
        }
        index = index + 1;
    }
    proof {
        lemma_scan_max_index(t, len as nat);
    }
    if best_score > 0 {
        let first = slice_subrange(triangles, 0, best_index);
        let second = slice_subrange(triangles, best_index, len);
        let r1 = opt_tris(first);
        let r2 = opt_tris(second);
        proof {
            lemma_opt_ranges_partition(first@);
            lemma_opt_ranges_partition(second@);
        }
        let res = join_ranges(r1, r2, best_index, len);
        proof {
            let sp = spec_opt_ranges(first@) + shift_ranges(
                spec_opt_ranges(second@),
                best_index as int,
            );
            assert(spec_opt_ranges(t) == sp);
            assert(ranges_match(split_ranges(res), sp));
        }
        return res;
    }
    let total_min = min_or_one_of(triangles);
    let mut best_score: isize = isize::MIN;
    let mut best_index: usize = 0;
    let mut min_index: IndexType = IndexType::MAX;
    let mut index: usize = 0;
    while index < len
        invariant
            index <= len == t.len(),
            t == triangles@,
            len * 32 <= isize::MAX,
            total_min == min_or_one(t),
            len > 0 ==> min_index >= total_min,
            (best_score as int, best_index as nat, min_index) == scan_min(t, index as nat),
        decreases len - index,
    {
        let tri = triangles[index];
        min_index = if tri < min_index {
            tri
        } else {
            min_index
        };
        proof {
            crate::vertices::lemma_seq_min_le(t, index as int);
            lemma_bit_width_mono(total_min as nat, min_index as nat);
            lemma_bit_width_u32(min_index);
            assert((bit_width(min_index as nat) - bit_width(total_min as nat)) * index <= 32
                * len) by (nonlinear_arith)
                requires
                    0 <= bit_width(min_index as nat) - bit_width(total_min as nat) <= 32,
                    index <= len,
            ;
        }
        let score = calc_spilt_score(index, (min_index, total_min));
        if score > best_score {
            best_index = index;
            best_score = score;
        }
        index = index + 1;
    }
    proof {
        lemma_scan_min_index(t, len as nat);
    }
    if best_score > 0 {
        let first = slice_subrange(triangles, 0, best_index);
        let second = slice_subrange(triangles, best_index, len);
        let r1 = opt_tris(first);
        let r2 = opt_tris(second);
        proof {
            lemma_opt_ranges_partition(first@);
            lemma_opt_ranges_partition(second@);
        }
        let res = join_ranges(r1, r2, best_index, len);
        proof {
            let sp = spec_opt_ranges(first@) + shift_ranges(
                spec_opt_ranges(second@),
                best_index as int,
            );
            assert(spec_opt_ranges(t) == sp);
            assert(ranges_match(split_ranges(res), sp));
        }
        return res;
    }
    let mut res = ranges_new();
    ranges_push(&mut res, (0, len));
    proof {
        assert(split_ranges(res) =~= seq![(0usize, len)]);
    }
    res
}

} // verus!
