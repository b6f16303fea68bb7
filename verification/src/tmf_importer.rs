//! Reading of TMF files: the file header, mesh names, the field widths a file version uses,
//! and triangle segments.
use crate::read_extension::{lift, spec_take, ByteReader};
use crate::tmf::{spec_compression_from_u8, spec_section_from_u8, CompressionType, EncodedSegment, SectionType};
use crate::vertices::{bit_width, is_triangle_encoding, read_triangle_seg, reads_zero_width_pairs, spec_read_triangle_seg};
use crate::{IndexType, StreamError, TMFImportError, TMF_MAJOR, TMF_MINOR};
use vstd::bytes::{spec_u16_from_le_bytes, spec_u32_from_le_bytes, spec_u64_from_le_bytes};
use vstd::prelude::*;
use vstd::string::StringSliceAdditionalSpecFns;
use vstd::utf8::valid_utf8;

verus! {

/// The versions a file header states.
#[derive(Clone, Copy, Debug, PartialEq, Eq, Structural)]
pub struct TMFHeader {
    /// Major version of the format used to write the file.
    pub major: u16,
    /// Minor version of the format used to write the file.
    pub minor: u16,
    /// Major version a reader needs.
    pub min_major: u16,
    /// Minor version a reader needs.
    pub min_minor: u16,
}

/// Width of the segment length field.
#[derive(Clone, Copy, Debug, PartialEq, Eq, Structural)]
pub enum SegLenWidth {
    U32,
    U64,
}

impl SegLenWidth {
    /// Files needing minor version 2 or later store lengths in 4 bytes, older ones in 8.
    pub fn from_header(header: &TMFHeader) -> (res: Self)
        ensures
            res == if header.min_minor > 1 {
                SegLenWidth::U32
            } else {
                SegLenWidth::U64
            },
    {
        if header.min_minor > 1 {
            Self::U32
        } else {
            Self::U64
        }
    }

    /// Reads a segment length.
    pub fn read(&self, src: &mut ByteReader) -> (res: Result<usize, StreamError>)
        ensures
            final(src).data() == old(src).data(),
            match spec_read_length(*self == SegLenWidth::U32, old(src).data(), old(src).pos()) {
                Some((v, p)) => res == Ok::<usize, StreamError>(v) && final(src).pos() == p,
                None => res == Err::<usize, StreamError>(StreamError::UnexpectedEof),
            },
    {
        match self {
            Self::U32 => Ok(src.read_u32()? as usize),
            Self::U64 => Ok(src.read_u64()? as usize),
        }
    }
}

/// Width of the segment type field.
#[derive(Clone, Copy, Debug, PartialEq, Eq, Structural)]
pub enum SegTypeWidth {
    U16,
    U8,
}

impl SegTypeWidth {
    /// Files needing minor version 2 or later store segment types in one byte, older ones in two.
    pub fn from_header(header: &TMFHeader) -> (res: Self)
        ensures
            res == if header.min_minor > 1 {
                SegTypeWidth::U8
            } else {
                SegTypeWidth::U16
            },
    {
        if header.min_minor > 1 {
            Self::U8
        } else {
            Self::U16
        }
    }

    /// Reads a segment type.
    pub fn read(&self, src: &mut ByteReader) -> (res: Result<SectionType, StreamError>)
        ensures
            final(src).data() == old(src).data(),
            match spec_read_section(*self == SegTypeWidth::U8, old(src).data(), old(src).pos()) {
                Some((t, p)) => res == Ok::<SectionType, StreamError>(t) && final(src).pos() == p,
                None => res == Err::<SectionType, StreamError>(StreamError::UnexpectedEof),
            },
    {
        match self {
            Self::U8 => Ok(SectionType::from_u8(src.read_u8()?)),
            Self::U16 => Ok(SectionType::from_u16(src.read_u16()?)),
        }
    }
}

/// A segment length of 4 (`short`) or 8 bytes at `pos`, and the position after it.
pub open spec fn spec_read_length(short: bool, data: Seq<u8>, pos: nat) -> Option<(usize, nat)> {
    if short {
        match spec_take(data, pos, 4) {
            Some((b, p)) => Some((spec_u32_from_le_bytes(b) as usize, p)),
            None => None,
        }
    } else {
        match spec_take(data, pos, 8) {
            Some((b, p)) => Some((spec_u64_from_le_bytes(b) as usize, p)),
            None => None,
        }
    }
}

/// A segment type of 1 (`short`) or 2 bytes at `pos`, and the position after it.
pub open spec fn spec_read_section(short: bool, data: Seq<u8>, pos: nat) -> Option<(SectionType, nat)> {
    if short {
        match spec_take(data, pos, 1) {
            Some((b, p)) => Some((spec_section_from_u8(b[0]), p)),
            None => None,
        }
    } else {
        match spec_take(data, pos, 2) {
            Some((b, p)) => {
                let v = spec_u16_from_le_bytes(b);
                Some(
                    (
                        if v > 255 {
                            SectionType::Invalid
                        } else {
                            spec_section_from_u8(v as u8)
                        },
                        p,
                    ),
                )
            },
            None => None,
        }
    }
}

/// A segment at `pos`: kind, compression, data and the position after it.
pub open spec fn spec_read_segment(modern: bool, data: Seq<u8>, pos: nat) -> Result<
    (SectionType, CompressionType, Seq<u8>, nat),
    TMFImportError,
> {
    let eof = TMFImportError::IO(StreamError::UnexpectedEof);
    match spec_read_section(modern, data, pos) {
        None => Err(eof),
        Some((t, p1)) => match spec_read_length(modern, data, p1) {
            None => Err(eof),
            Some((len, p2)) => match spec_take(data, p2, 1) {
                None => Err(eof),
                Some((c, p3)) => match spec_compression_from_u8(c[0]) {
                    Err(e) => Err(e),
                    Ok(comp) => match spec_take(data, p3, len as nat) {
                        None => Err(eof),
                        Some((d, p4)) => Ok((t, comp, d, p4)),
                    },
                },
            },
        },
    }
}

/// What a reader needs to know of the file it reads.
#[derive(Clone, Copy, Debug)]
pub struct TMFImportContext {
    segment_length_width: SegLenWidth,
    segment_type_width: SegTypeWidth,
    should_read_min_index: bool,
}

impl TMFImportContext {
    #[verifier::type_invariant]
    closed spec fn inv(self) -> bool {
        &&& (self.segment_length_width == SegLenWidth::U32) == self.should_read_min_index
        &&& (self.segment_type_width == SegTypeWidth::U8) == self.should_read_min_index
    }

    /// The file uses the layout of minor version 2 and later: one byte segment types, four
    /// byte segment lengths, and the smallest index stored with each triangle segment.
    pub closed spec fn spec_modern(self) -> bool {
        self.should_read_min_index
    }

    /// The width of segment types.
    pub fn segment_type_width(&self) -> (res: &SegTypeWidth)
        ensures
            (*res == SegTypeWidth::U8) == self.spec_modern(),
    {
        proof {
            use_type_invariant(self);
        }
        &self.segment_type_width
    }

    /// The width of segment lengths.
    pub fn segment_length_width(&self) -> (res: &SegLenWidth)
        ensures
            (*res == SegLenWidth::U32) == self.spec_modern(),
    {
        proof {
            use_type_invariant(self);
        }
        &self.segment_length_width
    }

    /// Reads the smallest index of a triangle segment, where the file stores one.
    pub fn read_traingle_min(&self, src: &mut ByteReader) -> (res: Result<u64, StreamError>)
        ensures
            final(src).data() == old(src).data(),
            !self.spec_modern() ==> res == Ok::<u64, StreamError>(0) && final(src).pos() == old(
                src,
            ).pos(),
            self.spec_modern() ==> match spec_take(old(src).data(), old(src).pos(), 8) {
                Some((b, p)) => res == Ok::<u64, StreamError>(spec_u64_from_le_bytes(b))
                    && final(src).pos() == p,
                None => res == Err::<u64, StreamError>(StreamError::UnexpectedEof),
            },
    {
        if self.should_read_min_index {
            src.read_u64()
        } else {
            Ok(0)
        }
    }

    /// The context for a file with header `hdr`.
    pub fn init_header(hdr: TMFHeader) -> (res: Self)
        ensures
            res.spec_modern() == (hdr.min_minor > 1),
    {
        Self {
            segment_length_width: SegLenWidth::from_header(&hdr),
            segment_type_width: SegTypeWidth::from_header(&hdr),
            should_read_min_index: (hdr.min_minor > 1),
        }
    }
}

/// `std::str::from_utf8`: `Some` exactly where `bytes` are valid UTF-8, holding the string
/// whose UTF-8 encoding they are.
#[verifier::external_body]
fn str_from_utf8(bytes: &[u8]) -> (res: Option<&str>)
    ensures
        res is Some <==> valid_utf8(bytes@),
        res matches Some(s) ==> s.spec_bytes() == bytes@,
{
    std::str::from_utf8(bytes).ok()
}

/// The name at `pos`: a 16 bit length and that many bytes of UTF-8.
pub open spec fn spec_read_string(data: Seq<u8>, pos: nat) -> Result<(Seq<char>, nat), StreamError> {
    match spec_take(data, pos, 2) {
        None => Err(StreamError::UnexpectedEof),
        Some((l, p1)) => match spec_take(data, p1, spec_u16_from_le_bytes(l) as nat) {
            None => Err(StreamError::UnexpectedEof),
            Some((b, p2)) => if valid_utf8(b) {
                Ok((vstd::utf8::decode_utf8(b), p2))
            } else {
                Err(StreamError::InvalidUtf8)
            },
        },
    }
}

/// Reads a mesh name.
pub fn read_string(src: &mut ByteReader) -> (res: Result<String, StreamError>)
    ensures
        final(src).data() == old(src).data(),
        match spec_read_string(old(src).data(), old(src).pos()) {
            Ok((s, p)) => res matches Ok(r) && r@ == s && final(src).pos() == p,
            Err(e) => res matches Err(e2) && e2 == e,
        },
{
    let byte_len = src.read_u16()?;
    let bytes = src.read_bytes(byte_len as usize)?;
    match str_from_utf8(bytes) {
        Some(string) => {
            proof {
                vstd::utf8::encode_utf8_decode_utf8(string@);
            }
            Ok(string.to_owned())
        },
        None => Err(StreamError::InvalidUtf8),
    }
}

/// The header of a file: magic `TMF`, then four 16 bit versions.
pub open spec fn spec_read_tmf_header(data: Seq<u8>, pos: nat) -> Result<(TMFHeader, nat), TMFImportError> {
    let eof = TMFImportError::IO(StreamError::UnexpectedEof);
    match spec_take(data, pos, 3) {
        None => Err(eof),
        Some((magic, p0)) => if magic != seq![0x54u8, 0x4du8, 0x46u8] {
            Err(TMFImportError::NotTMFFile)
        } else {
            match spec_take(data, p0, 8) {
                None => Err(eof),
                Some((v, p)) => {
                    let major = spec_u16_from_le_bytes(v.subrange(0, 2));
                    let minor = spec_u16_from_le_bytes(v.subrange(2, 4));
                    let min_major = spec_u16_from_le_bytes(v.subrange(4, 6));
                    let min_minor = spec_u16_from_le_bytes(v.subrange(6, 8));
                    if min_major > TMF_MAJOR || (min_major == TMF_MAJOR && min_minor > TMF_MINOR) {
                        Err(TMFImportError::NewerVersionRequired)
                    } else {
                        Ok((TMFHeader { major, minor, min_major, min_minor }, p))
                    }
                },
            }
        },
    }
}

/// Reads the header of a file, refusing files that need a newer reader.
pub fn read_tmf_header(src: &mut ByteReader) -> (res: Result<TMFHeader, TMFImportError>)
    ensures
        final(src).data() == old(src).data(),
        match spec_read_tmf_header(old(src).data(), old(src).pos()) {
            Ok((h, p)) => res == Ok::<TMFHeader, TMFImportError>(h) && final(src).pos() == p,
            Err(e) => res == Err::<TMFHeader, TMFImportError>(e),
        },
{
    let ghost d = src.data();
    let ghost p0 = src.pos();
    let magic = lift(src.read_bytes(3))?;
    if !(magic[0] == 0x54 && magic[1] == 0x4d && magic[2] == 0x46) {
        proof {
            assert(magic@ != seq![0x54u8, 0x4du8, 0x46u8]);
        }
        return Err(TMFImportError::NotTMFFile);
    }
    proof {
        assert(magic@ =~= seq![0x54u8, 0x4du8, 0x46u8]);
    }
    let ghost p1 = src.pos() as int;
    let major = lift(src.read_u16())?;
    let minor = lift(src.read_u16())?;
    let min_major = lift(src.read_u16())?;
    let min_minor = lift(src.read_u16())?;
    proof {
        let v = d.subrange(p1, p1 + 8);
        assert(v.subrange(0, 2) =~= d.subrange(p1, p1 + 2));
        assert(v.subrange(2, 4) =~= d.subrange(p1 + 2, p1 + 4));
        assert(v.subrange(4, 6) =~= d.subrange(p1 + 4, p1 + 6));
        assert(v.subrange(6, 8) =~= d.subrange(p1 + 6, p1 + 8));
    }
    if min_major > TMF_MAJOR || (min_major == TMF_MAJOR && min_minor > TMF_MINOR) {
        Err(TMFImportError::NewerVersionRequired)
    } else {
        Ok(TMFHeader { major, minor, min_major, min_minor })
    }
}

/// Reads an uncompressed triangle segment and appends its indices to `data`; a precision of
/// zero bits gives zeros. Where reading fails, `data` is left as it was.
pub fn read_default_triangles(src: &[u8], data: &mut Vec<IndexType>, ctx: &TMFImportContext) -> (res:
    Result<(), TMFImportError>)
    ensures
        match spec_read_triangle_seg(src@, ctx.spec_modern(), true) {
            Ok(t) => res is Ok && final(data)@ == old(data)@ + t,
            Err(e) => res == Err::<(), TMFImportError>(e) && final(data)@ == old(data)@,
        },
{
    match read_triangle_seg(src, ctx.should_read_min_index, true) {
        Ok(mut indices) => {
            data.append(&mut indices);
            Ok(())
        },
        Err(e) => Err(e),
    }
}

/// An uncompressed triangle segment written for `triangles` (each at most `max_index`, whose
/// bit width is below 64, and at most `MAX_SEG_SIZE` of them), read back where the file
/// stores the smallest index, appends exactly `triangles` after the indices `before` that
/// were already there.
pub proof fn lemma_read_default_appends(data: Seq<u8>, triangles: Seq<u32>, max_index: nat, before: Seq<u32>)
    requires
        is_triangle_encoding(data, triangles, max_index),
        forall|i: int| 0 <= i < triangles.len() ==> triangles[i] <= max_index,
        bit_width(max_index) < 64,
        triangles.len() <= crate::MAX_SEG_SIZE,
    ensures
        spec_read_triangle_seg(data, true, true) matches Ok(t) && before + t == before + triangles,
{
    crate::vertices::lemma_triangles_roundtrip(data, triangles, max_index);
}

/// Reads a triangle segment of custom index data. Pairs of indices are read together, so a
/// precision of zero bits with two or more indices is not accepted.
pub fn read_triangles(src: &[u8], ctx: &TMFImportContext) -> (res: Result<
    Vec<IndexType>,
    TMFImportError,
>)
    requires
        !reads_zero_width_pairs(src@, ctx.spec_modern()),
    ensures
        match spec_read_triangle_seg(src@, ctx.spec_modern(), false) {
            Ok(t) => res matches Ok(v) && v@ == t,
            Err(e) => res == Err::<Vec<IndexType>, TMFImportError>(e),
        },
{
    read_triangle_seg(src, ctx.should_read_min_index, false)
}

/// The parts of a stored segment: kind, compression and data.
pub type SegParts = (SectionType, CompressionType, Seq<u8>);

/// `n` segments one after the other from `pos`, and the position after them.
pub open spec fn spec_read_segments(modern: bool, data: Seq<u8>, pos: nat, n: nat) -> Result<
    (Seq<SegParts>, nat),
    TMFImportError,
>
    decreases n,
{
    if n == 0 {
        Ok((Seq::empty(), pos))
    } else {
        match spec_read_segment(modern, data, pos) {
            Err(e) => Err(e),
            Ok((t, c, d, p)) => match spec_read_segments(modern, data, p, (n - 1) as nat) {
                Err(e) => Err(e),
                Ok((rest, p2)) => Ok((seq![(t, c, d)] + rest, p2)),
            },
        }
    }
}

/// Reading `n` segments is reading one, then `n - 1` from where it ends.
pub proof fn lemma_read_segments_step(
    modern: bool,
    data: Seq<u8>,
    pos: nat,
    n: nat,
    first: SegParts,
    p: nat,
    rest: Seq<SegParts>,
    p2: nat,
)
    requires
        n > 0,
        spec_read_segment(modern, data, pos) == Ok::<(SectionType, CompressionType, Seq<u8>, nat), TMFImportError>(
            (first.0, first.1, first.2, p),
        ),
        spec_read_segments(modern, data, p, (n - 1) as nat) == Ok::<(Seq<SegParts>, nat), TMFImportError>(
            (rest, p2),
        ),
    ensures
        spec_read_segments(modern, data, pos, n) == Ok::<(Seq<SegParts>, nat), TMFImportError>(
            (seq![first] + rest, p2),
        ),
{
}

/// A mesh at `pos`: its name, a 16 bit segment count and that many segments; then the
/// position after it.
pub open spec fn spec_read_mesh(modern: bool, data: Seq<u8>, pos: nat) -> Result<
    (Seq<char>, Seq<SegParts>, nat),
    TMFImportError,
> {
    match spec_read_string(data, pos) {
        Err(e) => Err(TMFImportError::IO(e)),
        Ok((name, p1)) => match spec_take(data, p1, 2) {
            None => Err(TMFImportError::IO(StreamError::UnexpectedEof)),
            Some((c, p2)) => match spec_read_segments(modern, data, p2, spec_u16_from_le_bytes(c) as nat) {
                Err(e) => Err(e),
                Ok((segs, p3)) => Ok((name, segs, p3)),
            },
        },
    }
}

/// The parts of a segment read into memory.
pub open spec fn seg_parts(s: EncodedSegment) -> SegParts {
    (s.seg_type, s.compresion_type, s.data@)
}

/// Reads a mesh: its name and its segments, still encoded.
pub fn read_mesh_segments(ctx: &TMFImportContext, src: &mut ByteReader) -> (res: Result<
    (String, Vec<EncodedSegment>),
    TMFImportError,
>)
    ensures
        final(src).data() == old(src).data(),
        match spec_read_mesh(ctx.spec_modern(), old(src).data(), old(src).pos()) {
            Ok((name, segs, p)) => res matches Ok((n, v)) && n@ == name && v@.map_values(
                |s: EncodedSegment| seg_parts(s),
            ) == segs && final(src).pos() == p,
            Err(e) => res matches Err(e2) && e2 == e,
        },
{
    let ghost modern = ctx.spec_modern();
    let ghost d = src.data();
    let name = lift(read_string(src))?;
    let ghost p2 = src.pos() + 2;
    let count = lift(src.read_u16())?;
    let ghost goal = spec_read_segments(modern, d, p2, count as nat);
    let ghost whole = spec_read_mesh(modern, d, old(src).pos());
    proof {
        assert(whole == match goal {
            Ok((v, p)) => Ok::<(Seq<char>, Seq<SegParts>, nat), TMFImportError>((name@, v, p)),
            Err(e) => Err(e),
        });
    }
    let mut segs: Vec<EncodedSegment> = Vec::new();
    let mut i: u16 = 0;
    while i < count
        invariant
            src.data() == d,
            d == old(src).data(),
            whole == spec_read_mesh(modern, d, old(src).pos()),
            whole == match goal {
                Ok((v, p)) => Ok::<(Seq<char>, Seq<SegParts>, nat), TMFImportError>((name@, v, p)),
                Err(e) => Err(e),
            },
            i <= count,
            modern == ctx.spec_modern(),
            goal == spec_read_segments(modern, d, p2, count as nat),
            goal == match spec_read_segments(modern, d, src.pos(), (count - i) as nat) {
                Ok((rest, p)) => Ok::<(Seq<SegParts>, nat), TMFImportError>(
                    (segs@.map_values(|s: EncodedSegment| seg_parts(s)) + rest, p),
                ),
                Err(e) => Err(e),
            },
        decreases count - i,
    {
        let ghost before = segs@.map_values(|s: EncodedSegment| seg_parts(s));
        let ghost p0 = src.pos();
        let seg = EncodedSegment::read(ctx, src)?;
        proof {
            let (t, c, dd, p) = spec_read_segment(modern, d, p0)->Ok_0;
            let n = (count - i) as nat;
            assert(spec_read_segments(modern, d, p0, n) == match spec_read_segments(
                modern,
                d,
                p,
                (n - 1) as nat,
            ) {
                Err(e) => Err(e),
                Ok((rest, p2)) => Ok::<(Seq<SegParts>, nat), TMFImportError>((seq![(t, c, dd)] + rest, p2)),
            });
        }
        segs.push(seg);
        proof {
            assert(segs@.map_values(|s: EncodedSegment| seg_parts(s)) =~= before.push(
                seg_parts(segs@.last()),
            ));
            match spec_read_segments(modern, d, src.pos(), (count - i - 1) as nat) {
                Ok((rest, p)) => {
                    assert(before + (seq![seg_parts(segs@.last())] + rest) =~= before.push(
                        seg_parts(segs@.last()),
                    ) + rest);
                },
                Err(e) => {},
            }
        }
        i = i + 1;
    }
    proof {
        assert(spec_read_segments(modern, d, src.pos(), 0) == Ok::<(Seq<SegParts>, nat), TMFImportError>(
            (Seq::empty(), src.pos()),
        ));
        assert(segs@.map_values(|s: EncodedSegment| seg_parts(s)) + Seq::<SegParts>::empty()
            =~= segs@.map_values(|s: EncodedSegment| seg_parts(s)));
    }
    Ok((name, segs))
}

/// The start of a file at `pos`: its header, then a 32 bit mesh count; then the position
/// after them.
pub open spec fn spec_read_tmf_start(data: Seq<u8>, pos: nat) -> Result<(TMFHeader, u32, nat), TMFImportError> {
    match spec_read_tmf_header(data, pos) {
        Err(e) => Err(e),
        Ok((h, p1)) => match spec_take(data, p1, 4) {
            None => Err(TMFImportError::IO(StreamError::UnexpectedEof)),
            Some((c, p2)) => Ok((h, spec_u32_from_le_bytes(c), p2)),
        },
    }
}

/// Reads the start of a file: the header, which sets the field widths of what follows, and
/// the number of meshes.
pub fn read_tmf_start(src: &mut ByteReader) -> (res: Result<(TMFImportContext, u32), TMFImportError>)
    ensures
        final(src).data() == old(src).data(),
        match spec_read_tmf_start(old(src).data(), old(src).pos()) {
            Ok((h, n, p)) => res matches Ok((ctx, m)) && ctx.spec_modern() == (h.min_minor > 1) && m
                == n && final(src).pos() == p,
            Err(e) => res matches Err(e2) && e2 == e,
        },
{
    let header = read_tmf_header(src)?;
    let ctx = TMFImportContext::init_header(header);
    let count = lift(src.read_u32())?;
    Ok((ctx, count))
}

/// The total data length of the segments whose kind has the code `code`.
pub open spec fn total_length(segs: Seq<EncodedSegment>, code: int) -> int
    decreases segs.len(),
{
    if segs.len() == 0 {
        0
    } else {
        total_length(segs.drop_last(), code) + if crate::tmf::section_code(segs.last().seg_type) == code {
            segs.last().data@.len() as int
        } else {
            0
        }
    }
}

/// The total data length of the segments of each kind, by the kind's code (0 to 255).
pub fn segment_totals(segments: &[EncodedSegment]) -> (totals: Vec<u128>)
    ensures
        totals@.len() == 256,
        forall|k: int| 0 <= k < 256 ==> #[trigger] totals@[k] == total_length(segments@, k),
{
    let mut totals: Vec<u128> = Vec::new();
    let mut k: usize = 0;
    while k < 256
        invariant
            k <= 256,
            totals@.len() == k,
            forall|j: int| 0 <= j < k ==> #[trigger] totals@[j] == 0,
        decreases 256 - k,
    {
        totals.push(0);
        k = k + 1;
    }
    let mut i: usize = 0;
    while i < segments.len()
        invariant
            i <= segments@.len(),
            totals@.len() == 256,
            forall|j: int| 0 <= j < 256 ==> #[trigger] totals@[j] == total_length(segments@.take(i as int), j),
            forall|j: int| 0 <= j < 256 ==> #[trigger] total_length(segments@.take(i as int), j) <= i * 0x1_0000_0000_0000_0000,
        decreases segments@.len() - i,
    {
        let seg = &segments[i];
        let code = seg.seg_type.code() as usize;
        proof {
            assert(segments@.take(i + 1).drop_last() =~= segments@.take(i as int));
            assert(segments@.take(i + 1).last() == segments@[i as int]);
            assert(i < 0xffff_ffff_ffff_ffff);
            assert(i * 0x1_0000_0000_0000_0000 + 0x1_0000_0000_0000_0000 <= u128::MAX) by (nonlinear_arith)
                requires
                    i < 0xffff_ffff_ffff_ffff,
            ;
        }
        let old = totals[code];
        totals.set(code, old + seg.data.len() as u128);
        proof {
            assert forall|j: int| 0 <= j < 256 implies #[trigger] totals@[j] == total_length(
                segments@.take(i + 1),
                j,
            ) by {}
            assert forall|j: int| 0 <= j < 256 implies #[trigger] total_length(segments@.take(i + 1), j)
                <= (i + 1) * 0x1_0000_0000_0000_0000 by {
                assert(total_length(segments@.take(i as int), j) <= i * 0x1_0000_0000_0000_0000);
            }
        }
        i = i + 1;
    }
    proof {
        assert(segments@.take(i as int) =~= segments@);
    }
    totals
}

} // verus!
