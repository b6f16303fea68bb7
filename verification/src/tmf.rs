//! Segments of a TMF mesh: their kinds, compression types and framing.
use crate::read_extension::{lift, write_bytes, write_u32, write_u8, ByteReader};
use crate::tmf_importer::TMFImportContext;
use crate::{IndexType, StreamError, TMFImportError};
use vstd::prelude::*;
use vstd::slice::{slice_subrange, slice_to_vec};
use crate::tmf_exporter::{opt_tris, ranges_into_vec, seq_max, spec_opt_ranges, split_ranges};
use crate::vertices::{is_triangle_encoding, save_triangles, spec_read_triangle_seg};

verus! {

/// The kind of data a segment holds.
#[derive(Debug, PartialEq, Eq, Clone, Copy, Structural)]
pub enum SectionType {
    Invalid,
    VertexSegment,
    VertexTriangleSegment,
    NormalSegment,
    NormalTriangleSegment,
    UvSegment,
    UvTriangleSegment,
    ColorSegment,
    ColorTriangleSegment,
    TangentSegment,
    TangentTriangleSegment,
    MaterialInfo,
    MaterialTriangleRanges,
    GroupInfo,
    GroupTriangleRanges,
    CustomIndexSegment,
    CustomFloatSegment,
    CustomUnit2Segment,
    CustomUnit3Segment,
    CustomVector2Segment,
    CustomVector3Segment,
    CustomVector4Segment,
    CustomColorSegment,
    CustomIntigerSegment,
    SharedTriangleSegment,
}

/// The number that stands for a segment kind in a file.
pub open spec fn section_code(t: SectionType) -> u16 {
    match t {
        SectionType::Invalid => 0,
        SectionType::VertexSegment => 1,
        SectionType::VertexTriangleSegment => 2,
        SectionType::NormalSegment => 3,
        SectionType::NormalTriangleSegment => 4,
        SectionType::UvSegment => 5,
        SectionType::UvTriangleSegment => 6,
        SectionType::ColorSegment => 7,
        SectionType::ColorTriangleSegment => 8,
        SectionType::TangentSegment => 9,
        SectionType::TangentTriangleSegment => 10,
        SectionType::MaterialInfo => 11,
        SectionType::MaterialTriangleRanges => 12,
        SectionType::GroupInfo => 13,
        SectionType::GroupTriangleRanges => 14,
        SectionType::CustomIndexSegment => 15,
        SectionType::CustomFloatSegment => 16,
        SectionType::CustomUnit2Segment => 17,
        SectionType::CustomUnit3Segment => 18,
        SectionType::CustomVector2Segment => 19,
        SectionType::CustomVector3Segment => 20,
        SectionType::CustomVector4Segment => 21,
        SectionType::CustomColorSegment => 23,
        SectionType::CustomIntigerSegment => 24,
        SectionType::SharedTriangleSegment => 25,
    }
}

/// The segment kinds a reader recognises; any other number reads as `Invalid`.
pub open spec fn spec_section_from_u8(input: u8) -> SectionType {
    match input {
        1 => SectionType::VertexSegment,
        2 => SectionType::VertexTriangleSegment,
        3 => SectionType::NormalSegment,
        4 => SectionType::NormalTriangleSegment,
        5 => SectionType::UvSegment,
        6 => SectionType::UvTriangleSegment,
        9 => SectionType::TangentSegment,
        10 => SectionType::TangentTriangleSegment,
        15 => SectionType::CustomIndexSegment,
        16 => SectionType::CustomFloatSegment,
        23 => SectionType::CustomColorSegment,
        24 => SectionType::CustomIntigerSegment,
        25 => SectionType::SharedTriangleSegment,
        _ => SectionType::Invalid,
    }
}

/// Kinds that survive being written and read back.
pub open spec fn is_readable_section(t: SectionType) -> bool {
    spec_section_from_u8(section_code(t) as u8) == t
}

impl SectionType {
    /// Segments holding triangle indices.
    pub open spec fn spec_is_triangle(self) -> bool {
        match self {
            SectionType::VertexTriangleSegment | SectionType::NormalTriangleSegment
            | SectionType::UvTriangleSegment | SectionType::ColorTriangleSegment
            | SectionType::TangentTriangleSegment | SectionType::SharedTriangleSegment => true,
            _ => false,
        }
    }

    /// Does this segment hold triangle indices?
    pub fn is_triangle(&self) -> (res: bool)
        ensures
            res == self.spec_is_triangle(),
    {
        match self {
            SectionType::VertexTriangleSegment | SectionType::NormalTriangleSegment
            | SectionType::UvTriangleSegment | SectionType::ColorTriangleSegment
            | SectionType::TangentTriangleSegment | SectionType::SharedTriangleSegment => true,
            _ => false,
        }
    }

    /// The kind of a 16 bit segment type; numbers above 255 are invalid.
    pub fn from_u16(input: u16) -> (res: Self)
        ensures
            res == if input > 255 {
                SectionType::Invalid
            } else {
                spec_section_from_u8(input as u8)
            },
    {
        if input > 255 {
            Self::Invalid
        } else {
            Self::from_u8(input as u8)
        }
    }

    /// The kind of an 8 bit segment type.
    pub fn from_u8(input: u8) -> (res: Self)
        ensures
            res == spec_section_from_u8(input),
    {
        match input {
            1 => Self::VertexSegment,
            2 => Self::VertexTriangleSegment,
            3 => Self::NormalSegment,
            4 => Self::NormalTriangleSegment,
            5 => Self::UvSegment,
            6 => Self::UvTriangleSegment,
            9 => Self::TangentSegment,
            10 => Self::TangentTriangleSegment,
            15 => Self::CustomIndexSegment,
            16 => Self::CustomFloatSegment,
            23 => Self::CustomColorSegment,
            24 => Self::CustomIntigerSegment,
            25 => Self::SharedTriangleSegment,
            _ => Self::Invalid,
        }
    }

    /// The number of this kind.
    pub fn code(&self) -> (res: u16)
        ensures
            res == section_code(*self),
    {
        match self {
            SectionType::Invalid => 0,
            SectionType::VertexSegment => 1,
            SectionType::VertexTriangleSegment => 2,
            SectionType::NormalSegment => 3,
            SectionType::NormalTriangleSegment => 4,
            SectionType::UvSegment => 5,
            SectionType::UvTriangleSegment => 6,
            SectionType::ColorSegment => 7,
            SectionType::ColorTriangleSegment => 8,
            SectionType::TangentSegment => 9,
            SectionType::TangentTriangleSegment => 10,
            SectionType::MaterialInfo => 11,
            SectionType::MaterialTriangleRanges => 12,
            SectionType::GroupInfo => 13,
            SectionType::GroupTriangleRanges => 14,
            SectionType::CustomIndexSegment => 15,
            SectionType::CustomFloatSegment => 16,
            SectionType::CustomUnit2Segment => 17,
            SectionType::CustomUnit3Segment => 18,
            SectionType::CustomVector2Segment => 19,
            SectionType::CustomVector3Segment => 20,
            SectionType::CustomVector4Segment => 21,
            SectionType::CustomColorSegment => 23,
            SectionType::CustomIntigerSegment => 24,
            SectionType::SharedTriangleSegment => 25,
        }
    }
}

/// Every number reads as a recognised kind, which reads back as itself.
pub proof fn lemma_section_from_u8_readable(input: u8)
    ensures
        is_readable_section(spec_section_from_u8(input)),
{
}

/// How the data of a segment is compressed.
#[derive(Debug, PartialEq, Eq, Clone, Copy, Structural)]
pub enum CompressionType {
    /// Raw data.
    NoCompression,
    /// Data left out, to be derived from other data.
    Ommited,
    /// Unaligned LZZ (reserved).
    UnalignedLZZ,
    /// Data laid out sequentially, each element one more than the one before it.
    Sequence,
}

/// The number that stands for a compression type in a file.
pub open spec fn compression_code(c: CompressionType) -> u8 {
    match c {
        CompressionType::NoCompression => 0,
        CompressionType::Ommited => 1,
        CompressionType::UnalignedLZZ => 2,
        CompressionType::Sequence => 255,
    }
}

/// The compression type of a number, if it is one.
pub open spec fn spec_compression_from_u8(input: u8) -> Result<CompressionType, TMFImportError> {
    match input {
        0 => Ok(CompressionType::NoCompression),
        1 => Ok(CompressionType::Ommited),
        2 => Ok(CompressionType::UnalignedLZZ),
        255 => Ok(CompressionType::Sequence),
        _ => Err(TMFImportError::CompressionTypeUnknown(input)),
    }
}

impl CompressionType {
    /// The compression type of a number; unknown numbers are an error.
    pub fn from_u8(input: u8) -> (res: Result<Self, TMFImportError>)
        ensures
            res == spec_compression_from_u8(input),
    {
        match input {
            0 => Ok(Self::NoCompression),
            1 => Ok(Self::Ommited),
            2 => Ok(Self::UnalignedLZZ),
            255 => Ok(Self::Sequence),
            _ => Err(TMFImportError::CompressionTypeUnknown(input)),
        }
    }

    /// The number of this compression type.
    pub fn code(&self) -> (res: u8)
        ensures
            res == compression_code(*self),
    {
        match self {
            Self::NoCompression => 0,
            Self::Ommited => 1,
            Self::UnalignedLZZ => 2,
            Self::Sequence => 255,
        }
    }
}

/// Every compression type reads back as itself.
pub proof fn lemma_compression_roundtrip(c: CompressionType)
    ensures
        spec_compression_from_u8(compression_code(c)) == Ok::<CompressionType, TMFImportError>(c),
{
}

/// The numbers of the segment kinds that are read and written, fixed by the format: each
/// kind is written as its number, and each number reads as its kind.
pub proof fn lemma_section_numbering()
    ensures
        section_code(SectionType::Invalid) == 0 && spec_section_from_u8(0) == SectionType::Invalid,
        section_code(SectionType::VertexSegment) == 1 && spec_section_from_u8(1)
            == SectionType::VertexSegment,
        section_code(SectionType::VertexTriangleSegment) == 2 && spec_section_from_u8(2)
            == SectionType::VertexTriangleSegment,
        section_code(SectionType::NormalSegment) == 3 && spec_section_from_u8(3)
            == SectionType::NormalSegment,
        section_code(SectionType::NormalTriangleSegment) == 4 && spec_section_from_u8(4)
            == SectionType::NormalTriangleSegment,
        section_code(SectionType::UvSegment) == 5 && spec_section_from_u8(5) == SectionType::UvSegment,
        section_code(SectionType::UvTriangleSegment) == 6 && spec_section_from_u8(6)
            == SectionType::UvTriangleSegment,
        section_code(SectionType::TangentSegment) == 9 && spec_section_from_u8(9)
            == SectionType::TangentSegment,
        section_code(SectionType::TangentTriangleSegment) == 10 && spec_section_from_u8(10)
            == SectionType::TangentTriangleSegment,
        section_code(SectionType::CustomIndexSegment) == 15 && spec_section_from_u8(15)
            == SectionType::CustomIndexSegment,
        section_code(SectionType::CustomFloatSegment) == 16 && spec_section_from_u8(16)
            == SectionType::CustomFloatSegment,
        section_code(SectionType::CustomColorSegment) == 23 && spec_section_from_u8(23)
            == SectionType::CustomColorSegment,
        section_code(SectionType::CustomIntigerSegment) == 24 && spec_section_from_u8(24)
            == SectionType::CustomIntigerSegment,
        section_code(SectionType::SharedTriangleSegment) == 25 && spec_section_from_u8(25)
            == SectionType::SharedTriangleSegment,
        forall|n: u8|
            (n == 7 || n == 8 || (11 <= n <= 14) || (17 <= n <= 22) || n >= 26) ==> spec_section_from_u8(n)
                == SectionType::Invalid,
{
}

/// The numbers of the compression types, fixed by the format (0 for none); any other number
/// is an unknown compression.
pub proof fn lemma_compression_numbering()
    ensures
        compression_code(CompressionType::NoCompression) == 0,
        compression_code(CompressionType::Ommited) == 1,
        compression_code(CompressionType::UnalignedLZZ) == 2,
        compression_code(CompressionType::Sequence) == 255,
        spec_compression_from_u8(0) == Ok::<CompressionType, TMFImportError>(CompressionType::NoCompression),
        spec_compression_from_u8(1) == Ok::<CompressionType, TMFImportError>(CompressionType::Ommited),
        spec_compression_from_u8(2) == Ok::<CompressionType, TMFImportError>(CompressionType::UnalignedLZZ),
        spec_compression_from_u8(255) == Ok::<CompressionType, TMFImportError>(CompressionType::Sequence),
        forall|n: u8|
            3 <= n < 255 ==> spec_compression_from_u8(n) == Err::<CompressionType, TMFImportError>(
                TMFImportError::CompressionTypeUnknown(n),
            ),
{
}

/// A framed segment starts with the number of its kind, and its sixth byte is the number of
/// its compression: for instance an uncompressed segment of normal triangles starts with 4
/// and has 0 as its sixth byte, whatever its data.
pub proof fn lemma_segment_header_bytes(seg_type: SectionType, compression: CompressionType, data: Seq<u8>)
    requires
        data.len() <= u32::MAX,
    ensures
        segment_bytes(seg_type, compression, data)[0] == section_code(seg_type),
        segment_bytes(seg_type, compression, data)[5] == compression_code(compression),
        segment_bytes(SectionType::NormalTriangleSegment, CompressionType::NoCompression, data)[0] == 4,
        segment_bytes(SectionType::NormalTriangleSegment, CompressionType::NoCompression, data)[5] == 0,
        segment_bytes(SectionType::UvTriangleSegment, CompressionType::NoCompression, data)[0] == 6,
{
    vstd::bytes::lemma_auto_spec_u32_to_from_le_bytes();
    assert(vstd::bytes::spec_u32_to_le_bytes(data.len() as u32).len() == 4);
}

/// A segment as stored: its kind, its compression and its raw data.
#[derive(Debug)]
pub struct EncodedSegment {
    pub seg_type: SectionType,
    pub compresion_type: CompressionType,
    pub data: Vec<u8>,
}

/// The bytes of a segment: kind (one byte), data length (four bytes), compression (one
/// byte) and data.
pub open spec fn segment_bytes(seg_type: SectionType, compression: CompressionType, data: Seq<
    u8,
>) -> Seq<u8> {
    seq![section_code(seg_type) as u8] + vstd::bytes::spec_u32_to_le_bytes(data.len() as u32)
        + seq![compression_code(compression)] + data
}

impl EncodedSegment {
    /// The raw data.
    pub fn data(&self) -> (res: &[u8])
        ensures
            res@ == self.data@,
    {
        self.data.as_slice()
    }

    /// The compression type.
    pub fn compresion_type(&self) -> (res: CompressionType)
        ensures
            res == self.compresion_type,
    {
        self.compresion_type
    }

    /// The length of the raw data.
    pub fn seg_length(&self) -> (res: usize)
        ensures
            res == self.data@.len(),
    {
        self.data.len()
    }

    /// The kind of segment.
    pub fn seg_type(&self) -> (res: SectionType)
        ensures
            res == self.seg_type,
    {
        self.seg_type
    }

    /// Appends the segment to `w`.
    pub fn write(&self, w: &mut Vec<u8>)
        ensures
            final(w)@ == old(w)@ + segment_bytes(self.seg_type, self.compresion_type, self.data@),
    {
        let st: u8 = self.seg_type.code() as u8;
        write_u8(w, st);
        write_u32(w, self.data.len() as u32);
        write_u8(w, self.compresion_type.code());
        write_bytes(w, self.data.as_slice());
        assert(final(w)@ =~= old(w)@ + segment_bytes(
            self.seg_type,
            self.compresion_type,
            self.data@,
        ));
    }

    /// Reads a segment from `src`, with the field widths `ctx` gives.
    pub fn read(ctx: &TMFImportContext, src: &mut ByteReader) -> (res: Result<Self, TMFImportError>)
        ensures
            final(src).data() == old(src).data(),
            match crate::tmf_importer::spec_read_segment(ctx.spec_modern(), old(src).data(), old(src).pos()) {
                Ok((t, c, d, p)) => res matches Ok(seg) && seg.seg_type == t && seg.compresion_type
                    == c && seg.data@ == d && final(src).pos() == p,
                Err(e) => res matches Err(e2) && e2 == e,
            },
    {
        let seg_type = lift(ctx.segment_type_width().read(src))?;
        let data_length = lift(ctx.segment_length_width().read(src))?;
        let compresion_type = CompressionType::from_u8(lift(src.read_u8())?)?;
        let data = lift(src.read_bytes(data_length))?;
        Ok(Self { seg_type, compresion_type, data: slice_to_vec(data) })
    }
}

/// Which triangle arrays a shared triangle segment stands for, as a bit mask: vertex
/// triangles `0x1`, normal triangles `0x2`, uv triangles `0x4`.
#[derive(Default, Debug, Copy, Clone, PartialEq, Eq, Structural)]
pub struct SharedSegmentKind {
    mask: u8,
}

impl SharedSegmentKind {
    /// The mask.
    pub closed spec fn spec_mask(self) -> u8 {
        self.mask
    }

    /// No arrays.
    pub fn empty() -> (res: Self)
        ensures
            res.spec_mask() == 0,
    {
        Self { mask: 0 }
    }

    /// Adds the vertex triangles.
    pub fn set_vertex(&mut self)
        ensures
            final(self).spec_mask() == old(self).spec_mask() | 0x1u8,
    {
        self.mask = self.mask | 0x1;
    }

    /// Does it stand for the vertex triangles?
    pub fn get_vertex(&self) -> (res: bool)
        ensures
            res == (self.spec_mask() & 0x1u8 != 0),
    {
        self.mask & 0x1 != 0
    }

    /// Adds the normal triangles.
    pub fn set_normal(&mut self)
        ensures
            final(self).spec_mask() == old(self).spec_mask() | 0x2u8,
    {
        self.mask = self.mask | 0x2;
    }

    /// Does it stand for the normal triangles?
    pub fn get_normal(&self) -> (res: bool)
        ensures
            res == (self.spec_mask() & 0x2u8 != 0),
    {
        self.mask & 0x2 != 0
    }

    /// Adds the uv triangles.
    pub fn set_uv(&mut self)
        ensures
            final(self).spec_mask() == old(self).spec_mask() | 0x4u8,
    {
        self.mask = self.mask | 0x4;
    }

    /// Does it stand for the uv triangles?
    pub fn get_uv(&self) -> (res: bool)
        ensures
            res == (self.spec_mask() & 0x4u8 != 0),
    {
        self.mask & 0x4 != 0
    }

    /// The arrays of both.
    pub fn combine(self, other: Self) -> (res: Self)
        ensures
            res.spec_mask() == self.spec_mask() | other.spec_mask(),
    {
        Self { mask: self.mask | other.mask }
    }

    /// The mask, as stored in a file.
    pub fn mask(&self) -> (res: u8)
        ensures
            res == self.spec_mask(),
    {
        self.mask
    }

    /// The kind a stored mask stands for.
    pub fn from_mask(mask: u8) -> (res: Self)
        ensures
            res.spec_mask() == mask,
    {
        Self { mask }
    }
}

/// Setting a flag makes it read as set and leaves the other two as they were.
pub proof fn lemma_shared_kind_flags(m: u8)
    ensures
        (m | 0x1u8) & 0x1u8 != 0,
        ((m | 0x1u8) & 0x2u8 != 0) == (m & 0x2u8 != 0),
        ((m | 0x1u8) & 0x4u8 != 0) == (m & 0x4u8 != 0),
        (m | 0x2u8) & 0x2u8 != 0,
        ((m | 0x2u8) & 0x1u8 != 0) == (m & 0x1u8 != 0),
        ((m | 0x2u8) & 0x4u8 != 0) == (m & 0x4u8 != 0),
        (m | 0x4u8) & 0x4u8 != 0,
        ((m | 0x4u8) & 0x1u8 != 0) == (m & 0x1u8 != 0),
        ((m | 0x4u8) & 0x2u8 != 0) == (m & 0x2u8 != 0),
{
    assert((m | 0x1u8) & 0x1u8 != 0) by (bit_vector);
    assert(((m | 0x1u8) & 0x2u8 != 0) == (m & 0x2u8 != 0)) by (bit_vector);
    assert(((m | 0x1u8) & 0x4u8 != 0) == (m & 0x4u8 != 0)) by (bit_vector);
    assert((m | 0x2u8) & 0x2u8 != 0) by (bit_vector);
    assert(((m | 0x2u8) & 0x1u8 != 0) == (m & 0x1u8 != 0)) by (bit_vector);
    assert(((m | 0x2u8) & 0x4u8 != 0) == (m & 0x4u8 != 0)) by (bit_vector);
    assert((m | 0x4u8) & 0x4u8 != 0) by (bit_vector);
    assert(((m | 0x4u8) & 0x1u8 != 0) == (m & 0x1u8 != 0)) by (bit_vector);
    assert(((m | 0x4u8) & 0x2u8 != 0) == (m & 0x2u8 != 0)) by (bit_vector);
}

/// A combined kind stands for exactly the arrays either part stands for.
pub proof fn lemma_shared_kind_combine(a: u8, b: u8)
    ensures
        ((a | b) & 0x1u8 != 0) == ((a & 0x1u8 != 0) || (b & 0x1u8 != 0)),
        ((a | b) & 0x2u8 != 0) == ((a & 0x2u8 != 0) || (b & 0x2u8 != 0)),
        ((a | b) & 0x4u8 != 0) == ((a & 0x4u8 != 0) || (b & 0x4u8 != 0)),
{
    assert(((a | b) & 0x1u8 != 0) == ((a & 0x1u8 != 0) || (b & 0x1u8 != 0))) by (bit_vector);
    assert(((a | b) & 0x2u8 != 0) == ((a & 0x2u8 != 0) || (b & 0x2u8 != 0))) by (bit_vector);
    assert(((a | b) & 0x4u8 != 0) == ((a & 0x4u8 != 0) || (b & 0x4u8 != 0))) by (bit_vector);
}

/// A segment of a mesh between the mesh and its encoding. The library handles the triangle
/// segments; the data of the other segments is carried as it is: `V3` for vertices and
/// normals, `V2` for texture coordinates, `T` for tangents and `C` for custom data.
pub enum DecodedSegment<V3, V2, T, C> {
    Nothing,
    AppendVertex(Vec<V3>),
    AppendNormal(Vec<V3>),
    AppendUV(Vec<V2>),
    AppendTangent(Vec<T>),
    AppendTriangleVertex(Vec<IndexType>),
    AppendTriangleNormal(Vec<IndexType>),
    AppendTriangleUV(Vec<IndexType>),
    AppendTriangleTangent(Vec<IndexType>),
    SharedTriangleSegment(SharedSegmentKind, Vec<IndexType>),
    AppendCustom(C),
}

/// The contents of a segment, as values: a shared triangle segment by its mask.
pub enum SegView<V3, V2, T, C> {
    Nothing,
    Vertex(Seq<V3>),
    Normal(Seq<V3>),
    Uv(Seq<V2>),
    Tangent(Seq<T>),
    TriVertex(Seq<IndexType>),
    TriNormal(Seq<IndexType>),
    TriUv(Seq<IndexType>),
    TriTangent(Seq<IndexType>),
    Shared(u8, Seq<IndexType>),
    Custom(C),
}

impl<V3, V2, T, C> View for DecodedSegment<V3, V2, T, C> {
    type V = SegView<V3, V2, T, C>;

    open spec fn view(&self) -> SegView<V3, V2, T, C> {
        match self {
            DecodedSegment::Nothing => SegView::Nothing,
            DecodedSegment::AppendVertex(v) => SegView::Vertex(v@),
            DecodedSegment::AppendNormal(v) => SegView::Normal(v@),
            DecodedSegment::AppendUV(v) => SegView::Uv(v@),
            DecodedSegment::AppendTangent(v) => SegView::Tangent(v@),
            DecodedSegment::AppendTriangleVertex(t) => SegView::TriVertex(t@),
            DecodedSegment::AppendTriangleNormal(t) => SegView::TriNormal(t@),
            DecodedSegment::AppendTriangleUV(t) => SegView::TriUv(t@),
            DecodedSegment::AppendTriangleTangent(t) => SegView::TriTangent(t@),
            DecodedSegment::SharedTriangleSegment(k, t) => SegView::Shared(k.spec_mask(), t@),
            DecodedSegment::AppendCustom(c) => SegView::Custom(*c),
        }
    }
}

/// The triangles a segment can share: those of vertex and normal triangle segments.
pub open spec fn shareable<V3, V2, T, C>(s: SegView<V3, V2, T, C>) -> Option<(u8, Seq<IndexType>)> {
    match s {
        SegView::TriVertex(t) => Some((0x1u8, t)),
        SegView::TriNormal(t) => Some((0x2u8, t)),
        _ => None,
    }
}

/// What merging `other` into `s` gives: where `other` is a vertex or normal triangle segment
/// and `s` a shared, vertex, normal or uv triangle segment with the same triangles, `s`
/// becomes a shared segment standing for both and `other` becomes nothing; otherwise both
/// stay as they are.
pub open spec fn merge_view<V3, V2, T, C>(s: SegView<V3, V2, T, C>, other: SegView<V3, V2, T, C>) -> (
    SegView<V3, V2, T, C>,
    SegView<V3, V2, T, C>,
) {
    match shareable(other) {
        None => (s, other),
        Some((om, ot)) => {
            let own: Option<(u8, Seq<IndexType>)> = match s {
                SegView::Shared(m, t) => Some((m, t)),
                SegView::TriVertex(t) => Some((0x1u8, t)),
                SegView::TriNormal(t) => Some((0x2u8, t)),
                SegView::TriUv(t) => Some((0x4u8, t)),
                _ => None,
            };
            match own {
                Some((m, t)) => if t == ot {
                    (SegView::Shared(m | om, t), SegView::Nothing)
                } else {
                    (s, other)
                },
                None => (s, other),
            }
        },
    }
}

/// The views of segments.
pub open spec fn seg_views<V3, V2, T, C>(segs: Seq<DecodedSegment<V3, V2, T, C>>) -> Seq<
    SegView<V3, V2, T, C>,
> {
    segs.map_values(|s: DecodedSegment<V3, V2, T, C>| s@)
}

/// Merges each of `rest` in turn into `s`: the final `s` and the segments of `rest` after
/// their merges.
pub open spec fn merge_all<V3, V2, T, C>(s: SegView<V3, V2, T, C>, rest: Seq<SegView<V3, V2, T, C>>) -> (
    SegView<V3, V2, T, C>,
    Seq<SegView<V3, V2, T, C>>,
)
    decreases rest.len(),
{
    if rest.len() == 0 {
        (s, Seq::empty())
    } else {
        let (s1, r0) = merge_view(s, rest[0]);
        let (s2, rr) = merge_all(s1, rest.skip(1));
        (s2, seq![r0] + rr)
    }
}

/// What merging a list of segments gives: the last segment, unless it is nothing, has all
/// the others merged into it and comes first; then the rest, merged the same way.
pub open spec fn spec_merge_segments<V3, V2, T, C>(segs: Seq<SegView<V3, V2, T, C>>) -> Seq<
    SegView<V3, V2, T, C>,
>
    decreases segs.len(),
{
    if segs.len() == 0 {
        Seq::empty()
    } else {
        let last = segs.last();
        let rest = segs.drop_last();
        if last is Nothing {
            spec_merge_segments(rest)
        } else {
            let (m, r2) = merge_all(last, rest);
            proof {
                lemma_merge_all_len(last, rest);
            }
            seq![m] + spec_merge_segments(r2)
        }
    }
}

/// Merging keeps the number of the other segments.
pub proof fn lemma_merge_all_len<V3, V2, T, C>(s: SegView<V3, V2, T, C>, rest: Seq<SegView<V3, V2, T, C>>)
    ensures
        merge_all(s, rest).1.len() == rest.len(),
    decreases rest.len(),
{
    if rest.len() > 0 {
        let (s1, r0) = merge_view(s, rest[0]);
        lemma_merge_all_len(s1, rest.skip(1));
    }
}

impl<V3, V2, T, C> DecodedSegment<V3, V2, T, C> {
    /// The triangles of a vertex or normal triangle segment.
    pub fn as_triangles(&self) -> (res: Option<&[IndexType]>)
        ensures
            match shareable(self@) {
                Some((_, t)) => res matches Some(s) && s@ == t,
                None => res is None,
            },
    {
        match self {
            Self::AppendTriangleVertex(indices) => Some(indices.as_slice()),
            Self::AppendTriangleNormal(indices) => Some(indices.as_slice()),
            _ => None,
        }
    }

    /// The kind of a vertex or normal triangle segment, as a shared segment kind.
    pub fn shared_kind(&self) -> (res: SharedSegmentKind)
        requires
            shareable(self@) is Some,
        ensures
            res.spec_mask() == (shareable(self@)->0).0,
    {
        let mut kind = SharedSegmentKind::empty();
        match self {
            Self::AppendTriangleVertex(_) => {
                kind.set_vertex();
            },
            _ => {
                kind.set_normal();
            },
        }
        proof {
            assert(0u8 | 0x1u8 == 0x1u8) by (bit_vector);
            assert(0u8 | 0x2u8 == 0x2u8) by (bit_vector);
        }
        kind
    }

    /// Whether the segment holds anything.
    pub fn is_something(&self) -> (res: bool)
        ensures
            res == !(self@ is Nothing),
    {
        match self {
            Self::Nothing => false,
            _ => true,
        }
    }

    /// Merges `other` into `self` where both hold the same triangles (see [`merge_view`]).
    pub fn merge(&mut self, other: &mut Self)
        ensures
            (final(self)@, final(other)@) == merge_view(old(self)@, old(other)@),
    {
        let other_kind = match other.as_triangles() {
            Some(_) => other.shared_kind(),
            None => {
                return;
            },
        };
        let merged: Option<(SharedSegmentKind, Vec<IndexType>)> = {
            let ot = other.as_triangles().unwrap();
            match &*self {
                Self::SharedTriangleSegment(kind, indices) => {
                    if crate::unify_data::slices_equal(indices.as_slice(), ot) {
                        Some((kind.combine(other_kind), slice_to_vec(indices.as_slice())))
                    } else {
                        None
                    }
                },
                Self::AppendTriangleVertex(indices) => {
                    if crate::unify_data::slices_equal(indices.as_slice(), ot) {
                        let mut kind = SharedSegmentKind::empty();
                        kind.set_vertex();
                        Some((kind.combine(other_kind), slice_to_vec(indices.as_slice())))
                    } else {
                        None
                    }
                },
                Self::AppendTriangleNormal(indices) => {
                    if crate::unify_data::slices_equal(indices.as_slice(), ot) {
                        let mut kind = SharedSegmentKind::empty();
                        kind.set_normal();
                        Some((kind.combine(other_kind), slice_to_vec(indices.as_slice())))
                    } else {
                        None
                    }
                },
                Self::AppendTriangleUV(indices) => {
                    if crate::unify_data::slices_equal(indices.as_slice(), ot) {
                        let mut kind = SharedSegmentKind::empty();
                        kind.set_uv();
                        Some((kind.combine(other_kind), slice_to_vec(indices.as_slice())))
                    } else {
                        None
                    }
                },
                _ => None,
            }
        };
        proof {
            assert(0u8 | 0x1u8 == 0x1u8) by (bit_vector);
            assert(0u8 | 0x2u8 == 0x2u8) by (bit_vector);
            assert(0u8 | 0x4u8 == 0x4u8) by (bit_vector);
        }
        match merged {
            Some((kind, indices)) => {
                *self = Self::SharedTriangleSegment(kind, indices);
                *other = Self::Nothing;
            },
            None => {},
        }
    }
}

/// Merges the segments: takes them from the last on; each that holds something has the
/// segments before it merged into it (see [`spec_merge_segments`]).
pub fn merge_segments<V3, V2, T, C>(segments: Vec<DecodedSegment<V3, V2, T, C>>) -> (res: Vec<
    DecodedSegment<V3, V2, T, C>,
>)
    ensures
        seg_views(res@) == spec_merge_segments(seg_views(segments@)),
{
    let ghost goal = spec_merge_segments(seg_views(segments@));
    let mut segments = segments;
    let mut new_segments: Vec<DecodedSegment<V3, V2, T, C>> = Vec::new();
    while segments.len() > 0
        invariant
            seg_views(new_segments@) + spec_merge_segments(seg_views(segments@)) == goal,
        decreases segments@.len(),
    {
        let ghost before = seg_views(segments@);
        let mut segment = segments.pop().unwrap();
        proof {
            assert(seg_views(segments@) =~= before.drop_last());
        }
        if segment.is_something() {
            let ghost r0 = seg_views(segments@);
            let ghost s0 = segment@;
            let mut i: usize = 0;
            proof {
                assert(r0.skip(0) =~= r0);
                assert(r0.take(0) + merge_all(s0, r0).1 =~= merge_all(s0, r0).1);
            }
            while i < segments.len()
                invariant
                    i <= segments@.len() == r0.len(),
                    merge_all(s0, r0).0 == merge_all(segment@, r0.skip(i as int)).0,
                    merge_all(s0, r0).1 == seg_views(segments@).take(i as int) + merge_all(
                        segment@,
                        r0.skip(i as int),
                    ).1,
                    seg_views(segments@).skip(i as int) == r0.skip(i as int),
                decreases segments@.len() - i,
            {
                let ghost cur = seg_views(segments@);
                proof {
                    assert(r0.skip(i as int)[0] == cur[i as int]);
                    assert(r0.skip(i as int).skip(1) =~= r0.skip(i + 1));
                }
                segment.merge(&mut segments[i]);
                proof {
                    let now = seg_views(segments@);
                    assert(now =~= cur.update(i as int, now[i as int]));
                    assert(now.take(i + 1) =~= cur.take(i as int).push(now[i as int]));
                    assert(now.skip(i + 1) =~= cur.skip(i + 1));
                    assert(cur.skip(i + 1) =~= r0.skip(i + 1));
                }
                i = i + 1;
            }
            proof {
                assert(seg_views(segments@).take(i as int) =~= seg_views(segments@));
                assert(merge_all(segment@, r0.skip(i as int)).1 =~= Seq::<SegView<V3, V2, T, C>>::empty());
            }
            let ghost merged_rest = seg_views(segments@);
            let ghost m = segment@;
            let ghost new_before = seg_views(new_segments@);
            new_segments.push(segment);
            proof {
                assert(merge_all(s0, r0) == (m, merged_rest));
                assert(seg_views(new_segments@) =~= new_before + seq![m]);
                assert(spec_merge_segments(before) == seq![m] + spec_merge_segments(merged_rest));
                assert(seg_views(new_segments@) + spec_merge_segments(merged_rest) =~= new_before
                    + spec_merge_segments(before));
            }
        }
    }
    new_segments
}

/// The segment of triangles `t` of the given kind: vertex (0), normal (1), uv (2) or
/// tangent (3) triangles.
pub open spec fn tri_view<V3, V2, T, C>(kind: u8, t: Seq<IndexType>) -> SegView<V3, V2, T, C> {
    match kind {
        0 => SegView::TriVertex(t),
        1 => SegView::TriNormal(t),
        2 => SegView::TriUv(t),
        _ => SegView::TriTangent(t),
    }
}

/// The parts a triangle array is split into to save bits (see [`spec_opt_ranges`]).
pub open spec fn pieces(t: Seq<IndexType>) -> Seq<Seq<IndexType>> {
    spec_opt_ranges(t).map_values(|r: (int, int)| t.subrange(r.0, r.1))
}

/// The kind and triangles of a vertex, normal, uv or tangent triangle segment.
pub open spec fn tri_kind<V3, V2, T, C>(s: SegView<V3, V2, T, C>) -> Option<(u8, Seq<IndexType>)> {
    match s {
        SegView::TriVertex(t) => Some((0u8, t)),
        SegView::TriNormal(t) => Some((1u8, t)),
        SegView::TriUv(t) => Some((2u8, t)),
        SegView::TriTangent(t) => Some((3u8, t)),
        _ => None,
    }
}

/// The largest index, or 0 for none.
pub fn max_index(t: &[IndexType]) -> (m: IndexType)
    ensures
        m == seq_max(t@),
{
    let mut m: IndexType = 0;
    let mut i: usize = 0;
    while i < t.len()
        invariant
            i <= t@.len(),
            m == seq_max(t@.subrange(0, i as int)),
        decreases t@.len() - i,
    {
        proof {
            assert(t@.subrange(0, i + 1).drop_last() =~= t@.subrange(0, i as int));
        }
        if i == 0 || t[i] > m {
            m = t[i];
        }
        i = i + 1;
    }
    proof {
        assert(t@.subrange(0, t@.len() as int) =~= t@);
    }
    m
}

/// What encoding a triangle segment of kind `seg_type` holding `t` gives: an uncompressed
/// segment of that kind whose data is the triangle encoding of `t`, written for indices up
/// to the largest of them.
pub open spec fn encodes_triangles(seg: EncodedSegment, seg_type: SectionType, t: Seq<IndexType>) -> bool {
    &&& seg.seg_type == seg_type
    &&& seg.compresion_type == CompressionType::NoCompression
    &&& is_triangle_encoding(seg.data@, t, seq_max(t) as nat)
}

/// `seg` is what encoding the segment `v` of triangles, shared triangles or nothing gives
/// (see [`DecodedSegment::encode_triangles`]).
pub open spec fn encodes_view<V3, V2, T, C>(seg: EncodedSegment, v: SegView<V3, V2, T, C>) -> bool {
    match v {
        SegView::TriVertex(t) => encodes_triangles(seg, SectionType::VertexTriangleSegment, t),
        SegView::TriNormal(t) => encodes_triangles(seg, SectionType::NormalTriangleSegment, t),
        SegView::TriUv(t) => encodes_triangles(seg, SectionType::UvTriangleSegment, t),
        SegView::TriTangent(t) => encodes_triangles(seg, SectionType::TangentTriangleSegment, t),
        SegView::Shared(m, t) => seg.seg_type == SectionType::SharedTriangleSegment && seg.compresion_type
            == CompressionType::NoCompression && seg.data@.len() >= 1 && seg.data@[0] == m
            && is_triangle_encoding(seg.data@.skip(1), t, seq_max(t) as nat),
        SegView::Nothing => seg.seg_type == SectionType::Invalid && seg.compresion_type
            == CompressionType::NoCompression && seg.data@.len() == 0,
        _ => false,
    }
}

impl<V3, V2, T, C> DecodedSegment<V3, V2, T, C> {
    /// The segments of the parts of `t`, split where that saves bits.
    fn split_triangles(t: &[IndexType], kind: u8) -> (res: Vec<Self>)
        requires
            t@.len() * 32 <= isize::MAX,
        ensures
            seg_views(res@) == pieces(t@).map_values(|p: Seq<IndexType>| tri_view::<V3, V2, T, C>(kind, p)),
    {
        let ranges = ranges_into_vec(opt_tris(t));
        proof {
            crate::tmf_exporter::lemma_opt_ranges_partition(t@);
        }
        let ghost spec_r = spec_opt_ranges(t@);
        let mut res: Vec<Self> = Vec::new();
        let mut i: usize = 0;
        while i < ranges.len()
            invariant
                i <= ranges@.len() == spec_r.len(),
                spec_r == spec_opt_ranges(t@),
                crate::tmf_exporter::is_partition(spec_r, t@.len()),
                forall|j: int| 0 <= j < ranges@.len() ==> ranges@[j].0 == spec_r[j].0 && ranges@[j].1 == spec_r[j].1,
                seg_views(res@) == pieces(t@).take(i as int).map_values(|p: Seq<IndexType>| tri_view::<V3, V2, T, C>(kind, p)),
            decreases ranges@.len() - i,
        {
            let (a, b) = ranges[i];
            proof {
                assert(0 <= spec_r[i as int].0 <= spec_r[i as int].1 <= t@.len());
            }
            let part = slice_to_vec(slice_subrange(t, a, b));
            proof {
                assert(pieces(t@)[i as int] == t@.subrange(spec_r[i as int].0, spec_r[i as int].1));
                assert(part@ =~= pieces(t@)[i as int]);
            }
            let seg = match kind {
                0 => Self::AppendTriangleVertex(part),
                1 => Self::AppendTriangleNormal(part),
                2 => Self::AppendTriangleUV(part),
                _ => Self::AppendTriangleTangent(part),
            };
            proof {
                assert(seg@ == tri_view::<V3, V2, T, C>(kind, pieces(t@)[i as int]));
            }
            let ghost before = seg_views(res@);
            res.push(seg);
            proof {
                assert(seg_views(res@) =~= before.push(tri_view::<V3, V2, T, C>(kind, pieces(t@)[i as int])));
                assert(pieces(t@).take(i + 1) =~= pieces(t@).take(i as int).push(pieces(t@)[i as int]));
                assert(seg_views(res@) =~= pieces(t@).take(i + 1).map_values(|p: Seq<IndexType>| tri_view::<V3, V2, T, C>(kind, p)));
            }
            i = i + 1;
        }
        proof {
            assert(pieces(t@).take(i as int) =~= pieces(t@));
        }
        res
    }

    /// Splits a triangle segment where that saves bits (see [`opt_tris`]); any other
    /// segment is kept whole. Vertex arrays are split by the caller, which owns their
    /// geometry.
    pub fn optimize(self) -> (res: Vec<Self>)
        requires
            tri_kind(self@) matches Some((_, t)) ==> t.len() * 32 <= isize::MAX,
        ensures
            match tri_kind(self@) {
                Some((kind, t)) => seg_views(res@) == pieces(t).map_values(
                    |p: Seq<IndexType>| tri_view::<V3, V2, T, C>(kind, p),
                ),
                None => seg_views(res@) == seq![self@],
            },
    {
        let ghost v = self@;
        match self {
            Self::AppendTriangleVertex(t) => Self::split_triangles(t.as_slice(), 0),
            Self::AppendTriangleNormal(t) => Self::split_triangles(t.as_slice(), 1),
            Self::AppendTriangleUV(t) => Self::split_triangles(t.as_slice(), 2),
            Self::AppendTriangleTangent(t) => Self::split_triangles(t.as_slice(), 3),
            other => {
                let mut res: Vec<Self> = Vec::new();
                res.push(other);
                proof {
                    assert(seg_views(res@) =~= seq![v]);
                }
                res
            },
        }
    }

    /// Encodes a triangle segment: uncompressed, with the triangle encoding of its indices
    /// (after the mask, for a shared segment); nothing encodes as an empty invalid segment.
    /// Segments of other data give `None`: the caller encodes their data.
    pub fn encode_triangles(&self) -> (res: Option<EncodedSegment>)
        ensures
            match self@ {
                SegView::TriVertex(t) => res matches Some(seg) && encodes_triangles(
                    seg,
                    SectionType::VertexTriangleSegment,
                    t,
                ),
                SegView::TriNormal(t) => res matches Some(seg) && encodes_triangles(
                    seg,
                    SectionType::NormalTriangleSegment,
                    t,
                ),
                SegView::TriUv(t) => res matches Some(seg) && encodes_triangles(
                    seg,
                    SectionType::UvTriangleSegment,
                    t,
                ),
                SegView::TriTangent(t) => res matches Some(seg) && encodes_triangles(
                    seg,
                    SectionType::TangentTriangleSegment,
                    t,
                ),
                SegView::Shared(m, t) => res matches Some(seg) && seg.seg_type
                    == SectionType::SharedTriangleSegment && seg.compresion_type
                    == CompressionType::NoCompression && seg.data@.len() >= 1 && seg.data@[0] == m
                    && is_triangle_encoding(seg.data@.skip(1), t, seq_max(t) as nat),
                SegView::Nothing => res matches Some(seg) && seg.seg_type == SectionType::Invalid
                    && seg.compresion_type == CompressionType::NoCompression && seg.data@.len() == 0,
                _ => res is None,
            },
            res matches Some(seg) ==> encodes_view(seg, self@),
    {
        let (seg_type, indices) = match self {
            Self::AppendTriangleVertex(t) => (SectionType::VertexTriangleSegment, t),
            Self::AppendTriangleNormal(t) => (SectionType::NormalTriangleSegment, t),
            Self::AppendTriangleUV(t) => (SectionType::UvTriangleSegment, t),
            Self::AppendTriangleTangent(t) => (SectionType::TangentTriangleSegment, t),
            Self::SharedTriangleSegment(kind, t) => {
                let mut data: Vec<u8> = Vec::new();
                data.push(kind.mask());
                let ghost head = data@;
                save_triangles(t.as_slice(), max_index(t.as_slice()) as usize, &mut data);
                proof {
                    assert(data@.skip(1) =~= data@.subrange(1, data@.len() as int));
                    assert(data@.subrange(0, 1) == head);
                    assert(data@[0] == data@.subrange(0, 1)[0]);
                }
                return Some(
                    EncodedSegment {
                        seg_type: SectionType::SharedTriangleSegment,
                        compresion_type: CompressionType::NoCompression,
                        data,
                    },
                );
            },
            Self::Nothing => {
                return Some(
                    EncodedSegment {
                        seg_type: SectionType::Invalid,
                        compresion_type: CompressionType::NoCompression,
                        data: Vec::new(),
                    },
                );
            },
            _ => {
                return None;
            },
        };
        let mut data: Vec<u8> = Vec::new();
        save_triangles(indices.as_slice(), max_index(indices.as_slice()) as usize, &mut data);
        proof {
            assert(data@.subrange(0, data@.len() as int) =~= data@);
        }
        Some(EncodedSegment { seg_type, compresion_type: CompressionType::NoCompression, data })
    }
}

/// A segment holds no triangle array longer than `bound`.
pub open spec fn tris_within<V3, V2, T, C>(s: SegView<V3, V2, T, C>, bound: nat) -> bool {
    match tri_kind(s) {
        Some((_, t)) => t.len() <= bound,
        None => true,
    }
}

/// What optimizing one segment gives (see [`DecodedSegment::optimize`]).
pub open spec fn optimized_view<V3, V2, T, C>(s: SegView<V3, V2, T, C>) -> Seq<SegView<V3, V2, T, C>> {
    match tri_kind(s) {
        Some((kind, t)) => pieces(t).map_values(|p: Seq<IndexType>| tri_view::<V3, V2, T, C>(kind, p)),
        None => seq![s],
    }
}

/// The segments that optimizing each of `segs` in turn gives, one after the other.
pub open spec fn optimized_views<V3, V2, T, C>(segs: Seq<SegView<V3, V2, T, C>>) -> Seq<
    SegView<V3, V2, T, C>,
>
    decreases segs.len(),
{
    if segs.len() == 0 {
        Seq::empty()
    } else {
        optimized_view(segs[0]) + optimized_views(segs.skip(1))
    }
}

/// Merging keeps every triangle array within a bound that held before.
proof fn lemma_merge_all_within<V3, V2, T, C>(s: SegView<V3, V2, T, C>, rest: Seq<SegView<V3, V2, T, C>>, bound: nat)
    requires
        tris_within(s, bound),
        forall|i: int| 0 <= i < rest.len() ==> tris_within(#[trigger] rest[i], bound),
    ensures
        tris_within(merge_all(s, rest).0, bound),
        forall|i: int| 0 <= i < merge_all(s, rest).1.len() ==> tris_within(#[trigger] merge_all(s, rest).1[i], bound),
    decreases rest.len(),
{
    lemma_merge_all_len(s, rest);
    if rest.len() > 0 {
        let (s1, r0) = merge_view(s, rest[0]);
        assert(tris_within(rest[0], bound));
        let tail = rest.skip(1);
        assert forall|i: int| 0 <= i < tail.len() implies tris_within(#[trigger] tail[i], bound) by {
            assert(tail[i] == rest[i + 1]);
        }
        lemma_merge_all_within(s1, tail, bound);
        let (s2, rr) = merge_all(s1, tail);
        assert forall|i: int| 0 <= i < merge_all(s, rest).1.len() implies tris_within(
            #[trigger] merge_all(s, rest).1[i],
            bound,
        ) by {
            if i > 0 {
                assert(merge_all(s, rest).1[i] == rr[i - 1]);
            }
        }
    }
}

/// Merging keeps every triangle array within a bound that held of all segments before.
pub proof fn lemma_merge_segments_within<V3, V2, T, C>(segs: Seq<SegView<V3, V2, T, C>>, bound: nat)
    requires
        forall|i: int| 0 <= i < segs.len() ==> tris_within(#[trigger] segs[i], bound),
    ensures
        forall|i: int| 0 <= i < spec_merge_segments(segs).len() ==> tris_within(
            #[trigger] spec_merge_segments(segs)[i],
            bound,
        ),
    decreases segs.len(),
{
    if segs.len() > 0 {
        let last = segs.last();
        let rest = segs.drop_last();
        assert forall|i: int| 0 <= i < rest.len() implies tris_within(#[trigger] rest[i], bound) by {
            assert(rest[i] == segs[i]);
        }
        if last is Nothing {
            lemma_merge_segments_within(rest, bound);
            assert(spec_merge_segments(segs) == spec_merge_segments(rest));
        } else {
            lemma_merge_all_within(last, rest, bound);
            lemma_merge_all_len(last, rest);
            let (m, r2) = merge_all(last, rest);
            lemma_merge_segments_within(r2, bound);
            let out = spec_merge_segments(segs);
            assert(out == seq![m] + spec_merge_segments(r2));
            assert forall|i: int| 0 <= i < out.len() implies tris_within(#[trigger] out[i], bound) by {
                if i == 0 {
                    assert(out[0] == m);
                } else {
                    assert(out[i] == spec_merge_segments(r2)[i - 1]);
                }
            }
        }
    }
}

/// The segments a mesh is written as: the segments merged (see [`merge_segments`]), then
/// each optimized (see [`DecodedSegment::optimize`]), in order.
pub fn plan_segments<V3, V2, T, C>(segments: Vec<DecodedSegment<V3, V2, T, C>>) -> (res: Vec<
    DecodedSegment<V3, V2, T, C>,
>)
    requires
        forall|i: int| 0 <= i < segments@.len() ==> tris_within(#[trigger] segments@[i]@, (isize::MAX / 32) as nat),
    ensures
        seg_views(res@) == optimized_views(spec_merge_segments(seg_views(segments@))),
{
    let ghost bound = (isize::MAX / 32) as nat;
    proof {
        let v = seg_views(segments@);
        assert forall|i: int| 0 <= i < v.len() implies tris_within(#[trigger] v[i], bound) by {
            assert(v[i] == segments@[i]@);
        }
        lemma_merge_segments_within(v, bound);
    }
    let mut rest = merge_segments(segments);
    proof {
        let v = seg_views(rest@);
        assert forall|i: int| 0 <= i < rest@.len() implies tris_within(#[trigger] rest@[i]@, bound) by {
            assert(v[i] == rest@[i]@);
        }
    }
    let ghost goal = optimized_views(seg_views(rest@));
    let mut res: Vec<DecodedSegment<V3, V2, T, C>> = Vec::new();
    while rest.len() > 0
        invariant
            seg_views(res@) + optimized_views(seg_views(rest@)) == goal,
            forall|i: int| 0 <= i < rest@.len() ==> tris_within(#[trigger] rest@[i]@, bound),
            bound == (isize::MAX / 32) as nat,
        decreases rest@.len(),
    {
        let ghost before = seg_views(rest@);
        let seg = rest.remove(0);
        proof {
            assert(seg@ == before[0]);
            assert(seg_views(rest@) =~= before.skip(1));
            assert(tris_within(before[0], bound));
        }
        let mut parts = seg.optimize();
        let ghost done = seg_views(res@);
        let ghost got = seg_views(parts@);
        res.append(&mut parts);
        proof {
            assert(seg_views(res@) =~= done + got);
            assert(optimized_views(before) == optimized_view(before[0]) + optimized_views(before.skip(1)));
            assert(seg_views(res@) + optimized_views(seg_views(rest@)) =~= done + optimized_views(before));
            assert forall|i: int| 0 <= i < rest@.len() implies tris_within(#[trigger] rest@[i]@, bound) by {
                assert(seg_views(rest@)[i] == before[i + 1]);
            }
        }
    }
    proof {
        assert(seg_views(rest@) =~= Seq::<SegView<V3, V2, T, C>>::empty());
        assert(seg_views(res@) =~= goal);
    }
    res
}

/// The library decodes segments of these kinds: nothing, triangles and shared triangles.
pub open spec fn decodes_here(t: SectionType) -> bool {
    match t {
        SectionType::Invalid | SectionType::VertexTriangleSegment
        | SectionType::NormalTriangleSegment | SectionType::UvTriangleSegment
        | SectionType::TangentTriangleSegment | SectionType::SharedTriangleSegment => true,
        _ => false,
    }
}

/// Decoding `seg` does not panic: a triangle segment is uncompressed, and a shared one is
/// uncompressed, has its mask and reads without error.
pub open spec fn decode_ok(seg: EncodedSegment, modern: bool) -> bool {
    &&& decodes_here(seg.seg_type)
    &&& seg.seg_type != SectionType::Invalid ==> seg.compresion_type
        == CompressionType::NoCompression
    &&& seg.seg_type == SectionType::SharedTriangleSegment ==> seg.data@.len() >= 1
        && spec_read_triangle_seg(seg.data@.skip(1), modern, true) is Ok
}

/// What decoding `seg` gives.
pub open spec fn spec_decode<V3, V2, T, C>(seg: EncodedSegment, modern: bool) -> Result<
    SegView<V3, V2, T, C>,
    TMFImportError,
> {
    match seg.seg_type {
        SectionType::Invalid => Ok(SegView::Nothing),
        SectionType::SharedTriangleSegment => match spec_read_triangle_seg(seg.data@.skip(1), modern, true) {
            Ok(t) => Ok(SegView::Shared(seg.data@[0], t)),
            Err(e) => Err(e),
        },
        _ => match spec_read_triangle_seg(seg.data@, modern, true) {
            Ok(t) => Ok(
                match seg.seg_type {
                    SectionType::VertexTriangleSegment => SegView::TriVertex(t),
                    SectionType::NormalTriangleSegment => SegView::TriNormal(t),
                    SectionType::UvTriangleSegment => SegView::TriUv(t),
                    _ => SegView::TriTangent(t),
                },
            ),
            Err(e) => Err(e),
        },
    }
}

impl<V3, V2, T, C> DecodedSegment<V3, V2, T, C> {
    /// Decodes a segment of nothing, of triangles or of shared triangles.
    pub fn decode(seg: EncodedSegment, ctx: &TMFImportContext) -> (res: Result<Self, TMFImportError>)
        requires
            decode_ok(seg, ctx.spec_modern()),
        ensures
            match spec_decode::<V3, V2, T, C>(seg, ctx.spec_modern()) {
                Ok(v) => res matches Ok(s) && s@ == v,
                Err(e) => res == Err::<Self, TMFImportError>(e),
            },
    {
        match seg.seg_type {
            SectionType::Invalid => Ok(Self::Nothing),
            SectionType::SharedTriangleSegment => {
                let kind = SharedSegmentKind::from_mask(seg.data[0]);
                let data = slice_subrange(seg.data.as_slice(), 1, seg.data.len());
                proof {
                    assert(data@ =~= seg.data@.skip(1));
                }
                let mut indices: Vec<IndexType> = Vec::new();
                match crate::tmf_importer::read_default_triangles(data, &mut indices, ctx) {
                    Ok(()) => {
                        assert(indices@ =~= Seq::<IndexType>::empty() + indices@);
                        Ok(Self::SharedTriangleSegment(kind, indices))
                    },
                    Err(e) => Err(e),
                }
            },
            _ => decode_triangle_seg(seg, ctx),
        }
    }
}

impl<V3, V2, T, C> DecodedSegment<V3, V2, T, C> {
    /// Decodes a segment of nothing, of triangles or of shared triangles, where that can be
    /// done (see [`decode_ok`]); `None` for a segment of another kind, a compressed one, or
    /// a shared one without its mask or whose triangles do not read.
    pub fn try_decode(seg: EncodedSegment, ctx: &TMFImportContext) -> (res: Option<Result<Self, TMFImportError>>)
        ensures
            res is None <==> !decode_ok(seg, ctx.spec_modern()),
            res matches Some(r) ==> match spec_decode::<V3, V2, T, C>(seg, ctx.spec_modern()) {
                Ok(v) => r matches Ok(s) && s@ == v,
                Err(e) => r == Err::<Self, TMFImportError>(e),
            },
    {
        let here = match seg.seg_type {
            SectionType::Invalid | SectionType::VertexTriangleSegment
            | SectionType::NormalTriangleSegment | SectionType::UvTriangleSegment
            | SectionType::TangentTriangleSegment | SectionType::SharedTriangleSegment => true,
            _ => false,
        };
        if !here {
            return None;
        }
        if seg.seg_type != SectionType::Invalid && seg.compresion_type != CompressionType::NoCompression {
            return None;
        }
        if seg.seg_type == SectionType::SharedTriangleSegment {
            if seg.data.len() < 1 {
                return None;
            }
            let data = slice_subrange(seg.data.as_slice(), 1, seg.data.len());
            proof {
                assert(data@ =~= seg.data@.skip(1));
            }
            let mut indices: Vec<IndexType> = Vec::new();
            return match crate::tmf_importer::read_default_triangles(data, &mut indices, ctx) {
                Ok(()) => Some(Ok(Self::SharedTriangleSegment(SharedSegmentKind::from_mask(seg.data[0]), indices))),
                Err(_) => None,
            };
        }
        Some(Self::decode(seg, ctx))
    }
}

/// Decodes an uncompressed segment of vertex, normal, uv or tangent triangles.
pub fn decode_triangle_seg<V3, V2, T, C>(seg: EncodedSegment, ctx: &TMFImportContext) -> (res: Result<
    DecodedSegment<V3, V2, T, C>,
    TMFImportError,
>)
    requires
        decode_ok(seg, ctx.spec_modern()),
        seg.seg_type != SectionType::Invalid,
        seg.seg_type != SectionType::SharedTriangleSegment,
    ensures
        match spec_decode::<V3, V2, T, C>(seg, ctx.spec_modern()) {
            Ok(v) => res matches Ok(s) && s@ == v,
            Err(e) => res == Err::<DecodedSegment<V3, V2, T, C>, TMFImportError>(e),
        },
{
    let mut indices: Vec<IndexType> = Vec::new();
    match crate::tmf_importer::read_default_triangles(seg.data.as_slice(), &mut indices, ctx) {
        Ok(()) => {},
        Err(e) => {
            return Err(e);
        },
    }
    proof {
        assert(indices@ =~= Seq::<IndexType>::empty() + indices@);
    }
    Ok(
        match seg.seg_type {
            SectionType::VertexTriangleSegment => DecodedSegment::AppendTriangleVertex(indices),
            SectionType::NormalTriangleSegment => DecodedSegment::AppendTriangleNormal(indices),
            SectionType::UvTriangleSegment => DecodedSegment::AppendTriangleUV(indices),
            _ => DecodedSegment::AppendTriangleTangent(indices),
        },
    )
}

/// Decoding what encoding a triangle segment gave (in a file of the current version, which
/// stores the smallest index) gives back the segment, where it has at most `MAX_SEG_SIZE`
/// indices.
pub proof fn lemma_triangle_segment_roundtrip<V3, V2, T, C>(v: SegView<V3, V2, T, C>, seg: EncodedSegment)
    requires
        match v {
            SegView::TriVertex(t) => encodes_triangles(seg, SectionType::VertexTriangleSegment, t),
            SegView::TriNormal(t) => encodes_triangles(seg, SectionType::NormalTriangleSegment, t),
            SegView::TriUv(t) => encodes_triangles(seg, SectionType::UvTriangleSegment, t),
            SegView::TriTangent(t) => encodes_triangles(seg, SectionType::TangentTriangleSegment, t),
            SegView::Shared(m, t) => seg.seg_type == SectionType::SharedTriangleSegment
                && seg.compresion_type == CompressionType::NoCompression && seg.data@.len() >= 1
                && seg.data@[0] == m && is_triangle_encoding(seg.data@.skip(1), t, seq_max(t) as nat),
            _ => false,
        },
        match v {
            SegView::TriVertex(t) | SegView::TriNormal(t) | SegView::TriUv(t) | SegView::TriTangent(t)
            | SegView::Shared(_, t) => t.len() <= crate::MAX_SEG_SIZE,
            _ => true,
        },
    ensures
        decode_ok(seg, true),
        spec_decode::<V3, V2, T, C>(seg, true) == Ok::<SegView<V3, V2, T, C>, TMFImportError>(v),
{
    let (t, data) = match v {
        SegView::Shared(_, t) => (t, seg.data@.skip(1)),
        SegView::TriVertex(t) | SegView::TriNormal(t) | SegView::TriUv(t) | SegView::TriTangent(t) => (t, seg.data@),
        _ => (Seq::empty(), Seq::empty()),
    };
    assert forall|i: int| 0 <= i < t.len() implies t[i] <= seq_max(t) by {
        crate::tmf_exporter::lemma_seq_max_ge(t, i);
    }
    vstd::arithmetic::power2::lemma2_to64();
    crate::vertices::lemma_bit_width_le(seq_max(t) as nat, 32);
    crate::vertices::lemma_triangles_roundtrip(data, t, seq_max(t) as nat);
}

} // verus!
