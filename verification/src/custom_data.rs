//! Named segments of custom mesh data.
use crate::bits::{bytes_bits, padded_bits};
use crate::packing::{
    cyc_bits, read_pairs, read_values, spec_read_pairs, spec_read_values, write_values,
};
use crate::read_extension::{lift, write_bytes, write_u64, write_u8, ByteReader};
use crate::tmf::SectionType;
use crate::tmf_exporter::seq_max;
use crate::tmf_importer::TMFImportContext;
use crate::unaligned_rw::{UnalignedReader, UnalignedWriter};
use crate::vertices::{is_triangle_encoding, reads_zero_width_pairs, save_triangles, spec_read_triangle_seg};
use crate::{IndexType, StreamError, TMFImportError, MAX_SEG_SIZE};
use vstd::bytes::{spec_u64_from_le_bytes, spec_u64_to_le_bytes};
use vstd::prelude::*;
use vstd::string::StringSliceAdditionalSpecFns;

verus! {

/// An error in adding a segment of custom mesh data.
#[derive(Clone, Copy, Debug, PartialEq, Eq, Structural)]
pub enum DataSegmentError {
    /// A segment must have a name, but its name was set to an empty string.
    NoName,
    /// The name is over the limit of 255 bytes.
    NameTooLong,
}

/// Custom data with its name (at most 255 bytes).
#[derive(Debug)]
pub struct CustomDataSegment<D> {
    name: Vec<u8>,
    name_len: u8,
    data: D,
}

impl<D> CustomDataSegment<D> {
    #[verifier::type_invariant]
    closed spec fn inv(self) -> bool {
        self.name@.len() == self.name_len
    }

    /// The bytes of the name.
    pub closed spec fn name(&self) -> Seq<u8> {
        self.name@
    }

    /// The data.
    pub closed spec fn data(&self) -> D {
        self.data
    }

    /// A segment holding `data` under the name `name`, whose length `name_len` is.
    pub fn new_raw(data: D, name: &[u8], name_len: u8) -> (seg: Self)
        requires
            name_len <= name@.len(),
        ensures
            seg.name() == name@.subrange(0, name_len as int),
            seg.data() == data,
    {
        let mut raw: Vec<u8> = Vec::new();
        let mut i: usize = 0;
        while i < name_len as usize
            invariant
                i <= name_len <= name@.len(),
                raw@ == name@.subrange(0, i as int),
            decreases name_len - i,
        {
            raw.push(name[i]);
            proof {
                assert(raw@ =~= name@.subrange(0, i + 1));
            }
            i = i + 1;
        }
        Self { name: raw, name_len, data }
    }

    /// A segment holding `data` under the name `name`, which must be 1 to 255 bytes long.
    pub fn new(data: D, name: &str) -> (res: Result<Self, DataSegmentError>)
        ensures
            name.spec_bytes().len() > 255 ==> res == Err::<Self, DataSegmentError>(
                DataSegmentError::NameTooLong,
            ),
            name.spec_bytes().len() == 0 ==> res == Err::<Self, DataSegmentError>(
                DataSegmentError::NoName,
            ),
            1 <= name.spec_bytes().len() <= 255 ==> (res matches Ok(seg) && seg.name()
                == name.spec_bytes() && seg.data() == data),
    {
        let bytes = name.as_bytes();
        let len = bytes.len();
        if len > 255 {
            return Err(DataSegmentError::NameTooLong);
        } else if len == 0 {
            return Err(DataSegmentError::NoName);
        }
        let seg = Self::new_raw(data, bytes, len as u8);
        assert(bytes@.subrange(0, len as int) =~= bytes@);
        Ok(seg)
    }

    /// The data.
    pub fn custom_data(&self) -> (data: &D)
        ensures
            *data == self.data(),
    {
        &self.data
    }

    /// The data, taken out of the segment.
    pub fn into_data(self) -> (data: D)
        ensures
            data == self.data(),
    {
        self.data
    }

    /// The length of the name in bytes.
    pub fn name_len(&self) -> (len: u8)
        ensures
            len == self.name().len(),
    {
        proof {
            use_type_invariant(self);
        }
        self.name_len
    }

    /// The bytes of the name.
    pub fn name_bytes(&self) -> (bytes: &[u8])
        ensures
            bytes@ == self.name(),
    {
        self.name.as_slice()
    }
}

impl<D: Clone> Clone for CustomDataSegment<D> {
    /// A copy with the same name and a clone of the data.
    fn clone(&self) -> (res: Self)
        ensures
            res.name() == self.name(),
            cloned(self.data(), res.data()),
    {
        proof {
            use_type_invariant(self);
        }
        let name = self.name.clone();
        proof {
            assert(name@ =~= self.name@);
        }
        Self { name, name_len: self.name_len, data: self.data.clone() }
    }
}

/// Custom mesh data in the form it is stored in: indices and integers as they are, floats
/// and colors as codes (quantized by the caller).
#[derive(Debug)]
pub enum RawCustomData {
    /// Indices, and the largest index they are written for.
    CustomIndex(Vec<IndexType>, usize),
    /// Integers, and the largest integer they are written for.
    CustomIntiger(Vec<IndexType>, usize),
    /// Floats: the bits of the smallest and largest float (as `f64`), the precision, and
    /// one code per float.
    CustomFloat(u64, u64, u8, Vec<u64>),
    /// Colors: the precision, and four codes (red, green, blue, alpha) per color.
    CustomColorRGBA(u8, Vec<u64>),
}

/// The contents of custom data, as values.
pub enum RawCustomView {
    CustomIndex(Seq<IndexType>, nat),
    CustomIntiger(Seq<IndexType>, nat),
    CustomFloat(u64, u64, u8, Seq<u64>),
    CustomColorRGBA(u8, Seq<u64>),
}

impl View for RawCustomData {
    type V = RawCustomView;

    open spec fn view(&self) -> RawCustomView {
        match self {
            RawCustomData::CustomIndex(v, m) => RawCustomView::CustomIndex(v@, *m as nat),
            RawCustomData::CustomIntiger(v, m) => RawCustomView::CustomIntiger(v@, *m as nat),
            RawCustomData::CustomFloat(lo, hi, p, c) => RawCustomView::CustomFloat(*lo, *hi, *p, c@),
            RawCustomData::CustomColorRGBA(p, c) => RawCustomView::CustomColorRGBA(*p, c@),
        }
    }
}

/// The kind of segment custom data is stored in.
pub open spec fn custom_section(d: RawCustomView) -> SectionType {
    match d {
        RawCustomView::CustomIndex(..) => SectionType::CustomIndexSegment,
        RawCustomView::CustomIntiger(..) => SectionType::CustomIntigerSegment,
        RawCustomView::CustomFloat(..) => SectionType::CustomFloatSegment,
        RawCustomView::CustomColorRGBA(..) => SectionType::CustomColorSegment,
    }
}

/// The data can be written: codes of floats and colors are written with at most 64 bits,
/// and colors come in fours.
pub open spec fn custom_writable(d: RawCustomView) -> bool {
    match d {
        RawCustomView::CustomFloat(_, _, p, _) => p <= 64,
        RawCustomView::CustomColorRGBA(p, c) => p <= 64 && c.len() % 4 == 0,
        _ => true,
    }
}

/// `data` is the stored form of `d`: indices and integers as a triangle segment; floats as
/// their number, the two bounds and the precision, then the codes; colors as their number
/// and the precision, then the codes.
pub open spec fn is_custom_encoding(data: Seq<u8>, d: RawCustomView) -> bool {
    match d {
        RawCustomView::CustomIndex(v, m) => is_triangle_encoding(data, v, m),
        RawCustomView::CustomIntiger(v, m) => is_triangle_encoding(data, v, m),
        RawCustomView::CustomFloat(lo, hi, p, c) => {
            &&& data.len() >= 25
            &&& data.subrange(0, 25) == spec_u64_to_le_bytes(c.len() as u64) + spec_u64_to_le_bytes(lo)
                + spec_u64_to_le_bytes(hi) + seq![p]
            &&& bytes_bits(data.skip(25)) == padded_bits(cyc_bits(c, seq![p]))
        },
        RawCustomView::CustomColorRGBA(p, c) => {
            &&& data.len() >= 9
            &&& data.subrange(0, 9) == spec_u64_to_le_bytes((c.len() / 4) as u64) + seq![p]
            &&& bytes_bits(data.skip(9)) == padded_bits(cyc_bits(c, seq![p]))
        },
    }
}

impl RawCustomData {
    /// Index data, written for indices up to `max_index`, or up to the largest index.
    pub fn new_index(indices: &[IndexType], max_index: Option<usize>) -> (res: Self)
        ensures
            res@ == RawCustomView::CustomIndex(
                indices@,
                match max_index {
                    Some(m) => m as nat,
                    None => seq_max(indices@) as nat,
                },
            ),
    {
        let max_index = match max_index {
            Some(m) => m,
            None => crate::tmf::max_index(indices) as usize,
        };
        Self::CustomIndex(vstd::slice::slice_to_vec(indices), max_index)
    }

    /// Integer data, written for integers up to `max_intiger`, or up to the largest one.
    pub fn new_intiger(indices: &[IndexType], max_intiger: Option<usize>) -> (res: Self)
        ensures
            res@ == RawCustomView::CustomIntiger(
                indices@,
                match max_intiger {
                    Some(m) => m as nat,
                    None => seq_max(indices@) as nat,
                },
            ),
    {
        let max_intiger = match max_intiger {
            Some(m) => m,
            None => crate::tmf::max_index(indices) as usize,
        };
        Self::CustomIntiger(vstd::slice::slice_to_vec(indices), max_intiger)
    }

    /// The kind of segment the data is stored in.
    pub fn section_type(&self) -> (res: SectionType)
        ensures
            res == custom_section(self@),
    {
        match self {
            Self::CustomIndex(_, _) => SectionType::CustomIndexSegment,
            Self::CustomIntiger(_, _) => SectionType::CustomIntigerSegment,
            Self::CustomFloat(..) => SectionType::CustomFloatSegment,
            Self::CustomColorRGBA(..) => SectionType::CustomColorSegment,
        }
    }

    /// Appends the stored form of the data (see [`is_custom_encoding`]).
    pub fn write(&self, target: &mut Vec<u8>)
        requires
            custom_writable(self@),
        ensures
            final(target)@.len() >= old(target)@.len(),
            final(target)@.subrange(0, old(target)@.len() as int) == old(target)@,
            is_custom_encoding(
                final(target)@.subrange(old(target)@.len() as int, final(target)@.len() as int),
                self@,
            ),
    {
        proof {
            vstd::bytes::lemma_auto_spec_u64_to_from_le_bytes();
        }
        let ghost start = target@;
        match self {
            Self::CustomIndex(data, max_index) => {
                save_triangles(data.as_slice(), *max_index, target);
                assert(self@ == RawCustomView::CustomIndex(data@, *max_index as nat));
                assert(is_custom_encoding(target@.subrange(start.len() as int, target@.len() as int), self@));
            },
            Self::CustomIntiger(data, max_index) => {
                save_triangles(data.as_slice(), *max_index, target);
                assert(self@ == RawCustomView::CustomIntiger(data@, *max_index as nat));
                assert(is_custom_encoding(target@.subrange(start.len() as int, target@.len() as int), self@));
            },
            Self::CustomFloat(min, max, prec, codes) => {
                write_u64(target, codes.len() as u64);
                write_u64(target, *min);
                write_u64(target, *max);
                write_u8(target, *prec);
                let ghost header = target@;
                let widths = [*prec];
                let mut writer = UnalignedWriter::new(Vec::new());
                proof {
                    assert(writer.bits() =~= Seq::<bool>::empty());
                    assert(widths@ =~= seq![*prec]);
                }
                write_values(&mut writer, codes.as_slice(), widths.as_slice());
                proof {
                    assert(writer.bits() =~= cyc_bits(codes@, seq![*prec]));
                }
                let uba = writer.finish();
                write_bytes(target, uba.as_slice());
                proof {
                    let n = start.len() as int;
                    let seg = target@.subrange(n, target@.len() as int);
                    assert(target@.subrange(0, n) =~= start);
                    assert(seg.subrange(0, 25) =~= header.subrange(n, n + 25));
                    assert(header.subrange(n, n + 25) =~= spec_u64_to_le_bytes(codes@.len() as u64)
                        + spec_u64_to_le_bytes(*min) + spec_u64_to_le_bytes(*max) + seq![*prec]);
                    assert(seg.skip(25) =~= uba@);
                    assert(self@ == RawCustomView::CustomFloat(*min, *max, *prec, codes@));
                }
            },
            Self::CustomColorRGBA(prec, codes) => {
                write_u64(target, (codes.len() / 4) as u64);
                write_u8(target, *prec);
                let ghost header = target@;
                let widths = [*prec];
                let mut writer = UnalignedWriter::new(Vec::new());
                proof {
                    assert(writer.bits() =~= Seq::<bool>::empty());
                    assert(widths@ =~= seq![*prec]);
                }
                write_values(&mut writer, codes.as_slice(), widths.as_slice());
                proof {
                    assert(writer.bits() =~= cyc_bits(codes@, seq![*prec]));
                }
                let uba = writer.finish();
                write_bytes(target, uba.as_slice());
                proof {
                    let n = start.len() as int;
                    let seg = target@.subrange(n, target@.len() as int);
                    assert(target@.subrange(0, n) =~= start);
                    assert(seg.subrange(0, 9) =~= header.subrange(n, n + 9));
                    assert(header.subrange(n, n + 9) =~= spec_u64_to_le_bytes((codes@.len() / 4) as u64)
                        + seq![*prec]);
                    assert(seg.skip(9) =~= uba@);
                    assert(self@ == RawCustomView::CustomColorRGBA(*prec, codes@));
                }
            },
        }
    }
}

impl CustomDataSegment<RawCustomData> {
    /// Appends the segment's data: the length of the name, the name, then the stored form of
    /// the data. Gives the kind of segment.
    pub fn encode(&self, target: &mut Vec<u8>) -> (res: SectionType)
        requires
            custom_writable(self.data()@),
        ensures
            res == custom_section(self.data()@),
            final(target)@.len() >= old(target)@.len() + 1 + self.name().len(),
            final(target)@.subrange(0, old(target)@.len() as int) == old(target)@,
            final(target)@[old(target)@.len() as int] == self.name().len(),
            final(target)@.subrange(old(target)@.len() + 1int, old(target)@.len() + 1int + self.name().len())
                == self.name(),
            is_custom_encoding(
                final(target)@.subrange(
                    old(target)@.len() + 1int + self.name().len(),
                    final(target)@.len() as int,
                ),
                self.data()@,
            ),
    {
        proof {
            use_type_invariant(self);
        }
        let ghost start = target@;
        write_u8(target, self.name_len);
        write_bytes(target, self.name.as_slice());
        let ghost header = target@;
        self.data.write(target);
        proof {
            let n = start.len() as int;
            let l = self.name@.len() as int;
            assert(target@.subrange(0, header.len() as int) == header);
            assert(target@.subrange(0, n) =~= header.subrange(0, n));
            assert(header.subrange(0, n) =~= start);
            assert(target@[n] == header[n]);
            assert(target@.subrange(n + 1, n + 1 + l) =~= header.subrange(n + 1, n + 1 + l));
            assert(header.subrange(n + 1, n + 1 + l) =~= self.name@);
        }
        self.data.section_type()
    }
}

/// Reading the custom segment does not panic: its kind is one of custom indices, integers,
/// floats or colors; index and integer data with a precision of 0 bits hold at most one
/// element (pairs are read together, and a pair reader refuses 0 bits); and colors have a
/// precision below 64 bits, and not 0 bits where there are colors to read.
pub open spec fn custom_read_ok(data: Seq<u8>, kind: SectionType, modern: bool) -> bool {
    let rest = data.skip(1 + data[0]);
    &&& match kind {
        SectionType::CustomIndexSegment | SectionType::CustomIntigerSegment
        | SectionType::CustomFloatSegment | SectionType::CustomColorSegment => true,
        _ => false,
    }
    &&& data.len() >= 1 && data.len() >= 1 + data[0] ==> match kind {
        SectionType::CustomIndexSegment | SectionType::CustomIntigerSegment => !reads_zero_width_pairs(
            rest,
            modern,
        ),
        SectionType::CustomColorSegment => rest.len() >= 9 ==> rest[8] < 64 && (rest[8] == 0
            ==> spec_u64_from_le_bytes(rest.subrange(0, 8)) == 0),
        _ => true,
    }
}

/// Whether [`CustomDataSegment::read`] can read `data` as a segment of `kind` (see
/// [`custom_read_ok`]).
pub fn custom_readable(data: &[u8], kind: SectionType, ctx: &TMFImportContext) -> (res: bool)
    ensures
        res == custom_read_ok(data@, kind, ctx.spec_modern()),
{
    let known = match kind {
        SectionType::CustomIndexSegment | SectionType::CustomIntigerSegment
        | SectionType::CustomFloatSegment | SectionType::CustomColorSegment => true,
        _ => false,
    };
    if !known {
        return false;
    }
    if data.len() < 1 || data.len() < 1 + data[0] as usize {
        return true;
    }
    let rest = vstd::slice::slice_subrange(data, 1 + data[0] as usize, data.len());
    proof {
        assert(rest@ =~= data@.skip(1 + data@[0]));
    }
    match kind {
        SectionType::CustomIndexSegment | SectionType::CustomIntigerSegment => {
            !crate::vertices::zero_width_pairs(rest, ctx.segment_length_width() == &crate::tmf_importer::SegLenWidth::U32)
        },
        SectionType::CustomColorSegment => {
            if rest.len() < 9 {
                true
            } else {
                let head = vstd::slice::slice_subrange(rest, 0, 8);
                let count = vstd::bytes::u64_from_le_bytes(head);
                proof {
                    assert(head@ =~= rest@.subrange(0, 8));
                }
                rest[8] < 64 && (rest[8] != 0 || count == 0)
            }
        },
        _ => true,
    }
}

/// What reading the data of a custom segment of the given kind gives (after the name).
pub open spec fn spec_read_custom_data(rest: Seq<u8>, kind: SectionType, modern: bool) -> Result<
    RawCustomView,
    TMFImportError,
> {
    let eof = TMFImportError::IO(StreamError::UnexpectedEof);
    match kind {
        SectionType::CustomIndexSegment => match spec_read_triangle_seg(rest, modern, false) {
            Ok(t) => Ok(RawCustomView::CustomIndex(t, seq_max(t) as nat)),
            Err(e) => Err(e),
        },
        SectionType::CustomIntigerSegment => match spec_read_triangle_seg(rest, modern, false) {
            Ok(t) => Ok(RawCustomView::CustomIntiger(t, seq_max(t) as nat)),
            Err(e) => Err(e),
        },
        SectionType::CustomFloatSegment => if rest.len() < 8 {
            Err(eof)
        } else if spec_u64_from_le_bytes(rest.subrange(0, 8)) > MAX_SEG_SIZE {
            Err(TMFImportError::SegmentTooLong)
        } else if rest.len() < 25 {
            Err(eof)
        } else if rest[24] >= 64 {
            Err(TMFImportError::InvalidPrecision(rest[24]))
        } else {
            match spec_read_values(
                bytes_bits(rest.skip(25)),
                0,
                seq![rest[24]],
                spec_u64_from_le_bytes(rest.subrange(0, 8)) as nat,
            ) {
                Some((c, _)) => Ok(
                    RawCustomView::CustomFloat(
                        spec_u64_from_le_bytes(rest.subrange(8, 16)),
                        spec_u64_from_le_bytes(rest.subrange(16, 24)),
                        rest[24],
                        c,
                    ),
                ),
                None => Err(eof),
            }
        },
        _ => if rest.len() < 9 {
            Err(eof)
        } else {
            match spec_read_pairs(
                bytes_bits(rest.skip(9)),
                0,
                rest[8],
                2 * spec_u64_from_le_bytes(rest.subrange(0, 8)) as nat,
            ) {
                Some((c, _)) => Ok(RawCustomView::CustomColorRGBA(rest[8], c)),
                None => Err(eof),
            }
        },
    }
}

/// What reading a custom segment gives: its name and its data.
pub open spec fn spec_read_custom(data: Seq<u8>, kind: SectionType, modern: bool) -> Result<
    (Seq<u8>, RawCustomView),
    TMFImportError,
> {
    if data.len() < 1 || data.len() < 1 + data[0] {
        Err(TMFImportError::IO(StreamError::UnexpectedEof))
    } else {
        match spec_read_custom_data(data.skip(1 + data[0]), kind, modern) {
            Ok(d) => Ok((data.subrange(1, 1 + data[0]), d)),
            Err(e) => Err(e),
        }
    }
}

/// Reads the data of a custom segment (after the name).
fn read_custom_data(rest: &[u8], kind: SectionType, ctx: &TMFImportContext) -> (res: Result<
    RawCustomData,
    TMFImportError,
>)
    requires
        match kind {
            SectionType::CustomIndexSegment | SectionType::CustomIntigerSegment => !reads_zero_width_pairs(
                rest@,
                ctx.spec_modern(),
            ),
            SectionType::CustomFloatSegment => true,
            SectionType::CustomColorSegment => rest@.len() >= 9 ==> rest@[8] < 64 && (rest@[8] == 0
                ==> spec_u64_from_le_bytes(rest@.subrange(0, 8)) == 0),
            _ => false,
        },
    ensures
        match spec_read_custom_data(rest@, kind, ctx.spec_modern()) {
            Ok(d) => res matches Ok(r) && r@ == d,
            Err(e) => res matches Err(e2) && e2 == e,
        },
{
    match kind {
        SectionType::CustomIndexSegment => {
            let result = crate::tmf_importer::read_triangles(rest, ctx)?;
            Ok(RawCustomData::new_index(result.as_slice(), None))
        },
        SectionType::CustomIntigerSegment => {
            let result = crate::tmf_importer::read_triangles(rest, ctx)?;
            Ok(RawCustomData::new_intiger(result.as_slice(), None))
        },
        SectionType::CustomFloatSegment => {
            let mut reader = ByteReader::new(rest);
            let len = lift(reader.read_u64())?;
            if len > MAX_SEG_SIZE as u64 {
                return Err(TMFImportError::SegmentTooLong);
            }
            let min = lift(reader.read_u64());
            let max = lift(reader.read_u64());
            let prec = lift(reader.read_u8());
            let (min, max, prec) = match (min, max, prec) {
                (Ok(a), Ok(b), Ok(c)) => (a, b, c),
                _ => {
                    return Err(TMFImportError::IO(StreamError::UnexpectedEof));
                },
            };
            if prec >= 64 {
                return Err(TMFImportError::InvalidPrecision(prec));
            }
            let data = reader.remaining();
            proof {
                assert(data@ =~= rest@.skip(25));
            }
            let widths = [prec];
            proof {
                assert(widths@ =~= seq![prec]);
            }
            let mut bits = UnalignedReader::new(data);
            match read_values(&mut bits, len, widths.as_slice()) {
                Ok(codes) => Ok(RawCustomData::CustomFloat(min, max, prec, codes)),
                Err(e) => Err(TMFImportError::IO(e)),
            }
        },
        _ => {
            let mut reader = ByteReader::new(rest);
            let len = lift(reader.read_u64());
            let prec = lift(reader.read_u8());
            let (len, prec) = match (len, prec) {
                (Ok(a), Ok(b)) => (a, b),
                _ => {
                    return Err(TMFImportError::IO(StreamError::UnexpectedEof));
                },
            };
            let data = reader.remaining();
            proof {
                assert(data@ =~= rest@.skip(9));
            }
            let ghost s = bytes_bits(rest@.skip(9));
            let mut bits = UnalignedReader::new(data);
            let mut codes: Vec<u64> = Vec::new();
            let mut i: u64 = 0;
            while i < len
                invariant
                    i <= len,
                    len > 0 ==> prec != 0,
                    bits.stream() == s,
                    spec_read_pairs(s, 0, prec, 2 * i as nat) == Some((codes@, bits.pos())),
                    rest@.len() >= 9,
                    s == bytes_bits(rest@.skip(9)),
                    len == spec_u64_from_le_bytes(rest@.subrange(0, 8)),
                    prec == rest@[8],
                    kind != SectionType::CustomIndexSegment,
                    kind != SectionType::CustomIntigerSegment,
                    kind != SectionType::CustomFloatSegment,
                decreases len - i,
            {
                proof {
                    crate::packing::lemma_read_pairs_split(s, 0, prec, 2 * i as nat, 2);
                }
                match read_pairs(&mut bits, 2, prec) {
                    Ok(more) => {
                        codes.append(&mut more.clone());
                    },
                    Err(e) => {
                        proof {
                            assert(spec_read_pairs(s, 0, prec, (2 * i + 2) as nat) is None);
                            lemma_read_pairs_fail_after(s, prec, (2 * i + 2) as nat, 2 * len as nat);
                            assert(spec_read_pairs(s, 0, prec, 2 * len as nat) is None);
                            assert(e == StreamError::UnexpectedEof);
                        }
                        return Err(TMFImportError::IO(e));
                    },
                }
                i = i + 1;
            }
            Ok(RawCustomData::CustomColorRGBA(prec, codes))
        },
    }
}

/// Once reading pairs fails, reading more fails too.
proof fn lemma_read_pairs_fail_after(s: Seq<bool>, w: u8, m: nat, n: nat)
    requires
        m <= n,
        spec_read_pairs(s, 0, w, m) is None,
    ensures
        spec_read_pairs(s, 0, w, n) is None,
{
    crate::packing::lemma_read_values_fails_after(s, 0, seq![w], 2 * m, 2 * n);
}

impl CustomDataSegment<RawCustomData> {
    /// Reads a custom segment of the given kind: the length of the name, the name, then the
    /// data.
    pub fn read(src: &[u8], kind: SectionType, ctx: &TMFImportContext) -> (res: Result<
        Self,
        TMFImportError,
    >)
        requires
            custom_read_ok(src@, kind, ctx.spec_modern()),
        ensures
            match spec_read_custom(src@, kind, ctx.spec_modern()) {
                Ok((name, d)) => res matches Ok(seg) && seg.name() == name && seg.data()@ == d,
                Err(e) => res matches Err(e2) && e2 == e,
            },
    {
        let mut reader = ByteReader::new(src);
        let name_len = lift(reader.read_u8())?;
        let name = lift(reader.read_bytes(name_len as usize))?;
        let rest = reader.remaining();
        proof {
            assert(rest@ =~= src@.skip(1 + name_len));
            assert(name@ =~= src@.subrange(1, 1 + name_len));
        }
        let data = read_custom_data(rest, kind, ctx)?;
        Ok(Self::new_raw(data, name, name_len))
    }
}

/// What reading back stored custom data gives: the same data, where indices and integers come
/// with their largest value as the one they are written for.
pub open spec fn custom_read_back(d: RawCustomView) -> RawCustomView {
    match d {
        RawCustomView::CustomIndex(v, _) => RawCustomView::CustomIndex(v, seq_max(v) as nat),
        RawCustomView::CustomIntiger(v, _) => RawCustomView::CustomIntiger(v, seq_max(v) as nat),
        other => other,
    }
}

/// Stored indices `v`, written for values up to `m`, can be read back: they are at most `m`,
/// the precision is below 64 bits, there are at most `MAX_SEG_SIZE` of them,
/// and they are not a run of pairs of zero bits.
pub open spec fn index_data_readable(enc: Seq<u8>, v: Seq<IndexType>, m: nat) -> bool {
    &&& forall|i: int| 0 <= i < v.len() ==> #[trigger] v[i] <= m
    &&& crate::vertices::bit_width(m) < 64
    &&& v.len() <= MAX_SEG_SIZE
    &&& !reads_zero_width_pairs(enc, true)
}

/// Stored custom data reads back under its name (see [`custom_read_back`]): indices and
/// integers up to the value they are written for, with a precision below 64 bits, at most
/// `MAX_SEG_SIZE` of them and not a run of zero bit pairs; float codes that fit their
/// precision (below 64 bits), at most `MAX_SEG_SIZE` of them; color codes in fours that fit
/// their precision (below 64 bits).
pub proof fn lemma_custom_roundtrip(name: Seq<u8>, enc: Seq<u8>, d: RawCustomView)
    requires
        name.len() <= 255,
        is_custom_encoding(enc, d),
        match d {
            RawCustomView::CustomIndex(v, m) => index_data_readable(enc, v, m),
            RawCustomView::CustomIntiger(v, m) => index_data_readable(enc, v, m),
            RawCustomView::CustomFloat(_, _, p, c) => crate::packing::codes_fit(c, seq![p]) && c.len()
                <= MAX_SEG_SIZE,
            RawCustomView::CustomColorRGBA(p, c) => crate::packing::codes_fit(c, seq![p])
                && c.len() % 4 == 0 && c.len() / 4 <= u64::MAX,
        },
    ensures
        spec_read_custom(seq![name.len() as u8] + name + enc, custom_section(d), true) == Ok::<
            (Seq<u8>, RawCustomView),
            TMFImportError,
        >((name, custom_read_back(d))),
{
    vstd::bytes::lemma_auto_spec_u64_to_from_le_bytes();
    let data = seq![name.len() as u8] + name + enc;
    assert(data[0] == name.len());
    assert(data.subrange(1, 1 + data[0]) =~= name);
    assert(data.skip(1 + data[0]) =~= enc);
    match d {
        RawCustomView::CustomIndex(v, m) => {
            crate::vertices::lemma_triangles_roundtrip(enc, v, m);
        },
        RawCustomView::CustomIntiger(v, m) => {
            crate::vertices::lemma_triangles_roundtrip(enc, v, m);
        },
        RawCustomView::CustomFloat(lo, hi, p, c) => {
            let h = enc.subrange(0, 25);
            assert(enc.subrange(0, 8) =~= h.subrange(0, 8));
            assert(h.subrange(0, 8) =~= spec_u64_to_le_bytes(c.len() as u64));
            assert(enc.subrange(8, 16) =~= h.subrange(8, 16));
            assert(h.subrange(8, 16) =~= spec_u64_to_le_bytes(lo));
            assert(enc.subrange(16, 24) =~= h.subrange(16, 24));
            assert(h.subrange(16, 24) =~= spec_u64_to_le_bytes(hi));
            assert(enc[24] == h[24]);
            let st = cyc_bits(c, seq![p]);
            let tail = Seq::new(((8 - st.len() % 8) % 8) as nat, |i: int| false);
            assert(bytes_bits(enc.skip(25)) =~= Seq::<bool>::empty() + st + tail);
            crate::packing::lemma_values_roundtrip(Seq::empty(), c, seq![p], tail);
        },
        RawCustomView::CustomColorRGBA(p, c) => {
            let h = enc.subrange(0, 9);
            assert(enc.subrange(0, 8) =~= h.subrange(0, 8));
            assert(h.subrange(0, 8) =~= spec_u64_to_le_bytes((c.len() / 4) as u64));
            assert(enc[8] == h[8]);
            let st = cyc_bits(c, seq![p]);
            let tail = Seq::new(((8 - st.len() % 8) % 8) as nat, |i: int| false);
            assert(bytes_bits(enc.skip(9)) =~= Seq::<bool>::empty() + st + tail);
            crate::packing::lemma_values_roundtrip(Seq::empty(), c, seq![p], tail);
            assert(2 * (2 * (c.len() / 4)) == c.len());
        },
    }
}

} // verus!
