//! Texture coordinates are stored as two unsigned codes each, packed in an unaligned binary
//! array with the bits of the UV precision.
use crate::bits::{bytes_bits, padded_bits};
use crate::packing::{cyc_bits, read_pairs, spec_read_pairs, write_values};
use crate::read_extension::{lift, write_bytes, write_u64, write_u8, ByteReader};
use crate::unaligned_rw::{UnalignedReader, UnalignedWriter};
use crate::{StreamError, TMFImportError, MAX_SEG_SIZE};
use vstd::bytes::{spec_u64_from_le_bytes, spec_u64_to_le_bytes};
use vstd::prelude::*;

verus! {

/// How precisely texture coordinates are saved, as the number of bits of each code.
#[derive(Clone, Copy, Debug, PartialEq, Eq, Structural)]
pub struct UvPrecisionMode(u8);

impl UvPrecisionMode {
    /// The number of bits, as a plain number.
    pub closed spec fn width(self) -> u8 {
        self.0
    }

    /// The number of bits each code is written with.
    pub fn bits(&self) -> (bits: u8)
        ensures
            bits == self.width(),
    {
        self.0
    }

    /// The mode writing each code with `bits` bits.
    pub fn from_bits(bits: u8) -> (mode: Self)
        ensures
            mode.width() == bits,
    {
        Self(bits)
    }
}

impl Default for UvPrecisionMode {
    /// The default precision: a texture of 1024 pixels and at most 0.1 pixel of deviation,
    /// which takes `ceil(log2(1024 / 0.1))` = 14 bits per code.
    fn default() -> (mode: Self)
        ensures
            mode.width() == 14,
    {
        Self(14)
    }
}

/// Appends a texture coordinate segment: the precision, the number of coordinates, then
/// the two codes of each coordinate with the bits of the precision.
pub fn save_uv_codes(codes: &[u64], precision: UvPrecisionMode, target: &mut Vec<u8>)
    requires
        codes@.len() % 2 == 0,
        precision.width() <= 64,
    ensures
        final(target)@.len() >= old(target)@.len() + 9,
        final(target)@.subrange(0, old(target)@.len() as int) == old(target)@,
        final(target)@.subrange(old(target)@.len() as int, old(target)@.len() + 9int) == seq![
            precision.width(),
        ] + spec_u64_to_le_bytes((codes@.len() / 2) as u64),
        bytes_bits(final(target)@.subrange(old(target)@.len() + 9int, final(target)@.len() as int))
            == padded_bits(cyc_bits(codes@, seq![precision.width()])),
{
    proof {
        vstd::bytes::lemma_auto_spec_u64_to_from_le_bytes();
    }
    let ghost start = target@;
    write_u8(target, precision.bits());
    write_u64(target, (codes.len() / 2) as u64);
    let ghost header = target@;
    let widths = [precision.bits()];
    let mut writer = UnalignedWriter::new(Vec::new());
    proof {
        assert(writer.bits() =~= Seq::<bool>::empty());
        assert(widths@ =~= seq![precision.width()]);
    }
    write_values(&mut writer, codes, widths.as_slice());
    proof {
        assert(writer.bits() =~= cyc_bits(codes@, seq![precision.width()]));
    }
    let uba = writer.finish();
    write_bytes(target, uba.as_slice());
    proof {
        let n = start.len() as int;
        assert(target@.subrange(0, n) =~= start);
        assert(target@.subrange(n, n + 9) =~= header.subrange(n, n + 9));
        assert(target@.subrange(n + 9, target@.len() as int) =~= uba@);
    }
}

/// What reading a texture coordinate segment gives: the precision and the codes, two per
/// coordinate (all zeros for a precision of 0 bits, which reads nothing), or the first
/// error: a stream that ends early, more than `MAX_SEG_SIZE` coordinates, or a precision of
/// 64 bits or more.
pub open spec fn spec_read_uv_codes(data: Seq<u8>) -> Result<(u8, Seq<u64>), TMFImportError> {
    let eof = TMFImportError::IO(StreamError::UnexpectedEof);
    if data.len() < 9 {
        Err(eof)
    } else {
        let count = spec_u64_from_le_bytes(data.subrange(1, 9));
        if count > MAX_SEG_SIZE {
            Err(TMFImportError::SegmentTooLong)
        } else if data[0] == 0 {
            Ok((0, Seq::new(2 * count as nat, |i: int| 0u64)))
        } else if data[0] >= 64 {
            Err(TMFImportError::InvalidPrecision(data[0]))
        } else {
            match spec_read_pairs(bytes_bits(data.skip(9)), 0, data[0], count as nat) {
                Some((codes, _)) => Ok((data[0], codes)),
                None => Err(eof),
            }
        }
    }
}

/// Reads a texture coordinate segment: its precision and the codes, two per coordinate.
pub fn read_uv_codes(src: &[u8]) -> (res: Result<(UvPrecisionMode, Vec<u64>), TMFImportError>)
    ensures
        match spec_read_uv_codes(src@) {
            Ok((p, c)) => res matches Ok((mode, codes)) && mode.width() == p && codes@ == c,
            Err(e) => res matches Err(e2) && e2 == e,
        },
{
    let mut reader = ByteReader::new(src);
    let precision = lift(reader.read_u8());
    let count = lift(reader.read_u64());
    let (precision, count) = match (precision, count) {
        (Ok(p), Ok(c)) => (p, c),
        _ => {
            return Err(TMFImportError::IO(StreamError::UnexpectedEof));
        },
    };
    if count > MAX_SEG_SIZE as u64 {
        return Err(TMFImportError::SegmentTooLong);
    }
    if precision == 0 {
        let mut codes: Vec<u64> = Vec::new();
        let mut i: u64 = 0;
        while i < 2 * count
            invariant
                i <= 2 * count,
                count <= MAX_SEG_SIZE,
                codes@ == Seq::new(i as nat, |j: int| 0u64),
            decreases 2 * count - i,
        {
            codes.push(0);
            proof {
                assert(codes@ =~= Seq::new((i + 1) as nat, |j: int| 0u64));
            }
            i = i + 1;
        }
        return Ok((UvPrecisionMode::from_bits(0), codes));
    }
    if precision >= 64 {
        return Err(TMFImportError::InvalidPrecision(precision));
    }
    let rest = reader.remaining();
    proof {
        assert(rest@ =~= src@.skip(9));
    }
    let mut bits = UnalignedReader::new(rest);
    match read_pairs(&mut bits, count, precision) {
        Ok(codes) => Ok((UvPrecisionMode::from_bits(precision), codes)),
        Err(e) => Err(TMFImportError::IO(e)),
    }
}

/// Reading a texture coordinate segment gives back the precision and codes it was saved
/// with, where the precision is between 1 and 63 bits, every code fits the
/// precision, and there are at most `MAX_SEG_SIZE` coordinates.
pub proof fn lemma_uv_codes_roundtrip(data: Seq<u8>, precision: u8, codes: Seq<u64>)
    requires
        0 < precision < 64,
        codes.len() % 2 == 0,
        codes.len() / 2 <= MAX_SEG_SIZE,
        crate::packing::codes_fit(codes, seq![precision]),
        data.len() >= 9,
        data.subrange(0, 9) == seq![precision] + spec_u64_to_le_bytes((codes.len() / 2) as u64),
        bytes_bits(data.skip(9)) == padded_bits(cyc_bits(codes, seq![precision])),
    ensures
        spec_read_uv_codes(data) == Ok::<(u8, Seq<u64>), TMFImportError>((precision, codes)),
{
    vstd::bytes::lemma_auto_spec_u64_to_from_le_bytes();
    let hb = spec_u64_to_le_bytes((codes.len() / 2) as u64);
    assert(hb.len() == 8);
    assert(data.subrange(1, 9) =~= data.subrange(0, 9).subrange(1, 9));
    assert(data.subrange(1, 9) =~= hb);
    assert(data[0] == data.subrange(0, 9)[0]);
    assert(data[0] == precision);
    let st = cyc_bits(codes, seq![precision]);
    let tail = Seq::new(((8 - st.len() % 8) % 8) as nat, |i: int| false);
    assert(bytes_bits(data.skip(9)) =~= Seq::<bool>::empty() + st + tail);
    crate::packing::lemma_values_roundtrip(Seq::empty(), codes, seq![precision], tail);
    assert(2 * (codes.len() / 2) == codes.len());
    assert(spec_read_pairs(bytes_bits(data.skip(9)), 0, precision, (codes.len() / 2) as nat) == Some(
        (codes, st.len()),
    ));
}

} // verus!
