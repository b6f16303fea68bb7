//! Normals are stored as two unsigned codes each (an octahedral encoding), packed in an
//! unaligned binary array with the bits of the normal precision.
use crate::bits::{bytes_bits, padded_bits};
use crate::packing::{cyc_bits, read_pairs, spec_read_pairs, write_values};
use crate::read_extension::{lift, write_bytes, write_u64, write_u8, ByteReader};
use crate::unaligned_rw::{UnalignedReader, UnalignedWriter};
use crate::{StreamError, TMFImportError, MAX_SEG_SIZE};
use vstd::bytes::{spec_u64_from_le_bytes, spec_u64_to_le_bytes};
use vstd::prelude::*;

verus! {

/// How much any normal in a model may deviate, as the number of bits each of its two codes
/// is written with.
#[derive(Clone, Copy, Debug, PartialEq, Eq, Structural)]
pub struct NormalPrecisionMode(u8);

impl NormalPrecisionMode {
    /// The number of bits, as a plain number.
    pub closed spec fn width(self) -> u8 {
        self.0
    }

    /// The number of bits each code is written with.
    pub fn bits(&self) -> (bits: u8)
        ensures
            bits == self.width(),
    {
        self.0
    }

    /// The mode writing each code with `bits` bits.
    pub fn from_bits(bits: u8) -> (mode: Self)
        ensures
            mode.width() == bits,
    {
        Self(bits)
    }
}

impl Default for NormalPrecisionMode {
    /// The default precision: a deviation of at most one degree, which takes
    /// `ceil(log2(90 / 1))` = 7 bits per code.
    fn default() -> (mode: Self)
        ensures
            mode.width() == 7,
    {
        Self(7)
    }
}

/// Appends a normal segment: the number of normals, the precision, then the two codes of
/// each normal with the bits of the precision.
pub fn save_normal_codes(codes: &[u64], precision: NormalPrecisionMode, target: &mut Vec<u8>)
    requires
        codes@.len() % 2 == 0,
        precision.width() <= 64,
    ensures
        final(target)@.len() >= old(target)@.len() + 9,
        final(target)@.subrange(0, old(target)@.len() as int) == old(target)@,
        final(target)@.subrange(old(target)@.len() as int, old(target)@.len() + 9int)
            == spec_u64_to_le_bytes((codes@.len() / 2) as u64) + seq![precision.width()],
        bytes_bits(final(target)@.subrange(old(target)@.len() + 9int, final(target)@.len() as int))
            == padded_bits(cyc_bits(codes@, seq![precision.width()])),
{
    proof {
        vstd::bytes::lemma_auto_spec_u64_to_from_le_bytes();
    }
    let ghost start = target@;
    write_u64(target, (codes.len() / 2) as u64);
    write_u8(target, precision.bits());
    let ghost header = target@;
    let widths = [precision.bits()];
    let mut writer = UnalignedWriter::new(Vec::new());
    proof {
        assert(writer.bits() =~= Seq::<bool>::empty());
        assert(widths@ =~= seq![precision.width()]);
    }
    write_values(&mut writer, codes, widths.as_slice());
    proof {
        assert(writer.bits() =~= cyc_bits(codes@, seq![precision.width()]));
    }
    let uba = writer.finish();
    write_bytes(target, uba.as_slice());
    proof {
        let n = start.len() as int;
        assert(target@.subrange(0, n) =~= start);
        assert(target@.subrange(n, n + 9) =~= header.subrange(n, n + 9));
        assert(target@.subrange(n + 9, target@.len() as int) =~= uba@);
    }
}

/// Reading a normal segment does not panic: a precision of 0 bits with normals to read
/// trips the check of the pair reader.
pub open spec fn normals_read_ok(data: Seq<u8>) -> bool {
    data.len() >= 9 && spec_u64_from_le_bytes(data.subrange(0, 8)) <= MAX_SEG_SIZE ==> !(data[8] == 0
        && spec_u64_from_le_bytes(data.subrange(0, 8)) > 0)
}

/// Whether [`read_normal_codes`] can read `src` (see [`normals_read_ok`]).
pub fn normals_readable(src: &[u8]) -> (res: bool)
    ensures
        res == normals_read_ok(src@),
{
    if src.len() < 9 {
        return true;
    }
    let head = vstd::slice::slice_subrange(src, 0, 8);
    let count = vstd::bytes::u64_from_le_bytes(head);
    proof {
        assert(head@ =~= src@.subrange(0, 8));
    }
    !(count <= MAX_SEG_SIZE as u64 && src[8] == 0 && count > 0)
}

/// What reading a normal segment gives: the precision and the codes, two per normal, or
/// the first error: a stream that ends early, more than `MAX_SEG_SIZE` normals, or a
/// precision of 64 bits or more.
pub open spec fn spec_read_normal_codes(data: Seq<u8>) -> Result<(u8, Seq<u64>), TMFImportError> {
    let eof = TMFImportError::IO(StreamError::UnexpectedEof);
    if data.len() < 8 {
        Err(eof)
    } else if spec_u64_from_le_bytes(data.subrange(0, 8)) > MAX_SEG_SIZE {
        Err(TMFImportError::SegmentTooLong)
    } else if data.len() < 9 {
        Err(eof)
    } else if data[8] >= 64 {
        Err(TMFImportError::InvalidPrecision(data[8]))
    } else {
        match spec_read_pairs(
            bytes_bits(data.skip(9)),
            0,
            data[8],
            spec_u64_from_le_bytes(data.subrange(0, 8)) as nat,
        ) {
            Some((codes, _)) => Ok((data[8], codes)),
            None => Err(eof),
        }
    }
}

/// Reads a normal segment: its precision and the codes, two per normal.
pub fn read_normal_codes(src: &[u8]) -> (res: Result<(NormalPrecisionMode, Vec<u64>), TMFImportError>)
    requires
        normals_read_ok(src@),
    ensures
        match spec_read_normal_codes(src@) {
            Ok((p, c)) => res matches Ok((mode, codes)) && mode.width() == p && codes@ == c,
            Err(e) => res matches Err(e2) && e2 == e,
        },
{
    let mut reader = ByteReader::new(src);
    let count = lift(reader.read_u64())?;
    if count > MAX_SEG_SIZE as u64 {
        return Err(TMFImportError::SegmentTooLong);
    }
    let precision = lift(reader.read_u8())?;
    if precision >= 64 {
        return Err(TMFImportError::InvalidPrecision(precision));
    }
    let rest = reader.remaining();
    proof {
        assert(rest@ =~= src@.skip(9));
    }
    let mut bits = UnalignedReader::new(rest);
    match read_pairs(&mut bits, count, precision) {
        Ok(codes) => Ok((NormalPrecisionMode::from_bits(precision), codes)),
        Err(e) => Err(TMFImportError::IO(e)),
    }
}

/// Reading a normal segment gives back the precision and codes it was saved with, where the
/// precision is between 1 and 63 bits, every code fits the precision, and there are at most
/// `MAX_SEG_SIZE` normals.
pub proof fn lemma_normal_codes_roundtrip(data: Seq<u8>, precision: u8, codes: Seq<u64>)
    requires
        0 < precision < 64,
        codes.len() % 2 == 0,
        codes.len() / 2 <= MAX_SEG_SIZE,
        crate::packing::codes_fit(codes, seq![precision]),
        data.len() >= 9,
        data.subrange(0, 9) == spec_u64_to_le_bytes((codes.len() / 2) as u64) + seq![precision],
        bytes_bits(data.skip(9)) == padded_bits(cyc_bits(codes, seq![precision])),
    ensures
        normals_read_ok(data),
        spec_read_normal_codes(data) == Ok::<(u8, Seq<u64>), TMFImportError>((precision, codes)),
{
    vstd::bytes::lemma_auto_spec_u64_to_from_le_bytes();
    let hb = spec_u64_to_le_bytes((codes.len() / 2) as u64);
    assert(hb.len() == 8);
    assert(data.subrange(0, 8) =~= data.subrange(0, 9).subrange(0, 8));
    assert(data.subrange(0, 8) =~= hb);
    assert(data[8] == (spec_u64_to_le_bytes((codes.len() / 2) as u64) + seq![precision])[8]);
    assert(data[8] == precision);
    assert(spec_u64_from_le_bytes(data.subrange(0, 8)) == (codes.len() / 2) as u64);
    let st = cyc_bits(codes, seq![precision]);
    let tail = Seq::new(((8 - st.len() % 8) % 8) as nat, |i: int| false);
    assert(bytes_bits(data.skip(9)) =~= Seq::<bool>::empty() + st + tail);
    crate::packing::lemma_values_roundtrip(Seq::empty(), codes, seq![precision], tail);
    assert(2 * (codes.len() / 2) == codes.len());
    assert(spec_read_pairs(bytes_bits(data.skip(9)), 0, precision, (codes.len() / 2) as nat) == Some(
        (codes, st.len()),
    ));
}

} // verus!
