//! Tangents are stored as a normal (its direction) and a handedness bit.
use crate::bits::{bytes_bits, padded_bits};
use crate::normals::NormalPrecisionMode;
use crate::packing::{cyc_bits, read_values, spec_read_values, write_values};
use crate::read_extension::{write_bytes, write_u64, write_u8, ByteReader};
use crate::unaligned_rw::{UnalignedReader, UnalignedWriter};
use crate::StreamError;
use vstd::bytes::{spec_u64_from_le_bytes, spec_u64_to_le_bytes};
use vstd::arithmetic::power2::pow2;
use vstd::prelude::*;

verus! {

/// How precisely the direction of a tangent is saved.
#[derive(Clone, Copy, Debug, PartialEq, Eq, Structural)]
pub struct TangentPrecisionMode(NormalPrecisionMode);

impl TangentPrecisionMode {
    /// The precision of the direction.
    pub closed spec fn normal(self) -> NormalPrecisionMode {
        self.0
    }

    /// The precision of the direction.
    pub fn normal_precision(&self) -> (mode: NormalPrecisionMode)
        ensures
            mode == self.normal(),
    {
        self.0
    }

    /// The mode writing each code of the direction with `bits` bits.
    pub fn from_bits(bits: u8) -> (mode: Self)
        ensures
            mode.normal().width() == bits,
    {
        Self(NormalPrecisionMode::from_bits(bits))
    }

    /// The mode with the direction saved at the normal precision `mode`.
    pub fn from_normal_precision(mode: NormalPrecisionMode) -> (res: Self)
        ensures
            res.normal() == mode,
    {
        Self(mode)
    }
}

impl Default for TangentPrecisionMode {
    /// The default precision: a direction within one degree, 7 bits per code.
    fn default() -> (mode: Self)
        ensures
            mode.normal().width() == 7,
    {
        Self(NormalPrecisionMode::from_bits(7))
    }
}

/// The widths of the six codes of a tangent: its handedness and the signs of its x, y and z
/// as one bit each, then its two direction codes with the bits of the precision.
pub open spec fn tangent_widths(precision: u8) -> Seq<u8> {
    seq![1u8, 1u8, 1u8, 1u8, precision, precision]
}

/// Appends a tangent segment: the number of tangents, the precision, then the six codes of
/// each tangent (see [`tangent_widths`]).
pub fn save_tangent_codes(codes: &[u64], prec: TangentPrecisionMode, target: &mut Vec<u8>)
    requires
        codes@.len() % 6 == 0,
        prec.normal().width() <= 64,
    ensures
        final(target)@.len() >= old(target)@.len() + 9,
        final(target)@.subrange(0, old(target)@.len() as int) == old(target)@,
        final(target)@.subrange(old(target)@.len() as int, old(target)@.len() + 9int)
            == spec_u64_to_le_bytes((codes@.len() / 6) as u64) + seq![prec.normal().width()],
        bytes_bits(final(target)@.subrange(old(target)@.len() + 9int, final(target)@.len() as int))
            == padded_bits(cyc_bits(codes@, tangent_widths(prec.normal().width()))),
{
    proof {
        vstd::bytes::lemma_auto_spec_u64_to_from_le_bytes();
    }
    let ghost start = target@;
    let bits_prec = prec.normal_precision().bits();
    write_u64(target, (codes.len() / 6) as u64);
    write_u8(target, bits_prec);
    let ghost header = target@;
    let widths = [1u8, 1u8, 1u8, 1u8, bits_prec, bits_prec];
    let mut writer = UnalignedWriter::new(Vec::new());
    proof {
        assert(writer.bits() =~= Seq::<bool>::empty());
        assert(widths@ =~= tangent_widths(bits_prec));
    }
    write_values(&mut writer, codes, widths.as_slice());
    let uba = writer.finish();
    write_bytes(target, uba.as_slice());
    proof {
        let n = start.len() as int;
        assert(target@.subrange(0, n) =~= start);
        assert(target@.subrange(n, n + 9) =~= header.subrange(n, n + 9));
        assert(target@.subrange(n + 9, target@.len() as int) =~= uba@);
    }
}

/// What reading a tangent segment gives: the precision and the six codes of each tangent,
/// or an error where the stream ends early.
pub open spec fn spec_read_tangent_codes(data: Seq<u8>) -> Result<(u8, Seq<u64>), StreamError> {
    if data.len() < 9 {
        Err(StreamError::UnexpectedEof)
    } else {
        let count = spec_u64_from_le_bytes(data.subrange(0, 8));
        match spec_read_values(bytes_bits(data.skip(9)), 0, tangent_widths(data[8]), 6 * count as nat) {
            Some((codes, _)) => Ok((data[8], codes)),
            None => Err(StreamError::UnexpectedEof),
        }
    }
}

/// Reads a tangent segment: its precision and the six codes of each tangent.
pub fn read_tangent_codes(src: &[u8]) -> (res: Result<(TangentPrecisionMode, Vec<u64>), StreamError>)
    ensures
        match spec_read_tangent_codes(src@) {
            Ok((p, c)) => res matches Ok((mode, codes)) && mode.normal().width() == p && codes@ == c,
            Err(e) => res == Err::<(TangentPrecisionMode, Vec<u64>), StreamError>(e),
        },
{
    let mut reader = ByteReader::new(src);
    let count = reader.read_u64();
    let bits_prec = reader.read_u8();
    let (count, bits_prec) = match (count, bits_prec) {
        (Ok(c), Ok(p)) => (c, p),
        _ => {
            return Err(StreamError::UnexpectedEof);
        },
    };
    let rest = reader.remaining();
    proof {
        assert(rest@ =~= src@.skip(9));
    }
    let ghost s = bytes_bits(src@.skip(9));
    let widths = [1u8, 1u8, 1u8, 1u8, bits_prec, bits_prec];
    proof {
        assert(widths@ =~= tangent_widths(bits_prec));
    }
    let mut bits = UnalignedReader::new(rest);
    let mut codes: Vec<u64> = Vec::new();
    let mut i: u64 = 0;
    while i < count
        invariant
            i <= count,
            widths@ == tangent_widths(bits_prec),
            src@.len() >= 9,
            s == bytes_bits(src@.skip(9)),
            count == spec_u64_from_le_bytes(src@.subrange(0, 8)),
            bits_prec == src@[8],
            bits.stream() == s,
            spec_read_values(s, 0, widths@, 6 * i as nat) == Some((codes@, bits.pos())),
        decreases count - i,
    {
        proof {
            vstd::arithmetic::div_mod::lemma_mod_multiples_basic(i as int, 6);
            crate::packing::lemma_read_values_split(s, 0, widths@, 6 * i as nat, 6);
        }
        match read_values(&mut bits, 6, widths.as_slice()) {
            Ok(more) => {
                codes.append(&mut more.clone());
            },
            Err(e) => {
                proof {
                    crate::packing::lemma_read_values_fails_after(
                        s,
                        0,
                        widths@,
                        (6 * i + 6) as nat,
                        6 * count as nat,
                    );
                }
                return Err(e);
            },
        }
        i = i + 1;
    }
    Ok((TangentPrecisionMode::from_bits(bits_prec), codes))
}

/// Tangent codes that fit their widths read back as written: the precision and the codes.
pub proof fn lemma_tangent_codes_roundtrip(data: Seq<u8>, precision: u8, codes: Seq<u64>)
    requires
        codes.len() % 6 == 0,
        codes.len() / 6 <= u64::MAX,
        crate::packing::codes_fit(codes, tangent_widths(precision)),
        data.len() >= 9,
        data.subrange(0, 9) == spec_u64_to_le_bytes((codes.len() / 6) as u64) + seq![precision],
        bytes_bits(data.skip(9)) == padded_bits(cyc_bits(codes, tangent_widths(precision))),
    ensures
        spec_read_tangent_codes(data) == Ok::<(u8, Seq<u64>), StreamError>((precision, codes)),
{
    vstd::bytes::lemma_auto_spec_u64_to_from_le_bytes();
    assert(data.subrange(0, 8) =~= data.subrange(0, 9).subrange(0, 8));
    assert(data.subrange(0, 9).subrange(0, 8) =~= spec_u64_to_le_bytes((codes.len() / 6) as u64));
    assert(data[8] == data.subrange(0, 9)[8]);
    let st = cyc_bits(codes, tangent_widths(precision));
    let tail = Seq::new(((8 - st.len() % 8) % 8) as nat, |i: int| false);
    assert(bytes_bits(data.skip(9)) =~= Seq::<bool>::empty() + st + tail);
    crate::packing::lemma_values_roundtrip(Seq::empty(), codes, tangent_widths(precision), tail);
    assert(6 * (codes.len() / 6) == codes.len());
}

/// Tangent codes that a precision of `precision` bits can hold: the first four codes of each
/// tangent (handedness and signs) are bits, the last two (its direction) are below
/// `2^precision`.
pub open spec fn tangent_codes_fit(codes: Seq<u64>, precision: u8) -> bool {
    forall|i: int|
        0 <= i < codes.len() ==> if i % 6 < 4 {
            #[trigger] codes[i] < 2
        } else {
            codes[i] < pow2(precision as nat)
        }
}

/// A tangent segment as it is saved (the count of tangents, the precision, then the codes)
/// reads back as the precision and exactly the codes saved, for any precision below 64 bits
/// and any codes it can hold: each direction code keeps all `precision` bits. Each tangent
/// takes `4 + 2 * precision` bits.
pub proof fn lemma_tangent_precision_roundtrip(data: Seq<u8>, precision: u8, codes: Seq<u64>)
    requires
        precision < 64,
        codes.len() % 6 == 0,
        codes.len() / 6 <= u64::MAX,
        tangent_codes_fit(codes, precision),
        data.len() >= 9,
        data.subrange(0, 9) == spec_u64_to_le_bytes((codes.len() / 6) as u64) + seq![precision],
        bytes_bits(data.skip(9)) == padded_bits(cyc_bits(codes, tangent_widths(precision))),
    ensures
        spec_read_tangent_codes(data) == Ok::<(u8, Seq<u64>), StreamError>((precision, codes)),
        cyc_bits(codes, tangent_widths(precision)).len() == (codes.len() / 6) * (4 + 2 * precision),
{
    let w = tangent_widths(precision);
    vstd::arithmetic::power2::lemma2_to64();
    assert forall|k: int| 0 <= k < w.len() implies #[trigger] w[k] < 64 by {}
    assert forall|i: int| 0 <= i < codes.len() implies #[trigger] codes[i] < pow2(
        crate::packing::width_of(w, i),
    ) by {
        let k = i % 6;
        assert(0 <= k < 6);
        if k < 4 {
            assert(w[k] == 1);
        } else {
            assert(w[k] == precision);
        }
    }
    lemma_tangent_codes_roundtrip(data, precision, codes);
    lemma_tangent_bits_len(codes, precision);
}

/// The bits of whole tangents: `4 + 2 * precision` each.
proof fn lemma_tangent_bits_len(codes: Seq<u64>, precision: u8)
    requires
        codes.len() % 6 == 0,
    ensures
        cyc_bits(codes, tangent_widths(precision)).len() == (codes.len() / 6) * (4 + 2 * precision),
    decreases codes.len(),
{
    if codes.len() > 0 {
        let front = codes.take(codes.len() - 6);
        lemma_tangent_bits_len(front, precision);
        lemma_cyc_bits_step(codes, precision, 6);
        let l = codes.len() as int;
        assert(front.len() == l - 6);
        let c = cyc_bits(codes, tangent_widths(precision)).len() as int;
        let cf = cyc_bits(front, tangent_widths(precision)).len() as int;
        let q = (codes.len() / 6) as int;
        let qf = (front.len() / 6) as int;
        let p = precision as int;
        assert(qf == q - 1);
        assert(cf == qf * (4 + 2 * p));
        assert(c == cf + 2 * p + 4);
        assert(c == q * (4 + 2 * p)) by (nonlinear_arith)
            requires
                qf == q - 1,
                cf == qf * (4 + 2 * p),
                c == cf + 2 * p + 4,
        ;
    } else {
        assert(cyc_bits(codes, tangent_widths(precision)).len() == 0);
        assert(codes.len() / 6 == 0);
        assert((codes.len() / 6) * (4 + 2 * precision) == 0) by (nonlinear_arith)
            requires
                codes.len() / 6 == 0,
        ;
    }
}

/// The bits of the first `codes.len() - j` codes, and those the last `j` codes add.
proof fn lemma_cyc_bits_step(codes: Seq<u64>, precision: u8, j: int)
    requires
        0 <= j <= 6,
        j <= codes.len(),
        codes.len() % 6 == 0,
    ensures
        cyc_bits(codes, tangent_widths(precision)).len() == cyc_bits(
            codes.take(codes.len() - j),
            tangent_widths(precision),
        ).len() + (if j <= 2 {
            j * precision
        } else {
            2 * precision + (j - 2)
        }),
    decreases j,
{
    let w = tangent_widths(precision);
    if j > 0 {
        let n = codes.len() - j;
        let before = codes.take(n);
        let after = codes.take(n + 1);
        lemma_cyc_bits_step(codes, precision, j - 1);
        assert(after.drop_last() =~= before);
        assert(codes.take(codes.len() - (j - 1)) =~= after);
        let l = codes.len() as int;
        assert(n % 6 == (6 - j) % 6) by (nonlinear_arith)
            requires
                l % 6 == 0,
                n == l - j,
                1 <= j <= 6,
                n >= 0,
        ;
        let wn = crate::packing::width_of(w, n);
        if j <= 2 {
            assert(wn == precision);
        } else {
            assert(wn == 1);
        }
        crate::bits::lemma_value_bits_len(after.last() as nat, wn);
        assert(cyc_bits(after, w).len() == cyc_bits(before, w).len() + wn);
        let f0: int = if j - 1 <= 2 { (j - 1) * precision } else { 2 * precision + (j - 3) };
        let f1: int = if j <= 2 { j * precision } else { 2 * precision + (j - 2) };
        assert(cyc_bits(codes, w).len() == cyc_bits(after, w).len() + f0);
        assert(f1 == f0 + wn) by (nonlinear_arith)
            requires
                f0 == (if j - 1 <= 2 { (j - 1) * precision } else { 2 * precision + (j - 3) }),
                f1 == (if j <= 2 { j * precision } else { 2 * precision + (j - 2) }),
                j <= 2 ==> wn == precision,
                j > 2 ==> wn == 1,
        ;
    } else {
        assert(codes.take(codes.len() as int) =~= codes);
    }
}

} // verus!
