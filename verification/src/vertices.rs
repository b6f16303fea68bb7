//! Arrays of vertices and of triangle indices: their precision, their segment layout and its
//! reading back. Vertex coordinates are quantized to codes by the caller; here the codes are
//! framed and packed.
use crate::bits::{
    bits_value, bytes_bits, lemma_bits_value_bound, padded_bits, value_bits, values_bits,
};
use crate::read_extension::{lift, write_bytes, write_u64, write_u8, ByteReader};
use crate::unaligned_rw::{spec_read, spec_read2, UnalignedRWMode, UnalignedReader, UnalignedWriter};
use crate::{IndexType, StreamError, TMFImportError, MAX_SEG_SIZE};
use vstd::arithmetic::div_mod::lemma_add_mod_noop;
use vstd::arithmetic::power2::{lemma2_to64, lemma2_to64_rest, lemma_pow2_unfold, pow2};
use vstd::bytes::{spec_u64_from_le_bytes, spec_u64_to_le_bytes};
use vstd::prelude::*;

verus! {

/// Number of bits needed to write `n`: the smallest `p` with `n < 2^p`.
pub open spec fn bit_width(n: nat) -> nat
    decreases n,
{
    if n == 0 {
        0
    } else {
        1 + bit_width(n / 2)
    }
}

pub proof fn lemma_bit_width_bound(n: nat)
    ensures
        n < pow2(bit_width(n)),
    decreases n,
{
    if n == 0 {
        lemma2_to64();
    } else {
        lemma_bit_width_bound(n / 2);
        lemma_pow2_unfold(bit_width(n));
    }
}

pub proof fn lemma_bit_width_le(n: nat, k: nat)
    requires
        n < pow2(k),
    ensures
        bit_width(n) <= k,
    decreases n,
{
    if n > 0 {
        if k == 0 {
            lemma2_to64();
        } else {
            lemma_pow2_unfold(k);
            lemma_bit_width_le(n / 2, (k - 1) as nat);
        }
    }
}

/// The number of bits each index is written with, for indices up to `max`.
pub fn calc_prec(max: usize) -> (prec: u8)
    ensures
        prec == bit_width(max as nat),
{
    proof {
        lemma2_to64();
        lemma2_to64_rest();
        lemma_bit_width_le(max as nat, 64);
    }
    let mut v = max;
    let mut p: u8 = 0;
    while v > 0
        invariant
            bit_width(max as nat) == p + bit_width(v as nat),
            bit_width(max as nat) <= 64,
        decreases v,
    {
        v = v / 2;
        p = p + 1;
    }
    p
}

/// The smallest element of `s`, or 0 for an empty sequence.
pub open spec fn seq_min(s: Seq<u32>) -> u32
    decreases s.len(),
{
    if s.len() == 0 {
        0
    } else if s.len() == 1 {
        s[0]
    } else if s.last() < seq_min(s.drop_last()) {
        s.last()
    } else {
        seq_min(s.drop_last())
    }
}

pub proof fn lemma_seq_min_le(s: Seq<u32>, i: int)
    requires
        0 <= i < s.len(),
    ensures
        seq_min(s) <= s[i],
    decreases s.len(),
{
    if s.len() > 1 && i < s.len() - 1 {
        lemma_seq_min_le(s.drop_last(), i);
    }
}

/// The smallest index, or 0 for none.
pub fn triangles_min(triangles: &[IndexType]) -> (min: IndexType)
    ensures
        min == seq_min(triangles@),
{
    let mut min: u32 = 0;
    let mut i: usize = 0;
    while i < triangles.len()
        invariant
            i <= triangles@.len(),
            min == seq_min(triangles@.subrange(0, i as int)),
        decreases triangles@.len() - i,
    {
        let t = triangles[i];
        proof {
            let next = triangles@.subrange(0, i + 1);
            assert(next.drop_last() =~= triangles@.subrange(0, i as int));
        }
        if i == 0 || t < min {
            min = t;
        }
        i = i + 1;
    }
    assert(triangles@.subrange(0, triangles@.len() as int) =~= triangles@);
    min
}

/// Every index lowered by `min`.
pub open spec fn shifted(triangles: Seq<u32>, min: u32) -> Seq<u64> {
    triangles.map_values(|t: u32| (t - min) as u64)
}

/// The 17 header bytes of a triangle segment: precision, count and smallest index.
pub open spec fn triangle_header(triangles: Seq<u32>, max_index: nat) -> Seq<u8> {
    seq![bit_width(max_index) as u8] + spec_u64_to_le_bytes(triangles.len() as u64)
        + spec_u64_to_le_bytes(seq_min(triangles) as u64)
}

/// `data` is a triangle segment holding `triangles`, written for indices up to `max_index`:
/// the header, then each index minus the smallest one in an unaligned binary array.
pub open spec fn is_triangle_encoding(data: Seq<u8>, triangles: Seq<u32>, max_index: nat) -> bool {
    &&& data.len() >= 17
    &&& data.subrange(0, 17) == triangle_header(triangles, max_index)
    &&& bytes_bits(data.subrange(17, data.len() as int)) == padded_bits(
        values_bits(shifted(triangles, seq_min(triangles)), bit_width(max_index)),
    )
}

/// Appends to `target` the triangle segment of `triangles`, whose indices are at most
/// `max_index`.
pub fn save_triangles(triangles: &[IndexType], max_index: usize, target: &mut Vec<u8>)
    ensures
        final(target)@.len() >= old(target)@.len(),
        final(target)@.subrange(0, old(target)@.len() as int) == old(target)@,
        is_triangle_encoding(
            final(target)@.subrange(old(target)@.len() as int, final(target)@.len() as int),
            triangles@,
            max_index as nat,
        ),
{
    let min = triangles_min(triangles);
    let precision = calc_prec(max_index);
    let ghost start = old(target)@;
    write_u8(target, precision);
    write_u64(target, triangles.len() as u64);
    write_u64(target, min as u64);
    let ghost header = target@;
    let mode = UnalignedRWMode::precision_bits(precision);
    let mut writer = UnalignedWriter::new(Vec::new());
    let ghost values = shifted(triangles@, min);
    proof {
        lemma2_to64();
        lemma2_to64_rest();
        lemma_bit_width_le(max_index as nat, 64);
        assert(writer.bits() =~= values_bits(values.take(0), precision as nat));
    }
    let mut i: usize = 0;
    while i < triangles.len()
        invariant
            i <= triangles@.len(),
            min == seq_min(triangles@),
            values == shifted(triangles@, min),
            precision <= 64,
            mode.width() == precision,
            writer.bits() == values_bits(values.take(i as int), precision as nat),
        decreases triangles@.len() - i,
    {
        proof {
            lemma_seq_min_le(triangles@, i as int);
            assert(values.take(i + 1).drop_last() =~= values.take(i as int));
        }
        writer.write_unaligned(mode, (triangles[i] - min) as u64);
        i = i + 1;
    }
    let uba = writer.finish();
    write_bytes(target, uba.as_slice());
    proof {
        vstd::bytes::lemma_auto_spec_u64_to_from_le_bytes();
        assert(values.take(triangles@.len() as int) =~= values);
        let seg = target@.subrange(start.len() as int, target@.len() as int);
        assert(seg.subrange(0, 17) =~= triangle_header(triangles@, max_index as nat));
        assert(seg.subrange(17, seg.len() as int) =~= uba@);
        assert(target@.subrange(0, start.len() as int) =~= start);
    }
}

/// Bits taken by one read of a pair of indices of `prec` bits, as `read2_unaligned` reads it.
pub open spec fn pair_width(prec: nat) -> nat {
    if prec > 64 {
        0
    } else {
        2 * prec
    }
}

/// Bits taken by one read of a single index of `prec` bits.
pub open spec fn single_width(prec: nat) -> nat {
    if prec > 64 {
        0
    } else {
        prec
    }
}

/// Bits needed to read `len` indices: pairs first, then a last single one if `len` is odd.
pub open spec fn index_bits_needed(prec: nat, len: nat) -> nat {
    (len / 2) * pair_width(prec) + (len % 2) * single_width(prec)
}

/// The raw value read for index `i` of `len` from the bits `s`.
pub open spec fn raw_index(s: Seq<bool>, prec: nat, len: nat, i: nat) -> nat {
    if i < 2 * (len / 2) {
        if pair_width(prec) == 0 {
            0
        } else {
            bits_value(s.subrange((i * prec) as int, (i * prec + prec) as int))
        }
    } else if prec > 64 {
        0
    } else {
        let start = (len / 2) * pair_width(prec);
        bits_value(s.subrange(start as int, (start + prec) as int))
    }
}

/// `v + min` as a 32 bit index (wrapping).
pub open spec fn wrap_index(v: nat, min: nat) -> u32 {
    ((v + min) % 0x1_0000_0000) as u32
}

/// The indices read from the bits `s`.
pub open spec fn decoded_indices(s: Seq<bool>, prec: nat, len: nat, min: nat) -> Seq<u32> {
    Seq::new(len, |i: int| wrap_index(raw_index(s, prec, len, i as nat), min))
}

fn wrap(v: u64, min: u64) -> (r: u32)
    ensures
        r == wrap_index(v as nat, min as nat),
{
    proof {
        lemma_add_mod_noop(v as int, min as int, 0x1_0000_0000);
    }
    (((v % 0x1_0000_0000) + (min % 0x1_0000_0000)) % 0x1_0000_0000) as u32
}

/// One read of a pair of indices at pair `k`: what it gives, or that the bits run out.
proof fn lemma_pair_step(s: Seq<bool>, p: nat, n: nat, k: nat)
    requires
        0 < p,
        k < n / 2,
        k * pair_width(p) <= s.len(),
    ensures
        match spec_read2(s, k * pair_width(p), p, p) {
            Some((a, b, q)) => {
                &&& a == raw_index(s, p, n, 2 * k)
                &&& b == raw_index(s, p, n, 2 * k + 1)
                &&& a < 0x1_0000_0000_0000_0000
                &&& b < 0x1_0000_0000_0000_0000
                &&& q == (k + 1) * pair_width(p)
                &&& q <= s.len()
            },
            None => index_bits_needed(p, n) > s.len(),
        },
{
    let pw = pair_width(p);
    let pos = k * pw;
    assert((k + 1) * pw == pos + pw) by (nonlinear_arith)
        requires
            pos == k * pw,
    ;
    assert((n / 2) * pw >= (k + 1) * pw) by (nonlinear_arith)
        requires
            n / 2 >= k + 1,
    ;
    if p <= 64 {
        assert(pos == (2 * k) * p) by (nonlinear_arith)
            requires
                pos == k * pw,
                pw == 2 * p,
        ;
        assert((2 * k + 1) * p == (2 * k) * p + p) by (nonlinear_arith);
        lemma2_to64();
        lemma2_to64_rest();
        if p < 64 {
            vstd::arithmetic::power2::lemma_pow2_strictly_increases(p, 64);
        }
        if pos + 2 * p <= s.len() {
            lemma_bits_value_bound(s.subrange(pos as int, (pos + p) as int));
            lemma_bits_value_bound(s.subrange((pos + p) as int, (pos + 2 * p) as int));
        }
    }
}

/// The read of the last, unpaired index of an odd count.
proof fn lemma_last_step(s: Seq<bool>, p: nat, n: nat)
    requires
        n % 2 == 1,
        (n / 2) * pair_width(p) <= s.len(),
    ensures
        match spec_read(s, (n / 2) * pair_width(p), p) {
            Some((v, q)) => v == raw_index(s, p, n, (n - 1) as nat) && v
                < 0x1_0000_0000_0000_0000 && index_bits_needed(p, n) <= s.len(),
            None => index_bits_needed(p, n) > s.len(),
        },
{
    let st = (n / 2) * pair_width(p);
    assert(n - 1 == 2 * (n / 2));
    assert(index_bits_needed(p, n) == st + single_width(p));
    assert(!((n - 1) < 2 * (n / 2)));
    if 0 < p <= 64 {
        lemma2_to64();
        lemma2_to64_rest();
        if p < 64 {
            vstd::arithmetic::power2::lemma_pow2_strictly_increases(p, 64);
        }
        if st + p <= s.len() {
            lemma_bits_value_bound(s.subrange(st as int, (st + p) as int));
            assert(raw_index(s, p, n, (n - 1) as nat) == bits_value(
                s.subrange(st as int, (st + p) as int),
            ));
        }
    } else if p == 0 {
        assert(single_width(p) == 0);
        assert(raw_index(s, p, n, (n - 1) as nat) == bits_value(s.subrange(st as int, st as int)));
        assert(s.subrange(st as int, st as int) =~= Seq::<bool>::empty());
    } else {
        assert(single_width(p) == 0);
        assert(raw_index(s, p, n, (n - 1) as nat) == 0);
    }
}

/// Reads `len` indices of `prec` bits from `reader`, adding `min` to each.
fn read_index_values(reader: &mut UnalignedReader, prec: u8, len: usize, min: u64) -> (res: Result<
    Vec<IndexType>,
    TMFImportError,
>)
    requires
        prec != 0 || len < 2,
        old(reader).pos() == 0,
    ensures
        index_bits_needed(prec as nat, len as nat) <= old(reader).stream().len() ==> (res matches Ok(
            v,
        ) && v@ == decoded_indices(old(reader).stream(), prec as nat, len as nat, min as nat)),
        index_bits_needed(prec as nat, len as nat) > old(reader).stream().len() ==> res
            == Err::<Vec<IndexType>, TMFImportError>(TMFImportError::IO(StreamError::UnexpectedEof)),
{
    let ghost s = reader.stream();
    let ghost p = prec as nat;
    let ghost n = len as nat;
    let ghost expected = decoded_indices(s, p, n, min as nat);
    let mode = UnalignedRWMode::precision_bits(prec);
    let mut res: Vec<IndexType> = Vec::new();
    let pairs = len / 2;
    let mut k: usize = 0;
    while k < pairs
        invariant
            n == len,
            p == prec,
            pairs == n / 2,
            k <= pairs,
            prec != 0 || len < 2,
            mode.width() == p,
            reader.stream() == s,
            s == old(reader).stream(),
            reader.pos() == k * pair_width(p),
            k * pair_width(p) <= s.len(),
            res@ == expected.take(2 * k),
            expected == decoded_indices(s, p, n, min as nat),
        decreases pairs - k,
    {
        proof {
            lemma_pair_step(s, p, n, k as nat);
            assert((k + 1) * pair_width(p) == k * pair_width(p) + pair_width(p))
                by (nonlinear_arith);
        }
        let r = reader.read2_unaligned(mode);
        match r {
            Ok((a, b)) => {
                res.push(wrap(a, min));
                res.push(wrap(b, min));
                proof {
                    assert(res@ =~= expected.take(2 * (k + 1)));
                }
            },
            Err(_) => {
                return Err(TMFImportError::IO(StreamError::UnexpectedEof));
            },
        }
        k = k + 1;
    }
    if len % 2 == 1 {
        proof {
            lemma_last_step(s, p, n);
        }
        let ghost pos = reader.pos();
        match reader.read_unaligned(mode) {
            Ok(v) => {
                res.push(wrap(v, min));
            },
            Err(_) => {
                return Err(TMFImportError::IO(StreamError::UnexpectedEof));
            },
        }
    }
    proof {
        assert(res@ =~= expected);
        if len % 2 == 0 {
            assert((n % 2) * single_width(p) == 0) by (nonlinear_arith)
                requires
                    n % 2 == 0,
            ;
            assert(index_bits_needed(p, n) == (n / 2) * pair_width(p));
        }
    }
    Ok(res)
}

/// Header fields of a triangle segment: precision, count, smallest index (zero where the
/// file does not store one) and header length; `None` where `data` is too short.
pub open spec fn spec_triangle_header(data: Seq<u8>, read_min: bool) -> Option<(u8, u64, u64, nat)> {
    if data.len() < 9 {
        None
    } else if !read_min {
        Some((data[0], spec_u64_from_le_bytes(data.subrange(1, 9)), 0, 9))
    } else if data.len() < 17 {
        None
    } else {
        Some(
            (
                data[0],
                spec_u64_from_le_bytes(data.subrange(1, 9)),
                spec_u64_from_le_bytes(data.subrange(9, 17)),
                17,
            ),
        )
    }
}

/// The indices a triangle segment holds. Where `zero_prec_zeros` is set, a precision of zero
/// bits gives that many zeros.
pub open spec fn spec_read_triangle_seg(data: Seq<u8>, read_min: bool, zero_prec_zeros: bool) -> Result<
    Seq<u32>,
    TMFImportError,
> {
    match spec_triangle_header(data, read_min) {
        None => Err(TMFImportError::IO(StreamError::UnexpectedEof)),
        Some((prec, len, min, header_len)) => {
            if len > MAX_SEG_SIZE {
                Err(TMFImportError::SegmentTooLong)
            } else if prec == 0 && zero_prec_zeros {
                Ok(Seq::new(len as nat, |i: int| 0u32))
            } else {
                let s = bytes_bits(data.subrange(header_len as int, data.len() as int));
                if index_bits_needed(prec as nat, len as nat) <= s.len() {
                    Ok(decoded_indices(s, prec as nat, len as nat, min as nat))
                } else {
                    Err(TMFImportError::IO(StreamError::UnexpectedEof))
                }
            }
        },
    }
}

/// A segment whose reading without the zero precision case would read pairs of zero bits.
pub open spec fn reads_zero_width_pairs(data: Seq<u8>, read_min: bool) -> bool {
    match spec_triangle_header(data, read_min) {
        Some((prec, len, _, _)) => prec == 0 && 2 <= len <= MAX_SEG_SIZE,
        None => false,
    }
}

/// Whether a triangle segment holds pairs of zero bit indices (see
/// [`reads_zero_width_pairs`]).
pub fn zero_width_pairs(data: &[u8], read_min: bool) -> (res: bool)
    ensures
        res == reads_zero_width_pairs(data@, read_min),
{
    if data.len() < 9 || (read_min && data.len() < 17) {
        return false;
    }
    let lenb = vstd::slice::slice_subrange(data, 1, 9);
    let len = vstd::bytes::u64_from_le_bytes(lenb);
    proof {
        assert(lenb@ =~= data@.subrange(1, 9));
    }
    data[0] == 0 && 2 <= len && len <= MAX_SEG_SIZE as u64
}

/// Reads a triangle segment from `src`.
pub fn read_triangle_seg(src: &[u8], read_min: bool, zero_prec_zeros: bool) -> (res: Result<
    Vec<IndexType>,
    TMFImportError,
>)
    requires
        zero_prec_zeros || !reads_zero_width_pairs(src@, read_min),
    ensures
        match spec_read_triangle_seg(src@, read_min, zero_prec_zeros) {
            Ok(t) => res matches Ok(v) && v@ == t,
            Err(e) => res == Err::<Vec<IndexType>, TMFImportError>(e),
        },
{
    let mut reader = ByteReader::new(src);
    let precision = lift(reader.read_u8())?;
    let length = lift(reader.read_u64())?;
    let min = if read_min {
        lift(reader.read_u64())?
    } else {
        0
    };
    proof {
        assert(src@.subrange(0, 1)[0] == src@[0]);
    }
    if length > MAX_SEG_SIZE as u64 {
        return Err(TMFImportError::SegmentTooLong);
    }
    let len = length as usize;
    if precision == 0 && zero_prec_zeros {
        let mut zeros: Vec<IndexType> = Vec::new();
        let mut i: usize = 0;
        while i < len
            invariant
                i <= len,
                zeros@ == Seq::new(i as nat, |j: int| 0u32),
            decreases len - i,
        {
            zeros.push(0);
            i = i + 1;
            assert(zeros@ =~= Seq::new(i as nat, |j: int| 0u32));
        }
        return Ok(zeros);
    }
    let rest = reader.remaining();
    let mut bits = UnalignedReader::new(rest);
    read_index_values(&mut bits, precision, len, min)
}

/// Reading a triangle segment gives back the indices it was written with, where those fit
/// the precision it was written with, that precision is below 64 bits, and there are at most
/// `MAX_SEG_SIZE` of them.
/// Both readings agree, the one giving zeros for a zero precision and, where it reads no
/// pair of zero bit indices, the other.
#[verifier::spinoff_prover]
#[verifier::rlimit(40)]
pub proof fn lemma_triangles_roundtrip(data: Seq<u8>, triangles: Seq<u32>, max_index: nat)
    requires
        is_triangle_encoding(data, triangles, max_index),
        forall|i: int| 0 <= i < triangles.len() ==> triangles[i] <= max_index,
        bit_width(max_index) < 64,
        triangles.len() <= MAX_SEG_SIZE,
    ensures
        spec_read_triangle_seg(data, true, true) == Ok::<Seq<u32>, TMFImportError>(triangles),
        !reads_zero_width_pairs(data, true) ==> spec_read_triangle_seg(data, true, false) == Ok::<
            Seq<u32>,
            TMFImportError,
        >(triangles),
{
    vstd::bytes::lemma_auto_spec_u64_to_from_le_bytes();
    let p = bit_width(max_index);
    let n = triangles.len();
    let min = seq_min(triangles);
    let header = triangle_header(triangles, max_index);
    assert(data.subrange(1, 9) =~= header.subrange(1, 9));
    assert(data.subrange(9, 17) =~= header.subrange(9, 17));
    assert(header.subrange(1, 9) =~= spec_u64_to_le_bytes(n as u64));
    assert(header.subrange(9, 17) =~= spec_u64_to_le_bytes(min as u64));
    assert(data[0] == header[0]);
    lemma_bit_width_bound(max_index);
    let values = shifted(triangles, min);
    let vb = values_bits(values, p);
    crate::bits::lemma_values_bits_len(values, p);
    let s = bytes_bits(data.subrange(17, data.len() as int));
    assert(s == padded_bits(vb));
    if p == 0 {
        assert forall|i: int| 0 <= i < n implies triangles[i] == 0u32 by {}
        assert(Seq::new(n as nat, |i: int| 0u32) =~= triangles);
        if n == 0 {
            assert(decoded_indices(s, 0, 0, min as nat) =~= triangles);
        }
        if n == 1 {
            assert(min == triangles[0]);
            assert(s.subrange(0, 0) =~= Seq::<bool>::empty());
            assert(decoded_indices(s, 0, 1, min as nat) =~= triangles);
        }
    } else {
        assert(index_bits_needed(p, n) == n * p) by (nonlinear_arith)
            requires
                index_bits_needed(p, n) == (n / 2) * (2 * p) + (n % 2) * p,
        ;
        assert forall|i: int| 0 <= i < n implies #[trigger] decoded_indices(
            s,
            p,
            n,
            min as nat,
        )[i] == triangles[i] by {
            lemma_seq_min_le(triangles, i);
            crate::bits::lemma_values_bits_window(values, p, i);
            assert(i * p + p <= n * p) by (nonlinear_arith)
                requires
                    i < n,
            ;
            if i >= 2 * (n / 2) {
                assert((n / 2) * (2 * p) == i * p) by (nonlinear_arith)
                    requires
                        i == n - 1,
                        n % 2 == 1,
            ;
            }
            assert(s.subrange(i * p, i * p + p) =~= vb.subrange(i * p, i * p + p));
            crate::bits::lemma_value_bits_value(values[i] as nat, p);
            assert(values[i] == triangles[i] - min);
            assert(values[i] < pow2(p));
            vstd::arithmetic::div_mod::lemma_small_mod(values[i] as nat, pow2(p));
            assert(raw_index(s, p, n, i as nat) == bits_value(s.subrange(i * p, i * p + p)));
            assert(raw_index(s, p, n, i as nat) == values[i]);
        }
        assert(decoded_indices(s, p, n, min as nat) =~= triangles);
    }
}

/// Bytes before the codes of a vertex segment: the count, six bounds and three precisions.
pub const VERTEX_HEADER_LEN: usize = 59;

/// The header of a vertex segment: the number of vertices, the bounds (the bits of six
/// `f64`: smallest and largest x, y and z) and the precision of each coordinate.
pub open spec fn vertex_header(count: nat, bounds: Seq<u64>, precisions: Seq<u8>) -> Seq<u8> {
    spec_u64_to_le_bytes(count as u64) + spec_u64_to_le_bytes(bounds[0]) + spec_u64_to_le_bytes(
        bounds[1],
    ) + spec_u64_to_le_bytes(bounds[2]) + spec_u64_to_le_bytes(bounds[3]) + spec_u64_to_le_bytes(
        bounds[4],
    ) + spec_u64_to_le_bytes(bounds[5]) + precisions
}

/// The parts of a vertex segment: the bounds (the bits of six `f64`), the precision of each
/// coordinate and the codes, three per vertex.
#[derive(Debug)]
pub struct VertexCodes {
    pub bounds: [u64; 6],
    pub precisions: [u8; 3],
    pub codes: Vec<u64>,
}

/// Appends a vertex segment: the header, then the codes, three per vertex, each written
/// with the precision of its coordinate.
pub fn save_vertex_codes(bounds: [u64; 6], precisions: [u8; 3], codes: &[u64], target: &mut Vec<u8>)
    requires
        codes@.len() % 3 == 0,
        forall|k: int| 0 <= k < 3 ==> #[trigger] precisions@[k] <= 64,
    ensures
        final(target)@.len() >= old(target)@.len() + VERTEX_HEADER_LEN,
        final(target)@.subrange(0, old(target)@.len() as int) == old(target)@,
        final(target)@.subrange(old(target)@.len() as int, old(target)@.len() + VERTEX_HEADER_LEN)
            == vertex_header(codes@.len() / 3, bounds@, precisions@),
        bytes_bits(
            final(target)@.subrange(
                old(target)@.len() + VERTEX_HEADER_LEN,
                final(target)@.len() as int,
            ),
        ) == padded_bits(crate::packing::cyc_bits(codes@, precisions@)),
{
    let ghost start = target@;
    proof {
        vstd::bytes::lemma_auto_spec_u64_to_from_le_bytes();
    }
    write_u64(target, (codes.len() / 3) as u64);
    let mut k: usize = 0;
    while k < 6
        invariant
            k <= 6,
            target@.len() == start.len() + 8 + 8 * k,
            target@.subrange(0, start.len() as int) == start,
            target@.subrange(start.len() as int, start.len() + 8int) == spec_u64_to_le_bytes(
                (codes@.len() / 3) as u64,
            ),
            forall|j: int|
                0 <= j < k ==> #[trigger] target@.subrange(start.len() + 8 + 8 * j, start.len() + 16 + 8 * j)
                    == spec_u64_to_le_bytes(bounds@[j]),
        decreases 6 - k,
    {
        let ghost before = target@;
        write_u64(target, bounds[k]);
        proof {
            vstd::bytes::lemma_auto_spec_u64_to_from_le_bytes();
            assert(target@.subrange(0, before.len() as int) =~= before);
            assert forall|j: int| 0 <= j < k + 1 implies #[trigger] target@.subrange(
                start.len() + 8 + 8 * j,
                start.len() + 16 + 8 * j,
            ) == spec_u64_to_le_bytes(bounds@[j]) by {
                if j < k {
                    assert(target@.subrange(start.len() + 8 + 8 * j, start.len() + 16 + 8 * j)
                        =~= before.subrange(start.len() + 8 + 8 * j, start.len() + 16 + 8 * j));
                } else {
                    assert(target@.subrange(start.len() + 8 + 8 * j, start.len() + 16 + 8 * j)
                        =~= spec_u64_to_le_bytes(bounds@[j]));
                }
            }
            assert(target@.subrange(0, start.len() as int) =~= start);
            assert(target@.subrange(start.len() as int, start.len() + 8int) =~= before.subrange(
                start.len() as int,
                start.len() + 8int,
            ));
        }
        k = k + 1;
    }
    let ghost mid = target@;
    write_u8(target, precisions[0]);
    write_u8(target, precisions[1]);
    write_u8(target, precisions[2]);
    let ghost header = target@;
    let mut writer = UnalignedWriter::new(Vec::new());
    proof {
        assert(writer.bits() =~= Seq::<bool>::empty());
    }
    crate::packing::write_values(&mut writer, codes, precisions.as_slice());
    proof {
        assert(writer.bits() =~= crate::packing::cyc_bits(codes@, precisions@));
    }
    let uba = writer.finish();
    write_bytes(target, uba.as_slice());
    proof {
        let n = start.len() as int;
        assert(target@.subrange(0, n) =~= start);
        assert(target@.subrange(n + 59, target@.len() as int) =~= uba@);
        assert forall|j: int| 0 <= j < 6 implies #[trigger] target@.subrange(n + 8 + 8 * j, n + 16 + 8 * j)
            == spec_u64_to_le_bytes(bounds@[j]) by {
            assert(target@.subrange(n + 8 + 8 * j, n + 16 + 8 * j) =~= mid.subrange(
                n + 8 + 8 * j,
                n + 16 + 8 * j,
            ));
            assert(mid.subrange(start.len() + 8 + 8 * j, start.len() + 16 + 8 * j)
                == spec_u64_to_le_bytes(bounds@[j]));
        }
        assert(target@.subrange(n, n + 8) =~= mid.subrange(n, n + 8));
        let h = target@.subrange(n, n + 59);
        let hv = vertex_header(codes@.len() / 3, bounds@, precisions@);
        assert forall|i: int| 0 <= i < 59 implies h[i] == hv[i] by {
            if i < 8 {
                assert(h[i] == target@.subrange(n, n + 8)[i]);
            } else if i < 56 {
                let j = (i - 8) / 8;
                assert(h[i] == target@.subrange(n + 8 + 8 * j, n + 16 + 8 * j)[i - 8 - 8 * j]);
            }
        }
        assert(h =~= hv);
    }
}

/// What reading a vertex segment gives: the bounds, the precisions and the codes, or the
/// first error: a stream that ends early, a precision of 64 bits or more, or more than
/// `MAX_SEG_SIZE` vertices.
pub open spec fn spec_read_vertex_codes(data: Seq<u8>) -> Result<
    (Seq<u64>, Seq<u8>, Seq<u64>),
    TMFImportError,
> {
    let eof = TMFImportError::IO(StreamError::UnexpectedEof);
    if data.len() < 57 {
        Err(eof)
    } else if data[56] >= 64 {
        Err(TMFImportError::InvalidPrecision(data[56]))
    } else if data.len() < 58 {
        Err(eof)
    } else if data[57] >= 64 {
        Err(TMFImportError::InvalidPrecision(data[57]))
    } else if data.len() < 59 {
        Err(eof)
    } else if data[58] >= 64 {
        Err(TMFImportError::InvalidPrecision(data[58]))
    } else {
        let count = spec_u64_from_le_bytes(data.subrange(0, 8));
        let bounds = Seq::new(6, |k: int| spec_u64_from_le_bytes(data.subrange(8 + 8 * k, 16 + 8 * k)));
        let precisions = data.subrange(56, 59);
        if count > MAX_SEG_SIZE {
            Err(TMFImportError::SegmentTooLong)
        } else {
            match crate::packing::spec_read_values(
                bytes_bits(data.skip(59)),
                0,
                precisions,
                3 * count as nat,
            ) {
                Some((codes, _)) => Ok((bounds, precisions, codes)),
                None => Err(eof),
            }
        }
    }
}

/// Reads a vertex segment: the bounds, the precisions and the codes, three per vertex.
pub fn read_vertex_codes(src: &[u8]) -> (res: Result<VertexCodes, TMFImportError>)
    ensures
        match spec_read_vertex_codes(src@) {
            Ok((b, p, c)) => res matches Ok(v) && v.bounds@ == b && v.precisions@ == p && v.codes@
                == c,
            Err(e) => res matches Err(e2) && e2 == e,
        },
{
    let mut reader = ByteReader::new(src);
    let count = lift(reader.read_u64());
    let b0 = lift(reader.read_u64());
    let b1 = lift(reader.read_u64());
    let b2 = lift(reader.read_u64());
    let b3 = lift(reader.read_u64());
    let b4 = lift(reader.read_u64());
    let b5 = lift(reader.read_u64());
    if src.len() < 56 {
        return Err(TMFImportError::IO(StreamError::UnexpectedEof));
    }
    let (count, b0, b1, b2, b3, b4, b5) = match (count, b0, b1, b2, b3, b4, b5) {
        (Ok(c), Ok(b0), Ok(b1), Ok(b2), Ok(b3), Ok(b4), Ok(b5)) => (c, b0, b1, b2, b3, b4, b5),
        _ => {
            return Err(TMFImportError::IO(StreamError::UnexpectedEof));
        },
    };
    let prec_x = lift(reader.read_u8())?;
    if prec_x >= 64 {
        return Err(TMFImportError::InvalidPrecision(prec_x));
    }
    let prec_y = lift(reader.read_u8())?;
    if prec_y >= 64 {
        return Err(TMFImportError::InvalidPrecision(prec_y));
    }
    let prec_z = lift(reader.read_u8())?;
    if prec_z >= 64 {
        return Err(TMFImportError::InvalidPrecision(prec_z));
    }
    if count > MAX_SEG_SIZE as u64 {
        return Err(TMFImportError::SegmentTooLong);
    }
    let precisions = [prec_x, prec_y, prec_z];
    let bounds = [b0, b1, b2, b3, b4, b5];
    let rest = reader.remaining();
    proof {
        assert(rest@ =~= src@.skip(59));
        assert(precisions@ =~= src@.subrange(56, 59));
        assert(bounds@ =~= Seq::new(6, |k: int| spec_u64_from_le_bytes(src@.subrange(8 + 8 * k, 16 + 8 * k))));
    }
    let mut bits = UnalignedReader::new(rest);
    let codes = match crate::packing::read_values(&mut bits, 3 * count, precisions.as_slice()) {
        Ok(codes) => codes,
        Err(e) => {
            return Err(TMFImportError::IO(e));
        },
    };
    Ok(VertexCodes { bounds, precisions, codes })
}

/// Reading a vertex segment gives back the bounds, precisions and codes it was saved with,
/// where the precisions are below 64 bits, every code fits its precision, and there are at
/// most `MAX_SEG_SIZE` vertices.
pub proof fn lemma_vertex_codes_roundtrip(data: Seq<u8>, bounds: Seq<u64>, precisions: Seq<u8>, codes: Seq<u64>)
    requires
        bounds.len() == 6,
        precisions.len() == 3,
        codes.len() % 3 == 0,
        codes.len() / 3 <= MAX_SEG_SIZE,
        crate::packing::codes_fit(codes, precisions),
        data.len() >= VERTEX_HEADER_LEN,
        data.subrange(0, VERTEX_HEADER_LEN as int) == vertex_header(codes.len() / 3, bounds, precisions),
        bytes_bits(data.skip(VERTEX_HEADER_LEN as int)) == padded_bits(
            crate::packing::cyc_bits(codes, precisions),
        ),
    ensures
        spec_read_vertex_codes(data) == Ok::<(Seq<u64>, Seq<u8>, Seq<u64>), TMFImportError>(
            (bounds, precisions, codes),
        ),
{
    vstd::bytes::lemma_auto_spec_u64_to_from_le_bytes();
    let h = vertex_header(codes.len() / 3, bounds, precisions);
    let n = (codes.len() / 3) as u64;
    assert(data.subrange(0, 8) =~= h.subrange(0, 8));
    assert(h.subrange(0, 8) =~= spec_u64_to_le_bytes(n));
    assert forall|k: int| 0 <= k < 6 implies spec_u64_from_le_bytes(data.subrange(8 + 8 * k, 16 + 8 * k))
        == bounds[k] by {
        assert(data.subrange(8 + 8 * k, 16 + 8 * k) =~= h.subrange(8 + 8 * k, 16 + 8 * k));
        assert(h.subrange(8 + 8 * k, 16 + 8 * k) =~= spec_u64_to_le_bytes(bounds[k]));
    }
    let read_bounds = Seq::new(6, |k: int| spec_u64_from_le_bytes(data.subrange(8 + 8 * k, 16 + 8 * k)));
    assert(read_bounds =~= bounds);
    assert(data.subrange(56, 59) =~= precisions) by {
        assert forall|i: int| 0 <= i < 3 implies data.subrange(56, 59)[i] == precisions[i] by {
            assert(data[56 + i] == h[56 + i]);
        }
    }
    assert(data[56] == precisions[0] && data[57] == precisions[1] && data[58] == precisions[2]);
    let st = crate::packing::cyc_bits(codes, precisions);
    let tail = Seq::new(((8 - st.len() % 8) % 8) as nat, |i: int| false);
    assert(bytes_bits(data.skip(59)) =~= Seq::<bool>::empty() + st + tail);
    crate::packing::lemma_values_roundtrip(Seq::empty(), codes, precisions, tail);
    assert(3 * (codes.len() / 3) == codes.len());
}

} // verus!
