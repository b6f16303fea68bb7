//! An LZ77 style compression of arrays of values, written to an unaligned binary array:
//! each value is either written raw, or a run of values is written as a reference to an
//! equal run that came before it.
use crate::bits::{bits_value, bytes_bits, padded_bits, value_bits};
use crate::read_extension::{write_bytes, write_u64, write_u8};
use crate::unaligned_rw::{spec_read, UnalignedRWMode, UnalignedReader, UnalignedWriter};
use crate::vertices::{bit_width, calc_prec, seq_min, triangles_min};
use crate::{IndexType, StreamError};
use vstd::arithmetic::power2::pow2;
use vstd::bytes::spec_u64_to_le_bytes;
use vstd::prelude::*;

verus! {

/// How far back a match is looked for when compressing.
pub const SCROLLBACK_LIMIT: usize = 127;

/// The size of a sliding window of `prec` bits: `2^prec`.
pub fn calc_sw_size(prec: u8) -> (size: usize)
    requires
        prec < usize::BITS,
    ensures
        size == pow2(prec as nat),
{
    proof {
        vstd::bits::lemma_usize_pow2_no_overflow(prec as nat);
        vstd::bits::lemma_usize_shl_is_mul(1, prec as usize);
    }
    1usize << prec
}

/// The length of the run of equal values at `offset` and at `pos`, where the run at `offset`
/// starts before `pos` and the one at `pos` stays inside `data`.
pub open spec fn spec_match_len(data: Seq<u64>, offset: nat, pos: nat) -> nat
    decreases data.len() - pos,
{
    if offset < pos && pos < data.len() && data[offset as int] == data[pos as int] {
        1 + spec_match_len(data, offset + 1, pos + 1)
    } else {
        0
    }
}

/// Where the search for a match of the values at `pos` begins.
pub open spec fn window_start(pos: nat, limit: nat) -> nat {
    if pos < limit {
        0
    } else {
        (pos - limit) as nat
    }
}

/// The best match of the values at `pos` among the `k` offsets from `start` on: its distance
/// back from `pos` and its length, (0, 0) for none. Of equally long matches the first found,
/// which lies furthest back, is kept.
pub open spec fn spec_longest_match(data: Seq<u64>, pos: nat, start: nat, k: nat) -> (nat, nat)
    decreases k,
{
    if k == 0 {
        (0, 0)
    } else {
        let (best_offset, best_len) = spec_longest_match(data, pos, start, (k - 1) as nat);
        let offset = (start + k - 1) as nat;
        let len = spec_match_len(data, offset, pos);
        if len > best_len {
            ((pos - offset) as nat, len)
        } else {
            (best_offset, best_len)
        }
    }
}

/// The match that compression picks for the values at `pos`.
pub open spec fn chosen_match(data: Seq<u64>, pos: nat) -> (nat, nat) {
    let start = window_start(pos, SCROLLBACK_LIMIT as nat);
    spec_longest_match(data, pos, start, (pos - start) as nat)
}

/// A match is written only where it is at least two values long.
pub open spec fn is_raw(m: (nat, nat)) -> bool {
    m.0 == 0 || m.1 < 2
}

/// Values at the ends of a run of equal values are equal, and the run stays inside `data`.
pub proof fn lemma_match_len(data: Seq<u64>, offset: nat, pos: nat)
    ensures
        pos + spec_match_len(data, offset, pos) <= data.len() || spec_match_len(data, offset, pos)
            == 0,
        offset < pos ==> forall|j: int|
            pos <= j < pos + spec_match_len(data, offset, pos) ==> #[trigger] data[j] == data[j - (
            pos - offset)],
    decreases data.len() - pos,
{
    if offset < pos && pos < data.len() && data[offset as int] == data[pos as int] {
        lemma_match_len(data, offset + 1, pos + 1);
    }
}

/// The best match is either none, or a match at an offset searched.
pub proof fn lemma_longest_match(data: Seq<u64>, pos: nat, start: nat, k: nat)
    requires
        start + k <= pos,
    ensures
        ({
            let (offset, len) = spec_longest_match(data, pos, start, k);
            ||| offset == 0 && len == 0
            ||| start + offset >= pos - k + 1 && 1 <= offset <= pos - start && len
                == spec_match_len(data, (pos - offset) as nat, pos) && len > 0
        }),
    decreases k,
{
    if k > 0 {
        lemma_longest_match(data, pos, start, (k - 1) as nat);
    }
}

/// The bits compression writes for the values from `pos` on, each written with `w` bits: a
/// set bit and the value, or a clear bit, the length of a match and its distance back.
pub open spec fn lz_stream(data: Seq<u64>, pos: nat, w: nat) -> Seq<bool>
    decreases data.len() - pos,
{
    if pos >= data.len() {
        Seq::empty()
    } else {
        let m = chosen_match(data, pos);
        if is_raw(m) {
            seq![true] + value_bits(data[pos as int] as nat, w) + lz_stream(data, pos + 1, w)
        } else {
            proof {
                let start = window_start(pos, SCROLLBACK_LIMIT as nat);
                lemma_longest_match(data, pos, start, (pos - start) as nat);
                lemma_match_len(data, (pos - m.0) as nat, pos);
            }
            seq![false] + value_bits(m.1, w) + value_bits(m.0, w) + lz_stream(data, pos + m.1, w)
        }
    }
}

/// The length of the run of equal values at `offset` and at `end`.
pub fn match_len(data: &[u64], offset: usize, end: usize) -> (len: usize)
    ensures
        len == spec_match_len(data@, offset as nat, end as nat),
{
    let mut offset = offset;
    let mut pos = end;
    let mut len: usize = 0;
    let ghost o0 = offset as nat;
    let ghost e0 = end as nat;
    while offset < pos && pos < data.len() && data[offset] == data[pos]
        invariant
            offset == o0 + len,
            pos == e0 + len,
            spec_match_len(data@, o0, e0) == len + spec_match_len(data@, offset as nat, pos as nat),
        decreases data@.len() - pos,
    {
        offset = offset + 1;
        pos = pos + 1;
        len = len + 1;
    }
    len
}

/// The longest match for the values at `pos` that starts at most `scrollback_limit` values
/// before it: its distance back and its length, (0, 0) for none.
pub fn find_longest_match(data: &[u64], pos: usize, scrollback_limit: usize) -> (res: (
    usize,
    usize,
))
    ensures
        ({
            let start = window_start(pos as nat, scrollback_limit as nat);
            (res.0 as nat, res.1 as nat) == spec_longest_match(
                data@,
                pos as nat,
                start,
                (pos - start) as nat,
            )
        }),
{
    let mut best_offset: usize = 0;
    let mut best_len: usize = 0;
    let start: usize = if pos < scrollback_limit {
        0
    } else {
        pos - scrollback_limit
    };
    let mut offset: usize = start;
    while offset < pos
        invariant
            start <= offset <= pos,
            start == window_start(pos as nat, scrollback_limit as nat),
            (best_offset as nat, best_len as nat) == spec_longest_match(
                data@,
                pos as nat,
                start as nat,
                (offset - start) as nat,
            ),
        decreases pos - offset,
    {
        let len = match_len(data, offset, pos);
        if len > best_len {
            best_offset = pos - offset;
            best_len = len;
        }
        offset = offset + 1;
    }
    (best_offset, best_len)
}

/// Appends to `target` the compressed form of `data`, each value, match length and match
/// distance written with `prec` bits (the lowest bits, where a number is wider).
pub fn save_compressed_array(data: &[u64], prec: UnalignedRWMode, target: &mut Vec<u8>)
    requires
        prec.width() <= 64,
    ensures
        final(target)@.len() >= old(target)@.len(),
        final(target)@.subrange(0, old(target)@.len() as int) == old(target)@,
        bytes_bits(final(target)@.subrange(old(target)@.len() as int, final(target)@.len() as int))
            == padded_bits(lz_stream(data@, 0, prec.width())),
{
    let ghost w = prec.width();
    let ghost all = lz_stream(data@, 0, w);
    let mut writer = UnalignedWriter::new(Vec::new());
    let mut pos: usize = 0;
    proof {
        assert(writer.bits() + all =~= all);
    }
    while pos < data.len()
        invariant
            pos <= data@.len(),
            w == prec.width(),
            w <= 64,
            all == lz_stream(data@, 0, w),
            writer.bits() + lz_stream(data@, pos as nat, w) == all,
        decreases data@.len() - pos,
    {
        let ghost before = writer.bits();
        let (offset, len) = find_longest_match(data, pos, SCROLLBACK_LIMIT);
        let write_raw = offset == 0 || len < 2;
        writer.write_bit(write_raw);
        if write_raw {
            writer.write_unaligned(prec, data[pos]);
            proof {
                assert(writer.bits() + lz_stream(data@, (pos + 1) as nat, w) =~= before
                    + lz_stream(data@, pos as nat, w));
            }
            pos = pos + 1;
        } else {
            proof {
                let start = window_start(pos as nat, SCROLLBACK_LIMIT as nat);
                lemma_longest_match(data@, pos as nat, start, (pos - start) as nat);
                lemma_match_len(data@, (pos - offset) as nat, pos as nat);
            }
            writer.write_unaligned(prec, len as u64);
            writer.write_unaligned(prec, offset as u64);
            proof {
                assert(writer.bits() + lz_stream(data@, (pos + len) as nat, w) =~= before
                    + lz_stream(data@, pos as nat, w));
            }
            pos = pos + len;
        }
    }
    proof {
        assert(writer.bits() =~= all);
    }
    let uba = writer.finish();
    let ghost start = target@;
    write_bytes(target, uba.as_slice());
    proof {
        assert(target@.subrange(0, start.len() as int) =~= start);
        assert(target@.subrange(start.len() as int, target@.len() as int) =~= uba@);
    }
}

/// `out` followed by `n` values copied one at a time from `start` on, each copy able to
/// repeat values that the copy itself appended.
pub open spec fn lz_copy(out: Seq<u64>, start: nat, n: nat) -> Seq<u64>
    decreases n,
{
    if n == 0 {
        out
    } else {
        lz_copy(out.push(out[start as int]), start + 1, (n - 1) as nat)
    }
}

/// What decompression gives from the bit at `pos` on, with `out` decoded so far, until at
/// least `length` values are decoded: `Some(Ok(values))`, `Some(Err(..))` where the stream
/// ends early or a length does not fit in `usize`, and `None` where a match would reach
/// before the first value or past the end of the address space, which panics.
pub open spec fn lz_decode(s: Seq<bool>, pos: nat, out: Seq<u64>, length: nat, w: nat) -> Option<
    Result<Seq<u64>, StreamError>,
>
    decreases s.len() - pos,
{
    if out.len() >= length {
        Some(Ok(out))
    } else if pos >= s.len() {
        Some(Err(StreamError::UnexpectedEof))
    } else {
        match spec_read(s, pos + 1, w) {
            None => Some(Err(StreamError::UnexpectedEof)),
            Some((v, p1)) => if s[pos as int] {
                lz_decode(s, p1, out.push(v as u64), length, w)
            } else {
                match spec_read(s, p1, w) {
                    None => Some(Err(StreamError::UnexpectedEof)),
                    Some((offset, p2)) => if v > usize::MAX {
                        Some(Err(StreamError::LengthOverflow))
                    } else if offset > out.len() || (v > 0 && offset == 0) || out.len() - offset + v
                        > usize::MAX {
                        None
                    } else {
                        lz_decode(s, p2, lz_copy(out, (out.len() - offset) as nat, v), length, w)
                    }
                }
            }
        }
    }
}

/// Appends `len` values to `output`, copied one at a time from `start` on.
fn copy_run(output: &mut Vec<u64>, start: usize, len: usize)
    requires
        len > 0 ==> start < old(output)@.len(),
        start + len <= usize::MAX,
    ensures
        final(output)@ == lz_copy(old(output)@, start as nat, len as nat),
{
    let ghost out0 = output@;
    let end = start + len;
    let mut i = start;
    while i < end
        invariant
            start <= i <= end,
            end == start + len,
            len > 0 ==> start < out0.len(),
            output@.len() == out0.len() + (i - start),
            lz_copy(output@, i as nat, (end - i) as nat) == lz_copy(out0, start as nat, len as nat),
        decreases end - i,
    {
        let current = output[i];
        output.push(current);
        i = i + 1;
    }
}

/// Decompresses `length` values, each stored with `prec` bits, from the start of `src`.
/// Where a last match runs past `length`, the values it copies are all kept.
pub fn read_compressed_array(prec: UnalignedRWMode, length: usize, src: &[u8]) -> (res: Result<
    Vec<u64>,
    StreamError,
>)
    requires
        lz_decode(bytes_bits(src@), 0, Seq::empty(), length as nat, prec.width()) is Some,
    ensures
        lz_decode(bytes_bits(src@), 0, Seq::empty(), length as nat, prec.width()) == Some(
            match res {
                Ok(v) => Ok(v@),
                Err(e) => Err::<Seq<u64>, StreamError>(e),
            },
        ),
{
    let ghost s = bytes_bits(src@);
    let ghost w = prec.width();
    let ghost goal = lz_decode(s, 0, Seq::empty(), length as nat, w);
    let mut output: Vec<u64> = Vec::new();
    let mut reader = UnalignedReader::new(src);
    while output.len() < length
        invariant
            s == bytes_bits(src@),
            reader.stream() == s,
            w == prec.width(),
            goal == lz_decode(s, 0, Seq::empty(), length as nat, w),
            goal is Some,
            goal == lz_decode(s, reader.pos(), output@, length as nat, w),
        decreases s.len() - reader.pos(),
    {
        let ghost pos0 = reader.pos();
        let ghost out0 = output@;
        let is_raw = match reader.read_bit() {
            Ok(b) => b,
            Err(e) => {
                return Err(e);
            },
        };
        let ghost p1 = reader.pos();
        let data_or_len = match reader.read_unaligned(prec) {
            Ok(v) => v,
            Err(e) => {
                return Err(e);
            },
        };
        let ghost p2 = reader.pos();
        proof {
            assert(pos0 < s.len() && p1 == pos0 + 1 && s[pos0 as int] == is_raw);
            assert(spec_read(s, p1, w) == Some((data_or_len as nat, p2)));
        }
        if is_raw {
            output.push(data_or_len);
        } else {
            let offset = match reader.read_unaligned(prec) {
                Ok(v) => v,
                Err(e) => {
                    return Err(e);
                },
            };
            if data_or_len > usize::MAX as u64 {
                return Err(StreamError::LengthOverflow);
            }
            let len = data_or_len as usize;
            proof {
                assert(spec_read(s, p2, w) == Some((offset as nat, reader.pos())));
                assert(offset <= out0.len());
            }
            let start = output.len() - offset as usize;
            copy_run(&mut output, start, len);
        }
    }
    Ok(output)
}

/// `lz_copy` appends exactly `n` values.
proof fn lemma_lz_copy_len(out: Seq<u64>, start: nat, n: nat)
    ensures
        lz_copy(out, start, n).len() == out.len() + n,
    decreases n,
{
    if n > 0 {
        lemma_lz_copy_len(out.push(out[start as int]), start + 1, (n - 1) as nat);
    }
}

/// Whether [`read_compressed_array`] can read `length` values of `prec` bits from `src`:
/// false exactly where a match would reach before the first value or past the end of the
/// address space. Only the number of values decoded so far decides that, so no value is kept.
pub fn compressed_readable(prec: UnalignedRWMode, length: usize, src: &[u8]) -> (res: bool)
    ensures
        res == (lz_decode(bytes_bits(src@), 0, Seq::empty(), length as nat, prec.width()) is Some),
{
    let ghost s = bytes_bits(src@);
    let ghost w = prec.width();
    let ghost goal = lz_decode(s, 0, Seq::empty(), length as nat, w);
    let ghost mut out: Seq<u64> = Seq::empty();
    let mut count: u128 = 0;
    let mut reader = UnalignedReader::new(src);
    while count < length as u128
        invariant
            s == bytes_bits(src@),
            reader.stream() == s,
            w == prec.width(),
            goal == lz_decode(s, 0, Seq::empty(), length as nat, w),
            goal == lz_decode(s, reader.pos(), out, length as nat, w),
            count == out.len(),
            out.len() <= 2 * (usize::MAX as int),
        decreases s.len() - reader.pos(),
    {
        let ghost pos0 = reader.pos();
        let is_raw = match reader.read_bit() {
            Ok(b) => b,
            Err(_) => {
                return true;
            },
        };
        let ghost p1 = reader.pos();
        let data_or_len = match reader.read_unaligned(prec) {
            Ok(v) => v,
            Err(_) => {
                return true;
            },
        };
        let ghost p2 = reader.pos();
        proof {
            assert(pos0 < s.len() && p1 == pos0 + 1 && s[pos0 as int] == is_raw);
            assert(spec_read(s, p1, w) == Some((data_or_len as nat, p2)));
        }
        if is_raw {
            proof {
                out = out.push(data_or_len);
            }
            count = count + 1;
        } else {
            let offset = match reader.read_unaligned(prec) {
                Ok(v) => v,
                Err(_) => {
                    return true;
                },
            };
            proof {
                assert(spec_read(s, p2, w) == Some((offset as nat, reader.pos())));
            }
            if data_or_len > usize::MAX as u64 {
                return true;
            }
            if offset as u128 > count || (data_or_len > 0 && offset == 0) || count - offset as u128
                + data_or_len as u128 > usize::MAX as u128 {
                return false;
            }
            proof {
                lemma_lz_copy_len(out, (out.len() - offset) as nat, data_or_len as nat);
                out = lz_copy(out, (out.len() - offset) as nat, data_or_len as nat);
            }
            count = count + data_or_len as u128;
        }
    }
    true
}

/// A value written with `w` bits reads back from the same place.
proof fn lemma_read_written(a: Seq<bool>, v: nat, w: nat, b: Seq<bool>)
    requires
        0 < w < 64,
        v < pow2(w),
    ensures
        spec_read(a + value_bits(v, w) + b, a.len(), w) == Some((v, a.len() + w)),
{
    crate::bits::lemma_value_bits_len(v, w);
    crate::bits::lemma_value_bits_value(v, w);
    vstd::arithmetic::div_mod::lemma_small_mod(v, pow2(w));
    let s = a + value_bits(v, w) + b;
    assert(s.subrange(a.len() as int, a.len() + w as int) =~= value_bits(v, w));
}

/// Copying a run that repeats the values `d` positions before it rebuilds the run.
proof fn lemma_copy_repeats(data: Seq<u64>, q: nat, d: nat, m: nat)
    requires
        1 <= d <= q,
        q + m <= data.len(),
        forall|j: int| q <= j < q + m ==> #[trigger] data[j] == data[j - d],
    ensures
        lz_copy(data.take(q as int), (q - d) as nat, m) == data.take((q + m) as int),
    decreases m,
{
    if m == 0 {
        assert(data.take((q + m) as int) =~= data.take(q as int));
    } else {
        let t = data.take(q as int);
        assert(data[q as int] == data[q - d]);
        assert(t.push(t[q - d]) =~= data.take(q + 1int));
        lemma_copy_repeats(data, q + 1, d, (m - 1) as nat);
        assert((q + 1 - d) as nat == (q - d) as nat + 1);
    }
}

/// Decoding the bits that compression wrote for the values from `pos` on, after `prefix`
/// and with the values before `pos` already decoded, gives all values.
proof fn lemma_lz_decode_from(data: Seq<u64>, w: nat, prefix: Seq<bool>, tail: Seq<bool>, pos: nat)
    requires
        0 < w < 64,
        data.len() < pow2(w),
        data.len() <= usize::MAX,
        forall|i: int| 0 <= i < data.len() ==> data[i] < pow2(w),
        pos <= data.len(),
    ensures
        lz_decode(prefix + lz_stream(data, pos, w) + tail, prefix.len(), data.take(pos as int), data.len(), w)
            == Some(Ok::<Seq<u64>, StreamError>(data)),
    decreases data.len() - pos,
{
    let s = prefix + lz_stream(data, pos, w) + tail;
    let out = data.take(pos as int);
    if pos == data.len() {
        assert(out =~= data);
    } else {
        let m = chosen_match(data, pos);
        if is_raw(m) {
            let v = data[pos as int] as nat;
            let vb = value_bits(v, w);
            let rest = lz_stream(data, pos + 1, w);
            let a = prefix + seq![true];
            crate::bits::lemma_value_bits_len(v, w);
            assert(s =~= a + vb + (rest + tail));
            lemma_read_written(a, v, w, rest + tail);
            assert(s[prefix.len() as int] == true);
            assert(out.push(v as u64) =~= data.take(pos + 1int));
            assert(s =~= (a + vb) + rest + tail);
            lemma_lz_decode_from(data, w, a + vb, tail, pos + 1);
        } else {
            let start = window_start(pos, SCROLLBACK_LIMIT as nat);
            lemma_longest_match(data, pos, start, (pos - start) as nat);
            lemma_match_len(data, (pos - m.0) as nat, pos);
            let (d, len) = m;
            let lb = value_bits(len, w);
            let ob = value_bits(d, w);
            let rest = lz_stream(data, pos + len, w);
            let a = prefix + seq![false];
            crate::bits::lemma_value_bits_len(len, w);
            crate::bits::lemma_value_bits_len(d, w);
            assert(s =~= a + lb + (ob + rest + tail));
            lemma_read_written(a, len, w, ob + rest + tail);
            assert(s =~= (a + lb) + ob + (rest + tail));
            lemma_read_written(a + lb, d, w, rest + tail);
            assert(s[prefix.len() as int] == false);
            lemma_copy_repeats(data, pos, d, len);
            assert(s =~= (a + lb + ob) + rest + tail);
            lemma_lz_decode_from(data, w, a + lb + ob, tail, pos + len);
        }
    }
}

/// Decompressing what compression wrote gives back the values, where each value, and the
/// number of values, fits in the `w` bits (between 1 and 63) that everything is written
/// with; the padding of the last byte is not read.
pub proof fn lemma_lz_roundtrip(data: Seq<u64>, w: nat)
    requires
        0 < w < 64,
        data.len() < pow2(w),
        data.len() <= usize::MAX,
        forall|i: int| 0 <= i < data.len() ==> data[i] < pow2(w),
    ensures
        lz_decode(padded_bits(lz_stream(data, 0, w)), 0, Seq::empty(), data.len(), w) == Some(
            Ok::<Seq<u64>, StreamError>(data),
        ),
{
    let st = lz_stream(data, 0, w);
    let tail = Seq::new(((8 - st.len() % 8) % 8) as nat, |i: int| false);
    assert(padded_bits(st) =~= Seq::<bool>::empty() + st + tail);
    assert(data.take(0) =~= Seq::<u64>::empty());
    lemma_lz_decode_from(data, w, Seq::empty(), tail, 0);
}

/// The header of a compressed triangle segment: precision, count and smallest index.
pub open spec fn lzz_header(triangles: Seq<u32>, max_index: nat) -> Seq<u8> {
    seq![bit_width(max_index) as u8] + spec_u64_to_le_bytes(triangles.len() as u64)
        + spec_u64_to_le_bytes(seq_min(triangles) as u64)
}

/// Every index lowered by the smallest one.
pub open spec fn lowered(triangles: Seq<u32>) -> Seq<u64> {
    triangles.map_values(|t: u32| (t - seq_min(triangles)) as u64)
}

/// Appends to `target` a triangle segment whose indices, lowered by the smallest one, are
/// compressed: the header, then the compressed array at the precision that `max_index` needs.
pub fn save_triangles_lzz(triangles: &[IndexType], max_index: usize, target: &mut Vec<u8>)
    ensures
        final(target)@.len() >= old(target)@.len() + 17,
        final(target)@.subrange(0, old(target)@.len() as int) == old(target)@,
        final(target)@.subrange(old(target)@.len() as int, old(target)@.len() + 17int) == lzz_header(
            triangles@,
            max_index as nat,
        ),
        bytes_bits(final(target)@.subrange(old(target)@.len() + 17int, final(target)@.len() as int))
            == padded_bits(lz_stream(lowered(triangles@), 0, bit_width(max_index as nat))),
{
    let min = triangles_min(triangles);
    let precision = calc_prec(max_index);
    let ghost start = target@;
    write_u8(target, precision);
    write_u64(target, triangles.len() as u64);
    write_u64(target, min as u64);
    let ghost header = target@;
    let mut values: Vec<u64> = Vec::new();
    let mut i: usize = 0;
    while i < triangles.len()
        invariant
            i <= triangles@.len(),
            min == seq_min(triangles@),
            values@ == lowered(triangles@).take(i as int),
        decreases triangles@.len() - i,
    {
        proof {
            crate::vertices::lemma_seq_min_le(triangles@, i as int);
        }
        values.push((triangles[i] - min) as u64);
        proof {
            assert(values@ =~= lowered(triangles@).take(i + 1));
        }
        i = i + 1;
    }
    proof {
        assert(values@ =~= lowered(triangles@));
        vstd::arithmetic::power2::lemma2_to64();
        vstd::arithmetic::power2::lemma2_to64_rest();
        crate::vertices::lemma_bit_width_le(max_index as nat, 64);
    }
    let mode = UnalignedRWMode::precision_bits(precision);
    save_compressed_array(values.as_slice(), mode, target);
    proof {
        vstd::bytes::lemma_auto_spec_u64_to_from_le_bytes();
        let seg = target@.subrange(start.len() as int, start.len() + 17int);
        assert(header.subrange(start.len() as int, start.len() + 17int) =~= lzz_header(
            triangles@,
            max_index as nat,
        ));
        assert(target@.subrange(0, header.len() as int) == header);
        assert(seg =~= header.subrange(start.len() as int, start.len() + 17int));
        assert(target@.subrange(0, start.len() as int) =~= start);
    }
}

} // verus!
