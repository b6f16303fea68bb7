//! Reads and writes of data that is not aligned to byte boundaries (for example 3 or 17 bits
//! wide). This is what allows the heavy compression used by the format.
use crate::bits::{
    bits_value, byte_bit, bytes_bits, lemma_bits_value_bound, lemma_bytes_bits_index,
    lemma_bytes_bits_push, lemma_set_bit, lemma_split_window, lemma_value_bits_index,
    lemma_value_bits_len,
    lemma_zero_byte_bits, padded_bits, value_bits,
};
use crate::StreamError;
use vstd::arithmetic::power2::{lemma2_to64, lemma_pow2_pos, lemma_pow2_unfold, pow2};
use vstd::bits::{lemma_u64_low_bits_mask_is_mod, lemma_u64_shr_is_div, low_bits_mask};
use vstd::prelude::*;

verus! {

/// The width, in bits, of one unaligned read or write.
#[derive(Clone, Copy, Debug, PartialEq, Eq)]
pub struct UnalignedRWMode(u8);

impl UnalignedRWMode {
    /// The width as a plain number.
    pub closed spec fn width(self) -> nat {
        self.0 as nat
    }

    /// A mode reading or writing `bits` bits at a time.
    pub fn precision_bits(bits: u8) -> (mode: Self)
        ensures
            mode.width() == bits,
    {
        Self(bits)
    }

    /// The number of bits this mode reads or writes.
    pub fn bits(&self) -> (bits: u8)
        ensures
            bits == self.width(),
    {
        self.0
    }
}

/// A reader of an unaligned binary array.
pub struct UnalignedReader<'a> {
    data: &'a [u8],
    /// Index of the byte holding the next bit.
    byte_pos: usize,
    /// Bits of that byte already read.
    bit_pos: u8,
}

/// What one read of `width` bits at `pos` gives: the value and the position after it, or
/// `None` where the stream ends first. Zero bits, and more than 64 bits, read nothing.
pub open spec fn spec_read(s: Seq<bool>, pos: nat, width: nat) -> Option<(nat, nat)> {
    if width == 0 || width > 64 {
        Some((0, pos))
    } else if pos + width <= s.len() {
        Some((bits_value(s.subrange(pos as int, (pos + width) as int)), pos + width))
    } else {
        None
    }
}

/// Two reads in a row.
pub open spec fn spec_read2(s: Seq<bool>, pos: nat, w1: nat, w2: nat) -> Option<(nat, nat, nat)> {
    match spec_read(s, pos, w1) {
        Some((a, p1)) => match spec_read(s, p1, w2) {
            Some((b, p2)) => Some((a, b, p2)),
            None => None,
        },
        None => None,
    }
}

/// Three reads in a row.
pub open spec fn spec_read3(s: Seq<bool>, pos: nat, w: nat) -> Option<(nat, nat, nat, nat)> {
    match spec_read2(s, pos, w, w) {
        Some((a, b, p2)) => match spec_read(s, p2, w) {
            Some((c, p3)) => Some((a, b, c, p3)),
            None => None,
        },
        None => None,
    }
}

/// Splits `data` into its bits above the lowest `m` and its lowest `m` bits.
fn split_word(data: u64, m: u8) -> (res: (u64, u64))
    requires
        0 < m < 64,
    ensures
        res.0 == data as nat / pow2(m as nat),
        res.1 == data as nat % pow2(m as nat),
{
    proof {
        lemma2_to64();
        vstd::arithmetic::power2::lemma2_to64_rest();
        vstd::arithmetic::power2::lemma_pow2_strictly_increases(m as nat, 64);
        lemma_u64_shr_is_div(data, m as u64);
        lemma_u64_low_bits_mask_is_mod(data, m as nat);
        vstd::bits::lemma_low_bits_mask_unfold(m as nat);
        vstd::bits::lemma_u64_shl_is_mul(1, m as u64);
    }
    let mask: u64 = (1u64 << m) - 1;
    proof {
        assert(mask == low_bits_mask(m as nat));
    }
    (data >> m, data & mask)
}

impl<'a> UnalignedReader<'a> {
    #[verifier::type_invariant]
    closed spec fn inv(self) -> bool {
        &&& self.bit_pos < 8
        &&& self.byte_pos <= self.data@.len()
        &&& self.byte_pos == self.data@.len() ==> self.bit_pos == 0
    }

    /// All bits of the stream.
    pub closed spec fn stream(self) -> Seq<bool> {
        bytes_bits(self.data@)
    }

    /// Number of bits already read.
    pub closed spec fn pos(self) -> nat {
        (self.byte_pos * 8 + self.bit_pos) as nat
    }

    /// The value of the `width` bits that follow the position.
    pub open spec fn peek_value(self, width: nat) -> nat {
        bits_value(self.stream().subrange(self.pos() as int, (self.pos() + width) as int))
    }

    /// Creates a reader of the bits of `data`.
    pub fn new(data: &'a [u8]) -> (reader: Self)
        ensures
            reader.stream() == bytes_bits(data@),
            reader.pos() == 0,
    {
        Self { data, byte_pos: 0, bit_pos: 0 }
    }

    /// Number of bits left, capped at 64.
    fn bits_left(&self) -> (left: u8)
        ensures
            left == if self.stream().len() - self.pos() >= 64 {
                64
            } else {
                self.stream().len() - self.pos()
            },
    {
        proof {
            use_type_invariant(self);
        }
        let rem_bytes = self.data.len() - self.byte_pos;
        if rem_bytes > 8 {
            64
        } else {
            (rem_bytes as u8) * 8 - self.bit_pos
        }
    }

    /// Reads the next bit; the caller knows one is left.
    fn next_bit(&mut self) -> (bit: bool)
        requires
            old(self).pos() < old(self).stream().len(),
        ensures
            final(self).stream() == old(self).stream(),
            final(self).pos() == old(self).pos() + 1,
            bit == old(self).stream()[old(self).pos() as int],
    {
        proof {
            use_type_invariant(&*self);
            lemma_bytes_bits_index(self.data@, self.byte_pos as int, self.bit_pos as int);
        }
        let byte = self.data[self.byte_pos];
        let bit = (byte << self.bit_pos) & 0x80u8 != 0;
        if self.bit_pos == 7 {
            self.bit_pos = 0;
            self.byte_pos = self.byte_pos + 1;
        } else {
            self.bit_pos = self.bit_pos + 1;
        }
        bit
    }

    /// Reads `n` bits, `n <= 64`, that are known to be left.
    fn read_window(&mut self, n: u8) -> (value: u64)
        requires
            n <= 64,
            old(self).pos() + n <= old(self).stream().len(),
        ensures
            final(self).stream() == old(self).stream(),
            final(self).pos() == old(self).pos() + n,
            value == old(self).peek_value(n as nat),
    {
        let ghost start = self.pos() as int;
        let ghost s = self.stream();
        let mut res: u64 = 0;
        let mut i: u8 = 0;
        proof {
            lemma2_to64();
            assert(s.subrange(start, start) =~= Seq::<bool>::empty());
        }
        while i < n
            invariant
                i <= n <= 64,
                0 <= start,
                self.stream() == s,
                self.pos() == start + i,
                start + n <= s.len(),
                res == bits_value(s.subrange(start, start + i)),
                res < pow2(i as nat),
            decreases n - i,
        {
            let bit = self.next_bit();
            proof {
                let w = s.subrange(start, start + i + 1);
                assert(w.drop_last() =~= s.subrange(start, start + i));
                assert(w.last() == bit);
                lemma_pow2_unfold((i + 1) as nat);
                lemma2_to64();
                if i + 1 < 64 {
                    vstd::arithmetic::power2::lemma_pow2_strictly_increases((i + 1) as nat, 64);
                }
                assert(res * 2 + 1 < pow2((i + 1) as nat));
            }
            res = res * 2 + if bit {
                1
            } else {
                0
            };
            i = i + 1;
        }
        res
    }

    /// Reads exactly one bit.
    pub fn read_bit(&mut self) -> (res: Result<bool, StreamError>)
        ensures
            final(self).stream() == old(self).stream(),
            old(self).pos() < old(self).stream().len() ==> res == Ok::<bool, StreamError>(
                old(self).stream()[old(self).pos() as int],
            ) && final(self).pos() == old(self).pos() + 1,
            old(self).pos() >= old(self).stream().len() ==> res == Err::<bool, StreamError>(
                StreamError::UnexpectedEof,
            ),
    {
        if self.bits_left() == 0 {
            return Err(StreamError::UnexpectedEof);
        }
        Ok(self.next_bit())
    }

    /// Reads `mode` bits (at most 64) as an unsigned number, most significant bit first. A
    /// mode of zero bits, or of more than 64 bits, reads nothing and gives zero.
    pub fn read_unaligned(&mut self, mode: UnalignedRWMode) -> (res: Result<u64, StreamError>)
        ensures
            final(self).stream() == old(self).stream(),
            match spec_read(old(self).stream(), old(self).pos(), mode.width()) {
                Some((v, p)) => res == Ok::<u64, StreamError>(v as u64) && final(self).pos() == p
                    && v < pow2(mode.width()) && v <= u64::MAX,
                None => res == Err::<u64, StreamError>(StreamError::UnexpectedEof),
            },
    {
        let n = mode.bits();
        if n == 0 || n > 64 {
            proof {
                lemma_pow2_pos(n as nat);
            }
            return Ok(0);
        }
        if self.bits_left() < n {
            return Err(StreamError::UnexpectedEof);
        }
        let v = self.read_window(n);
        proof {
            let st = old(self).stream();
            let p = old(self).pos() as int;
            lemma_bits_value_bound(st.subrange(p, p + n));
        }
        Ok(v)
    }

    /// Reads two values of `mode` bits each. Where both fit in 64 bits they are read as one
    /// window of twice the width and split.
    pub fn read2_unaligned(&mut self, mode: UnalignedRWMode) -> (res: Result<
        (u64, u64),
        StreamError,
    >)
        requires
            mode.width() != 0,
        ensures
            final(self).stream() == old(self).stream(),
            match spec_read2(old(self).stream(), old(self).pos(), mode.width(), mode.width()) {
                Some((a, b, p)) => res == Ok::<(u64, u64), StreamError>((a as u64, b as u64))
                    && final(self).pos() == p,
                None => res == Err::<(u64, u64), StreamError>(StreamError::UnexpectedEof),
            },
    {
        let m = mode.bits();
        if m > 32 {
            let a = self.read_unaligned(mode)?;
            let b = self.read_unaligned(mode)?;
            Ok((a, b))
        } else {
            let ghost s = self.stream();
            let ghost p = self.pos() as int;
            let data = self.read_unaligned(UnalignedRWMode(m * 2))?;
            proof {
                lemma2_to64();
                vstd::arithmetic::power2::lemma2_to64_rest();
                let a = s.subrange(p, p + m);
                let b = s.subrange(p + m, p + 2 * m);
                assert(s.subrange(p, p + 2 * m) =~= a + b);
                lemma_split_window(a, b);
                lemma_bits_value_bound(a + b);
                lemma_bits_value_bound(a);
                lemma_bits_value_bound(b);
                if 2 * m < 64 {
                    vstd::arithmetic::power2::lemma_pow2_strictly_increases((2 * m) as nat, 64);
                }
                assert(data == bits_value(a + b));
                lemma_pow2_pos(m as nat);
                vstd::arithmetic::power2::lemma_pow2_strictly_increases(m as nat, 64);
            }
            Ok(split_word(data, m))
        }
    }

    /// Reads `mode1 + mode2` bits as one window where they fit in 64 bits, else two values
    /// one after the other. From one window the first value is the window shifted right by
    /// `mode1` bits and the second its lowest `mode1` bits.
    pub fn read_pair_unaligned(&mut self, mode1: UnalignedRWMode, mode2: UnalignedRWMode) -> (res:
        Result<(u64, u64), StreamError>)
        requires
            mode1.width() + mode2.width() <= 255,
            mode1.width() + mode2.width() > 64 || 0 < mode1.width() < 64,
        ensures
            final(self).stream() == old(self).stream(),
            mode1.width() + mode2.width() > 64 ==> match spec_read2(
                old(self).stream(),
                old(self).pos(),
                mode1.width(),
                mode2.width(),
            ) {
                Some((a, b, p)) => res == Ok::<(u64, u64), StreamError>((a as u64, b as u64))
                    && final(self).pos() == p,
                None => res == Err::<(u64, u64), StreamError>(StreamError::UnexpectedEof),
            },
            mode1.width() + mode2.width() <= 64 ==> match spec_read(
                old(self).stream(),
                old(self).pos(),
                mode1.width() + mode2.width(),
            ) {
                Some((d, p)) => res == Ok::<(u64, u64), StreamError>(
                    ((d / pow2(mode1.width())) as u64, (d % pow2(mode1.width())) as u64),
                ) && final(self).pos() == p,
                None => res == Err::<(u64, u64), StreamError>(StreamError::UnexpectedEof),
            },
    {
        let m1 = mode1.bits();
        let m2 = mode2.bits();
        if m1 + m2 > 64 {
            let a = self.read_unaligned(mode1)?;
            let b = self.read_unaligned(mode2)?;
            Ok((a, b))
        } else {
            let data = self.read_unaligned(UnalignedRWMode(m1 + m2))?;
            proof {
                vstd::arithmetic::power2::lemma2_to64_rest();
                if m1 + m2 < 64 {
                    vstd::arithmetic::power2::lemma_pow2_strictly_increases((m1 + m2) as nat, 64);
                }
            }
            Ok(split_word(data, m1))
        }
    }

    /// Reads three values of `mode` bits each. A mode above 21 bits reads two values as
    /// `read2_unaligned` does and then a third.
    pub fn read3_unaligned(&mut self, mode: UnalignedRWMode) -> (res: Result<
        (u64, u64, u64),
        StreamError,
    >)
        requires
            mode.width() != 0,
        ensures
            final(self).stream() == old(self).stream(),
            match spec_read3(
                old(self).stream(),
                old(self).pos(),
                mode.width(),
            ) {
                Some((a, b, c, p)) => res == Ok::<(u64, u64, u64), StreamError>(
                    (a as u64, b as u64, c as u64),
                ) && final(self).pos() == p,
                None => res == Err::<(u64, u64, u64), StreamError>(StreamError::UnexpectedEof),
            },
    {
        if mode.bits() > 21 {
            let (a, b) = self.read2_unaligned(mode)?;
            let c = self.read_unaligned(mode)?;
            Ok((a, b, c))
        } else {
            let a = self.read_unaligned(mode)?;
            let b = self.read_unaligned(mode)?;
            let c = self.read_unaligned(mode)?;
            Ok((a, b, c))
        }
    }
}

/// A writer of an unaligned binary array, appending to a byte buffer.
pub struct UnalignedWriter {
    bytes: Vec<u8>,
    /// The byte being filled.
    next_byte: u8,
    /// Bits of that byte already written.
    written: u8,
}

impl UnalignedWriter {
    #[verifier::type_invariant]
    closed spec fn inv(self) -> bool {
        &&& self.written < 8
        &&& forall|k: u8| self.written <= k < 8 ==> !byte_bit(self.next_byte, k)
    }

    /// All bits written so far, after those of the buffer the writer started with.
    pub closed spec fn bits(self) -> Seq<bool> {
        bytes_bits(self.bytes@) + Seq::new(
            self.written as nat,
            |k: int| byte_bit(self.next_byte, k as u8),
        )
    }

    /// Creates a writer that appends bits to `target`.
    pub fn new(target: Vec<u8>) -> (writer: Self)
        ensures
            writer.bits() == bytes_bits(target@),
    {
        proof {
            assert forall|k: u8| k < 8 implies !#[trigger] byte_bit(0u8, k) by {
                lemma_zero_byte_bits(k);
            }
        }
        let writer = Self { bytes: target, next_byte: 0, written: 0 };
        assert(writer.bits() =~= bytes_bits(target@));
        writer
    }

    fn push_bit(&mut self, bit: bool)
        ensures
            final(self).bits() == old(self).bits().push(bit),
    {
        proof {
            use_type_invariant(&*self);
        }
        let ghost old_bits = self.bits();
        let w = self.written;
        let nb = if bit {
            self.next_byte | (0x80u8 >> w)
        } else {
            self.next_byte
        };
        proof {
            assert forall|k: u8| k < 8 implies #[trigger] byte_bit(nb, k) == (if k == w {
                bit
            } else {
                byte_bit(self.next_byte, k)
            }) by {
                lemma_set_bit(self.next_byte, w, k);
            }
        }
        if w == 7 {
            proof {
                lemma_bytes_bits_push(self.bytes@, nb);
                assert forall|k: u8| k < 8 implies !#[trigger] byte_bit(0u8, k) by {
                    lemma_zero_byte_bits(k);
                }
            }
            let mut bytes = Vec::new();
            std::mem::swap(&mut bytes, &mut self.bytes);
            bytes.push(nb);
            self.bytes = bytes;
            self.next_byte = 0;
            self.written = 0;
            proof {
                assert(self.bits() =~= old_bits.push(bit));
            }
        } else {
            self.written = w + 1;
            self.next_byte = nb;
            proof {
                assert(self.bits() =~= old_bits.push(bit));
            }
        }
    }

    /// Writes exactly one bit.
    pub fn write_bit(&mut self, bit: bool)
        ensures
            final(self).bits() == old(self).bits().push(bit),
    {
        self.push_bit(bit)
    }

    /// Writes the lowest `mode` bits of `data`, most significant first.
    pub fn write_unaligned(&mut self, mode: UnalignedRWMode, data: u64)
        requires
            mode.width() <= 64,
        ensures
            final(self).bits() == old(self).bits() + value_bits(data as nat, mode.width()),
    {
        let n = mode.bits();
        let ghost old_bits = self.bits();
        let ghost vb = value_bits(data as nat, n as nat);
        proof {
            lemma_value_bits_len(data as nat, n as nat);
            assert(old_bits + vb.take(0) =~= old_bits);
        }
        let mut i: u8 = n;
        while i > 0
            invariant
                i <= n <= 64,
                vb == value_bits(data as nat, n as nat),
                vb.len() == n,
                self.bits() == old_bits + vb.take(n - i),
            decreases i,
        {
            proof {
                lemma_value_bits_index(data as nat, n as nat, n - i);
                lemma_u64_shr_is_div(data, (i - 1) as u64);
            }
            let shifted = data >> (i - 1);
            let bit = shifted & 1 == 1;
            proof {
                assert(shifted & 1 == shifted % 2) by (bit_vector);
                assert(vb.take(n - i + 1) =~= vb.take(n - i).push(bit));
            }
            self.push_bit(bit);
            i = i - 1;
        }
        proof {
            assert(vb.take(n as int) =~= vb);
        }
    }

    /// The bytes the buffer holds so far: the buffer the writer started with, followed by
    /// every completed byte of the bits written.
    pub closed spec fn flushed(self) -> Seq<u8> {
        self.bytes@
    }

    /// The bytes the buffer holds so far (see [`Self::flushed`]).
    pub fn buffer(&self) -> (b: &[u8])
        ensures
            b@ == self.flushed(),
    {
        self.bytes.as_slice()
    }

    /// Flushes the writer: the buffer then holds exactly the completed bytes of all bits so
    /// far, the first `T / 8` of `T` bits; the `T % 8` bits still pending stay in the writer
    /// and reach the buffer, padded with zero bits, only through [`Self::finish`]. Every
    /// completed byte already stands in the buffer, so nothing else changes.
    pub fn flush(&mut self)
        ensures
            final(self).bits() == old(self).bits(),
            final(self).flushed() == old(self).flushed(),
            final(self).flushed().len() == final(self).bits().len() / 8,
            bytes_bits(final(self).flushed()) == final(self).bits().take(
                8 * (final(self).bits().len() / 8) as int,
            ),
    {
        proof {
            use_type_invariant(&*self);
            let n = self.bytes@.len();
            let t = self.bits().len();
            assert(t == 8 * n + self.written);
            assert(t / 8 == n) by (nonlinear_arith)
                requires
                    t == 8 * n + self.written,
                    self.written < 8,
            ;
            assert(bytes_bits(self.bytes@) =~= self.bits().take(8 * n as int));
        }
    }

    /// Ends the array: the last byte, if partly written, is filled up with zero bits. Gives
    /// back the buffer.
    pub fn finish(self) -> (bytes: Vec<u8>)
        ensures
            bytes_bits(bytes@) == padded_bits(self.bits()),
    {
        proof {
            use_type_invariant(&self);
        }
        let mut bytes = self.bytes;
        let ghost len = bytes_bits(bytes@).len();
        proof {
            assert(len % 8 == 0 && (len + self.written) % 8 == self.written) by (nonlinear_arith)
                requires
                    len == bytes@.len() * 8,
                    self.written < 8,
            ;
        }
        if self.written > 0 {
            proof {
                lemma_bytes_bits_push(bytes@, self.next_byte);
            }
            bytes.push(self.next_byte);
        }
        assert(bytes_bits(bytes@) =~= padded_bits(self.bits()));
        bytes
    }
}

/// A value written with `width` bits (1 to 64) reads back, by a read of that width where it
/// was written, as the value modulo `2^width`: the value itself where it fits.
pub proof fn lemma_unaligned_roundtrip(prefix: Seq<bool>, v: u64, width: nat, rest: Seq<bool>)
    requires
        0 < width <= 64,
    ensures
        spec_read(prefix + value_bits(v as nat, width) + rest, prefix.len(), width) == Some(
            ((v as nat % pow2(width)) as nat, prefix.len() + width),
        ),
{
    crate::bits::lemma_value_bits_value(v as nat, width);
    lemma_value_bits_len(v as nat, width);
    let s = prefix + value_bits(v as nat, width) + rest;
    assert(s.subrange(prefix.len() as int, (prefix.len() + width) as int) =~= value_bits(v as nat, width));
}

/// The bits that writes of `values` one after another append, value `i` with `widths[i]`
/// bits: what successive [`UnalignedWriter::write_unaligned`] calls add to the writer's bits.
pub open spec fn written_bits(values: Seq<u64>, widths: Seq<nat>) -> Seq<bool>
    decreases values.len(),
{
    if values.len() == 0 {
        Seq::empty()
    } else {
        written_bits(values.drop_last(), widths) + value_bits(
            values.last() as nat,
            widths[values.len() - 1],
        )
    }
}

/// What reads one after another from bit `pos`, read `i` with `widths[i]` bits, give: the
/// values and the position after them, or `None` where the stream ends first. This is what
/// successive [`UnalignedReader::read_unaligned`] calls give.
pub open spec fn read_in_turn(s: Seq<bool>, pos: nat, widths: Seq<nat>) -> Option<(Seq<u64>, nat)>
    decreases widths.len(),
{
    if widths.len() == 0 {
        Some((Seq::empty(), pos))
    } else {
        match read_in_turn(s, pos, widths.drop_last()) {
            None => None,
            Some((vs, p)) => match spec_read(s, p, widths.last()) {
                None => None,
                Some((v, p2)) => Some((vs.push(v as u64), p2)),
            },
        }
    }
}

/// Values written one after another, each with its own width (1 to 64 bits) into which it
/// fits, read back in order by reads of the same widths, after any prefix and before any
/// tail: the reads give exactly the values and end right after the last one.
pub proof fn lemma_unaligned_sequence_roundtrip(
    prefix: Seq<bool>,
    values: Seq<u64>,
    widths: Seq<nat>,
    rest: Seq<bool>,
)
    requires
        values.len() == widths.len(),
        forall|i: int|
            0 <= i < values.len() ==> 0 < #[trigger] widths[i] <= 64 && values[i] < pow2(widths[i]),
    ensures
        read_in_turn(prefix + written_bits(values, widths) + rest, prefix.len(), widths) == Some(
            (values, prefix.len() + written_bits(values, widths).len()),
        ),
    decreases values.len(),
{
    let s = prefix + written_bits(values, widths) + rest;
    if values.len() == 0 {
        assert(values =~= Seq::<u64>::empty());
    } else {
        let n = values.len() - 1;
        let front = values.drop_last();
        let ws = widths.drop_last();
        let w = widths[n];
        let v = values.last();
        let vb = value_bits(v as nat, w);
        lemma_value_bits_len(v as nat, w);
        assert forall|i: int| 0 <= i < front.len() implies 0 < #[trigger] ws[i] <= 64 && front[i]
            < pow2(ws[i]) by {
            assert(front[i] == values[i] && ws[i] == widths[i]);
        }
        lemma_written_bits_widths(front, widths, ws);
        assert(s =~= prefix + written_bits(front, ws) + (vb + rest));
        lemma_unaligned_sequence_roundtrip(prefix, front, ws, vb + rest);
        assert(s =~= (prefix + written_bits(front, ws)) + vb + rest);
        lemma_unaligned_roundtrip(prefix + written_bits(front, ws), v, w, rest);
        vstd::arithmetic::div_mod::lemma_small_mod(v as nat, pow2(w));
        assert(front.push(v) =~= values);
    }
}

/// The bits written depend only on the widths of the values written.
proof fn lemma_written_bits_widths(values: Seq<u64>, a: Seq<nat>, b: Seq<nat>)
    requires
        values.len() <= a.len(),
        values.len() <= b.len(),
        forall|i: int| 0 <= i < values.len() ==> a[i] == b[i],
    ensures
        written_bits(values, a) == written_bits(values, b),
    decreases values.len(),
{
    if values.len() > 0 {
        lemma_written_bits_widths(values.drop_last(), a, b);
    }
}

} // verus!
