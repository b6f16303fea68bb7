//! Reads of little-endian integers and byte runs from a byte stream, and the matching writes.
use crate::{StreamError, TMFImportError};
use vstd::bytes::{
    spec_u16_from_le_bytes, spec_u16_to_le_bytes, spec_u32_from_le_bytes, spec_u32_to_le_bytes,
    spec_u64_from_le_bytes, spec_u64_to_le_bytes, u16_from_le_bytes, u16_to_le_bytes,
    u32_from_le_bytes, u32_to_le_bytes, u64_from_le_bytes, u64_to_le_bytes,
};
use vstd::prelude::*;
use vstd::slice::slice_subrange;

verus! {

/// A reading position in a byte stream.
pub struct ByteReader<'a> {
    data: &'a [u8],
    pos: usize,
}

/// The `n` bytes at `pos` and the position after them, or `None` where the stream is shorter.
pub open spec fn spec_take(data: Seq<u8>, pos: nat, n: nat) -> Option<(Seq<u8>, nat)> {
    if pos + n <= data.len() {
        Some((data.subrange(pos as int, (pos + n) as int), pos + n))
    } else {
        None
    }
}

impl<'a> ByteReader<'a> {
    #[verifier::type_invariant]
    closed spec fn inv(self) -> bool {
        self.pos <= self.data@.len()
    }

    /// The whole stream.
    pub closed spec fn data(self) -> Seq<u8> {
        self.data@
    }

    /// Number of bytes already read.
    pub closed spec fn pos(self) -> nat {
        self.pos as nat
    }

    /// The bytes not read yet.
    pub open spec fn rest(self) -> Seq<u8> {
        self.data().subrange(self.pos() as int, self.data().len() as int)
    }

    /// A reader at the start of `data`.
    pub fn new(data: &'a [u8]) -> (reader: Self)
        ensures
            reader.data() == data@,
            reader.pos() == 0,
    {
        Self { data, pos: 0 }
    }

    /// The bytes not read yet.
    pub fn remaining(&self) -> (rest: &'a [u8])
        ensures
            self.pos() <= self.data().len(),
            rest@ == self.rest(),
    {
        proof {
            use_type_invariant(self);
        }
        slice_subrange(self.data, self.pos, self.data.len())
    }

    /// Reads the next `n` bytes.
    pub fn read_bytes(&mut self, n: usize) -> (res: Result<&'a [u8], StreamError>)
        ensures
            final(self).data() == old(self).data(),
            match spec_take(old(self).data(), old(self).pos(), n as nat) {
                Some((bytes, p)) => res matches Ok(r) && r@ == bytes && final(self).pos() == p,
                None => res == Err::<&[u8], StreamError>(StreamError::UnexpectedEof),
            },
    {
        proof {
            use_type_invariant(&*self);
        }
        if n > self.data.len() - self.pos {
            return Err(StreamError::UnexpectedEof);
        }
        let bytes = slice_subrange(self.data, self.pos, self.pos + n);
        self.pos = self.pos + n;
        Ok(bytes)
    }

    /// Reads one byte.
    pub fn read_u8(&mut self) -> (res: Result<u8, StreamError>)
        ensures
            final(self).data() == old(self).data(),
            match spec_take(old(self).data(), old(self).pos(), 1) {
                Some((bytes, p)) => res == Ok::<u8, StreamError>(bytes[0]) && final(self).pos() == p,
                None => res == Err::<u8, StreamError>(StreamError::UnexpectedEof),
            },
    {
        let bytes = self.read_bytes(1)?;
        Ok(bytes[0])
    }

    /// Reads a little-endian `u16`.
    pub fn read_u16(&mut self) -> (res: Result<u16, StreamError>)
        ensures
            final(self).data() == old(self).data(),
            match spec_take(old(self).data(), old(self).pos(), 2) {
                Some((bytes, p)) => res == Ok::<u16, StreamError>(spec_u16_from_le_bytes(bytes))
                    && final(self).pos() == p,
                None => res == Err::<u16, StreamError>(StreamError::UnexpectedEof),
            },
    {
        let bytes = self.read_bytes(2)?;
        Ok(u16_from_le_bytes(bytes))
    }

    /// Reads a little-endian `u32`.
    pub fn read_u32(&mut self) -> (res: Result<u32, StreamError>)
        ensures
            final(self).data() == old(self).data(),
            match spec_take(old(self).data(), old(self).pos(), 4) {
                Some((bytes, p)) => res == Ok::<u32, StreamError>(spec_u32_from_le_bytes(bytes))
                    && final(self).pos() == p,
                None => res == Err::<u32, StreamError>(StreamError::UnexpectedEof),
            },
    {
        let bytes = self.read_bytes(4)?;
        Ok(u32_from_le_bytes(bytes))
    }

    /// Reads a little-endian `u64`.
    pub fn read_u64(&mut self) -> (res: Result<u64, StreamError>)
        ensures
            final(self).data() == old(self).data(),
            match spec_take(old(self).data(), old(self).pos(), 8) {
                Some((bytes, p)) => res == Ok::<u64, StreamError>(spec_u64_from_le_bytes(bytes))
                    && final(self).pos() == p,
                None => res == Err::<u64, StreamError>(StreamError::UnexpectedEof),
            },
    {
        let bytes = self.read_bytes(8)?;
        Ok(u64_from_le_bytes(bytes))
    }
}

/// Appends `bytes` to `buf`.
pub fn write_bytes(buf: &mut Vec<u8>, bytes: &[u8])
    ensures
        final(buf)@ == old(buf)@ + bytes@,
{
    let mut i: usize = 0;
    while i < bytes.len()
        invariant
            i <= bytes@.len(),
            buf@ == old(buf)@ + bytes@.subrange(0, i as int),
        decreases bytes@.len() - i,
    {
        buf.push(bytes[i]);
        i = i + 1;
        assert(buf@ =~= old(buf)@ + bytes@.subrange(0, i as int));
    }
    assert(bytes@.subrange(0, bytes@.len() as int) =~= bytes@);
}

/// Appends `x` as one byte.
pub fn write_u8(buf: &mut Vec<u8>, x: u8)
    ensures
        final(buf)@ == old(buf)@ + seq![x],
{
    buf.push(x);
    assert(final(buf)@ =~= old(buf)@ + seq![x]);
}

/// Appends `x` in little-endian order.
pub fn write_u16(buf: &mut Vec<u8>, x: u16)
    ensures
        final(buf)@ == old(buf)@ + spec_u16_to_le_bytes(x),
{
    let bytes = u16_to_le_bytes(x);
    write_bytes(buf, bytes.as_slice());
}

/// Appends `x` in little-endian order.
pub fn write_u32(buf: &mut Vec<u8>, x: u32)
    ensures
        final(buf)@ == old(buf)@ + spec_u32_to_le_bytes(x),
{
    let bytes = u32_to_le_bytes(x);
    write_bytes(buf, bytes.as_slice());
}

/// Appends `x` in little-endian order.
pub fn write_u64(buf: &mut Vec<u8>, x: u64)
    ensures
        final(buf)@ == old(buf)@ + spec_u64_to_le_bytes(x),
{
    let bytes = u64_to_le_bytes(x);
    write_bytes(buf, bytes.as_slice());
}

/// A stream error as an import error.
pub fn lift<T>(r: Result<T, StreamError>) -> (res: Result<T, TMFImportError>)
    ensures
        res == match r {
            Ok(v) => Ok::<T, TMFImportError>(v),
            Err(e) => Err::<T, TMFImportError>(TMFImportError::IO(e)),
        },
{
    match r {
        Ok(v) => Ok(v),
        Err(e) => Err(TMFImportError::IO(e)),
    }
}

} // verus!
