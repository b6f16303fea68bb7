//! A second LZ encoder for unaligned binary arrays, sharing the bit conversions of
//! [`crate::unaligned_lz`]; its search for matches is a stub that finds none.
use crate::bits::bytes_bits;
use vstd::prelude::*;

verus! {

/// The state of the encoder.
pub struct ULZZEncoder {
    window: Vec<bool>,
    c_bits: u8,
}

/// The bits of `bytes`, most significant bit of each byte first.
pub fn bytes_to_bits(bytes: &[u8]) -> (bits: Vec<bool>)
    ensures
        bits@ == bytes_bits(bytes@),
{
    crate::unaligned_lz::bytes_to_bits(bytes)
}

/// The bytes of the first `8 * (bits.len() / 8)` bits; bits after the last whole byte are
/// left out.
pub fn bits_to_bytes(bits: &[bool]) -> (bytes: Vec<u8>)
    ensures
        bytes@.len() == bits@.len() / 8,
        bytes_bits(bytes@) == bits@.subrange(0, 8 * (bits@.len() / 8) as int),
{
    crate::unaligned_lz::bits_to_bytes(bits)
}

/// The match for the bits at `curr_pos`: it walks the window before `curr_pos` and the
/// (at most `2^max_len`) bits after it, but keeps no match, so it always gives (0, 0).
pub fn get_compression(input: &[bool], curr_pos: usize, max_len: u8) -> (res: (usize, usize))
    requires
        curr_pos <= input@.len(),
        max_len < usize::BITS,
    ensures
        res == (0usize, 0usize),
{
    proof {
        vstd::bits::lemma_usize_pow2_no_overflow(max_len as nat);
        vstd::bits::lemma_usize_shl_is_mul(1, max_len as usize);
    }
    let left = input.len() - curr_pos;
    let limit = 1usize << max_len;
    let forward_len = if left < limit {
        left
    } else {
        limit
    };
    let best_len: usize = 0;
    let best_pos: usize = 0;
    let mut i: usize = 0;
    while i < curr_pos
        invariant
            i <= curr_pos,
            curr_pos + forward_len <= input@.len(),
            input@.len() <= usize::MAX,
        decreases curr_pos - i,
    {
        let mut j: usize = 0;
        while j < forward_len
            invariant
                j <= forward_len,
                i < curr_pos,
                curr_pos + forward_len <= input@.len(),
                input@.len() <= usize::MAX,
            decreases forward_len - j,
        {
            let _differs = input[curr_pos + j] != input[i];
            j = j + 1;
        }
        i = i + 1;
    }
    (best_len, best_pos)
}

} // verus!
