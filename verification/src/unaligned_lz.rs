//! An LZ encoder working on the bits of unaligned binary arrays (a first step; encoding
//! itself is not written yet).
use crate::bits::{byte_bit, bytes_bits};
use vstd::prelude::*;

verus! {

/// The state of the encoder.
pub struct UlzEncoder {
    window: Vec<bool>,
    c_bits: u8,
}

/// The bits of `bytes`, most significant bit of each byte first.
pub fn bytes_to_bits(bytes: &[u8]) -> (bits: Vec<bool>)
    ensures
        bits@ == bytes_bits(bytes@),
{
    let mut bits: Vec<bool> = Vec::new();
    let mut i: usize = 0;
    while i < bytes.len()
        invariant
            i <= bytes@.len(),
            bits@ == bytes_bits(bytes@.subrange(0, i as int)),
        decreases bytes@.len() - i,
    {
        let byte = bytes[i];
        let ghost before = bits@;
        bits.push(byte & 0b1000_0000 != 0);
        bits.push(byte & 0b0100_0000 != 0);
        bits.push(byte & 0b0010_0000 != 0);
        bits.push(byte & 0b0001_0000 != 0);
        bits.push(byte & 0b0000_1000 != 0);
        bits.push(byte & 0b0000_0100 != 0);
        bits.push(byte & 0b0000_0010 != 0);
        bits.push(byte & 0b0000_0001 != 0);
        proof {
            lemma_byte_mask_bits(byte);
            crate::bits::lemma_bytes_bits_push(bytes@.subrange(0, i as int), byte);
            assert(bytes@.subrange(0, i + 1) =~= bytes@.subrange(0, i as int).push(byte));
            assert(bits@ =~= before + Seq::new(8, |k: int| byte_bit(byte, k as u8)));
        }
        i = i + 1;
    }
    assert(bytes@.subrange(0, bytes@.len() as int) =~= bytes@);
    bits
}

/// The bits of a byte, tested by masks.
pub proof fn lemma_byte_mask_bits(b: u8)
    ensures
        byte_bit(b, 0) == (b & 0b1000_0000 != 0),
        byte_bit(b, 1) == (b & 0b0100_0000 != 0),
        byte_bit(b, 2) == (b & 0b0010_0000 != 0),
        byte_bit(b, 3) == (b & 0b0001_0000 != 0),
        byte_bit(b, 4) == (b & 0b0000_1000 != 0),
        byte_bit(b, 5) == (b & 0b0000_0100 != 0),
        byte_bit(b, 6) == (b & 0b0000_0010 != 0),
        byte_bit(b, 7) == (b & 0b0000_0001 != 0),
{
    assert(byte_bit(b, 0) == (b & 0b1000_0000 != 0)) by (bit_vector);
    assert(byte_bit(b, 1) == (b & 0b0100_0000 != 0)) by (bit_vector);
    assert(byte_bit(b, 2) == (b & 0b0010_0000 != 0)) by (bit_vector);
    assert(byte_bit(b, 3) == (b & 0b0001_0000 != 0)) by (bit_vector);
    assert(byte_bit(b, 4) == (b & 0b0000_1000 != 0)) by (bit_vector);
    assert(byte_bit(b, 5) == (b & 0b0000_0100 != 0)) by (bit_vector);
    assert(byte_bit(b, 6) == (b & 0b0000_0010 != 0)) by (bit_vector);
    assert(byte_bit(b, 7) == (b & 0b0000_0001 != 0)) by (bit_vector);
}

/// The byte whose bits, most significant first, are `b0` to `b7`.
pub fn byte_of_bits(b0: bool, b1: bool, b2: bool, b3: bool, b4: bool, b5: bool, b6: bool, b7: bool) -> (byte: u8)
    ensures
        byte_bit(byte, 0) == b0,
        byte_bit(byte, 1) == b1,
        byte_bit(byte, 2) == b2,
        byte_bit(byte, 3) == b3,
        byte_bit(byte, 4) == b4,
        byte_bit(byte, 5) == b5,
        byte_bit(byte, 6) == b6,
        byte_bit(byte, 7) == b7,
{
    let x0: u8 = if b0 { 1 } else { 0 };
    let x1: u8 = if b1 { 1 } else { 0 };
    let x2: u8 = if b2 { 1 } else { 0 };
    let x3: u8 = if b3 { 1 } else { 0 };
    let x4: u8 = if b4 { 1 } else { 0 };
    let x5: u8 = if b5 { 1 } else { 0 };
    let x6: u8 = if b6 { 1 } else { 0 };
    let x7: u8 = if b7 { 1 } else { 0 };
    let byte = x0 << 7u8 | x1 << 6u8 | x2 << 5u8 | x3 << 4u8 | x4 << 3u8 | x5 << 2u8 | x6 << 1u8 | x7;
    proof {
        lemma_byte_mask_bits(byte);
        assert(x0 <= 1 && x1 <= 1 && x2 <= 1 && x3 <= 1 && x4 <= 1 && x5 <= 1 && x6 <= 1 && x7 <= 1
            ==> {
            let y = x0 << 7u8 | x1 << 6u8 | x2 << 5u8 | x3 << 4u8 | x4 << 3u8 | x5 << 2u8 | x6 << 1u8
                | x7;
            &&& (y & 0b1000_0000 != 0) == (x0 == 1)
            &&& (y & 0b0100_0000 != 0) == (x1 == 1)
            &&& (y & 0b0010_0000 != 0) == (x2 == 1)
            &&& (y & 0b0001_0000 != 0) == (x3 == 1)
            &&& (y & 0b0000_1000 != 0) == (x4 == 1)
            &&& (y & 0b0000_0100 != 0) == (x5 == 1)
            &&& (y & 0b0000_0010 != 0) == (x6 == 1)
            &&& (y & 0b0000_0001 != 0) == (x7 == 1)
        }) by (bit_vector);
    }
    byte
}

/// The bytes of the first `8 * (bits.len() / 8)` bits; bits after the last whole byte are
/// left out.
pub fn bits_to_bytes(bits: &[bool]) -> (bytes: Vec<u8>)
    ensures
        bytes@.len() == bits@.len() / 8,
        bytes_bits(bytes@) == bits@.subrange(0, 8 * (bits@.len() / 8) as int),
{
    let mut bytes: Vec<u8> = Vec::new();
    let len: usize = bits.len();
    let n: usize = len / 8;
    let mut i: usize = 0;
    while i < n
        invariant
            len == bits@.len(),
            n == len / 8,
            8 * n <= len,
            i <= n,
            bytes@.len() == i,
            bytes_bits(bytes@) == bits@.subrange(0, 8 * i as int),
        decreases n - i,
    {
        assert(i * 8 + 8 <= len);
        let byte = byte_of_bits(
            bits[i * 8],
            bits[i * 8 + 1],
            bits[i * 8 + 2],
            bits[i * 8 + 3],
            bits[i * 8 + 4],
            bits[i * 8 + 5],
            bits[i * 8 + 6],
            bits[i * 8 + 7],
        );
        proof {
            crate::bits::lemma_bytes_bits_push(bytes@, byte);
        }
        bytes.push(byte);
        proof {
            assert(bytes_bits(bytes@) =~= bits@.subrange(0, 8 * (i + 1) as int));
        }
        i = i + 1;
    }
    bytes
}

/// The length of the run of equal bits starting at `curr_pos` and at `match_beg`.
pub open spec fn spec_match_run(input: Seq<bool>, curr_pos: nat, match_beg: nat) -> nat
    decreases input.len() - curr_pos,
{
    if curr_pos < input.len() && match_beg < input.len() && input[curr_pos as int]
        == input[match_beg as int] {
        1 + spec_match_run(input, curr_pos + 1, match_beg + 1)
    } else {
        0
    }
}

/// The length of the match at `match_beg` for the bits at `curr_pos`.
pub fn evaluate_match(input: &[bool], curr_pos: usize, match_beg: usize) -> (len: usize)
    ensures
        len == spec_match_run(input@, curr_pos as nat, match_beg as nat),
{
    let mut curr_pos = curr_pos;
    let mut match_beg = match_beg;
    let mut len: usize = 0;
    let ghost c0 = curr_pos as nat;
    let ghost m0 = match_beg as nat;
    while curr_pos < input.len() && match_beg < input.len() && input[curr_pos] == input[match_beg]
        invariant
            curr_pos == c0 + len,
            match_beg == m0 + len,
            spec_match_run(input@, c0, m0) == len + spec_match_run(
                input@,
                curr_pos as nat,
                match_beg as nat,
            ),
        decreases input@.len() - curr_pos,
    {
        len = len + 1;
        curr_pos = curr_pos + 1;
        match_beg = match_beg + 1;
    }
    len
}

/// The best match for the bits at `curr_pos` among the first `k` positions of the window
/// starting at `beg`: (length, position); ties keep the earlier position.
pub open spec fn spec_best_match(input: Seq<bool>, curr_pos: nat, beg: nat, k: nat) -> (nat, nat)
    decreases k,
{
    if k == 0 {
        (0, 0)
    } else {
        let (best_len, best_pos) = spec_best_match(input, curr_pos, beg, (k - 1) as nat);
        let cur = spec_match_run(input, curr_pos, (beg + k - 1) as nat);
        if cur > best_len {
            (cur, (beg + k - 1) as nat)
        } else {
            (best_len, best_pos)
        }
    }
}

/// The longest match, in a window of `2^(max_len - 1)` bits before `curr_pos`, for the bits
/// at `curr_pos`: its length and position.
pub fn find_best_match(input: &[bool], curr_pos: usize, max_len: u8) -> (res: (usize, usize))
    requires
        1 <= max_len <= 63,
        curr_pos <= input@.len(),
        input@.len() <= isize::MAX,
    ensures
        ({
            let beg = if curr_pos >= vstd::arithmetic::power2::pow2((max_len - 1) as nat) {
                curr_pos - vstd::arithmetic::power2::pow2((max_len - 1) as nat)
            } else {
                0
            };
            (res.0 as nat, res.1 as nat) == spec_best_match(
                input@,
                curr_pos as nat,
                beg as nat,
                (curr_pos - beg) as nat,
            )
        }),
{
    proof {
        vstd::arithmetic::power2::lemma2_to64();
        vstd::arithmetic::power2::lemma2_to64_rest();
        vstd::arithmetic::power2::lemma_pow2_strictly_increases((max_len - 1) as nat, 63);
        vstd::bits::lemma_u64_shl_is_mul(1, (max_len - 1) as u64);
    }
    let window: u64 = 1u64 << (max_len - 1);
    let backward_beg: usize = if (curr_pos as u64) >= window {
        curr_pos - window as usize
    } else {
        0
    };
    let mut best_len: usize = 0;
    let mut best_pos: usize = 0;
    let mut i: usize = backward_beg;
    while i < curr_pos
        invariant
            backward_beg <= i <= curr_pos,
            (best_len as nat, best_pos as nat) == spec_best_match(
                input@,
                curr_pos as nat,
                backward_beg as nat,
                (i - backward_beg) as nat,
            ),
        decreases curr_pos - i,
    {
        let curr_max = evaluate_match(input, curr_pos, i);
        if curr_max > best_len {
            best_len = curr_max;
            best_pos = i;
        }
        i = i + 1;
    }
    (best_len, best_pos)
}

} // verus!
