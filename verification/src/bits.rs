//! The mathematical model of an unaligned binary array (UBA): a stream of bits,
//! each byte contributing its most significant bit first.
use vstd::arithmetic::div_mod::{
    lemma_div_denominator, lemma_fundamental_div_mod, lemma_fundamental_div_mod_converse,
    lemma_mod_breakdown,
};
use vstd::arithmetic::mul::{lemma_mul_inequality, lemma_mul_is_commutative};
use vstd::arithmetic::power2::{lemma2_to64, lemma_pow2_pos, lemma_pow2_unfold, pow2};
use vstd::prelude::*;

verus! {

/// Bit number `k` of byte `b`, counting from the most significant bit (`k == 0`).
pub open spec fn byte_bit(b: u8, k: u8) -> bool {
    (b << k) & 0x80u8 != 0
}

/// The bits of a byte sequence, in stream order.
pub open spec fn bytes_bits(bytes: Seq<u8>) -> Seq<bool> {
    Seq::new((bytes.len() * 8) as nat, |i: int| byte_bit(bytes[i / 8], (i % 8) as u8))
}

/// The unsigned number a bit sequence denotes, read most significant bit first.
pub open spec fn bits_value(bits: Seq<bool>) -> nat
    decreases bits.len(),
{
    if bits.len() == 0 {
        0
    } else {
        2 * bits_value(bits.drop_last()) + if bits.last() {
            1nat
        } else {
            0nat
        }
    }
}

/// The lowest `n` bits of `v`, most significant first.
pub open spec fn value_bits(v: nat, n: nat) -> Seq<bool>
    decreases n,
{
    if n == 0 {
        Seq::empty()
    } else {
        value_bits(v / 2, (n - 1) as nat).push(v % 2 == 1)
    }
}

/// `bits` followed by the zero bits that fill its last byte.
pub open spec fn padded_bits(bits: Seq<bool>) -> Seq<bool> {
    bits + Seq::new(((8 - bits.len() % 8) % 8) as nat, |i: int| false)
}

/// The bit sequence of `values`, each written with `width` bits.
pub open spec fn values_bits(values: Seq<u64>, width: nat) -> Seq<bool>
    decreases values.len(),
{
    if values.len() == 0 {
        Seq::empty()
    } else {
        values_bits(values.drop_last(), width) + value_bits(values.last() as nat, width)
    }
}

pub proof fn lemma_value_bits_len(v: nat, n: nat)
    ensures
        value_bits(v, n).len() == n,
    decreases n,
{
    if n > 0 {
        lemma_value_bits_len(v / 2, (n - 1) as nat);
    }
}

pub proof fn lemma_values_bits_len(values: Seq<u64>, width: nat)
    ensures
        values_bits(values, width).len() == values.len() * width,
    decreases values.len(),
{
    if values.len() > 0 {
        lemma_values_bits_len(values.drop_last(), width);
        lemma_value_bits_len(values.last() as nat, width);
        assert((values.len() - 1) * width + width == values.len() * width) by (nonlinear_arith);
    }
}

/// Reading back `n` written bits of `v` gives `v` reduced modulo `2^n`.
pub proof fn lemma_value_bits_value(v: nat, n: nat)
    ensures
        bits_value(value_bits(v, n)) == v % pow2(n),
    decreases n,
{
    lemma_value_bits_len(v, n);
    if n == 0 {
        lemma2_to64();
    } else {
        let prev = value_bits(v / 2, (n - 1) as nat);
        lemma_value_bits_value(v / 2, (n - 1) as nat);
        assert(value_bits(v, n).drop_last() =~= prev);
        lemma_pow2_pos((n - 1) as nat);
        lemma_pow2_unfold(n);
        lemma_mod_breakdown(v as int, 2, pow2((n - 1) as nat) as int);
    }
}

pub proof fn lemma_bits_value_bound(bits: Seq<bool>)
    ensures
        bits_value(bits) < pow2(bits.len()),
    decreases bits.len(),
{
    if bits.len() == 0 {
        lemma2_to64();
    } else {
        lemma_bits_value_bound(bits.drop_last());
        lemma_pow2_unfold(bits.len());
    }
}

/// The value of a concatenation.
pub proof fn lemma_bits_value_concat(a: Seq<bool>, b: Seq<bool>)
    ensures
        bits_value(a + b) == bits_value(a) * pow2(b.len()) + bits_value(b),
    decreases b.len(),
{
    if b.len() == 0 {
        assert(a + b =~= a);
        lemma2_to64();
        assert(bits_value(a) * pow2(0) == bits_value(a));
    } else {
        lemma_bits_value_concat(a, b.drop_last());
        assert((a + b).drop_last() =~= a + b.drop_last());
        lemma_pow2_unfold(b.len());
        let p = pow2((b.len() - 1) as nat);
        let x = bits_value(a);
        assert((a + b).last() == b.last());
        assert(bits_value(a + b.drop_last()) == x * p + bits_value(b.drop_last()));
        assert(pow2(b.len()) == 2 * p);
        assert(bits_value(a + b) == 2 * bits_value((a + b).drop_last()) + if b.last() {
            1nat
        } else {
            0nat
        });
        assert(2 * (x * p) == x * (2 * p)) by (nonlinear_arith);
        assert(bits_value(b) == 2 * bits_value(b.drop_last()) + if b.last() {
            1nat
        } else {
            0nat
        });
    }
}

/// Bit `j` of the `n`-bit encoding of `v`.
pub proof fn lemma_value_bits_index(v: nat, n: nat, j: int)
    requires
        0 <= j < n,
    ensures
        value_bits(v, n).len() == n,
        value_bits(v, n)[j] == ((v / pow2((n - 1 - j) as nat)) % 2 == 1),
    decreases n,
{
    lemma_value_bits_len(v, n);
    if j == n - 1 {
        lemma2_to64();
        lemma_value_bits_len(v / 2, (n - 1) as nat);
        assert(value_bits(v, n)[j] == (v % 2 == 1));
        assert(v / pow2(0) == v);
    } else {
        lemma_value_bits_index(v / 2, (n - 1) as nat, j);
        assert(value_bits(v, n)[j] == value_bits(v / 2, (n - 1) as nat)[j]);
        let p = pow2((n - 2 - j) as nat);
        lemma_pow2_pos((n - 2 - j) as nat);
        lemma_div_denominator(v as int, 2, p as int);
        lemma_pow2_unfold((n - 1 - j) as nat);
        assert(pow2((n - 1 - j) as nat) == 2 * p);
        assert((v / 2) / p == v / (2 * p));
    }
}

/// The encoding of the value of a bit sequence is that sequence.
pub proof fn lemma_bits_value_bits(bits: Seq<bool>)
    ensures
        value_bits(bits_value(bits), bits.len()) == bits,
    decreases bits.len(),
{
    if bits.len() > 0 {
        let prev = bits.drop_last();
        lemma_bits_value_bits(prev);
        let v = bits_value(bits);
        let b: nat = if bits.last() {
            1
        } else {
            0
        };
        lemma_fundamental_div_mod_converse(v as int, 2, bits_value(prev) as int, b as int);
        assert(value_bits(v, bits.len()) =~= bits);
    }
}

/// The bits of appended bytes follow the bits of the bytes before them.
pub proof fn lemma_bytes_bits_push(bytes: Seq<u8>, b: u8)
    ensures
        bytes_bits(bytes.push(b)) =~= bytes_bits(bytes) + Seq::new(
            8,
            |k: int| byte_bit(b, k as u8),
        ),
{
    let n = bytes.len() as int;
    assert forall|i: int| 0 <= i < 8 * n + 8 implies #[trigger] bytes_bits(bytes.push(b))[i] == (
    bytes_bits(bytes) + Seq::new(8, |k: int| byte_bit(b, k as u8)))[i] by {
        if i < 8 * n {
            assert(i / 8 < n);
        } else {
            lemma_fundamental_div_mod_converse(i, 8, n, i - 8 * n);
        }
    }
}

/// The bit at a (byte, bit) position of a byte sequence.
pub proof fn lemma_bytes_bits_index(bytes: Seq<u8>, byte_pos: int, bit_pos: int)
    requires
        0 <= byte_pos < bytes.len(),
        0 <= bit_pos < 8,
    ensures
        bytes_bits(bytes)[byte_pos * 8 + bit_pos] == byte_bit(bytes[byte_pos], bit_pos as u8),
{
    lemma_fundamental_div_mod_converse(byte_pos * 8 + bit_pos, 8, byte_pos, bit_pos);
}

/// A byte with bits from `w` on clear, after setting bit `w`.
pub proof fn lemma_set_bit(nb: u8, w: u8, k: u8)
    requires
        w < 8,
        k < 8,
    ensures
        byte_bit(nb | (0x80u8 >> w), k) == (k == w || byte_bit(nb, k)),
{
    assert(byte_bit(nb | (0x80u8 >> w), k) == (k == w || byte_bit(nb, k))) by (bit_vector)
        requires
            w < 8,
            k < 8,
    ;
}

pub proof fn lemma_zero_byte_bits(k: u8)
    requires
        k < 8,
    ensures
        !byte_bit(0u8, k),
{
    assert(!byte_bit(0u8, k)) by (bit_vector)
        requires
            k < 8,
    ;
}

/// The value of a window split into two parts.
pub proof fn lemma_split_window(a: Seq<bool>, b: Seq<bool>)
    ensures
        bits_value(a + b) / pow2(b.len()) == bits_value(a),
        bits_value(a + b) % pow2(b.len()) == bits_value(b),
{
    lemma_bits_value_concat(a, b);
    lemma_bits_value_bound(b);
    lemma_pow2_pos(b.len());
    lemma_fundamental_div_mod_converse(
        bits_value(a + b) as int,
        pow2(b.len()) as int,
        bits_value(a) as int,
        bits_value(b) as int,
    );
}

/// Where value `i` sits in the bits of an encoded sequence.
pub proof fn lemma_values_bits_window(values: Seq<u64>, width: nat, i: int)
    requires
        0 <= i < values.len(),
    ensures
        values_bits(values, width).len() == values.len() * width,
        values_bits(values, width).subrange(i * width, i * width + width) == value_bits(
            values[i] as nat,
            width,
        ),
    decreases values.len(),
{
    lemma_values_bits_len(values, width);
    let prev = values.drop_last();
    lemma_values_bits_len(prev, width);
    lemma_value_bits_len(values.last() as nat, width);
    if i == values.len() - 1 {
        assert(values_bits(values, width).subrange(i * width, i * width + width) =~= value_bits(
            values[i] as nat,
            width,
        ));
    } else {
        lemma_values_bits_window(prev, width, i);
        assert(i * width + width <= prev.len() * width) by (nonlinear_arith)
            requires
                i + 1 <= prev.len(),
        ;
        assert(values_bits(values, width).subrange(i * width, i * width + width) =~= values_bits(
            prev,
            width,
        ).subrange(i * width, i * width + width));
    }
}

} // verus!
