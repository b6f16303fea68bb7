//! Runs of unsigned codes in an unaligned binary array, the widths of the codes repeating
//! in a cycle (three widths for the coordinates of vertices, two for normals, one for
//! custom floats).
use crate::bits::{bits_value, value_bits};
use crate::unaligned_rw::{spec_read, UnalignedRWMode, UnalignedReader, UnalignedWriter};
use crate::StreamError;
use vstd::arithmetic::power2::pow2;
use vstd::prelude::*;

verus! {

/// The width of code `i`.
pub open spec fn width_of(widths: Seq<u8>, i: int) -> nat {
    widths[i % (widths.len() as int)] as nat
}

/// The bits of `values`, code `i` written with `width_of(widths, i)` bits.
pub open spec fn cyc_bits(values: Seq<u64>, widths: Seq<u8>) -> Seq<bool>
    decreases values.len(),
{
    if values.len() == 0 {
        Seq::empty()
    } else {
        cyc_bits(values.drop_last(), widths) + value_bits(
            values.last() as nat,
            width_of(widths, values.len() - 1),
        )
    }
}

/// What reading `n` codes from bit `pos` gives, code `i` with `width_of(widths, i)` bits:
/// the codes and the position after them, or `None` where the stream ends first.
pub open spec fn spec_read_values(s: Seq<bool>, pos: nat, widths: Seq<u8>, n: nat) -> Option<
    (Seq<u64>, nat),
>
    decreases n,
{
    if n == 0 {
        Some((Seq::empty(), pos))
    } else {
        match spec_read_values(s, pos, widths, (n - 1) as nat) {
            None => None,
            Some((vs, p)) => match spec_read(s, p, width_of(widths, n - 1)) {
                None => None,
                Some((v, p2)) => Some((vs.push(v as u64), p2)),
            },
        }
    }
}

/// Every code fits in its width, and every width is below 64.
pub open spec fn codes_fit(values: Seq<u64>, widths: Seq<u8>) -> bool {
    &&& widths.len() > 0
    &&& forall|k: int| 0 <= k < widths.len() ==> #[trigger] widths[k] < 64
    &&& forall|i: int| 0 <= i < values.len() ==> #[trigger] values[i] < pow2(width_of(widths, i))
}

/// Writes `values`, code `i` with `width_of(widths, i)` bits (the lowest bits of a wider
/// code).
pub fn write_values(writer: &mut UnalignedWriter, values: &[u64], widths: &[u8])
    requires
        widths@.len() > 0,
        forall|k: int| 0 <= k < widths@.len() ==> #[trigger] widths@[k] <= 64,
    ensures
        final(writer).bits() == old(writer).bits() + cyc_bits(values@, widths@),
{
    let ghost start = writer.bits();
    let mut i: usize = 0;
    let mut k: usize = 0;
    proof {
        assert(start + cyc_bits(values@.take(0), widths@) =~= start);
    }
    while i < values.len()
        invariant
            i <= values@.len(),
            widths@.len() > 0,
            forall|k2: int| 0 <= k2 < widths@.len() ==> #[trigger] widths@[k2] <= 64,
            k < widths@.len(),
            k as int == (i as int) % (widths@.len() as int),
            writer.bits() == start + cyc_bits(values@.take(i as int), widths@),
        decreases values@.len() - i,
    {
        writer.write_unaligned(UnalignedRWMode::precision_bits(widths[k]), values[i]);
        proof {
            assert(values@.take(i + 1).drop_last() =~= values@.take(i as int));
            assert(values@.take(i + 1).last() == values@[i as int]);
            assert(width_of(widths@, i as int) == widths@[k as int]);
            assert(writer.bits() =~= start + cyc_bits(values@.take(i + 1), widths@));
        }
        let ghost k0 = k;
        k = if k + 1 == widths.len() {
            0
        } else {
            k + 1
        };
        proof {
            lemma_next_slot(i as int, k0 as int, widths@.len() as int);
        }
        i = i + 1;
    }
    proof {
        assert(values@.take(values@.len() as int) =~= values@);
    }
}

/// Where `k` is `i` modulo `n`, the next slot is that of `i + 1`.
proof fn lemma_next_slot(i: int, k: int, n: int)
    requires
        n > 0,
        0 <= i,
        0 <= k < n,
        k == i % n,
    ensures
        (if k + 1 == n {
            0
        } else {
            k + 1
        }) == (i + 1) % n,
{
    vstd::arithmetic::div_mod::lemma_add_mod_noop(i, 1, n);
    if n == 1 {
        vstd::arithmetic::div_mod::lemma_mod_self_0(1);
        vstd::arithmetic::div_mod::lemma_small_mod(0, 1);
    } else {
        vstd::arithmetic::div_mod::lemma_small_mod(1, n as nat);
        if k + 1 == n {
            vstd::arithmetic::div_mod::lemma_mod_self_0(n);
        } else {
            vstd::arithmetic::div_mod::lemma_small_mod((k + 1) as nat, n as nat);
        }
    }
}

/// Reads `n` codes, code `i` with `width_of(widths, i)` bits.
pub fn read_values(reader: &mut UnalignedReader, n: u64, widths: &[u8]) -> (res: Result<
    Vec<u64>,
    StreamError,
>)
    requires
        widths@.len() > 0,
    ensures
        final(reader).stream() == old(reader).stream(),
        match spec_read_values(old(reader).stream(), old(reader).pos(), widths@, n as nat) {
            Some((vs, p)) => res matches Ok(v) && v@ == vs && final(reader).pos() == p,
            None => res == Err::<Vec<u64>, StreamError>(StreamError::UnexpectedEof),
        },
{
    let ghost s = reader.stream();
    let ghost p0 = reader.pos();
    let mut values: Vec<u64> = Vec::new();
    let mut i: u64 = 0;
    let mut k: usize = 0;
    while i < n
        invariant
            i <= n,
            widths@.len() > 0,
            k < widths@.len(),
            k as int == (i as int) % (widths@.len() as int),
            reader.stream() == s,
            s == old(reader).stream(),
            p0 == old(reader).pos(),
            spec_read_values(s, p0, widths@, i as nat) == Some((values@, reader.pos())),
        decreases n - i,
    {
        let ghost p = reader.pos();
        let v = match reader.read_unaligned(UnalignedRWMode::precision_bits(widths[k])) {
            Ok(v) => v,
            Err(e) => {
                proof {
                    assert(width_of(widths@, i as int) == widths@[k as int]);
                    lemma_read_values_fails_after(s, p0, widths@, (i + 1) as nat, n as nat);
                }
                return Err(e);
            },
        };
        proof {
            assert(width_of(widths@, i as int) == widths@[k as int]);
        }
        values.push(v);
        let ghost k0 = k;
        k = if k + 1 == widths.len() {
            0
        } else {
            k + 1
        };
        proof {
            lemma_next_slot(i as int, k0 as int, widths@.len() as int);
        }
        i = i + 1;
    }
    Ok(values)
}

/// Once reading fails, reading more fails too.
pub proof fn lemma_read_values_fails_after(s: Seq<bool>, pos: nat, widths: Seq<u8>, m: nat, n: nat)
    requires
        m <= n,
        spec_read_values(s, pos, widths, m) is None,
    ensures
        spec_read_values(s, pos, widths, n) is None,
    decreases n - m,
{
    if m < n {
        lemma_read_values_fails_after(s, pos, widths, m, (n - 1) as nat);
    }
}

/// Codes written with their widths read back, after any prefix and before any tail.
pub proof fn lemma_values_roundtrip(prefix: Seq<bool>, values: Seq<u64>, widths: Seq<u8>, tail: Seq<bool>)
    requires
        codes_fit(values, widths),
    ensures
        spec_read_values(prefix + cyc_bits(values, widths) + tail, prefix.len(), widths, values.len())
            == Some((values, prefix.len() + cyc_bits(values, widths).len())),
    decreases values.len(),
{
    let s = prefix + cyc_bits(values, widths) + tail;
    if values.len() == 0 {
        assert(values =~= Seq::<u64>::empty());
    } else {
        let n = values.len() - 1;
        let front = values.drop_last();
        let w = width_of(widths, n);
        let vb = value_bits(values.last() as nat, w);
        crate::bits::lemma_value_bits_len(values.last() as nat, w);
        assert forall|i: int| 0 <= i < front.len() implies #[trigger] front[i] < pow2(width_of(widths, i)) by {
            assert(front[i] == values[i]);
        }
        assert(s =~= prefix + cyc_bits(front, widths) + (vb + tail));
        lemma_values_roundtrip(prefix, front, widths, vb + tail);
        let p = prefix.len() + cyc_bits(front, widths).len();
        assert(w < 64) by {
            let k = n % (widths.len() as int);
            assert(0 <= k < widths.len());
        }
        assert(s.subrange(p as int, p + w as int) =~= vb);
        crate::bits::lemma_value_bits_value(values.last() as nat, w);
        vstd::arithmetic::div_mod::lemma_small_mod(values.last() as nat, pow2(w));
        assert(front.push(values.last()) =~= values);
    }
}

/// What reading `n` pairs of codes of `w` bits, a pair at a time, gives: the same as reading
/// the `2n` codes one by one.
pub open spec fn spec_read_pairs(s: Seq<bool>, pos: nat, w: u8, n: nat) -> Option<(Seq<u64>, nat)> {
    spec_read_values(s, pos, seq![w], 2 * n)
}

/// Reading two more codes one by one is reading one pair.
proof fn lemma_pair_step(s: Seq<bool>, p0: nat, w: u8, i: nat, before: Seq<u64>, p: nat)
    requires
        spec_read_values(s, p0, seq![w], 2 * i) == Some((before, p)),
    ensures
        spec_read_values(s, p0, seq![w], 2 * i + 2) == match crate::unaligned_rw::spec_read2(
            s,
            p,
            w as nat,
            w as nat,
        ) {
            Some((a, b, p2)) => Some((before.push(a as u64).push(b as u64), p2)),
            None => None,
        },
{
    assert(width_of(seq![w], (2 * i) as int) == w);
    assert(width_of(seq![w], (2 * i + 1) as int) == w);
    assert(spec_read_values(s, p0, seq![w], 2 * i + 1) == match spec_read(s, p, w as nat) {
        Some((a, p1)) => Some((before.push(a as u64), p1)),
        None => None,
    });
}

/// Reads `n` pairs of codes of `w` bits, a pair at a time.
pub fn read_pairs(reader: &mut UnalignedReader, n: u64, w: u8) -> (res: Result<Vec<u64>, StreamError>)
    requires
        n > 0 ==> w != 0,
    ensures
        final(reader).stream() == old(reader).stream(),
        match spec_read_pairs(old(reader).stream(), old(reader).pos(), w, n as nat) {
            Some((vs, p)) => res matches Ok(v) && v@ == vs && final(reader).pos() == p,
            None => res == Err::<Vec<u64>, StreamError>(StreamError::UnexpectedEof),
        },
{
    let ghost s = reader.stream();
    let ghost p0 = reader.pos();
    let mode = UnalignedRWMode::precision_bits(w);
    let mut values: Vec<u64> = Vec::new();
    let mut i: u64 = 0;
    while i < n
        invariant
            i <= n,
            n > 0 ==> w != 0,
            mode.width() == w,
            reader.stream() == s,
            s == old(reader).stream(),
            p0 == old(reader).pos(),
            spec_read_values(s, p0, seq![w], 2 * i as nat) == Some((values@, reader.pos())),
        decreases n - i,
    {
        let ghost p = reader.pos();
        let ghost before = values@;
        let (a, b) = match reader.read2_unaligned(mode) {
            Ok(pair) => pair,
            Err(e) => {
                proof {
                    lemma_pair_step(s, p0, w, i as nat, before, p);
                    lemma_read_values_fails_after(s, p0, seq![w], (2 * i + 2) as nat, 2 * n as nat);
                }
                return Err(e);
            },
        };
        values.push(a);
        values.push(b);
        proof {
            lemma_pair_step(s, p0, w, i as nat, before, p);
            assert(values@ =~= before.push(a).push(b));
        }
        i = i + 1;
    }
    Ok(values)
}

/// Reading `m + j` codes, where `m` is a whole number of cycles of widths, is reading the
/// first `m` and then `j` more from where they end.
pub proof fn lemma_read_values_split(s: Seq<bool>, pos: nat, widths: Seq<u8>, m: nat, j: nat)
    requires
        widths.len() > 0,
        m % widths.len() == 0,
    ensures
        spec_read_values(s, pos, widths, m + j) == match spec_read_values(s, pos, widths, m) {
            Some((vs, p)) => match spec_read_values(s, p, widths, j) {
                Some((vs2, p2)) => Some((vs + vs2, p2)),
                None => None,
            },
            None => None,
        },
    decreases j,
{
    if j == 0 {
        if let Some((vs, p)) = spec_read_values(s, pos, widths, m) {
            assert(vs + Seq::<u64>::empty() =~= vs);
        }
    } else {
        lemma_read_values_split(s, pos, widths, m, (j - 1) as nat);
        let l = widths.len() as int;
        assert(width_of(widths, m + j - 1) == width_of(widths, j - 1)) by {
            vstd::arithmetic::div_mod::lemma_add_mod_noop(m as int, j - 1, l);
            vstd::arithmetic::div_mod::lemma_mod_twice(j - 1, l);
        }
        if let Some((vs, p)) = spec_read_values(s, pos, widths, m) {
            if let Some((vs2, p2)) = spec_read_values(s, p, widths, (j - 1) as nat) {
                if let Some((v, p3)) = spec_read(s, p2, width_of(widths, j - 1)) {
                    assert((vs + vs2).push(v as u64) =~= vs + vs2.push(v as u64));
                }
            }
        }
    }
}

/// Reading `m + j` pairs is reading the first `m` and then `j` more from where they end.
pub proof fn lemma_read_pairs_split(s: Seq<bool>, pos: nat, w: u8, m: nat, j: nat)
    ensures
        spec_read_pairs(s, pos, w, m + j) == match spec_read_pairs(s, pos, w, m) {
            Some((vs, p)) => match spec_read_pairs(s, p, w, j) {
                Some((vs2, p2)) => Some((vs + vs2, p2)),
                None => None,
            },
            None => None,
        },
{
    lemma_read_values_split(s, pos, seq![w], 2 * m, 2 * j);
    assert(2 * m + 2 * j == 2 * (m + j));
}

} // verus!
