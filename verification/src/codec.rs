//! Bit-packed integer fields and NUL-padded strings inside a record.
use vstd::arithmetic::power2::{lemma2_to64, lemma_pow2_pos, lemma_pow2_unfold, pow2};
use vstd::prelude::*;
use vstd::string::StringSliceAdditionalSpecFns;

use crate::text::{lossy_string, utf8_text};

verus! {

/// The bit at absolute bit position `b` of `bytes`, counting LSB first in each byte.
pub open spec fn bit_at(bytes: Seq<u8>, b: int) -> u8 {
    (bytes[b / 8] >> ((b % 8) as u8)) & 1u8
}

/// The unsigned integer whose bit `i` is the bit at position `off + i`, for `i < n`.
pub open spec fn bits_value(bytes: Seq<u8>, off: int, n: nat) -> nat
    decreases n,
{
    if n == 0 {
        0
    } else {
        bits_value(bytes, off, (n - 1) as nat) + (bit_at(bytes, off + n - 1) as nat) * pow2(
            (n - 1) as nat,
        )
    }
}

/// Bit `i` of `v`.
pub open spec fn value_bit(v: u32, i: int) -> u8 {
    ((v >> (i as u32)) & 1u32) as u8
}

/// A field of `depth` bits at `bit_offset` lies inside a record of `len` bytes.
pub open spec fn bit_range_fits(len: nat, bit_offset: int, depth: int) -> bool {
    &&& 0 <= bit_offset
    &&& 0 <= depth
    &&& bit_offset + depth <= u32::MAX + 1
    &&& bit_offset + depth <= 8 * len
}

/// What writing `value` into `depth` bits at `bit_offset` makes of `old`.
pub open spec fn bits_written(old: Seq<u8>, new: Seq<u8>, bit_offset: int, depth: int, value: u32) -> bool {
    &&& new.len() == old.len()
    &&& forall|b: int|
        #![trigger bit_at(new, b)]
        0 <= b < 8 * new.len() ==> bit_at(new, b) == if bit_offset <= b < bit_offset + depth {
            value_bit(value, b - bit_offset)
        } else {
            bit_at(old, b)
        }
}

/// Largest value a field of `depth` bits can hold.
pub open spec fn spec_max_value_for_depth(depth: u32) -> nat {
    if depth >= 32 {
        u32::MAX as nat
    } else {
        (pow2(depth as nat) - 1) as nat
    }
}

proof fn lemma_shift_index(b: u32)
    ensures
        (b >> 3u32) as int == b as int / 8,
        (b & 7u32) as int == b as int % 8,
        b & 7u32 < 8,
{
    assert((b >> 3u32) == b / 8) by (bit_vector);
    assert((b & 7u32) == b % 8) by (bit_vector);
}

proof fn lemma_byte_in_range(b: int, len: int)
    requires
        0 <= b < 8 * len,
    ensures
        b / 8 < len,
{
    assert(b / 8 < len) by (nonlinear_arith)
        requires
            0 <= b < 8 * len,
    ;
}

proof fn lemma_or_bit(value: u32, bit: u32, i: u32)
    requires
        i < 32,
        bit <= 1,
        value < (1u32 << i),
    ensures
        value | (bit << i) == value + bit * (1u32 << i),
        i < 31 ==> (value | (bit << i)) < (1u32 << ((i + 1) as u32)),
{
    let j: u32 = (i + 1) as u32;
    assert(i < 32 && bit <= 1 && value < (1u32 << i) ==> value | (bit << i) == value + bit * (1u32
        << i)) by (bit_vector);
    assert(i < 31 && bit <= 1 && value < (1u32 << i) && j == i + 1 ==> (value | (bit << i)) < (1u32
        << j)) by (bit_vector);
}

proof fn lemma_one_shl(i: u32)
    requires
        i < 32,
    ensures
        (1u32 << i) as nat == pow2(i as nat),
{
    vstd::bits::lemma_u32_pow2_no_overflow(i as nat);
    vstd::bits::lemma_u32_shl_is_mul(1, i);
}

/// Reads `depth` bits (LSB first) starting at bit `bit_offset` of the record.
pub fn read_field_bits(record: &[u8], bit_offset: u32, depth: u32) -> (value: u32)
    requires
        depth <= 32,
        bit_range_fits(record@.len(), bit_offset as int, depth as int),
    ensures
        value as nat == bits_value(record@, bit_offset as int, depth as nat),
{
    assert(record@.skip(0) =~= record@);
    read_bits_at(record, 0, bit_offset, depth)
}

/// Reads `depth` bits starting at bit `bit_offset` of the record that begins at byte `base`.
pub(crate) fn read_bits_at(buf: &[u8], base: usize, bit_offset: u32, depth: u32) -> (value: u32)
    requires
        depth <= 32,
        base <= buf@.len(),
        bit_range_fits((buf@.len() - base) as nat, bit_offset as int, depth as int),
    ensures
        value as nat == bits_value(buf@.skip(base as int), bit_offset as int, depth as nat),
{
    let ghost rec = buf@.skip(base as int);
    let _n = buf.len();
    let mut value: u32 = 0;
    let mut i: u32 = 0;
    assert(0u32 < (1u32 << 0u32)) by (bit_vector);
    while i < depth
        invariant
            i <= depth <= 32,
            base <= buf@.len(),
            rec == buf@.skip(base as int),
            buf@.len() <= usize::MAX,
            bit_range_fits(rec.len(), bit_offset as int, depth as int),
            value as nat == bits_value(rec, bit_offset as int, i as nat),
            i < 32 ==> value < (1u32 << i),
        decreases depth - i,
    {
        let b: u32 = bit_offset + i;
        proof {
            lemma_shift_index(b);
            lemma_byte_in_range(b as int, (buf@.len() - base) as int);
        }
        let byte = buf[base + (b >> 3u32) as usize];
        let bit: u8 = (byte >> (b & 7u32)) & 1u8;
        assert(bit <= 1) by (bit_vector)
            requires
                bit == (byte >> (b & 7u32)) & 1u8,
        ;
        assert(byte == rec[b as int / 8]);
        assert(bit == bit_at(rec, bit_offset + i)) by {
            assert((b & 7u32) as u8 == ((b as int % 8) as u8));
        }
        proof {
            lemma_or_bit(value, bit as u32, i);
            lemma_one_shl(i);
        }
        value = value | ((bit as u32) << i);
        i = i + 1;
    }
    value
}

proof fn lemma_set_bit(x: u8, k: u8, j: u8)
    requires
        k < 8,
        j < 8,
    ensures
        ((x | (1u8 << k)) >> j) & 1u8 == if j == k {
            1u8
        } else {
            (x >> j) & 1u8
        },
        ((x & !(1u8 << k)) >> j) & 1u8 == if j == k {
            0u8
        } else {
            (x >> j) & 1u8
        },
{
    assert(k < 8 && j < 8 ==> ((x | (1u8 << k)) >> j) & 1u8 == if j == k {
        1u8
    } else {
        (x >> j) & 1u8
    }) by (bit_vector);
    assert(k < 8 && j < 8 ==> ((x & !(1u8 << k)) >> j) & 1u8 == if j == k {
        0u8
    } else {
        (x >> j) & 1u8
    }) by (bit_vector);
}

/// Writes the low `depth` bits of `value` (LSB first) at bit `bit_offset` of the record,
/// leaving every other bit unchanged.
pub fn write_field_bits(record: &mut [u8], bit_offset: u32, depth: u32, value: u32)
    requires
        depth <= 32,
        bit_range_fits(old(record)@.len(), bit_offset as int, depth as int),
    ensures
        bits_written(old(record)@, final(record)@, bit_offset as int, depth as int, value),
{
    write_bits_at(record, 0, bit_offset, depth, value);
    proof {
        assert(old(record)@.skip(0) == old(record)@);
        assert(final(record)@.skip(0) == final(record)@);
    }
}

/// Writes `depth` bits of `value` into the record that begins at byte `base` of `buf`.
pub(crate) fn write_bits_at(buf: &mut [u8], base: usize, bit_offset: u32, depth: u32, value: u32)
    requires
        depth <= 32,
        base <= old(buf)@.len(),
        bit_range_fits((old(buf)@.len() - base) as nat, bit_offset as int, depth as int),
    ensures
        final(buf)@.len() == old(buf)@.len(),
        final(buf)@.subrange(0, base as int) == old(buf)@.subrange(0, base as int),
        bits_written(
            old(buf)@.skip(base as int),
            final(buf)@.skip(base as int),
            bit_offset as int,
            depth as int,
            value,
        ),
{
    let ghost old_buf = buf@;
    let _n = buf.len();
    let mut i: u32 = 0;
    while i < depth
        invariant
            i <= depth <= 32,
            base <= old_buf.len(),
            buf@.len() == old_buf.len(),
            old_buf.len() <= usize::MAX,
            bit_range_fits((old_buf.len() - base) as nat, bit_offset as int, depth as int),
            buf@.subrange(0, base as int) == old_buf.subrange(0, base as int),
            bits_written(
                old_buf.skip(base as int),
                buf@.skip(base as int),
                bit_offset as int,
                i as int,
                value,
            ),
        decreases depth - i,
    {
        let b: u32 = bit_offset + i;
        proof {
            lemma_shift_index(b);
            lemma_byte_in_range(b as int, (buf@.len() - base) as int);
        }
        let byte_idx = base + (b >> 3u32) as usize;
        let bit_idx: u32 = b & 7u32;
        let bit_val: u32 = (value >> i) & 1u32;
        let ghost before = buf@;
        assert(bit_val <= 1) by (bit_vector)
            requires
                bit_val == (value >> i) & 1u32,
        ;
        assert(value_bit(value, i as int) == bit_val as u8);
        let cur = buf[byte_idx];
        let k: u8 = bit_idx as u8;
        if bit_val == 1 {
            buf[byte_idx] = cur | (1u8 << k);
        } else {
            buf[byte_idx] = cur & !(1u8 << k);
        }
        proof {
            let nr = buf@.skip(base as int);
            let pr = before.skip(base as int);
            let orig = old_buf.skip(base as int);
            assert(buf@.subrange(0, base as int) =~= before.subrange(0, base as int));
            assert forall|c: int| 0 <= c < 8 * nr.len() implies #[trigger] bit_at(nr, c) == if bit_offset
                <= c < bit_offset + i + 1 {
                value_bit(value, c - bit_offset)
            } else {
                bit_at(orig, c)
            } by {
                let j: u8 = (c % 8) as u8;
                lemma_set_bit(cur, k, j);
                assert(bit_at(pr, c) == if bit_offset <= c < bit_offset + i {
                    value_bit(value, c - bit_offset)
                } else {
                    bit_at(orig, c)
                });
                if c / 8 == b as int / 8 {
                    assert(nr[c / 8] == buf@[byte_idx as int]);
                    assert(pr[c / 8] == cur);
                    if c == b as int {
                        assert(j == k);
                        assert(c - bit_offset == i as int);
                        assert(value_bit(value, c - bit_offset) == bit_val as u8);
                    } else {
                        assert(j != k);
                    }
                } else {
                    assert(nr[c / 8] == pr[c / 8]);
                }
            }
        }
        i = i + 1;
    }
}

/// `s` with bit `b` set to `x` (1) or cleared (0).
pub open spec fn set_bit_in(s: Seq<u8>, b: int, x: u8) -> Seq<u8> {
    let k = (b % 8) as u8;
    s.update(b / 8, if x == 1u8 { s[b / 8] | (1u8 << k) } else { s[b / 8] & !(1u8 << k) })
}

/// `s` with the low `i` bits of `value` written at bit `off`, one bit after another.
pub open spec fn with_bits(s: Seq<u8>, off: int, value: u32, i: int) -> Seq<u8>
    decreases i,
{
    if i <= 0 {
        s
    } else {
        set_bit_in(with_bits(s, off, value, i - 1), off + i - 1, value_bit(value, i - 1))
    }
}

/// Some bytes are what writing `value` into `depth` bits at `bit_offset` makes of `s`.
pub proof fn lemma_with_bits(s: Seq<u8>, off: int, depth: int, value: u32, i: int)
    requires
        depth <= 32,
        bit_range_fits(s.len(), off, depth),
        0 <= i <= depth,
    ensures
        bits_written(s, with_bits(s, off, value, i), off, i, value),
    decreases i,
{
    if i > 0 {
        lemma_with_bits(s, off, depth, value, i - 1);
        let prev = with_bits(s, off, value, i - 1);
        let nr = with_bits(s, off, value, i);
        let b = off + i - 1;
        let k = (b % 8) as u8;
        let vb = value_bit(value, i - 1);
        let iu = (i - 1) as u32;
        assert(((value >> iu) & 1u32) <= 1u32) by (bit_vector);
        assert(vb == 0 || vb == 1);
        lemma_byte_in_range(b, s.len() as int);
        assert forall|c: int| 0 <= c < 8 * nr.len() implies #[trigger] bit_at(nr, c) == if off <= c < off + i {
            value_bit(value, c - off)
        } else {
            bit_at(s, c)
        } by {
            let j: u8 = (c % 8) as u8;
            let cur = prev[b / 8];
            lemma_set_bit(cur, k, j);
            lemma_byte_in_range(c, s.len() as int);
            assert(bit_at(prev, c) == if off <= c < off + i - 1 {
                value_bit(value, c - off)
            } else {
                bit_at(s, c)
            });
            if c / 8 == b / 8 {
                if c == b {
                    assert(j == k);
                } else {
                    assert(j != k);
                }
            } else {
                assert(nr[c / 8] == prev[c / 8]);
            }
        }
    }
}

/// The largest value that fits in `depth` bits (`u32::MAX` from 32 bits on).
pub fn max_value_for_depth(depth: u32) -> (r: u32)
    ensures
        r as nat == spec_max_value_for_depth(depth),
{
    if depth >= 32 {
        u32::MAX
    } else {
        proof {
            lemma_one_shl(depth);
            lemma_pow2_pos(depth as nat);
        }
        (1u32 << depth) - 1
    }
}

proof fn lemma_mod_split(v: u32, k: u32)
    requires
        k < 32,
    ensures
        (v as nat) % pow2((k + 1) as nat) == (v as nat) % pow2(k as nat) + (value_bit(v, k as int)
            as nat) * pow2(k as nat),
{
    let p = pow2(k as nat);
    lemma_pow2_pos(k as nat);
    lemma_pow2_unfold((k + 1) as nat);
    vstd::bits::lemma_u32_shr_is_div(v, k);
    let q: u32 = v >> k;
    assert((q & 1u32) == q % 2) by (bit_vector);
    assert((q & 1u32) <= 1) by (bit_vector);
    vstd::arithmetic::div_mod::lemma_mod_breakdown(v as int, p as int, 2);
    assert(p * 2 == pow2((k + 1) as nat)) by (nonlinear_arith)
        requires
            pow2((k + 1) as nat) == 2 * p,
    ;
    assert(value_bit(v, k as int) as nat == (v as nat / p) % 2);
    assert(p * ((v as nat / p) % 2) == ((v as nat / p) % 2) * p) by (nonlinear_arith);
}

proof fn lemma_written_prefix(old: Seq<u8>, new: Seq<u8>, bit_offset: int, depth: int, value: u32, n: nat)
    requires
        n <= depth <= 32,
        bit_range_fits(old.len(), bit_offset, depth),
        bits_written(old, new, bit_offset, depth, value),
    ensures
        bits_value(new, bit_offset, n) == (value as nat) % pow2(n),
    decreases n,
{
    if n == 0 {
        lemma2_to64();
    } else {
        let m = (n - 1) as nat;
        lemma_written_prefix(old, new, bit_offset, depth, value, m);
        assert(bit_at(new, bit_offset + m) == value_bit(value, m as int));
        lemma_mod_split(value, m as u32);
    }
}

/// The position of the first NUL byte at or after `from`, or the length.
pub open spec fn nul_pos(b: Seq<u8>, from: int) -> int
    decreases b.len() - from,
{
    if from < 0 || from >= b.len() {
        b.len() as int
    } else if b[from] == 0 {
        from
    } else {
        nul_pos(b, from + 1)
    }
}

/// The bytes before the first NUL.
pub open spec fn until_nul(b: Seq<u8>) -> Seq<u8> {
    b.subrange(0, nul_pos(b, 0))
}

/// `value` followed by NUL bytes, cut or padded to `n` bytes.
pub open spec fn nul_padded(value: Seq<u8>, n: int) -> Seq<u8> {
    Seq::new(n as nat, |i: int| if i < value.len() { value[i] } else { 0u8 })
}

pub proof fn lemma_nul_pos_bounds(b: Seq<u8>, from: int)
    requires
        0 <= from,
    ensures
        from <= nul_pos(b, from) <= b.len() || (from > b.len() && nul_pos(b, from) == b.len()),
    decreases b.len() - from,
{
    if from < b.len() && b[from] != 0 {
        lemma_nul_pos_bounds(b, from + 1);
    }
}

/// The text before the first NUL byte (all of it if there is none), decoded as
/// `String::from_utf8_lossy` does.
pub fn read_null_padded_string(bytes: &[u8]) -> (s: String)
    ensures
        s@ == utf8_text(until_nul(bytes@)),
{
    let mut end: usize = 0;
    while end < bytes.len() && bytes[end] != 0
        invariant
            end <= bytes@.len(),
            nul_pos(bytes@, 0) == nul_pos(bytes@, end as int),
        decreases bytes@.len() - end,
    {
        end = end + 1;
    }
    lossy_string(&bytes[0..end])
}

/// Writes the bytes of `value` into `dest`, cut to its length, and fills the rest with NUL.
pub fn write_null_padded_string(dest: &mut [u8], value: &str)
    ensures
        final(dest)@ == nul_padded(value.spec_bytes(), old(dest)@.len() as int),
{
    let bytes = value.as_bytes();
    let n = dest.len();
    let mut i: usize = 0;
    while i < n
        invariant
            n == dest@.len(),
            n == old(dest)@.len(),
            bytes@ == value.spec_bytes(),
            i <= n,
            forall|k: int| 0 <= k < i ==> #[trigger] dest@[k] == nul_padded(bytes@, n as int)[k],
        decreases n - i,
    {
        if i < bytes.len() {
            dest[i] = bytes[i];
        } else {
            dest[i] = 0;
        }
        i = i + 1;
    }
    assert(dest@ =~= nul_padded(bytes@, n as int));
}

proof fn lemma_byte_from_bits(x: u8, y: u8)
    requires
        (x >> 0u8) & 1u8 == (y >> 0u8) & 1u8,
        (x >> 1u8) & 1u8 == (y >> 1u8) & 1u8,
        (x >> 2u8) & 1u8 == (y >> 2u8) & 1u8,
        (x >> 3u8) & 1u8 == (y >> 3u8) & 1u8,
        (x >> 4u8) & 1u8 == (y >> 4u8) & 1u8,
        (x >> 5u8) & 1u8 == (y >> 5u8) & 1u8,
        (x >> 6u8) & 1u8 == (y >> 6u8) & 1u8,
        (x >> 7u8) & 1u8 == (y >> 7u8) & 1u8,
    ensures
        x == y,
{
    assert(x == y) by (bit_vector)
        requires
            (x >> 0u8) & 1u8 == (y >> 0u8) & 1u8,
            (x >> 1u8) & 1u8 == (y >> 1u8) & 1u8,
            (x >> 2u8) & 1u8 == (y >> 2u8) & 1u8,
            (x >> 3u8) & 1u8 == (y >> 3u8) & 1u8,
            (x >> 4u8) & 1u8 == (y >> 4u8) & 1u8,
            (x >> 5u8) & 1u8 == (y >> 5u8) & 1u8,
            (x >> 6u8) & 1u8 == (y >> 6u8) & 1u8,
            (x >> 7u8) & 1u8 == (y >> 7u8) & 1u8,
    ;
}

/// A byte whose eight bits agree with another's is that byte.
pub proof fn lemma_byte_of_bits(a: Seq<u8>, b: Seq<u8>, i: int)
    requires
        0 <= i < a.len(),
        0 <= i < b.len(),
        forall|k: int| 8 * i <= k < 8 * i + 8 ==> #[trigger] bit_at(a, k) == bit_at(b, k),
    ensures
        a[i] == b[i],
{
    assert(bit_at(a, 8 * i) == bit_at(b, 8 * i));
    assert(bit_at(a, 8 * i + 1) == bit_at(b, 8 * i + 1));
    assert(bit_at(a, 8 * i + 2) == bit_at(b, 8 * i + 2));
    assert(bit_at(a, 8 * i + 3) == bit_at(b, 8 * i + 3));
    assert(bit_at(a, 8 * i + 4) == bit_at(b, 8 * i + 4));
    assert(bit_at(a, 8 * i + 5) == bit_at(b, 8 * i + 5));
    assert(bit_at(a, 8 * i + 6) == bit_at(b, 8 * i + 6));
    assert(bit_at(a, 8 * i + 7) == bit_at(b, 8 * i + 7));
    assert((8 * i) / 8 == i && (8 * i) % 8 == 0) by (nonlinear_arith);
    assert((8 * i + 1) / 8 == i && (8 * i + 1) % 8 == 1) by (nonlinear_arith);
    assert((8 * i + 2) / 8 == i && (8 * i + 2) % 8 == 2) by (nonlinear_arith);
    assert((8 * i + 3) / 8 == i && (8 * i + 3) % 8 == 3) by (nonlinear_arith);
    assert((8 * i + 4) / 8 == i && (8 * i + 4) % 8 == 4) by (nonlinear_arith);
    assert((8 * i + 5) / 8 == i && (8 * i + 5) % 8 == 5) by (nonlinear_arith);
    assert((8 * i + 6) / 8 == i && (8 * i + 6) % 8 == 6) by (nonlinear_arith);
    assert((8 * i + 7) / 8 == i && (8 * i + 7) % 8 == 7) by (nonlinear_arith);
    lemma_byte_from_bits(a[i], b[i]);
}

/// Sequences of bytes whose bits all agree are equal.
pub proof fn lemma_bits_determine_bytes(a: Seq<u8>, b: Seq<u8>)
    requires
        a.len() == b.len(),
        forall|k: int| 0 <= k < 8 * a.len() ==> #[trigger] bit_at(a, k) == bit_at(b, k),
    ensures
        a == b,
{
    assert forall|i: int| 0 <= i < a.len() implies a[i] == b[i] by {
        lemma_byte_of_bits(a, b, i);
    }
    assert(a =~= b);
}

/// What a field write does is determined: two results of the same write are equal.
pub proof fn lemma_bits_written_unique(old: Seq<u8>, n1: Seq<u8>, n2: Seq<u8>, bit_offset: int, depth: int, value: u32)
    requires
        bits_written(old, n1, bit_offset, depth, value),
        bits_written(old, n2, bit_offset, depth, value),
    ensures
        n1 == n2,
{
    assert forall|k: int| 0 <= k < 8 * n1.len() implies #[trigger] bit_at(n1, k) == bit_at(n2, k) by {
        assert(bit_at(n1, k) == bit_at(n2, k));
    }
    lemma_bits_determine_bytes(n1, n2);
}

/// Writing a value into a field and reading the field back gives the value modulo `2^depth`.
pub proof fn lemma_write_then_read(old: Seq<u8>, new: Seq<u8>, bit_offset: int, depth: nat, value: u32)
    requires
        depth <= 32,
        bit_range_fits(old.len(), bit_offset, depth as int),
        bits_written(old, new, bit_offset, depth as int, value),
    ensures
        bits_value(new, bit_offset, depth) == (value as nat) % pow2(depth),
        value <= spec_max_value_for_depth(depth as u32) ==> bits_value(new, bit_offset, depth)
            == value as nat,
{
    lemma_written_prefix(old, new, bit_offset, depth as int, value, depth);
    lemma_pow2_pos(depth);
    if depth < 32 {
        assert(value <= spec_max_value_for_depth(depth as u32) ==> (value as nat) < pow2(depth));
        if (value as nat) < pow2(depth) {
            vstd::arithmetic::div_mod::lemma_small_mod(value as nat, pow2(depth));
        }
    } else {
        lemma2_to64();
        vstd::arithmetic::div_mod::lemma_small_mod(value as nat, pow2(depth));
    }
}

/// Writing one field leaves the value of any field that does not overlap it unchanged.
pub proof fn lemma_write_keeps_other_fields(
    old: Seq<u8>,
    new: Seq<u8>,
    bit_offset: int,
    depth: int,
    value: u32,
    other_offset: int,
    other_depth: nat,
)
    requires
        depth <= 32,
        bit_range_fits(old.len(), bit_offset, depth),
        bits_written(old, new, bit_offset, depth, value),
        bit_range_fits(old.len(), other_offset, other_depth as int),
        other_offset + other_depth <= bit_offset || bit_offset + depth <= other_offset,
    ensures
        bits_value(new, other_offset, other_depth) == bits_value(old, other_offset, other_depth),
    decreases other_depth,
{
    if other_depth > 0 {
        let m = (other_depth - 1) as nat;
        lemma_write_keeps_other_fields(old, new, bit_offset, depth, value, other_offset, m);
        assert(bit_at(new, other_offset + m) == bit_at(old, other_offset + m));
    }
}

} // verus!
