//! What the file format fixes, stated apart from the code that reads it: the database
//! checksum as a bit-by-bit division, the byte order of a long string's length, how a
//! schema's `rangelow` reads back, and the type codes of field descriptors.
use vstd::prelude::*;
use vstd::utf8::encode_utf8;

use crate::crc::{crc32_register, crc32_shift, crc32_steps, db11_register, db11_shift, db11_steps, spec_crc32, spec_crc_db11};
use crate::fields::decode_cstr;
use crate::huffman::spec_node_count;
use crate::meta::{attr_rangelow, TableMeta};
use crate::model::{FieldDescriptor, FieldType, TableInfo};
use crate::parse::{desc_matches, i32le};
use crate::reimport::lemma_parse_int_decimal;
use crate::text::int_decimal;

verus! {

// ---------------------------------------------------------------------------------------
// The database checksum, one message bit at a time
// ---------------------------------------------------------------------------------------

/// Bit `i` of `b`, counting from the most significant (bit 0) to the least (bit 7).
pub open spec fn msb_bit(b: u8, i: int) -> bool {
    ((b as u32) >> ((7 - i) as u32)) & 1u32 == 1u32
}

/// One step of the checksum's shift register fed one message bit: the register moves one
/// place left, and the polynomial `0x04C11DB7` is folded in when the bit that leaves the top
/// differs from the message bit.
pub open spec fn lfsr_step(r: u32, bit: bool) -> u32 {
    if ((r >> 31u32) == 1u32) != bit {
        (r << 1u32) ^ 0x04C1_1DB7u32
    } else {
        r << 1u32
    }
}

/// The register after the first `i` bits of `b`, most significant bit first.
pub open spec fn lfsr_byte(r: u32, b: u8, i: nat) -> u32
    decreases i,
{
    if i == 0 {
        r
    } else {
        lfsr_step(lfsr_byte(r, b, (i - 1) as nat), msb_bit(b, i - 1))
    }
}

/// The register after every bit of `bytes`, each byte most significant bit first, starting
/// from all ones: the remainder of the MSB-first polynomial division of the message.
pub open spec fn lfsr_register(bytes: Seq<u8>) -> u32
    decreases bytes.len(),
{
    if bytes.len() == 0 {
        0xFFFF_FFFFu32
    } else {
        lfsr_byte(lfsr_register(bytes.drop_last()), bytes.last(), 8)
    }
}

proof fn lemma_register_step(s: u32, c: u32, j: u32)
    by (bit_vector)
    requires
        c < 256,
        j < 8,
    ensures
        db11_shift(s ^ ((c << 24u32) << j)) == lfsr_step(s, ((c >> ((7u32 - j) as u32)) & 1u32) == 1u32) ^ ((
        c << 24u32) << ((j + 1u32) as u32)),
{
}

proof fn lemma_byte_shifted_out(c: u32)
    by (bit_vector)
    requires
        c < 256,
    ensures
        (c << 24u32) << 8u32 == 0u32,
        (c << 24u32) << 0u32 == c << 24u32,
{
}

/// Taking a byte in at the top of the register and shifting 8 times is feeding its bits to
/// the shift register one by one, most significant first.
proof fn lemma_byte_steps(x: u32, b: u8, j: nat)
    requires
        j <= 8,
    ensures
        db11_steps(x ^ ((b as u32) << 24u32), j) == lfsr_byte(x, b, j) ^ (((b as u32) << 24u32) << (
        j as u32)),
    decreases j,
{
    let c = b as u32;
    lemma_byte_shifted_out(c);
    if j > 0 {
        let i = (j - 1) as nat;
        lemma_byte_steps(x, b, i);
        lemma_register_step(lfsr_byte(x, b, i), c, i as u32);
        assert((7 - (i as int)) as u32 == ((7u32 - (i as u32)) as u32));
        assert(((i as u32) + 1u32) as u32 == j as u32);
    }
}

/// The database checksum is the MSB-first CRC of the message: its register is the one a shift
/// register reaches when fed every bit of the input, each byte from its most significant bit,
/// so each byte enters at the top (bit 24 and up) of the register.
pub proof fn law_db11_is_msb_first_division(bytes: Seq<u8>)
    ensures
        db11_register(bytes) == lfsr_register(bytes),
        spec_crc_db11(bytes) == lfsr_register(bytes) as i32,
    decreases bytes.len(),
{
    if bytes.len() > 0 {
        law_db11_is_msb_first_division(bytes.drop_last());
        let x = db11_register(bytes.drop_last());
        let b = bytes.last();
        lemma_byte_steps(x, b, 8);
        lemma_byte_shifted_out(b as u32);
        assert((8nat as u32) == 8u32);
        let r = lfsr_byte(x, b, 8);
        assert(r ^ 0u32 == r) by (bit_vector);
        assert(db11_register(bytes) == db11_steps(x ^ ((b as u32) << 24u32), 8));
    }
}

/// Eight bit steps of the database checksum, written out.
spec fn shift8(x: u32) -> u32 {
    db11_shift(db11_shift(db11_shift(db11_shift(db11_shift(db11_shift(db11_shift(db11_shift(x))))))))
}

proof fn lemma_steps_8(x: u32)
    ensures
        db11_steps(x, 8) == shift8(x),
{
    reveal_with_fuel(db11_steps, 9);
}

/// The database checksum of the ASCII text "123456789" is the CRC-32/MPEG-2 check value
/// `0x0376E6E7`.
pub proof fn law_db11_check_value()
    ensures
        spec_crc_db11(seq![49u8, 50u8, 51u8, 52u8, 53u8, 54u8, 55u8, 56u8, 57u8]) == 0x0376E6E7i32,
{
    assert({
        &&& shift8(0xFFFFFFFFu32 ^ (49u32 << 24u32)) == 0x9EFBCF93u32
        &&& shift8(0x9EFBCF93u32 ^ (50u32 << 24u32)) == 0x3FEC5E6Au32
        &&& shift8(0x3FEC5E6Au32 ^ (51u32 << 24u32)) == 0xD952F164u32
        &&& shift8(0xD952F164u32 ^ (52u32 << 24u32)) == 0xA695C4AAu32
        &&& shift8(0xA695C4AAu32 ^ (53u32 << 24u32)) == 0xBD9AB747u32
        &&& shift8(0xBD9AB747u32 ^ (54u32 << 24u32)) == 0xD8F06C8Fu32
        &&& shift8(0xD8F06C8Fu32 ^ (55u32 << 24u32)) == 0x0D8A14C4u32
        &&& shift8(0x0D8A14C4u32 ^ (56u32 << 24u32)) == 0x49E3C2FBu32
        &&& shift8(0x49E3C2FBu32 ^ (57u32 << 24u32)) == 0x0376E6E7u32
    }) by (bit_vector);
    let m = seq![49u8, 50u8, 51u8, 52u8, 53u8, 54u8, 55u8, 56u8, 57u8];
    assert(m.take(0) =~= Seq::<u8>::empty());
    assert(db11_register(m.take(0)) == 0xFFFF_FFFFu32);
    assert(m.take(1).drop_last() =~= m.take(0) && m.take(1).last() == 49u8);
    lemma_steps_8(0xFFFFFFFFu32 ^ (49u32 << 24u32));
    assert(db11_steps(0xFFFFFFFFu32 ^ ((49u8 as u32) << 24u32), 8) == db11_steps(0xFFFFFFFFu32 ^ (49u32 << 24u32), 8));
    assert(db11_register(m.take(1)) == 0x9EFBCF93u32);
    assert(m.take(2).drop_last() =~= m.take(1) && m.take(2).last() == 50u8);
    lemma_steps_8(0x9EFBCF93u32 ^ (50u32 << 24u32));
    assert(db11_steps(0x9EFBCF93u32 ^ ((50u8 as u32) << 24u32), 8) == db11_steps(0x9EFBCF93u32 ^ (50u32 << 24u32), 8));
    assert(db11_register(m.take(2)) == 0x3FEC5E6Au32);
    assert(m.take(3).drop_last() =~= m.take(2) && m.take(3).last() == 51u8);
    lemma_steps_8(0x3FEC5E6Au32 ^ (51u32 << 24u32));
    assert(db11_steps(0x3FEC5E6Au32 ^ ((51u8 as u32) << 24u32), 8) == db11_steps(0x3FEC5E6Au32 ^ (51u32 << 24u32), 8));
    assert(db11_register(m.take(3)) == 0xD952F164u32);
    assert(m.take(4).drop_last() =~= m.take(3) && m.take(4).last() == 52u8);
    lemma_steps_8(0xD952F164u32 ^ (52u32 << 24u32));
    assert(db11_steps(0xD952F164u32 ^ ((52u8 as u32) << 24u32), 8) == db11_steps(0xD952F164u32 ^ (52u32 << 24u32), 8));
    assert(db11_register(m.take(4)) == 0xA695C4AAu32);
    assert(m.take(5).drop_last() =~= m.take(4) && m.take(5).last() == 53u8);
    lemma_steps_8(0xA695C4AAu32 ^ (53u32 << 24u32));
    assert(db11_steps(0xA695C4AAu32 ^ ((53u8 as u32) << 24u32), 8) == db11_steps(0xA695C4AAu32 ^ (53u32 << 24u32), 8));
    assert(db11_register(m.take(5)) == 0xBD9AB747u32);
    assert(m.take(6).drop_last() =~= m.take(5) && m.take(6).last() == 54u8);
    lemma_steps_8(0xBD9AB747u32 ^ (54u32 << 24u32));
    assert(db11_steps(0xBD9AB747u32 ^ ((54u8 as u32) << 24u32), 8) == db11_steps(0xBD9AB747u32 ^ (54u32 << 24u32), 8));
    assert(db11_register(m.take(6)) == 0xD8F06C8Fu32);
    assert(m.take(7).drop_last() =~= m.take(6) && m.take(7).last() == 55u8);
    lemma_steps_8(0xD8F06C8Fu32 ^ (55u32 << 24u32));
    assert(db11_steps(0xD8F06C8Fu32 ^ ((55u8 as u32) << 24u32), 8) == db11_steps(0xD8F06C8Fu32 ^ (55u32 << 24u32), 8));
    assert(db11_register(m.take(7)) == 0x0D8A14C4u32);
    assert(m.take(8).drop_last() =~= m.take(7) && m.take(8).last() == 56u8);
    lemma_steps_8(0x0D8A14C4u32 ^ (56u32 << 24u32));
    assert(db11_steps(0x0D8A14C4u32 ^ ((56u8 as u32) << 24u32), 8) == db11_steps(0x0D8A14C4u32 ^ (56u32 << 24u32), 8));
    assert(db11_register(m.take(8)) == 0x49E3C2FBu32);
    assert(m.take(9).drop_last() =~= m.take(8) && m.take(9).last() == 57u8);
    lemma_steps_8(0x49E3C2FBu32 ^ (57u32 << 24u32));
    assert(db11_steps(0x49E3C2FBu32 ^ ((57u8 as u32) << 24u32), 8) == db11_steps(0x49E3C2FBu32 ^ (57u32 << 24u32), 8));
    assert(db11_register(m.take(9)) == 0x0376E6E7u32);
    assert(m.take(9) =~= m);
}

// ---------------------------------------------------------------------------------------
// The container checksum, one message bit at a time
// ---------------------------------------------------------------------------------------

/// Bit `i` of `b`, counting from the least significant (bit 0).
pub open spec fn lsb_bit(b: u8, i: int) -> bool {
    ((b as u32) >> (i as u32)) & 1u32 == 1u32
}

/// One step of the reflected shift register fed one message bit: the register moves one
/// place right, and the reflected polynomial `0xEDB88320` is folded in when the bit that
/// leaves the bottom differs from the message bit.
pub open spec fn rlfsr_step(r: u32, bit: bool) -> u32 {
    if ((r & 1u32) == 1u32) != bit {
        (r >> 1u32) ^ 0xEDB8_8320u32
    } else {
        r >> 1u32
    }
}

/// The reflected register after the first `i` bits of `b`, least significant bit first.
pub open spec fn rlfsr_byte(r: u32, b: u8, i: nat) -> u32
    decreases i,
{
    if i == 0 {
        r
    } else {
        rlfsr_step(rlfsr_byte(r, b, (i - 1) as nat), lsb_bit(b, i - 1))
    }
}

/// The reflected register after every bit of `bytes`, each byte least significant bit
/// first, starting from all ones.
pub open spec fn rlfsr_register(bytes: Seq<u8>) -> u32
    decreases bytes.len(),
{
    if bytes.len() == 0 {
        0xFFFF_FFFFu32
    } else {
        rlfsr_byte(rlfsr_register(bytes.drop_last()), bytes.last(), 8)
    }
}

proof fn lemma_rregister_step(s: u32, c: u32, j: u32)
    by (bit_vector)
    requires
        c < 256,
        j < 8,
    ensures
        crc32_shift(s ^ (c >> j)) == rlfsr_step(s, ((c >> j) & 1u32) == 1u32) ^ (c >> ((j + 1u32) as u32)),
{
}

proof fn lemma_rbyte_shifted_out(c: u32)
    by (bit_vector)
    requires
        c < 256,
    ensures
        c >> 8u32 == 0u32,
        c >> 0u32 == c,
{
}

/// Taking a byte in at the bottom of the register and shifting 8 times is feeding its bits
/// to the reflected shift register one by one, least significant first.
proof fn lemma_rbyte_steps(x: u32, b: u8, j: nat)
    requires
        j <= 8,
    ensures
        crc32_steps(x ^ (b as u32), j) == rlfsr_byte(x, b, j) ^ ((b as u32) >> (j as u32)),
    decreases j,
{
    let c = b as u32;
    lemma_rbyte_shifted_out(c);
    if j > 0 {
        let i = (j - 1) as nat;
        lemma_rbyte_steps(x, b, i);
        lemma_rregister_step(rlfsr_byte(x, b, i), c, i as u32);
        assert(((i as u32) + 1u32) as u32 == j as u32);
    } else {
        assert((0nat as u32) == 0u32);
    }
}

/// The container checksum is the reflected CRC-32 of the message: its register is the one a
/// reflected shift register reaches when fed every bit of the input, each byte from its
/// least significant bit, and the stored value is that register with every bit inverted.
pub proof fn law_crc32_is_lsb_first_division(bytes: Seq<u8>)
    ensures
        crc32_register(bytes) == rlfsr_register(bytes),
        spec_crc32(bytes) == !rlfsr_register(bytes),
    decreases bytes.len(),
{
    if bytes.len() > 0 {
        law_crc32_is_lsb_first_division(bytes.drop_last());
        let x = crc32_register(bytes.drop_last());
        let b = bytes.last();
        lemma_rbyte_steps(x, b, 8);
        lemma_rbyte_shifted_out(b as u32);
        assert((8nat as u32) == 8u32);
        let r = rlfsr_byte(x, b, 8);
        assert(r ^ 0u32 == r) by (bit_vector);
    }
}

/// Eight bit steps of the container checksum, written out.
spec fn rshift8(x: u32) -> u32 {
    crc32_shift(crc32_shift(crc32_shift(crc32_shift(crc32_shift(crc32_shift(crc32_shift(crc32_shift(x))))))))
}

proof fn lemma_rsteps_8(x: u32)
    ensures
        crc32_steps(x, 8) == rshift8(x),
{
    reveal_with_fuel(crc32_steps, 9);
}

/// The container checksum of the ASCII text "123456789" is the CRC-32 check value
/// `0xCBF43926`.
pub proof fn law_crc32_check_value()
    ensures
        spec_crc32(seq![49u8, 50u8, 51u8, 52u8, 53u8, 54u8, 55u8, 56u8, 57u8]) == 0xCBF4_3926u32,
{
    assert({
        &&& rshift8(0xFFFFFFFFu32 ^ 49u32) == 0x7C231048u32
        &&& rshift8(0x7C231048u32 ^ 50u32) == 0xB0ACBB32u32
        &&& rshift8(0xB0ACBB32u32 ^ 51u32) == 0x77B79C2Du32
        &&& rshift8(0x77B79C2Du32 ^ 52u32) == 0x641C1F5Cu32
        &&& rshift8(0x641C1F5Cu32 ^ 53u32) == 0x340AC5E3u32
        &&& rshift8(0x340AC5E3u32 ^ 54u32) == 0xF68D2C9Eu32
        &&& rshift8(0xF68D2C9Eu32 ^ 55u32) == 0xAFFC9660u32
        &&& rshift8(0xAFFC9660u32 ^ 56u32) == 0x651F2550u32
        &&& rshift8(0x651F2550u32 ^ 57u32) == 0x340BC6D9u32
        &&& !0x340BC6D9u32 == 0xCBF4_3926u32
    }) by (bit_vector);
    let m = seq![49u8, 50u8, 51u8, 52u8, 53u8, 54u8, 55u8, 56u8, 57u8];
    assert(m.take(0) =~= Seq::<u8>::empty());
    assert(crc32_register(m.take(0)) == 0xFFFF_FFFFu32);
    assert(m.take(1).drop_last() =~= m.take(0) && m.take(1).last() == 49u8);
    lemma_rsteps_8(0xFFFFFFFFu32 ^ 49u32);
    assert(crc32_steps(0xFFFFFFFFu32 ^ (49u8 as u32), 8) == crc32_steps(0xFFFFFFFFu32 ^ 49u32, 8));
    assert(crc32_register(m.take(1)) == 0x7C231048u32);
    assert(m.take(2).drop_last() =~= m.take(1) && m.take(2).last() == 50u8);
    lemma_rsteps_8(0x7C231048u32 ^ 50u32);
    assert(crc32_steps(0x7C231048u32 ^ (50u8 as u32), 8) == crc32_steps(0x7C231048u32 ^ 50u32, 8));
    assert(crc32_register(m.take(2)) == 0xB0ACBB32u32);
    assert(m.take(3).drop_last() =~= m.take(2) && m.take(3).last() == 51u8);
    lemma_rsteps_8(0xB0ACBB32u32 ^ 51u32);
    assert(crc32_steps(0xB0ACBB32u32 ^ (51u8 as u32), 8) == crc32_steps(0xB0ACBB32u32 ^ 51u32, 8));
    assert(crc32_register(m.take(3)) == 0x77B79C2Du32);
    assert(m.take(4).drop_last() =~= m.take(3) && m.take(4).last() == 52u8);
    lemma_rsteps_8(0x77B79C2Du32 ^ 52u32);
    assert(crc32_steps(0x77B79C2Du32 ^ (52u8 as u32), 8) == crc32_steps(0x77B79C2Du32 ^ 52u32, 8));
    assert(crc32_register(m.take(4)) == 0x641C1F5Cu32);
    assert(m.take(5).drop_last() =~= m.take(4) && m.take(5).last() == 53u8);
    lemma_rsteps_8(0x641C1F5Cu32 ^ 53u32);
    assert(crc32_steps(0x641C1F5Cu32 ^ (53u8 as u32), 8) == crc32_steps(0x641C1F5Cu32 ^ 53u32, 8));
    assert(crc32_register(m.take(5)) == 0x340AC5E3u32);
    assert(m.take(6).drop_last() =~= m.take(5) && m.take(6).last() == 54u8);
    lemma_rsteps_8(0x340AC5E3u32 ^ 54u32);
    assert(crc32_steps(0x340AC5E3u32 ^ (54u8 as u32), 8) == crc32_steps(0x340AC5E3u32 ^ 54u32, 8));
    assert(crc32_register(m.take(6)) == 0xF68D2C9Eu32);
    assert(m.take(7).drop_last() =~= m.take(6) && m.take(7).last() == 55u8);
    lemma_rsteps_8(0xF68D2C9Eu32 ^ 55u32);
    assert(crc32_steps(0xF68D2C9Eu32 ^ (55u8 as u32), 8) == crc32_steps(0xF68D2C9Eu32 ^ 55u32, 8));
    assert(crc32_register(m.take(7)) == 0xAFFC9660u32);
    assert(m.take(8).drop_last() =~= m.take(7) && m.take(8).last() == 56u8);
    lemma_rsteps_8(0xAFFC9660u32 ^ 56u32);
    assert(crc32_steps(0xAFFC9660u32 ^ (56u8 as u32), 8) == crc32_steps(0xAFFC9660u32 ^ 56u32, 8));
    assert(crc32_register(m.take(8)) == 0x651F2550u32);
    assert(m.take(9).drop_last() =~= m.take(8) && m.take(9).last() == 57u8);
    lemma_rsteps_8(0x651F2550u32 ^ 57u32);
    assert(crc32_steps(0x651F2550u32 ^ (57u8 as u32), 8) == crc32_steps(0x651F2550u32 ^ 57u32, 8));
    assert(crc32_register(m.take(9)) == 0x340BC6D9u32);
    assert(m.take(9) =~= m);
}

// ---------------------------------------------------------------------------------------
// The length header of a long compressed string
// ---------------------------------------------------------------------------------------

/// The length header of a long compressed string is big-endian: a long string whose high
/// length byte is zero reads exactly as a short string whose one-byte header is the low
/// byte, under any code tree.
pub proof fn law_long_string_length_is_big_endian(
    buf: Seq<u8>,
    t: TableInfo,
    long: FieldDescriptor,
    short: FieldDescriptor,
    rel: int,
    m: int,
)
    requires
        long.field_type == FieldType::LongCompressedString,
        short.field_type == FieldType::ShortCompressedString,
        0 <= t.data_end + rel < buf.len(),
        buf[t.data_end + rel] == 0,
    ensures
        decode_cstr(buf, t, long, rel, m) == decode_cstr(buf, t, short, rel + 1, m),
{
}

/// Without a code tree the string's bytes are stored as they are: a long string is the
/// `256 * high + low` bytes after its two header bytes (as many as the buffer holds).
pub proof fn law_long_string_raw_length(buf: Seq<u8>, t: TableInfo, f: FieldDescriptor, rel: int, m: int)
    requires
        f.field_type == FieldType::LongCompressedString,
        spec_node_count(buf.len() as int, t.data_end as int, m / 4) == 0,
        0 <= t.data_end + rel,
        t.data_end + rel + 2 <= buf.len(),
    ensures
        ({
            let abs = t.data_end + rel;
            let n = 256 * (buf[abs] as int) + (buf[abs + 1] as int);
            let end = if abs + 2 + n < buf.len() {
                abs + 2 + n
            } else {
                buf.len() as int
            };
            decode_cstr(buf, t, f, rel, m) == buf.subrange(abs + 2, end)
        }),
{
}

// ---------------------------------------------------------------------------------------
// `rangelow` in the schema
// ---------------------------------------------------------------------------------------

/// A `rangelow` attribute written as the decimal text of any `i64`, negative, zero or
/// positive, is read back as that number.
pub proof fn law_rangelow_reads_its_decimal(b: Seq<u8>, s: int, e: int, v: i64)
    requires
        0 <= s <= e <= b.len(),
        b.subrange(s, e) == encode_utf8(int_decimal(v as int)),
    ensures
        attr_rangelow(b, Some((s, e))) == v,
{
    lemma_parse_int_decimal(v as int, i64::MIN as int, i64::MAX as int);
}

/// A missing `rangelow` attribute reads as 0.
pub proof fn law_missing_rangelow_is_zero(b: Seq<u8>)
    ensures
        attr_rangelow(b, None) == 0,
{
}

// ---------------------------------------------------------------------------------------
// Field type codes
// ---------------------------------------------------------------------------------------

/// The type word of a field descriptor decides the field's type: 0 a NUL-padded string, 3 a
/// bit-packed integer, 4 a float, 13 a short and 14 a long compressed string; any other code
/// is kept as an unknown type with that code.
pub proof fn law_descriptor_type_codes(fd: FieldDescriptor, b: Seq<u8>, p: int, tm: Option<TableMeta>)
    requires
        desc_matches(fd, b, p, tm),
    ensures
        (fd.field_type == FieldType::String) <==> i32le(b, p) == 0,
        (fd.field_type == FieldType::Integer) <==> i32le(b, p) == 3,
        (fd.field_type == FieldType::Float) <==> i32le(b, p) == 4,
        (fd.field_type == FieldType::ShortCompressedString) <==> i32le(b, p) == 13,
        (fd.field_type == FieldType::LongCompressedString) <==> i32le(b, p) == 14,
        fd.field_type matches FieldType::Unknown(c) ==> c == i32le(b, p) && c != 0 && c != 3 && c
            != 4 && c != 13 && c != 14,
{
}

} // verus!
