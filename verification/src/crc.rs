//! The two checksums of a save: the database's non-reflected CRC and the container's CRC-32.
use vstd::prelude::*;

verus! {

/// One bit step of the database checksum: shift left, folding in `0x04C11DB7` when the
/// top bit falls out.
pub open spec fn db11_shift(x: u32) -> u32 {
    if x & 0x8000_0000u32 != 0 {
        (x << 1u32) ^ 0x04C1_1DB7u32
    } else {
        x << 1u32
    }
}

/// `n` bit steps of the database checksum.
pub open spec fn db11_steps(x: u32, n: nat) -> u32
    decreases n,
{
    if n == 0 {
        x
    } else {
        db11_shift(db11_steps(x, (n - 1) as nat))
    }
}

/// The database checksum register after taking in one more byte.
pub open spec fn db11_byte(x: u32, b: u8) -> u32 {
    db11_steps(x ^ ((b as u32) << 24u32), 8)
}

/// The database checksum register after all of `bytes`, starting from all ones.
pub open spec fn db11_register(bytes: Seq<u8>) -> u32
    decreases bytes.len(),
{
    if bytes.len() == 0 {
        0xFFFF_FFFFu32
    } else {
        db11_byte(db11_register(bytes.drop_last()), bytes.last())
    }
}

/// The database checksum of `bytes`, as the signed value the format stores.
pub open spec fn spec_crc_db11(bytes: Seq<u8>) -> i32 {
    db11_register(bytes) as i32
}

/// One bit step of the reflected CRC-32 (polynomial `0xEDB88320`).
pub open spec fn crc32_shift(x: u32) -> u32 {
    if x & 1u32 != 0 {
        (x >> 1u32) ^ 0xEDB8_8320u32
    } else {
        x >> 1u32
    }
}

/// `n` bit steps of the CRC-32.
pub open spec fn crc32_steps(x: u32, n: nat) -> u32
    decreases n,
{
    if n == 0 {
        x
    } else {
        crc32_shift(crc32_steps(x, (n - 1) as nat))
    }
}

/// The CRC-32 register after all of `bytes`, starting from all ones.
pub open spec fn crc32_register(bytes: Seq<u8>) -> u32
    decreases bytes.len(),
{
    if bytes.len() == 0 {
        0xFFFF_FFFFu32
    } else {
        crc32_steps(crc32_register(bytes.drop_last()) ^ (bytes.last() as u32), 8)
    }
}

/// The standard (zlib) CRC-32 of `bytes`.
pub open spec fn spec_crc32(bytes: Seq<u8>) -> u32 {
    !crc32_register(bytes)
}

/// The database checksum: a non-reflected CRC with polynomial `0x04C11DB7`, initial value
/// all ones and no final XOR, returned as a signed 32-bit value.
pub fn compute_crc_db11(bytes: &[u8]) -> (r: i32)
    ensures
        r == spec_crc_db11(bytes@),
{
    let mut num: u32 = 0xFFFF_FFFF;
    let mut i: usize = 0;
    while i < bytes.len()
        invariant
            i <= bytes@.len(),
            num == db11_register(bytes@.subrange(0, i as int)),
        decreases bytes@.len() - i,
    {
        let ghost start = num ^ ((bytes@[i as int] as u32) << 24u32);
        num = num ^ ((bytes[i] as u32) << 24u32);
        let mut j: u32 = 0;
        while j < 8
            invariant
                j <= 8,
                num == db11_steps(start, j as nat),
            decreases 8 - j,
        {
            if num & 0x8000_0000u32 != 0 {
                num = (num << 1u32) ^ 0x04C1_1DB7u32;
            } else {
                num = num << 1u32;
            }
            j = j + 1;
        }
        assert(bytes@.subrange(0, i + 1).drop_last() =~= bytes@.subrange(0, i as int));
        i = i + 1;
    }
    assert(bytes@.subrange(0, i as int) =~= bytes@);
    num as i32
}

/// The standard (zlib) CRC-32: reflected polynomial `0xEDB88320`, initial value and final
/// XOR all ones.
pub fn compute_crc32(bytes: &[u8]) -> (r: u32)
    ensures
        r == spec_crc32(bytes@),
{
    let mut crc: u32 = 0xFFFF_FFFF;
    let mut i: usize = 0;
    while i < bytes.len()
        invariant
            i <= bytes@.len(),
            crc == crc32_register(bytes@.subrange(0, i as int)),
        decreases bytes@.len() - i,
    {
        let ghost start = crc ^ (bytes@[i as int] as u32);
        crc = crc ^ (bytes[i] as u32);
        let mut j: u32 = 0;
        while j < 8
            invariant
                j <= 8,
                crc == crc32_steps(start, j as nat),
            decreases 8 - j,
        {
            if crc & 1u32 != 0 {
                crc = (crc >> 1u32) ^ 0xEDB8_8320u32;
            } else {
                crc = crc >> 1u32;
            }
            j = j + 1;
        }
        assert(bytes@.subrange(0, i + 1).drop_last() =~= bytes@.subrange(0, i as int));
        i = i + 1;
    }
    assert(bytes@.subrange(0, i as int) =~= bytes@);
    !crc
}

} // verus!
