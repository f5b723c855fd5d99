//! CRC-32/ISO-HDLC: polynomial `0x04c11db7` (reflected `0xedb88320`),
//! initial value and final XOR `0xffff_ffff`, reflected input and output.

use vstd::prelude::*;

verus! {

/// One reflected shift of the CRC register.
pub open spec fn crc_step(c: u32) -> u32 {
    if c & 1 == 0 {
        c >> 1
    } else {
        (c >> 1) ^ 0xedb8_8320u32
    }
}

/// `n` reflected shifts of the CRC register.
pub open spec fn crc_steps(c: u32, n: nat) -> u32
    decreases n,
{
    if n == 0 {
        c
    } else {
        crc_step(crc_steps(c, (n - 1) as nat))
    }
}

/// The register after absorbing one byte.
pub open spec fn crc_byte(c: u32, b: u8) -> u32 {
    crc_steps(c ^ (b as u32), 8)
}

/// The register after absorbing a byte sequence, front to back.
pub open spec fn crc_fold(c: u32, s: Seq<u8>) -> u32
    decreases s.len(),
{
    if s.len() == 0 {
        c
    } else {
        crc_byte(crc_fold(c, s.drop_last()), s.last())
    }
}

/// The CRC-32/ISO-HDLC checksum of a byte sequence.
pub open spec fn crc32(s: Seq<u8>) -> u32 {
    !crc_fold(0xffff_ffffu32, s)
}

/// Absorbs `bytes` into the register `state`.
pub fn crc_update(state: u32, bytes: &[u8]) -> (r: u32)
    ensures
        r == crc_fold(state, bytes@),
{
    let mut c = state;
    let mut i: usize = 0;
    while i < bytes.len()
        invariant
            i <= bytes@.len(),
            c == crc_fold(state, bytes@.take(i as int)),
        decreases bytes@.len() - i,
    {
        let b = bytes[i];
        let x = c ^ (b as u32);
        let mut d = x;
        let mut j: u32 = 0;
        while j < 8
            invariant
                j <= 8,
                d == crc_steps(x, j as nat),
            decreases 8 - j,
        {
            d = if d & 1 == 0 {
                d >> 1
            } else {
                (d >> 1) ^ 0xedb8_8320u32
            };
            j = j + 1;
        }
        assert(bytes@.take(i + 1).drop_last() =~= bytes@.take(i as int));
        c = d;
        i = i + 1;
    }
    assert(bytes@.take(i as int) =~= bytes@);
    c
}

/// The CRC-32/ISO-HDLC checksum of `bytes`.
pub fn crc32_of(bytes: &[u8]) -> (r: u32)
    ensures
        r == crc32(bytes@),
{
    !crc_update(0xffff_ffffu32, bytes)
}

} // verus!
