//! The 32-bit cyclic redundancy check used by MPEG PSI sections
//! (ISO/IEC 13818-1, Annex A): polynomial 0x04C11DB7, initial value all
//! ones, no reflection, no final exclusive-or.
//!
//! A section carries its check value in its last four bytes; running the
//! computation over the whole section, check value included, yields zero
//! exactly when the section is intact.

use vstd::prelude::*;

verus! {

/// One shift of the CRC register, folding in the polynomial when the top
/// bit falls out.
pub open spec fn crc_shift(c: u32) -> u32 {
    if c & 0x8000_0000 != 0 {
        (c << 1) ^ 0x04C1_1DB7
    } else {
        c << 1
    }
}

/// `n` successive register shifts.
pub open spec fn crc_shift_n(c: u32, n: nat) -> u32
    decreases n,
{
    if n == 0 {
        c
    } else {
        crc_shift(crc_shift_n(c, (n - 1) as nat))
    }
}

/// Folding one message byte into the register.
pub open spec fn crc_byte(c: u32, byte: u8) -> u32 {
    crc_shift_n(c ^ ((byte as u32) << 24), 8)
}

/// The register after the first `n` bytes of `b`.
pub open spec fn crc_accum(b: Seq<u8>, n: nat) -> u32
    decreases n,
{
    if n == 0 {
        0xFFFF_FFFF
    } else {
        crc_byte(crc_accum(b, (n - 1) as nat), b[n - 1])
    }
}

/// The CRC of a whole byte sequence.
pub open spec fn crc32_mpeg(b: Seq<u8>) -> u32 {
    crc_accum(b, b.len())
}

/// Compute the MPEG CRC-32 of `data`.
pub fn crc32(data: &[u8]) -> (r: u32)
    ensures
        r == crc32_mpeg(data@),
{
    let mut crc: u32 = 0xFFFF_FFFF;
    let mut i: usize = 0;
    while i < data.len()
        invariant
            i <= data@.len(),
            crc == crc_accum(data@, i as nat),
        decreases data@.len() - i,
    {
        let start: u32 = crc ^ ((data[i] as u32) << 24);
        let mut c: u32 = start;
        let mut k: usize = 0;
        while k < 8
            invariant
                k <= 8,
                c == crc_shift_n(start, k as nat),
            decreases 8 - k,
        {
            if c & 0x8000_0000 != 0 {
                c = (c << 1) ^ 0x04C1_1DB7;
            } else {
                c = c << 1;
            }
            k = k + 1;
        }
        assert(c == crc_byte(crc_accum(data@, i as nat), data@[i as int]));
        crc = c;
        i = i + 1;
    }
    crc
}

} // verus!
