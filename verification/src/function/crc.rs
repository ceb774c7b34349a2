//! CRC-32 checksums of file contents.
use vstd::prelude::*;

verus! {

/// One bit of the reflected CRC-32 division by the polynomial `0xEDB88320`.
pub open spec fn crc_bit(c: u32) -> u32 {
    if c & 1 == 1 {
        (c >> 1) ^ 0xEDB8_8320
    } else {
        c >> 1
    }
}

/// The CRC-32 register after taking in one byte.
pub open spec fn crc_byte(c: u32, b: u8) -> u32 {
    let x = c ^ (b as u32);
    crc_bit(crc_bit(crc_bit(crc_bit(crc_bit(crc_bit(crc_bit(crc_bit(x))))))))
}

/// The CRC-32 register after taking in the bytes in order.
pub open spec fn crc_update(c: u32, d: Seq<u8>) -> u32
    decreases d.len(),
{
    if d.len() == 0 {
        c
    } else {
        crc_byte(crc_update(c, d.drop_last()), d.last())
    }
}

/// The CRC-32 (IEEE 802.3) checksum of the bytes: the register starts with
/// all bits set and is inverted at the end.
pub open spec fn crc32(d: Seq<u8>) -> u32 {
    !crc_update(0xFFFF_FFFF, d)
}

/// Calls `crc32fast::hash`, which computes the CRC-32 (IEEE 802.3) checksum
/// of the bytes.
#[verifier::external_body]
pub fn checksum(d: &[u8]) -> (r: u32)
    ensures
        r == crc32(d@),
{
    crc32fast::hash(d)
}

} // verus!
