//! The CRC-32 used by the on-flash format: width 32, polynomial 0x04C11DB7,
//! init 0xFFFFFFFF, no bit reflection, xor-out 0xFFFFFFFF. Payloads are
//! checksummed on write and verified on read with this function.

use vstd::prelude::*;

verus! {

/// The CRC-32 (poly 0x04C11DB7, init 0xFFFFFFFF, no reflection, xor-out
/// 0xFFFFFFFF) of a byte sequence. The value is a function of the bytes
/// alone; its reference check value over the ASCII bytes of "123456789" is
/// 0xFC891918.
pub uninterp spec fn crc32_of(data: Seq<u8>) -> u32;

/// Relies on crc::Crc::checksum: for a fixed algorithm the checksum is a pure
/// function of the input bytes (init, table-free update over each byte, then
/// xor-out).
#[verifier::external_body]
pub(crate) fn crc32(data: &[u8]) -> (r: u32)
    ensures
        r == crc32_of(data@),
{
    crc::Crc::<u32, crc::NoTable>::new(&crc::Algorithm {
        width: 32,
        poly: 0x04c11db7,
        init: 0xffffffff,
        refin: false,
        refout: false,
        xorout: 0xffffffff,
        check: 0xfc891918,
        residue: 0xc704dd7b,
    }).checksum(data)
}

} // verus!
