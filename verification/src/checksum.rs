//! The chunk checksum: CRC-32/ISO-HDLC, computed by the `crc` crate.

use vstd::prelude::*;

verus! {

/// The CRC-32/ISO-HDLC checksum of a byte sequence (the variant that zlib and
/// the PNG standard use: polynomial `0x04c11db7`, reflected, initial value and
/// final xor `0xffffffff`).
///
/// The value is computed outside this crate, so the function has no body here:
/// all that verified code knows is that equal byte sequences have equal
/// checksums.
pub uninterp spec fn crc32_iso_hdlc(bytes: Seq<u8>) -> u32;

/// Computes the checksum of `bytes` with `crc::Crc::<u32>::checksum`, on an
/// instance made by `crc::Crc::<u32>::new` for `crc::CRC_32_ISO_HDLC`.
///
/// Trusted: the contract only gives the result its name. The call reads the
/// bytes and a lookup table built from the algorithm's constants, so the
/// result depends on the bytes alone, and it returns for every input.
#[verifier::external_body]
pub(crate) fn checksum(bytes: &[u8]) -> (sum: u32)
    ensures
        sum == crc32_iso_hdlc(bytes@),
{
    crc::Crc::<u32>::new(&crc::CRC_32_ISO_HDLC).checksum(bytes)
}

} // verus!
