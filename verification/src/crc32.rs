//! The CRC-32 checksum that guards a chunk's type and payload bytes.

use vstd::prelude::*;

verus! {

/// The CRC-32 checksum (IEEE/ISO-HDLC polynomial) of a byte sequence.
pub uninterp spec fn crc32_of(bytes: Seq<u8>) -> u32;

/// Relies on `crc::crc32::checksum_ieee`: the standard CRC-32 checksum of
/// the bytes, a function of the bytes alone.
#[verifier::external_body]
pub(crate) fn crc32_checksum(bytes: &Vec<u8>) -> (r: u32)
    ensures
        r == crc32_of(bytes@),
{
    crc::crc32::checksum_ieee(bytes.as_slice())
}

} // verus!
