use vstd::prelude::*;

verus! {

/// The CRC-32 checksum (IEEE 802.3 polynomial) of a byte sequence.
pub uninterp spec fn crc32_checksum(bytes: Seq<u8>) -> u32;

/// `crc32fast::hash`, which computes the CRC-32 checksum of a slice. The
/// contract only names the value: the same bytes give the same checksum.
#[verifier::external_body]
pub(crate) fn crc32(bytes: &[u8]) -> (c: u32)
    ensures
        c == crc32_checksum(bytes@),
{
    crc32fast::hash(bytes)
}

} // verus!
