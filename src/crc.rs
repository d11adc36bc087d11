//! The CRC32 that protects packets, chunked transfers, frame headers and
//! backups.

use vstd::prelude::*;

verus! {

/// The CRC32 (IEEE) of a byte sequence, as crc32fast computes it.
pub uninterp spec fn crc32_of(data: Seq<u8>) -> u32;

/// Relies on crc32fast::hash: the CRC32 of the given bytes, which depends on
/// those bytes alone.
#[verifier::external_body]
pub(crate) fn crc32(data: &[u8]) -> (r: u32)
    ensures
        r == crc32_of(data@),
{
    crc32fast::hash(data)
}

} // verus!
