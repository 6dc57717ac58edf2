//! The per-chunk integrity checksum.

use vstd::prelude::*;

verus! {

/// The CRC-32 (IEEE) of a byte sequence.
pub uninterp spec fn crc32_of(b: Seq<u8>) -> u32;

/// Relies on `crc32fast::hash`: the CRC-32 (IEEE) checksum, a function
/// of the bytes alone.
#[verifier::external_body]
pub fn crc32(b: &[u8]) -> (r: u32)
    ensures
        r == crc32_of(b@),
{
    crc32fast::hash(b)
}

} // verus!
