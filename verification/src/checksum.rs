//! The checksum that seals a frame: CRC-32C (Castagnoli).

use vstd::prelude::*;

verus! {

/// Tag by which segments name their checksum algorithm; this is the value
/// reserved for CRC-32C.
pub const CHECKSUM_ALGORITHM_CRC32C: u8 = 0;

/// Number of bytes of a stored checksum.
pub const CHECKSUM_LEN: usize = 4;

/// The CRC-32C of `data`, as the `crc32c` crate computes it.
pub uninterp spec fn crc32c_of(data: Seq<u8>) -> u32;

/// Computes the CRC-32C of `data` by calling `crc32c::crc32c`.
///
/// Trusted: the result is taken to be a function of the bytes alone. The
/// crate picks a hardware or a software routine at run time; both compute
/// the same checksum.
#[verifier::external_body]
pub(crate) fn checksum(data: &[u8]) -> (crc: u32)
    ensures
        crc == crc32c_of(data@),
{
    crc32c::crc32c(data)
}

} // verus!
