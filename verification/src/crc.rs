use vstd::prelude::*;

verus! {

/// CRC-32 digest of a byte sequence, as `crc32fast` computes it.
///
/// The digest is a function of the bytes alone.  Its value has no short
/// mathematical statement, so it stays uninterpreted and every contract
/// speaks of it by this name.
pub uninterp spec fn crc32_of(data: Seq<u8>) -> u32;

/// Relies on `crc32fast::hash`: the CRC-32 (IEEE) digest of `data`,
/// which depends on the bytes of `data` alone.
#[verifier::external_body]
pub(crate) fn crc32(data: &[u8]) -> (r: u32)
    ensures
        r == crc32_of(data@),
{
    crc32fast::hash(data)
}

} // verus!
