//! The CRC-32/ISO-HDLC checksum that guards every chunk record.
//!
//! The checksum itself is computed by the `crc` crate; this module only
//! names its result, so that contracts can say "the checksum of these
//! bytes" without restating the algorithm.

use vstd::prelude::*;

verus! {

/// The CRC-32/ISO-HDLC checksum of a byte sequence. The algorithm is the
/// `crc` crate's; the result depends on the bytes alone.
pub uninterp spec fn crc32_of(bytes: Seq<u8>) -> u32;

/// Relies on `crc::Crc::<u32>::checksum` with the `CRC_32_ISO_HDLC`
/// algorithm of `crc-catalog`: a pure function of the input bytes.
#[verifier::external_body]
pub fn crc32_iso_hdlc(bytes: &[u8]) -> (r: u32)
    ensures
        r == crc32_of(bytes@),
{
    crc::Crc::<u32>::new(&crc::CRC_32_ISO_HDLC).checksum(bytes)
}

} // verus!
