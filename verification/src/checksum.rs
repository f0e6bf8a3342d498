//! The CRC-32/IEEE checksum that guards every chunk's type and data bytes.

use vstd::prelude::*;

verus! {

/// The CRC-32/IEEE checksum of a byte sequence. The checksum itself is
/// computed by the `crc` crate; this name stands for its result, which is a
/// function of the input bytes alone.
pub uninterp spec fn crc32_of(bytes: Seq<u8>) -> u32;

/// Relies on the `crc` crate's `Crc::<u32>::checksum` with the
/// `CRC_32_ISO_HDLC` algorithm (the CRC-32/IEEE checksum): a pure table-driven
/// computation whose result depends on the input bytes alone.
#[verifier::external_body]
pub(crate) fn crc32_checksum(bytes: &[u8]) -> (r: u32)
    ensures
        r == crc32_of(bytes@),
{
    crc::Crc::<u32>::new(&crc::CRC_32_ISO_HDLC).checksum(bytes)
}

} // verus!
