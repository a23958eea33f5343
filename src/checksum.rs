//! CRC-16/ARC over the UTF-8 bytes of a frame body.
use vstd::prelude::*;
use vstd::utf8::encode_utf8;

verus! {

/// CRC-16/ARC (polynomial 0x8005, reflected, zero init and xorout) of the bytes.
pub uninterp spec fn crc16_arc(bytes: Seq<u8>) -> u16;

/// Relies on the crc crate's `Crc::<u16>::checksum` with the `CRC_16_ARC` algorithm.
#[verifier::external_body]
fn crc16_arc_checksum(bytes: &[u8]) -> (r: u16)
    ensures
        r == crc16_arc(bytes@),
{
    crc::Crc::<u16>::new(&crc::CRC_16_ARC).checksum(bytes)
}

/// Calculates the CRC-16/ARC of the UTF-8 bytes of `message`.
pub fn calculate_crc(message: &str) -> (r: u16)
    ensures
        r == crc16_arc(encode_utf8(message@)),
{
    crc16_arc_checksum(message.as_bytes())
}

/// Calculates the CRC-16/ARC of raw bytes.
pub fn calculate_crc_bytes(bytes: &[u8]) -> (r: u16)
    ensures
        r == crc16_arc(bytes@),
{
    crc16_arc_checksum(bytes)
}

} // verus!
