//! Sixteen-bit numbers on the wire: the low byte first.
use byteorder::{ByteOrder, LittleEndian};
use vstd::prelude::*;

verus! {

/// The number whose low byte is `low` and whose high byte is `high`.
pub open spec fn le_u16(low: u8, high: u8) -> u16 {
    (low + 256 * high) as u16
}

/// The two bytes of `n`, the low byte first.
pub open spec fn le_bytes(n: u16) -> Seq<u8> {
    seq![(n % 256) as u8, (n / 256) as u8]
}

/// `LittleEndian::read_u16` of byteorder: the number that the first two bytes
/// of `buf` spell, the low byte first. It panics on fewer than two bytes.
#[verifier::external_body]
pub(crate) fn read_u16_le(buf: &[u8]) -> (n: u16)
    requires
        buf@.len() >= 2,
    ensures
        n == le_u16(buf@[0], buf@[1]),
{
    LittleEndian::read_u16(buf)
}

/// `LittleEndian::write_u16` of byteorder, on two bytes: it fills them with
/// the two bytes of `n`, the low byte first.
#[verifier::external_body]
pub(crate) fn write_u16_le(n: u16) -> (buf: [u8; 2])
    ensures
        buf@ == le_bytes(n),
{
    let mut buf = [0u8; 2];
    LittleEndian::write_u16(&mut buf, n);
    buf
}

/// The two bytes of `n`, the low byte first.
pub fn u16_le_bytes(n: u16) -> (bytes: [u8; 2])
    ensures
        bytes@ == le_bytes(n),
{
    let bytes: [u8; 2] = [(n % 256) as u8, (n / 256) as u8];
    bytes
}

} // verus!
