//! Little- and big-endian integer fields of wire records.
use vstd::prelude::*;

verus! {

/// The value of the little-endian `u16` at `pos` in `b`.
pub open spec fn le16(b: Seq<u8>, pos: int) -> int {
    b[pos] as int + b[pos + 1] as int * 256
}

/// The value of the big-endian `u16` at `pos` in `b`.
pub open spec fn be16(b: Seq<u8>, pos: int) -> int {
    b[pos] as int * 256 + b[pos + 1] as int
}

/// The value of the little-endian `u32` at `pos` in `b`.
pub open spec fn le32(b: Seq<u8>, pos: int) -> int {
    le16(b, pos) + le16(b, pos + 2) * 65536
}

pub fn read_u16_le(b: &[u8], pos: usize) -> (r: u16)
    requires
        pos + 2 <= b@.len(),
    ensures
        r as int == le16(b@, pos as int),
{
    (b[pos] as u16) + (b[pos + 1] as u16) * 256
}

pub fn read_u16_be(b: &[u8], pos: usize) -> (r: u16)
    requires
        pos + 2 <= b@.len(),
    ensures
        r as int == be16(b@, pos as int),
{
    (b[pos] as u16) * 256 + (b[pos + 1] as u16)
}

pub fn read_u32_le(b: &[u8], pos: usize) -> (r: u32)
    requires
        pos + 4 <= b@.len(),
    ensures
        r as int == le32(b@, pos as int),
{
    let _len = b.len();
    let lo = read_u16_le(b, pos) as u32;
    let hi = read_u16_le(b, pos + 2) as u32;
    lo + hi * 65536
}

} // verus!
