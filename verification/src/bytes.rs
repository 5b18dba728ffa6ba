//! Little-endian words read from a byte buffer.
use vstd::prelude::*;

verus! {

/// The 32-bit little-endian word whose first byte is `buf[offset]`.
pub open spec fn le_u32(buf: Seq<u8>, offset: int) -> int {
    buf[offset] + buf[offset + 1] * 0x100 + buf[offset + 2] * 0x1_0000 + buf[offset + 3]
        * 0x100_0000
}

/// The 64-bit little-endian word whose first byte is `buf[offset]`.
pub open spec fn le_u64(buf: Seq<u8>, offset: int) -> int {
    le_u32(buf, offset) + le_u32(buf, offset + 4) * 0x1_0000_0000
}

/// True when `width` bytes starting at `offset` lie inside a buffer of `len` bytes.
pub open spec fn in_bounds(len: int, offset: int, width: int) -> bool {
    0 <= offset && offset + width <= len
}

/// Reads an unsigned 32-bit little-endian word, or `None` when fewer than four
/// bytes remain at `offset`.
pub fn read_u32_le(buf: &[u8], offset: usize) -> (r: Option<u32>)
    ensures
        r is Some <==> in_bounds(buf@.len() as int, offset as int, 4),
        r matches Some(v) ==> v == le_u32(buf@, offset as int),
{
    if offset > buf.len() || buf.len() - offset < 4 {
        return None;
    }
    let b0: u32 = buf[offset] as u32;
    let b1: u32 = buf[offset + 1] as u32;
    let b2: u32 = buf[offset + 2] as u32;
    let b3: u32 = buf[offset + 3] as u32;
    Some(b0 + b1 * 0x100 + b2 * 0x1_0000 + b3 * 0x100_0000)
}

/// Reads the bit pattern of a single-precision value stored little-endian, or
/// `None` when fewer than four bytes remain at `offset`.
pub fn read_f32_le(buf: &[u8], offset: usize) -> (r: Option<u32>)
    ensures
        r is Some <==> in_bounds(buf@.len() as int, offset as int, 4),
        r matches Some(v) ==> v == le_u32(buf@, offset as int),
{
    read_u32_le(buf, offset)
}

/// Reads the bit pattern of a double-precision value stored little-endian, or
/// `None` when fewer than eight bytes remain at `offset`.
pub fn read_f64_le(buf: &[u8], offset: usize) -> (r: Option<u64>)
    ensures
        r is Some <==> in_bounds(buf@.len() as int, offset as int, 8),
        r matches Some(v) ==> v == le_u64(buf@, offset as int),
{
    if offset > buf.len() || buf.len() - offset < 8 {
        return None;
    }
    let lo: u64 = match read_u32_le(buf, offset) {
        Some(v) => v as u64,
        None => return None,
    };
    let hi: u64 = match read_u32_le(buf, offset + 4) {
        Some(v) => v as u64,
        None => return None,
    };
    Some(lo + hi * 0x1_0000_0000)
}

} // verus!
