//! Little-endian integer reads from byte buffers.
use vstd::prelude::*;

verus! {

/// The unsigned 16-bit value stored little-endian at `offset`.
pub open spec fn le_u16(bytes: Seq<u8>, offset: int) -> int {
    bytes[offset] as int + 256 * bytes[offset + 1] as int
}

/// The unsigned 32-bit value stored little-endian at `offset`.
pub open spec fn le_u32(bytes: Seq<u8>, offset: int) -> int {
    bytes[offset] as int + 256 * bytes[offset + 1] as int + 65536 * bytes[offset + 2] as int
        + 16777216 * bytes[offset + 3] as int
}

/// The signed 32-bit value whose two's-complement encoding is stored at `offset`.
pub open spec fn le_i32(bytes: Seq<u8>, offset: int) -> int {
    let raw = le_u32(bytes, offset);
    if raw >= 0x8000_0000 { raw - 0x1_0000_0000 } else { raw }
}

/// Reads a little-endian `u16`; `None` when the two bytes are not all in range.
pub fn read_u16(bytes: &[u8], offset: usize) -> (result: Option<u16>)
    ensures
        offset + 2 <= bytes@.len() <==> result is Some,
        result matches Some(value) ==> value as int == le_u16(bytes@, offset as int),
{
    if offset > bytes.len() || bytes.len() - offset < 2 {
        return None;
    }
    let value = bytes[offset] as u16 + 256u16 * (bytes[offset + 1] as u16);
    Some(value)
}

/// Reads a little-endian `u32`; `None` when the four bytes are not all in range.
pub fn read_u32(bytes: &[u8], offset: usize) -> (result: Option<u32>)
    ensures
        offset + 4 <= bytes@.len() <==> result is Some,
        result matches Some(value) ==> value as int == le_u32(bytes@, offset as int),
{
    if offset > bytes.len() || bytes.len() - offset < 4 {
        return None;
    }
    let value = bytes[offset] as u32 + 256u32 * (bytes[offset + 1] as u32) + 65536u32 * (
    bytes[offset + 2] as u32) + 16777216u32 * (bytes[offset + 3] as u32);
    Some(value)
}

/// Reads a little-endian two's-complement `i32`.
pub fn read_i32(bytes: &[u8], offset: usize) -> (result: Option<i32>)
    ensures
        offset + 4 <= bytes@.len() <==> result is Some,
        result matches Some(value) ==> value as int == le_i32(bytes@, offset as int),
{
    match read_u32(bytes, offset) {
        None => None,
        Some(raw) => {
            if raw >= 0x8000_0000u32 {
                let magnitude = (0xffff_ffffu32 - raw) as i64 + 1;
                Some((-magnitude) as i32)
            } else {
                Some(raw as i32)
            }
        },
    }
}

} // verus!
