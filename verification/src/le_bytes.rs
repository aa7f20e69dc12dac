//! Little-endian integer decoding.

use vstd::prelude::*;

verus! {

/// The unsigned value of four little-endian bytes.
pub open spec fn le_u32_value(b0: u8, b1: u8, b2: u8, b3: u8) -> int {
    b0 + 256 * b1 + 65536 * b2 + 16777216 * b3
}

/// The two's-complement value of four little-endian bytes.
pub open spec fn le_i32_value(b0: u8, b1: u8, b2: u8, b3: u8) -> int {
    let u = le_u32_value(b0, b1, b2, b3);
    if u < 0x8000_0000 {
        u
    } else {
        u - 0x1_0000_0000
    }
}

/// The unsigned little-endian value of `bytes[at..at + 4]`.
pub open spec fn spec_u32_at(bytes: Seq<u8>, at: int) -> int {
    le_u32_value(bytes[at], bytes[at + 1], bytes[at + 2], bytes[at + 3])
}

/// The signed little-endian value of `bytes[at..at + 4]`.
pub open spec fn spec_i32_at(bytes: Seq<u8>, at: int) -> int {
    le_i32_value(bytes[at], bytes[at + 1], bytes[at + 2], bytes[at + 3])
}

/// `u32::from_le_bytes` on `bytes[at..at + 4]`.
pub fn u32_at(bytes: &[u8], at: usize) -> (v: u32)
    requires
        at + 4 <= bytes@.len(),
    ensures
        v == spec_u32_at(bytes@, at as int),
{
    let b0 = bytes[at] as u32;
    let b1 = bytes[at + 1] as u32;
    let b2 = bytes[at + 2] as u32;
    let b3 = bytes[at + 3] as u32;
    b0 + b1 * 256 + b2 * 65536 + b3 * 16777216
}

/// `i32::from_le_bytes` on `bytes[at..at + 4]`.
pub fn i32_at(bytes: &[u8], at: usize) -> (v: i32)
    requires
        at + 4 <= bytes@.len(),
    ensures
        v == spec_i32_at(bytes@, at as int),
{
    let u = u32_at(bytes, at);
    if u < 0x8000_0000 {
        u as i32
    } else {
        let low = (u - 0x8000_0000) as i32;
        low - 0x7fff_ffff - 1
    }
}

} // verus!
