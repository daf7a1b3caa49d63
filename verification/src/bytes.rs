//! Little-endian integers inside byte buffers.
//!
//! Every multi-byte field of an ELF64 image is stored least significant byte
//! first and may sit at any offset, aligned or not. The readers here take the
//! bytes one at a time, so no alignment is ever required of the buffer.

use vstd::prelude::*;

verus! {

/// The 16-bit value whose little-endian encoding starts at `at`.
pub open spec fn le_u16(s: Seq<u8>, at: int) -> u16
    recommends
        0 <= at,
        at + 2 <= s.len(),
{
    (s[at] as int + 0x100 * (s[at + 1] as int)) as u16
}

/// The 32-bit value whose little-endian encoding starts at `at`.
pub open spec fn le_u32(s: Seq<u8>, at: int) -> u32
    recommends
        0 <= at,
        at + 4 <= s.len(),
{
    (le_u16(s, at) as int + 0x1_0000 * (le_u16(s, at + 2) as int)) as u32
}

/// The 64-bit value whose little-endian encoding starts at `at`.
pub open spec fn le_u64(s: Seq<u8>, at: int) -> u64
    recommends
        0 <= at,
        at + 8 <= s.len(),
{
    (le_u32(s, at) as int + 0x1_0000_0000 * (le_u32(s, at + 4) as int)) as u64
}

/// Reads the 16-bit little-endian value at `at`.
pub fn read_u16(data: &[u8], at: usize) -> (v: u16)
    requires
        at + 2 <= data.len(),
    ensures
        v == le_u16(data@, at as int),
{
    let lo: u16 = data[at] as u16;
    let hi: u16 = data[at + 1] as u16;
    lo + 0x100 * hi
}

/// Reads the 32-bit little-endian value at `at`.
pub fn read_u32(data: &[u8], at: usize) -> (v: u32)
    requires
        at + 4 <= data.len(),
    ensures
        v == le_u32(data@, at as int),
{
    let lo: u32 = read_u16(data, at) as u32;
    let hi: u32 = read_u16(data, at + 2) as u32;
    lo + 0x1_0000 * hi
}

/// Reads the 64-bit little-endian value at `at`.
pub fn read_u64(data: &[u8], at: usize) -> (v: u64)
    requires
        at + 8 <= data.len(),
    ensures
        v == le_u64(data@, at as int),
{
    let lo: u64 = read_u32(data, at) as u64;
    let hi: u64 = read_u32(data, at + 4) as u64;
    lo + 0x1_0000_0000 * hi
}

} // verus!
