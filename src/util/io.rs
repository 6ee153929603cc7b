use vstd::prelude::*;

verus! {

/// The little-endian 16-bit value of `data[at]`, `data[at + 1]`.
pub open spec fn u16_le(data: Seq<u8>, at: int) -> int {
    data[at] as int + data[at + 1] as int * 256
}

/// The little-endian 32-bit value of the four bytes of `data` from `at` on.
pub open spec fn u32_le(data: Seq<u8>, at: int) -> int {
    u16_le(data, at) + u16_le(data, at + 2) * 65536
}

/// Reads a little-endian `u16` at byte offset `at`.
pub fn read_u16_le(data: &[u8], at: usize) -> (v: u16)
    requires
        at + 2 <= data@.len(),
    ensures
        v as int == u16_le(data@, at as int),
{
    data[at] as u16 + data[at + 1] as u16 * 256
}

/// Reads a little-endian `u32` at byte offset `at`.
pub fn read_u32_le(data: &[u8], at: usize) -> (v: u32)
    requires
        at + 4 <= data@.len(),
    ensures
        v as int == u32_le(data@, at as int),
{
    let len = data.len();
    assert(at + 2 <= len);
    read_u16_le(data, at) as u32 + read_u16_le(data, at + 2) as u32 * 65536
}

} // verus!
