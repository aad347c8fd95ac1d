//! Little-endian fields of the structures a medium carries.

use vstd::prelude::*;

verus! {

/// The two bytes at `at` as a number, low byte first.
pub open spec fn le16(bytes: Seq<u8>, at: int) -> u16 {
    (bytes[at] + 0x100 * bytes[at + 1]) as u16
}

/// The four bytes at `at` as a number, low byte first.
pub open spec fn le32(bytes: Seq<u8>, at: int) -> u32 {
    (bytes[at] + 0x100 * bytes[at + 1] + 0x1_0000 * bytes[at + 2] + 0x100_0000 * bytes[at
        + 3]) as u32
}

/// The eight bytes at `at` as a number, low byte first.
pub open spec fn le64(bytes: Seq<u8>, at: int) -> u64 {
    (le32(bytes, at) + 0x1_0000_0000 * le32(bytes, at + 4)) as u64
}

pub fn u16_at(bytes: &[u8], at: usize) -> (value: u16)
    requires
        at + 2 <= bytes@.len(),
    ensures
        value == le16(bytes@, at as int),
{
    bytes[at] as u16 + 0x100 * (bytes[at + 1] as u16)
}

pub fn u32_at(bytes: &[u8], at: usize) -> (value: u32)
    requires
        at + 4 <= bytes@.len(),
    ensures
        value == le32(bytes@, at as int),
{
    bytes[at] as u32 + 0x100 * (bytes[at + 1] as u32) + 0x1_0000 * (bytes[at + 2] as u32)
        + 0x100_0000 * (bytes[at + 3] as u32)
}

pub fn u64_at(bytes: &[u8], at: usize) -> (value: u64)
    requires
        at + 8 <= bytes@.len(),
    ensures
        value == le64(bytes@, at as int),
{
    let _len: usize = bytes.len();
    u32_at(bytes, at) as u64 + 0x1_0000_0000 * (u32_at(bytes, at + 4) as u64)
}

/// The two bytes from `at` on, the low one first, as a number without bounds.
pub open spec fn word(bytes: Seq<u8>, at: int) -> int {
    bytes[at] + 0x100 * bytes[at + 1]
}

/// The four bytes from `at` on, the low one first, as a number without bounds.
pub open spec fn dword(bytes: Seq<u8>, at: int) -> int {
    bytes[at] + 0x100 * bytes[at + 1] + 0x1_0000 * bytes[at + 2] + 0x100_0000 * bytes[at + 3]
}

/// The eight bytes from `at` on, the low one first, as a number without bounds.
pub open spec fn qword(bytes: Seq<u8>, at: int) -> int {
    bytes[at] + 0x100 * bytes[at + 1] + 0x1_0000 * bytes[at + 2] + 0x100_0000 * bytes[at + 3]
        + 0x1_0000_0000 * bytes[at + 4] + 0x100_0000_0000 * bytes[at + 5] + 0x1_0000_0000_0000
        * bytes[at + 6] + 0x100_0000_0000_0000 * bytes[at + 7]
}

/// A field keeps every bit of its bytes: it is the number they spell, and each
/// of them can be had back from it.
pub proof fn a_field_keeps_every_bit(bytes: Seq<u8>, at: int)
    ensures
        le16(bytes, at) as int == word(bytes, at),
        le32(bytes, at) as int == dword(bytes, at),
        le64(bytes, at) as int == qword(bytes, at),
        le16(bytes, at) % 0x100 == bytes[at],
        le16(bytes, at) / 0x100 == bytes[at + 1],
        le32(bytes, at) % 0x100 == bytes[at],
        le32(bytes, at) / 0x100 % 0x100 == bytes[at + 1],
        le32(bytes, at) / 0x1_0000 % 0x100 == bytes[at + 2],
        le32(bytes, at) / 0x100_0000 == bytes[at + 3],
        le64(bytes, at) % 0x1_0000_0000 == dword(bytes, at),
        le64(bytes, at) / 0x1_0000_0000 == dword(bytes, at + 4),
        0 <= word(bytes, at) < 0x1_0000,
        0 <= dword(bytes, at) < 0x1_0000_0000,
        0 <= qword(bytes, at) < 0x1_0000_0000_0000_0000,
{
}

} // verus!
