//! Big-endian integers as they lie in a packet.

use byteorder::{BigEndian, ByteOrder};
use vstd::prelude::*;
use vstd::slice::slice_subrange;

verus! {

/// The number spelled by the two bytes of `s` at `at`, most significant first.
pub open spec fn be16(s: Seq<u8>, at: int) -> int {
    s[at] as int * 0x100 + s[at + 1] as int
}

/// The number spelled by the four bytes of `s` at `at`, most significant first.
pub open spec fn be32(s: Seq<u8>, at: int) -> int {
    ((s[at] as int * 0x100 + s[at + 1] as int) * 0x100 + s[at + 2] as int) * 0x100 + s[at
        + 3] as int
}

/// Calls `byteorder::BigEndian::read_u16`, which reads the first two bytes of
/// `buf` as a big-endian number and panics on a shorter buffer. Trusted: the
/// result is `256 * buf[0] + buf[1]`.
#[verifier::external_body]
fn read_u16(buf: &[u8]) -> (value: u16)
    requires
        buf@.len() >= 2,
    ensures
        value as int == be16(buf@, 0),
{
    BigEndian::read_u16(buf)
}

/// Calls `byteorder::BigEndian::read_u32`, which reads the first four bytes of
/// `buf` as a big-endian number and panics on a shorter buffer. Trusted: the
/// result is `buf[0]`, `buf[1]`, `buf[2]`, `buf[3]` taken as base-256 digits,
/// most significant first.
#[verifier::external_body]
fn read_u32(buf: &[u8]) -> (value: u32)
    requires
        buf@.len() >= 4,
    ensures
        value as int == be32(buf@, 0),
{
    BigEndian::read_u32(buf)
}

/// The big-endian `u16` at offset `at` of `data`.
pub fn u16_at(data: &[u8], at: usize) -> (value: u16)
    requires
        at + 2 <= data@.len(),
    ensures
        value as int == be16(data@, at as int),
{
    let len: usize = data.len();
    assert(at + 2 <= len);
    read_u16(slice_subrange(data, at, at + 2))
}

/// The big-endian `u32` at offset `at` of `data`.
pub fn u32_at(data: &[u8], at: usize) -> (value: u32)
    requires
        at + 4 <= data@.len(),
    ensures
        value as int == be32(data@, at as int),
{
    let len: usize = data.len();
    assert(at + 4 <= len);
    read_u32(slice_subrange(data, at, at + 4))
}

} // verus!
