//! CBOE/CFE multicast packets: the message count is the byte at offset 2,
//! the sequence number the four bytes at offset 4.

use super::{sentinel, Range};
use crate::wire::{be32, u32_at};
use vstd::prelude::*;

verus! {

/// The range carried by a payload. A payload shorter than the eight-byte
/// header, or one whose sequence number is 0 (a heartbeat), carries none.
pub open spec fn sequence_of(data: Seq<u8>) -> Range {
    if data.len() < 8 || be32(data, 4) == 0 {
        sentinel()
    } else {
        Range { begin: be32(data, 4) as u64, count: data[2] as u64 }
    }
}

/// Reads the packet's sequence number and message count.
pub fn get_sequence(data: &[u8]) -> (range: Range)
    ensures
        range == sequence_of(data@),
        range.begin <= u32::MAX,
        range.count <= u8::MAX,
{
    if data.len() < 8 {
        return Range { begin: 0, count: 0 };
    }
    let count: u8 = data[2];
    let seq_num: u32 = u32_at(data, 4);
    if seq_num == 0 {
        return Range { begin: 0, count: 0 };
    }
    Range { begin: seq_num as u64, count: count as u64 }
}

} // verus!
