//! ICE multicast packets: the sequence number is the four bytes at offset 2,
//! the message count the two bytes at offset 6.

use super::Range;
use crate::wire::{be16, be32, u16_at, u32_at};
use vstd::prelude::*;

verus! {

/// The range carried by a payload of at least eight bytes.
pub open spec fn sequence_of(data: Seq<u8>) -> Range {
    Range { begin: be32(data, 2) as u64, count: be16(data, 6) as u64 }
}

/// Reads the packet's sequence number and message count.
pub fn get_sequence(data: &[u8]) -> (range: Range)
    requires
        data@.len() >= 8,
    ensures
        range == sequence_of(data@),
        range.begin == be32(data@, 2),
        range.count == be16(data@, 6),
{
    let seq_num: u32 = u32_at(data, 2);
    let msg_count: u16 = u16_at(data, 6);
    Range { begin: seq_num as u64, count: msg_count as u64 }
}

} // verus!
