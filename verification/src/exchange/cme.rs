//! CME MDP3 packets: one message per packet, numbered by the first four
//! bytes of the payload.

use super::Range;
use crate::wire::{be32, u32_at};
use vstd::prelude::*;

verus! {

/// The range carried by a payload of at least four bytes.
pub open spec fn sequence_of(data: Seq<u8>) -> Range {
    Range { begin: be32(data, 0) as u64, count: 1 }
}

/// Reads the packet's sequence number; every packet counts as one message.
pub fn get_sequence(data: &[u8]) -> (range: Range)
    requires
        data@.len() >= 4,
    ensures
        range == sequence_of(data@),
        range.begin == be32(data@, 0),
        range.count == 1,
{
    let seq_num: u32 = u32_at(data, 0);
    Range { begin: seq_num as u64, count: 1 }
}

} // verus!
