//! Sequence ranges and the per-exchange payload layouts that carry them.

use vstd::prelude::*;

pub mod cboe;
pub mod cme;
pub mod ice;

verus! {

/// A block of `count` consecutive sequence numbers that starts at `begin`.
///
/// `{0, 0}` is the sentinel: the payload carried no sequence information.
/// It never stands for the sequence position 0.
#[derive(Clone, Copy, Debug, PartialEq, Eq, Structural)]
pub struct Range {
    pub begin: u64,
    pub count: u64,
}

impl Range {
    /// The first sequence number after the block.
    pub open spec fn end(self) -> int {
        self.begin + self.count
    }

    /// Whether the block holds the sequence number `n`.
    pub open spec fn contains(self, n: int) -> bool {
        self.begin <= n < self.end()
    }

    /// Whether this is the sentinel `{0, 0}`.
    pub open spec fn spec_is_sentinel(&self) -> bool {
        self.begin == 0 && self.count == 0
    }

    /// Whether this is the sentinel `{0, 0}`.
    #[verifier::when_used_as_spec(spec_is_sentinel)]
    pub fn is_sentinel(&self) -> (b: bool)
        ensures
            b == (self.begin == 0 && self.count == 0),
    {
        self.begin == 0 && self.count == 0
    }
}

/// The sentinel range.
pub open spec fn sentinel() -> Range {
    Range { begin: 0, count: 0 }
}

/// The exchange whose payload layout a run reads.
#[derive(Clone, Copy, Debug, PartialEq, Eq, Structural)]
pub enum Exchange {
    CME,
    CBOE,
    ICE,
}

impl Exchange {
    /// The shortest payload from which the exchange's layout can be read.
    pub open spec fn min_payload(self) -> nat {
        match self {
            Exchange::CME => 4,
            Exchange::CBOE => 8,
            Exchange::ICE => 8,
        }
    }

    /// The sequence range that a payload carries under this exchange's
    /// layout; the sentinel where the payload is too short for it.
    pub open spec fn sequence_of(self, data: Seq<u8>) -> Range {
        if data.len() < self.min_payload() {
            sentinel()
        } else {
            match self {
                Exchange::CME => cme::sequence_of(data),
                Exchange::CBOE => cboe::sequence_of(data),
                Exchange::ICE => ice::sequence_of(data),
            }
        }
    }

    /// Reads the sequence range of a UDP payload under this exchange's
    /// layout. A payload too short to hold the layout yields the sentinel.
    pub fn get_sequence(&self, data: &[u8]) -> (range: Range)
        ensures
            range == self.sequence_of(data@),
            range.begin <= u32::MAX,
            range.count <= u16::MAX,
    {
        match self {
            Exchange::CME => {
                if data.len() < 4 {
                    Range { begin: 0, count: 0 }
                } else {
                    cme::get_sequence(data)
                }
            },
            Exchange::CBOE => cboe::get_sequence(data),
            Exchange::ICE => {
                if data.len() < 8 {
                    Range { begin: 0, count: 0 }
                } else {
                    ice::get_sequence(data)
                }
            },
        }
    }
}

} // verus!
