//! Continuity state of one stream, and the rules by which a sequence range
//! moves it.

use crate::exchange::Range;
use vstd::prelude::*;

verus! {

/// What is known of one stream: the sequence number expected next, and the
/// blocks of sequence numbers that were skipped on the way there.
pub struct StreamState {
    pub expected_sequence: int,
    pub missing_ranges: Seq<Range>,
}

/// The missing ranges after a gap was recorded: a gap that starts where the
/// most recent entry ends extends that entry, any other gap is appended.
pub open spec fn record_gap(missing: Seq<Range>, gap: Range) -> Seq<Range> {
    if missing.len() > 0 && missing.last().end() == gap.begin {
        missing.drop_last().push(
            Range { begin: missing.last().begin, count: (missing.last().count + gap.count) as u64 },
        )
    } else {
        missing.push(gap)
    }
}

/// The missing ranges after a range that starts at `begin` and reaches past
/// the expected sequence number arrived. Only the most recent entry is
/// reconciled: it is removed where the range covers it from its start,
/// cut back to the part below `begin` where the range starts inside it, and
/// kept where the range starts at or after its end.
pub open spec fn reconcile(missing: Seq<Range>, begin: u64) -> Seq<Range> {
    if missing.len() == 0 {
        missing
    } else if begin <= missing.last().begin {
        missing.drop_last()
    } else if begin < missing.last().end() {
        missing.drop_last().push(
            Range { begin: missing.last().begin, count: (begin - missing.last().begin) as u64 },
        )
    } else {
        missing
    }
}

impl StreamState {
    /// The missing ranges are non-empty blocks below the expected sequence
    /// number, in ascending order, with at least one present sequence number
    /// between any two of them.
    pub open spec fn wf(self) -> bool {
        &&& 0 <= self.expected_sequence
        &&& forall|i: int|
            0 <= i < self.missing_ranges.len() ==> (#[trigger] self.missing_ranges[i]).count > 0
        &&& forall|i: int|
            0 <= i < self.missing_ranges.len() ==> (#[trigger] self.missing_ranges[i]).end()
                <= self.expected_sequence
        &&& forall|i: int, j: int|
            0 <= i < j < self.missing_ranges.len() ==> (#[trigger] self.missing_ranges[i]).end() < (
            #[trigger] self.missing_ranges[j]).begin
    }

    /// The state that the first range observed on a stream puts it in.
    pub open spec fn first(range: Range) -> StreamState {
        StreamState { expected_sequence: range.end(), missing_ranges: Seq::empty() }
    }

    /// The gap that `range` opens: the block from the expected sequence
    /// number up to the range's start, where the range starts beyond it.
    pub open spec fn gap(self, range: Range) -> Option<Range> {
        if !range.is_sentinel() && range.begin > self.expected_sequence {
            Some(
                Range {
                    begin: self.expected_sequence as u64,
                    count: (range.begin - self.expected_sequence) as u64,
                },
            )
        } else {
            None
        }
    }

    /// The state after `range` was observed.
    pub open spec fn step(self, range: Range) -> StreamState {
        if range.is_sentinel() {
            self
        } else if range.begin == self.expected_sequence {
            StreamState { expected_sequence: range.end(), missing_ranges: self.missing_ranges }
        } else if range.begin > self.expected_sequence {
            StreamState {
                expected_sequence: range.end(),
                missing_ranges: record_gap(self.missing_ranges, self.gap(range).unwrap()),
            }
        } else if range.end() <= self.expected_sequence {
            self
        } else {
            StreamState {
                expected_sequence: range.end(),
                missing_ranges: reconcile(self.missing_ranges, range.begin),
            }
        }
    }
}

/// The state of a stream after `range` was observed on it, `None` standing
/// for a stream that has no state yet. A sentinel creates none.
pub open spec fn observe(state: Option<StreamState>, range: Range) -> Option<StreamState> {
    match state {
        None => if range.is_sentinel() {
            None
        } else {
            Some(StreamState::first(range))
        },
        Some(s) => Some(s.step(range)),
    }
}

/// The gap reported when `range` is observed on a stream in `state`.
pub open spec fn observed_gap(state: Option<StreamState>, range: Range) -> Option<Range> {
    match state {
        None => None,
        Some(s) => s.gap(range),
    }
}

/// The state of a stream after the ranges of `ranges` were observed on it
/// in order.
pub open spec fn feed(state: Option<StreamState>, ranges: Seq<Range>) -> Option<StreamState>
    decreases ranges.len(),
{
    if ranges.len() == 0 {
        state
    } else {
        observe(feed(state, ranges.drop_last()), ranges.last())
    }
}

/// Each range starts where the one before it ends.
pub open spec fn contiguous(ranges: Seq<Range>) -> bool {
    forall|i: int|
        0 <= i < ranges.len() - 1 ==> (#[trigger] ranges[i]).end() == ranges[i + 1].begin
}

/// The sum of the counts of `ranges`.
pub open spec fn total_count(ranges: Seq<Range>) -> int
    decreases ranges.len(),
{
    if ranges.len() == 0 {
        0
    } else {
        total_count(ranges.drop_last()) + ranges.last().count
    }
}

/// Observing a range keeps a state well formed and never lowers the
/// expected sequence number.
pub proof fn lemma_step_keeps_wf(state: StreamState, range: Range)
    requires
        state.wf(),
    ensures
        state.step(range).wf(),
        state.step(range).expected_sequence >= state.expected_sequence,
{
    let next = state.step(range);
    let old_missing = state.missing_ranges;
    if range.is_sentinel() {
    } else if range.begin == state.expected_sequence {
    } else if range.begin > state.expected_sequence {
        let gap = state.gap(range).unwrap();
        assert(gap.begin == state.expected_sequence);
        assert(gap.end() == range.begin);
        if old_missing.len() > 0 {
            assert(old_missing.last() == old_missing[old_missing.len() - 1]);
        }
        assert forall|i: int, j: int| 0 <= i < j < next.missing_ranges.len() implies (
        #[trigger] next.missing_ranges[i]).end() < (#[trigger] next.missing_ranges[j]).begin by {
            assert(next.missing_ranges[i] == old_missing[i]);
            if j < old_missing.len() - 1 {
                assert(next.missing_ranges[j] == old_missing[j]);
            }
        }
    } else if range.end() <= state.expected_sequence {
    } else {
        if old_missing.len() > 0 {
            assert(old_missing.last() == old_missing[old_missing.len() - 1]);
        }
        assert forall|i: int, j: int| 0 <= i < j < next.missing_ranges.len() implies (
        #[trigger] next.missing_ranges[i]).end() < (#[trigger] next.missing_ranges[j]).begin by {
            assert(next.missing_ranges[i] == old_missing[i]);
            if j < old_missing.len() - 1 {
                assert(next.missing_ranges[j] == old_missing[j]);
            }
        }
    }
}

/// A fresh stream fed contiguous ranges records nothing as missing, and
/// expects the first range's start plus the sum of all counts. Sentinels
/// create no state, so a stream fed nothing but sentinels has none.
pub proof fn lemma_contiguous_feed(ranges: Seq<Range>)
    requires
        ranges.len() > 0,
        contiguous(ranges),
    ensures
        match feed(None, ranges) {
            Some(state) => {
                &&& state.missing_ranges.len() == 0
                &&& state.expected_sequence == ranges[0].begin + total_count(ranges)
            },
            None => forall|i: int| 0 <= i < ranges.len() ==> (#[trigger] ranges[i]).is_sentinel(),
        },
        ranges.last().end() == ranges[0].begin + total_count(ranges),
    decreases ranges.len(),
{
    let init = ranges.drop_last();
    let last = ranges.last();
    if init.len() == 0 {
        assert(total_count(init) == 0);
        assert(feed(None, init) == None::<StreamState>);
    } else {
        assert(contiguous(init)) by {
            assert forall|i: int| 0 <= i < init.len() - 1 implies (#[trigger] init[i]).end()
                == init[i + 1].begin by {
                assert(init[i] == ranges[i]);
                assert(init[i + 1] == ranges[i + 1]);
            }
        }
        lemma_contiguous_feed(init);
        assert(init[0] == ranges[0]);
        assert(init.last() == ranges[ranges.len() - 2]);
        assert(init.last().end() == last.begin);
        match feed(None, init) {
            Some(state) => {},
            None => {
                assert(init.last().is_sentinel());
                assert forall|i: int| 0 <= i < ranges.len() && last.is_sentinel() implies (
                #[trigger] ranges[i]).is_sentinel() by {
                    if i < init.len() {
                        assert(init[i] == ranges[i]);
                    }
                }
            },
        }
    }
}

/// A range that starts `gap` sequence numbers past the expected one
/// records exactly one new entry, `{expected, gap}`, behind those already
/// recorded, and that entry is the gap reported. This holds wherever the
/// most recent entry ends below the expected sequence number; on a stream
/// with nothing recorded the entry is the only one.
pub proof fn lemma_single_forward_gap(state: StreamState, range: Range, gap: u64)
    requires
        state.wf(),
        state.missing_ranges.len() == 0 || state.missing_ranges.last().end()
            < state.expected_sequence,
        gap > 0,
        range.begin == state.expected_sequence + gap,
    ensures
        state.step(range).missing_ranges == state.missing_ranges.push(
            Range { begin: state.expected_sequence as u64, count: gap },
        ),
        state.missing_ranges.len() == 0 ==> state.step(range).missing_ranges == seq![
            Range { begin: state.expected_sequence as u64, count: gap },
        ],
        state.gap(range) == Some(Range { begin: state.expected_sequence as u64, count: gap }),
        state.step(range).expected_sequence == range.end(),
{
    if state.missing_ranges.len() == 0 {
        assert(state.step(range).missing_ranges =~= seq![
            Range { begin: state.expected_sequence as u64, count: gap },
        ]);
    }
}

/// A gap that starts where the most recent missing range ends is folded
/// into that entry: the number of entries stays, and the entry then covers
/// both gaps.
pub proof fn lemma_touching_gaps_coalesce(state: StreamState, range: Range)
    requires
        state.wf(),
        state.missing_ranges.len() > 0,
        state.missing_ranges.last().end() == state.expected_sequence,
        range.begin > state.expected_sequence,
    ensures
        state.step(range).missing_ranges.len() == state.missing_ranges.len(),
        state.step(range).missing_ranges.last().begin == state.missing_ranges.last().begin,
        state.step(range).missing_ranges.last().end() == range.begin,
        state.step(range).missing_ranges.drop_last() == state.missing_ranges.drop_last(),
{
    let last = state.missing_ranges.last();
    assert(last == state.missing_ranges[state.missing_ranges.len() - 1]);
    assert(state.step(range).missing_ranges.drop_last() =~= state.missing_ranges.drop_last());
}

/// Two gaps in a row whose boundaries touch leave one entry: a range that
/// opens a gap and carries no messages, followed by a range further on,
/// records the block from the first expected sequence number to the second
/// range's start as a single entry.
pub proof fn lemma_sequential_gaps_coalesce(state: StreamState, first: Range, second: Range)
    requires
        state.wf(),
        state.missing_ranges.len() == 0,
        first.begin > state.expected_sequence,
        first.count == 0,
        second.begin > first.begin,
    ensures
        state.step(first).gap(second).unwrap().begin == state.gap(first).unwrap().end(),
        state.step(first).step(second).missing_ranges == seq![
            Range {
                begin: state.expected_sequence as u64,
                count: (second.begin - state.expected_sequence) as u64,
            },
        ],
{
    let mid = state.step(first);
    assert(mid.missing_ranges =~= seq![state.gap(first).unwrap()]);
    assert(mid.missing_ranges.last() == state.gap(first).unwrap());
    assert(mid.step(second).missing_ranges =~= seq![
        Range {
            begin: state.expected_sequence as u64,
            count: (second.begin - state.expected_sequence) as u64,
        },
    ]);
}

/// A range that ends at or below the expected sequence number changes
/// nothing and reports no gap.
pub proof fn lemma_duplicate_changes_nothing(state: StreamState, range: Range)
    requires
        range.end() <= state.expected_sequence,
    ensures
        state.step(range) == state,
        state.gap(range) is None,
{
}

/// Whether one of the blocks of `blocks` holds the sequence number `n`.
pub open spec fn holds(blocks: Seq<Range>, n: int) -> bool {
    exists|i: int| 0 <= i < blocks.len() && (#[trigger] blocks[i]).contains(n)
}

/// Whether every range of `ranges`, fed in order to a stream in `state`,
/// arrives in order: it is a sentinel, or starts at or after the sequence
/// number expected at its arrival.
pub open spec fn in_order(state: StreamState, ranges: Seq<Range>) -> bool
    decreases ranges.len(),
{
    ranges.len() == 0 || {
        &&& in_order(state, ranges.drop_last())
        &&& ranges.last().is_sentinel() || ranges.last().begin >= feed(
            Some(state),
            ranges.drop_last(),
        ).unwrap().expected_sequence
    }
}

/// One range that arrives in order adds to the missing sequence numbers
/// exactly those between the expected sequence number and its start.
pub proof fn lemma_step_in_order(state: StreamState, range: Range)
    requires
        state.wf(),
        range.is_sentinel() || range.begin >= state.expected_sequence,
    ensures
        forall|n: int|
            #![trigger holds(state.step(range).missing_ranges, n)]
            holds(state.step(range).missing_ranges, n) <==> holds(state.missing_ranges, n) || (
            !range.is_sentinel() && state.expected_sequence <= n < range.begin),
        state.step(range).expected_sequence == if range.is_sentinel() {
            state.expected_sequence
        } else {
            range.end()
        },
{
    let before = state.missing_ranges;
    let after = state.step(range).missing_ranges;
    if !range.is_sentinel() && range.begin > state.expected_sequence {
        let gap = state.gap(range).unwrap();
        assert(gap.begin == state.expected_sequence && gap.end() == range.begin);
        let last = after.len() - 1;
        if before.len() > 0 && before.last().end() == gap.begin {
            assert(before.last() == before[before.len() - 1]);
            assert forall|n: int| holds(after, n) implies holds(before, n) || gap.contains(n) by {
                let i = choose|i: int| 0 <= i < after.len() && (#[trigger] after[i]).contains(n);
                if i < last {
                    assert(before[i].contains(n));
                } else if !gap.contains(n) {
                    assert(before[last].contains(n));
                }
            }
            assert forall|n: int| holds(before, n) || gap.contains(n) implies holds(after, n) by {
                if gap.contains(n) {
                    assert(after[last].contains(n));
                } else {
                    let i = choose|i: int|
                        0 <= i < before.len() && (#[trigger] before[i]).contains(n);
                    if i < last {
                        assert(after[i].contains(n));
                    } else {
                        assert(after[last].contains(n));
                    }
                }
            }
        } else {
            assert forall|n: int| holds(after, n) implies holds(before, n) || gap.contains(n) by {
                let i = choose|i: int| 0 <= i < after.len() && (#[trigger] after[i]).contains(n);
                if i < last {
                    assert(before[i].contains(n));
                }
            }
            assert forall|n: int| holds(before, n) || gap.contains(n) implies holds(after, n) by {
                if gap.contains(n) {
                    assert(after[last].contains(n));
                } else {
                    let i = choose|i: int|
                        0 <= i < before.len() && (#[trigger] before[i]).contains(n);
                    assert(after[i].contains(n));
                }
            }
        }
    }
}

/// No false gaps and no missed gaps: on a stream whose ranges arrive in
/// order, the sequence numbers that come to be recorded as missing are
/// exactly those between the sequence number expected at the start and the
/// one expected at the end that no range held.
pub proof fn lemma_missing_is_what_no_range_held(state: StreamState, ranges: Seq<Range>)
    requires
        state.wf(),
        in_order(state, ranges),
    ensures
        feed(Some(state), ranges) is Some,
        feed(Some(state), ranges).unwrap().wf(),
        state.expected_sequence <= feed(Some(state), ranges).unwrap().expected_sequence,
        forall|n: int|
            #![trigger holds(feed(Some(state), ranges).unwrap().missing_ranges, n)]
            holds(feed(Some(state), ranges).unwrap().missing_ranges, n) <==> holds(
                state.missing_ranges,
                n,
            ) || (state.expected_sequence <= n < feed(
                Some(state),
                ranges,
            ).unwrap().expected_sequence && !holds(ranges, n)),
        forall|n: int|
            #![trigger holds(ranges, n)]
            holds(ranges, n) ==> state.expected_sequence <= n < feed(
                Some(state),
                ranges,
            ).unwrap().expected_sequence,
    decreases ranges.len(),
{
    if ranges.len() > 0 {
        let init = ranges.drop_last();
        let last = ranges.last();
        lemma_missing_is_what_no_range_held(state, init);
        let mid = feed(Some(state), init).unwrap();
        let end = feed(Some(state), ranges).unwrap();
        assert(end == mid.step(last));
        lemma_step_keeps_wf(mid, last);
        lemma_step_in_order(mid, last);
        assert forall|n: int|
            #![trigger holds(ranges, n)]
            holds(ranges, n) <==> holds(init, n) || last.contains(n) by {
            if holds(ranges, n) {
                let i = choose|i: int| 0 <= i < ranges.len() && (#[trigger] ranges[i]).contains(n);
                if i < init.len() {
                    assert(init[i].contains(n));
                }
            }
            if holds(init, n) {
                let i = choose|i: int| 0 <= i < init.len() && (#[trigger] init[i]).contains(n);
                assert(ranges[i].contains(n));
            }
            if last.contains(n) {
                assert(ranges[ranges.len() - 1].contains(n));
            }
        }
        assert forall|n: int|
            #![trigger holds(end.missing_ranges, n)]
            holds(end.missing_ranges, n) <==> holds(state.missing_ranges, n) || (
            state.expected_sequence <= n < end.expected_sequence && !holds(ranges, n)) by {
            let at_end = holds(end.missing_ranges, n);
            let at_mid = holds(mid.missing_ranges, n);
            let held_before = holds(init, n);
            let held = holds(ranges, n);
            assert(held <==> held_before || last.contains(n));
            if holds(state.missing_ranges, n) {
                let i = choose|i: int|
                    0 <= i < state.missing_ranges.len() && (
                    #[trigger] state.missing_ranges[i]).contains(n);
                assert(n < state.expected_sequence);
            }
        }
        assert forall|n: int| #![trigger holds(ranges, n)] holds(ranges, n) implies
            state.expected_sequence <= n < end.expected_sequence by {
            let held_before = holds(init, n);
            assert(holds(ranges, n) <==> held_before || last.contains(n));
        }
    } else {
        assert forall|n: int| !holds(ranges, n) by {}
        assert forall|n: int| holds(state.missing_ranges, n) implies n
            < state.expected_sequence by {
            let i = choose|i: int|
                0 <= i < state.missing_ranges.len() && (#[trigger] state.missing_ranges[i]).contains(
                    n,
                );
        }
    }
}

/// The continuity state kept for one stream. Every value that the crate
/// hands out is well formed: its view satisfies [`StreamState::wf`].
pub struct StreamContext {
    expected_seq: u64,
    missing: Vec<Range>,
}

impl View for StreamContext {
    type V = StreamState;

    closed spec fn view(&self) -> StreamState {
        StreamState { expected_sequence: self.expected_seq as int, missing_ranges: self.missing@ }
    }
}

impl StreamContext {
    /// The state of a stream whose first observed range is `range`.
    pub fn first(range: Range) -> (state: StreamContext)
        requires
            range.end() <= u64::MAX,
        ensures
            state@ == StreamState::first(range),
            state@.wf(),
    {
        StreamContext { expected_seq: range.begin + range.count, missing: Vec::new() }
    }

    /// Observes `range` on the stream and returns the gap it opened, if any.
    pub fn update(&mut self, range: Range) -> (gap: Option<Range>)
        requires
            old(self)@.wf(),
            range.end() <= u64::MAX,
        ensures
            final(self)@ == old(self)@.step(range),
            gap == old(self)@.gap(range),
            final(self)@.wf(),
    {
        if range.is_sentinel() {
            return None;
        }
        let end: u64 = range.begin + range.count;
        if range.begin == self.expected_seq {
            self.expected_seq = end;
            None
        } else if range.begin > self.expected_seq {
            let gap = Range { begin: self.expected_seq, count: range.begin - self.expected_seq };
            self.expected_seq = end;
            let n: usize = self.missing.len();
            if n > 0 {
                let last: Range = self.missing[n - 1];
                assert(last == old(self)@.missing_ranges[n - 1]);
                if last.begin + last.count == gap.begin {
                    self.missing.pop();
                    self.missing.push(Range { begin: last.begin, count: last.count + gap.count });
                } else {
                    self.missing.push(gap);
                }
            } else {
                self.missing.push(gap);
            }
            Some(gap)
        } else if end <= self.expected_seq {
            None
        } else {
            self.expected_seq = end;
            let n: usize = self.missing.len();
            if n > 0 {
                let last: Range = self.missing[n - 1];
                assert(last == old(self)@.missing_ranges[n - 1]);
                if range.begin <= last.begin {
                    self.missing.pop();
                } else if range.begin < last.begin + last.count {
                    self.missing.pop();
                    self.missing.push(
                        Range { begin: last.begin, count: range.begin - last.begin },
                    );
                }
            }
            None
        }
    }

    /// The sequence number expected next.
    pub fn expected_sequence(&self) -> (expected: u64)
        ensures
            expected == self@.expected_sequence,
    {
        self.expected_seq
    }

    /// The ranges recorded as missing, in ascending order.
    pub fn missing_ranges(&self) -> (missing: &Vec<Range>)
        ensures
            missing@ == self@.missing_ranges,
    {
        &self.missing
    }
}

} // verus!
