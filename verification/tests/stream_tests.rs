use sequence::exchange::Range;
use sequence::stream::StreamContext;

fn range(begin: u64, count: u64) -> Range {
    Range { begin, count }
}

#[test]
fn first_range_sets_the_baseline() {
    let state = StreamContext::first(range(100, 4));
    assert_eq!(state.expected_sequence(), 104);
    assert!(state.missing_ranges().is_empty());
}

#[test]
fn contiguous_ranges_leave_nothing_missing() {
    let mut state = StreamContext::first(range(10, 2));
    let mut total: u64 = 2;
    let mut next: u64 = 12;
    for count in [1u64, 5, 0, 3, 7] {
        assert_eq!(state.update(range(next, count)), None);
        next += count;
        total += count;
    }
    assert!(state.missing_ranges().is_empty());
    assert_eq!(state.expected_sequence(), 10 + total);
    assert_eq!(state.expected_sequence(), 28);
}

#[test]
fn forward_gap_records_one_entry() {
    let mut state = StreamContext::first(range(40, 10));
    let gap = state.update(range(57, 3));
    assert_eq!(gap, Some(range(50, 7)));
    assert_eq!(state.missing_ranges(), &vec![range(50, 7)]);
    assert_eq!(state.expected_sequence(), 60);
}

#[test]
fn cme_scenario_records_the_gap() {
    let mut state = StreamContext::first(range(5, 1));
    assert_eq!(state.update(range(6, 1)), None);
    assert_eq!(state.update(range(9, 1)), Some(range(7, 2)));
    assert_eq!(state.missing_ranges(), &vec![range(7, 2)]);
    assert_eq!(state.expected_sequence(), 10);
}

#[test]
fn separate_gaps_are_kept_in_order() {
    let mut state = StreamContext::first(range(1, 1));
    assert_eq!(state.update(range(4, 1)), Some(range(2, 2)));
    assert_eq!(state.update(range(5, 1)), None);
    assert_eq!(state.update(range(10, 2)), Some(range(6, 4)));
    assert_eq!(state.missing_ranges(), &vec![range(2, 2), range(6, 4)]);
    assert_eq!(state.expected_sequence(), 12);
}

#[test]
fn touching_gaps_coalesce() {
    let mut state = StreamContext::first(range(1, 1));
    assert_eq!(state.update(range(5, 0)), Some(range(2, 3)));
    assert_eq!(state.expected_sequence(), 5);
    assert_eq!(state.update(range(9, 1)), Some(range(5, 4)));
    assert_eq!(state.missing_ranges(), &vec![range(2, 7)]);
    assert_eq!(state.expected_sequence(), 10);
}

#[test]
fn duplicate_changes_nothing() {
    let mut state = StreamContext::first(range(1, 1));
    state.update(range(5, 5));
    assert_eq!(state.update(range(3, 2)), None);
    assert_eq!(state.update(range(9, 1)), None);
    assert_eq!(state.update(range(2, 8)), None);
    assert_eq!(state.update(range(10, 0)), None);
    assert_eq!(state.missing_ranges(), &vec![range(2, 3)]);
    assert_eq!(state.expected_sequence(), 10);
}

#[test]
fn sentinel_changes_nothing() {
    let mut state = StreamContext::first(range(7, 1));
    state.update(range(20, 1));
    assert_eq!(state.update(range(0, 0)), None);
    assert_eq!(state.missing_ranges(), &vec![range(8, 12)]);
    assert_eq!(state.expected_sequence(), 21);
}

#[test]
fn overlap_advances_without_touching_older_data() {
    let mut state = StreamContext::first(range(1, 1));
    state.update(range(5, 5));
    assert_eq!(state.update(range(8, 6)), None);
    assert_eq!(state.expected_sequence(), 14);
    assert_eq!(state.missing_ranges(), &vec![range(2, 3)]);
}

#[test]
fn overlap_trims_the_latest_gap() {
    let mut state = StreamContext::first(range(1, 1));
    state.update(range(10, 0));
    assert_eq!(state.missing_ranges(), &vec![range(2, 8)]);
    assert_eq!(state.update(range(6, 7)), None);
    assert_eq!(state.expected_sequence(), 13);
    assert_eq!(state.missing_ranges(), &vec![range(2, 4)]);
}

#[test]
fn overlap_removes_a_covered_gap() {
    let mut state = StreamContext::first(range(1, 1));
    state.update(range(4, 1));
    state.update(range(9, 0));
    assert_eq!(state.missing_ranges(), &vec![range(2, 2), range(5, 4)]);
    assert_eq!(state.update(range(5, 6)), None);
    assert_eq!(state.expected_sequence(), 11);
    assert_eq!(state.missing_ranges(), &vec![range(2, 2)]);
}

#[test]
fn overlap_reconciles_only_the_latest_gap() {
    let mut state = StreamContext::first(range(1, 1));
    state.update(range(4, 1));
    state.update(range(9, 0));
    assert_eq!(state.update(range(1, 20)), None);
    assert_eq!(state.expected_sequence(), 21);
    assert_eq!(state.missing_ranges(), &vec![range(2, 2)]);
}

#[test]
fn expected_sequence_never_goes_back() {
    let mut state = StreamContext::first(range(50, 1));
    let mut last = state.expected_sequence();
    for r in [range(60, 1), range(10, 5), range(55, 10), range(0, 0), range(65, 0), range(1, 100)] {
        state.update(r);
        assert!(state.expected_sequence() >= last);
        last = state.expected_sequence();
    }
    assert_eq!(last, 101);
}

#[test]
fn ranges_may_end_at_the_largest_sequence_number() {
    let mut state = StreamContext::first(range(u64::MAX - 10, 2));
    assert_eq!(state.update(range(u64::MAX - 1, 1)), Some(range(u64::MAX - 8, 7)));
    assert_eq!(state.expected_sequence(), u64::MAX);
}

#[test]
fn in_order_feed_misses_exactly_what_no_range_held() {
    let ranges = [range(13, 2), range(15, 0), range(18, 1), range(19, 3), range(30, 0), range(31, 4)];
    let mut state = StreamContext::first(range(10, 3));
    for r in ranges {
        state.update(r);
    }
    assert_eq!(state.expected_sequence(), 35);
    for n in 13u64..35 {
        let held = ranges.iter().any(|r| r.begin <= n && n < r.begin + r.count);
        let missing = state.missing_ranges().iter().any(|r| r.begin <= n && n < r.begin + r.count);
        assert_eq!(missing, !held, "sequence number {}", n);
    }
    assert_eq!(state.missing_ranges(), &vec![range(15, 3), range(22, 9)]);
}
