//! The canonical interval map.

use downpour::intervals::{IntervalMap, IntervalMapError, IntervalState, WorkerId};

const TOTAL: u64 = 64;

/// A small deterministic source of numbers.
struct Numbers(u64);

impl Numbers {
    fn below(&mut self, bound: u64) -> u64 {
        self.0 = self
            .0
            .wrapping_mul(6_364_136_223_846_793_005)
            .wrapping_add(1_442_695_040_888_963_407);
        (self.0 >> 33) % bound
    }
}

fn assert_laws(map: &IntervalMap, total: u64) {
    let mut cursor = 0;
    let mut previous: Option<IntervalState> = None;
    for interval in map.intervals() {
        assert_eq!(interval.start(), cursor, "gap or overlap before {interval:?}");
        assert!(interval.start() < interval.end(), "zero-length {interval:?}");
        if let Some(previous) = previous {
            assert_ne!(previous, *interval.state(), "equal neighbours were not merged");
        }
        cursor = interval.end();
        previous = Some(*interval.state());
    }
    assert_eq!(cursor, total, "partition does not cover [0, total)");
}

#[test]
fn intervals_stay_disjoint_and_total() {
    let mut numbers = Numbers(7);
    for _ in 0..200 {
        let mut map = IntervalMap::new(TOTAL);
        assert_laws(&map, TOTAL);
        for _ in 0..80 {
            let before = map.clone();
            let start = numbers.below(TOTAL + 1);
            let end = numbers.below(TOTAL + 1);
            let worker = WorkerId::new(numbers.below(6));
            let other = WorkerId::new(numbers.below(6));
            let rejected = match numbers.below(4) {
                0 => map.grant(start..end, worker).is_err(),
                1 => map.split_in_progress(start, worker, other).is_err(),
                2 => map.complete(start..end, worker).is_err(),
                _ => {
                    map.abandon(worker);
                    false
                }
            };
            if rejected {
                assert_eq!(map, before, "a rejected operation mutated the map");
            }
            assert_laws(&map, TOTAL);
        }
    }
}

#[test]
fn completing_both_split_halves_equals_completing_the_whole() {
    for split_at in 1..TOTAL {
        let first = WorkerId::new(1);
        let second = WorkerId::new(2);

        let mut whole = IntervalMap::new(TOTAL);
        whole.grant(0..TOTAL, first).expect("the whole map is pending");
        whole
            .complete(0..TOTAL, first)
            .expect("the whole grant belongs to the worker");

        let mut split = IntervalMap::new(TOTAL);
        split.grant(0..TOTAL, first).expect("the whole map is pending");
        split
            .split_in_progress(split_at, first, second)
            .expect("the split point is strictly inside the active grant");
        split
            .complete(0..split_at, first)
            .expect("the left half belongs to the original worker");
        split
            .complete(split_at..TOTAL, second)
            .expect("the right half belongs to the recipient");

        assert_eq!(split.intervals(), whole.intervals());
        assert_laws(&split, TOTAL);
    }
}

#[test]
fn disjoint_completions_are_order_independent() {
    for split_at in 1..TOTAL {
        let first = WorkerId::new(1);
        let second = WorkerId::new(2);

        let mut left_then_right = IntervalMap::new(TOTAL);
        left_then_right
            .grant(0..split_at, first)
            .expect("left range is pending");
        left_then_right
            .grant(split_at..TOTAL, second)
            .expect("right range is pending");

        let mut right_then_left = left_then_right.clone();
        left_then_right
            .complete(0..split_at, first)
            .expect("left grant belongs to first worker");
        left_then_right
            .complete(split_at..TOTAL, second)
            .expect("right grant belongs to second worker");

        right_then_left
            .complete(split_at..TOTAL, second)
            .expect("right grant belongs to second worker");
        right_then_left
            .complete(0..split_at, first)
            .expect("left grant belongs to first worker");

        assert_eq!(left_then_right.intervals(), right_then_left.intervals());
        assert_laws(&left_then_right, TOTAL);
    }
}

#[test]
fn zero_length_files_have_an_empty_total_partition() {
    let map = IntervalMap::new(0);
    assert!(map.intervals().is_empty());
    assert_eq!(map.total_length(), 0);
}

#[test]
fn every_refusal_is_told_apart_and_readable() {
    let worker = WorkerId::new(3);
    let other = WorkerId::new(4);
    let mut map = IntervalMap::new(10);
    let invalid = map.grant(4..4, worker).expect_err("empty");
    assert_eq!(
        invalid,
        IntervalMapError::InvalidRange {
            start: 4,
            end: 4,
            total_length: 10
        }
    );
    assert_eq!(
        invalid.describe(),
        "range [4, 4) is not a non-empty subset of [0, 10)"
    );
    map.grant(2..8, worker).expect("pending");
    let taken = map.grant(0..3, other).expect_err("taken");
    assert_eq!(taken, IntervalMapError::RangeNotPending { start: 0, end: 3 });
    assert_eq!(taken.describe(), "range [0, 3) is not wholly pending");
    let foreign = map.complete(2..4, other).expect_err("not its own");
    assert_eq!(
        foreign,
        IntervalMapError::RangeNotOwned {
            start: 2,
            end: 4,
            worker: other
        }
    );
    assert_eq!(
        foreign.describe(),
        "range [2, 4) is not wholly owned by worker 4"
    );
    let outside = map.split_in_progress(2, worker, other).expect_err("at the edge");
    assert_eq!(
        outside,
        IntervalMapError::SplitPointUnavailable {
            at: 2,
            source: worker
        }
    );
    assert_eq!(
        outside.describe(),
        "offset 2 is not inside a grant owned by worker 3"
    );
    let same = map.split_in_progress(4, worker, worker).expect_err("to itself");
    assert_eq!(same, IntervalMapError::SplitWorkerUnchanged { worker });
    assert_eq!(same.describe(), "worker 3 cannot split a grant to itself");
}

#[test]
fn abandoning_twice_releases_nothing_more() {
    let worker = WorkerId::new(9);
    let mut map = IntervalMap::new(16);
    map.grant(4..12, worker).expect("pending");
    map.complete(4..6, worker).expect("owned");
    assert_eq!(map.abandon(worker), 6);
    assert_eq!(map.abandon(worker), 0);
    assert_eq!(map.intervals().len(), 3);
    assert_eq!(map.intervals()[1].state(), &IntervalState::Complete);
    assert_eq!(map.intervals()[1].len(), 2);
    assert!(!map.intervals()[1].is_empty());
}
