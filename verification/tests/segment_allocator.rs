//! The segment allocator's decisions, compared with an independent statement of the policy.

use std::collections::BTreeSet;
use std::ops::Range;

use downpour::allocator::{Allocation, AllocatorError, Grant, SegmentAllocator};
use downpour::intervals::{Interval, IntervalState, WorkerId};

const TOTAL: u64 = 64;
const MIN_SPLIT: u64 = 8;

/// A small deterministic source of numbers.
struct Numbers(u64);

impl Numbers {
    fn below(&mut self, bound: u64) -> u64 {
        self.0 = self
            .0
            .wrapping_mul(6_364_136_223_846_793_005)
            .wrapping_add(1_442_695_040_888_963_407);
        (self.0 >> 33) % bound
    }
}

#[derive(Clone, Debug, Eq, PartialEq)]
struct ExpectedGrant {
    worker: WorkerId,
    range: Range<u64>,
}

#[derive(Clone, Debug, Eq, PartialEq)]
struct ExpectedAllocation {
    grant: ExpectedGrant,
    shortened: Option<ExpectedGrant>,
}

fn worker_is_active(intervals: &[Interval], worker: WorkerId) -> bool {
    intervals.iter().any(
        |interval| matches!(interval.state(), IntervalState::InProgress { worker: owner } if *owner == worker),
    )
}

fn preferred(
    intervals: &[Interval],
    predicate: impl Fn(&IntervalState) -> bool,
) -> Option<&Interval> {
    intervals
        .iter()
        .filter(|interval| predicate(interval.state()))
        .max_by(|left, right| {
            left.len()
                .cmp(&right.len())
                .then_with(|| right.start().cmp(&left.start()))
        })
}

/// Independent statement of the policy. It reads only the public partition.
fn expected_allocation(
    allocator: &SegmentAllocator,
    worker: WorkerId,
    quiesced: &BTreeSet<u64>,
) -> Result<Option<ExpectedAllocation>, AllocatorError> {
    let intervals = allocator.intervals();
    if worker_is_active(intervals, worker) {
        return Err(AllocatorError::WorkerAlreadyActive { worker });
    }

    if let Some(pending) = preferred(intervals, |state| matches!(state, IntervalState::Pending)) {
        return Ok(Some(ExpectedAllocation {
            grant: ExpectedGrant {
                worker,
                range: pending.start()..pending.end(),
            },
            shortened: None,
        }));
    }

    let Some(source) = preferred(
        intervals,
        |state| matches!(state, IntervalState::InProgress { worker: owner } if quiesced.contains(&owner.get())),
    ) else {
        return Ok(None);
    };
    let Some(required) = allocator.min_split_bytes().checked_mul(2) else {
        return Ok(None);
    };
    if source.len() < required {
        return Ok(None);
    }
    let IntervalState::InProgress {
        worker: source_worker,
    } = source.state()
    else {
        return Ok(None);
    };
    let split_at = source.start() + source.len() / 2;
    Ok(Some(ExpectedAllocation {
        grant: ExpectedGrant {
            worker,
            range: split_at..source.end(),
        },
        shortened: Some(ExpectedGrant {
            worker: *source_worker,
            range: source.start()..split_at,
        }),
    }))
}

/// Every worker quiesced: the shape of the example tests, which drive the allocator directly and
/// never have a request in flight.
fn everyone() -> BTreeSet<u64> {
    (0..16).collect()
}

fn actual_grant(grant: &Grant) -> ExpectedGrant {
    ExpectedGrant {
        worker: grant.worker(),
        range: grant.range().clone(),
    }
}

fn actual_allocation(allocation: &Allocation) -> ExpectedAllocation {
    ExpectedAllocation {
        grant: actual_grant(allocation.grant()),
        shortened: allocation.shortened().map(actual_grant),
    }
}

fn wholly_owned(intervals: &[Interval], range: &Range<u64>, worker: WorkerId) -> bool {
    range.start < range.end
        && range.end <= TOTAL
        && intervals
            .iter()
            .filter(|interval| interval.start() < range.end && range.start < interval.end())
            .all(|interval| *interval.state() == IntervalState::InProgress { worker })
}

fn wholly_complete(intervals: &[Interval], range: &Range<u64>) -> bool {
    range.start < range.end
        && range.end <= TOTAL
        && intervals
            .iter()
            .filter(|interval| interval.start() < range.end && range.start < interval.end())
            .all(|interval| *interval.state() == IntervalState::Complete)
}

fn assert_partition(intervals: &[Interval]) {
    let mut cursor = 0;
    let mut previous = None;
    for interval in intervals {
        assert_eq!(interval.start(), cursor, "gap or overlap before {interval:?}");
        assert!(interval.start() < interval.end());
        if let Some(previous) = previous {
            assert_ne!(previous, interval.state());
        }
        cursor = interval.end();
        previous = Some(interval.state());
    }
    assert_eq!(cursor, TOTAL);
}

#[test]
fn forced_sequence_reaches_split_death_reclaim_and_stale_completion() {
    let first = WorkerId::new(1);
    let second = WorkerId::new(2);
    let replacement = WorkerId::new(3);
    let mut allocator = SegmentAllocator::new(TOTAL, MIN_SPLIT).expect("valid allocator");

    let initial = allocator
        .allocate(first, &everyone())
        .expect("allocation is valid")
        .expect("pending bytes exist");
    assert_eq!(initial.grant().range(), &(0..TOTAL));

    let split = allocator
        .allocate(second, &everyone())
        .expect("allocation is valid")
        .expect("the active grant is splittable");
    assert_eq!(split.grant().range(), &(32..64));
    assert_eq!(
        split.shortened().map(Grant::range),
        Some(&(0..32)),
        "the original worker must learn its grant was shortened"
    );

    allocator
        .complete_durable(second, 32..64)
        .expect("the recipient may complete exactly the grant it owns");
    assert!(
        wholly_complete(allocator.intervals(), &(32..64)),
        "accepted completion must change the canonical state"
    );

    assert_eq!(allocator.abandon(first), 32, "worker death reclaimed bytes");
    let reclaimed = allocator
        .allocate(replacement, &everyone())
        .expect("allocation is valid")
        .expect("reclaimed pending bytes exist");
    assert_eq!(reclaimed.grant().range(), &(0..32));

    let before = allocator.clone();
    assert!(
        allocator.complete_durable(first, 0..32).is_err(),
        "a dead worker's stale completion must not bless its replacement's bytes"
    );
    assert_eq!(allocator, before, "stale completion mutated the map");
}

#[test]
fn neither_half_may_fall_below_the_minimum_split_size() {
    let mut allocator = SegmentAllocator::new(15, 8).expect("valid allocator");
    assert!(
        allocator
            .allocate(WorkerId::new(1), &everyone())
            .expect("allocation is valid")
            .is_some()
    );
    assert_eq!(
        allocator
            .allocate(WorkerId::new(2), &everyone())
            .expect("allocation is valid"),
        None
    );
}

#[test]
fn a_zero_minimum_split_is_rejected() {
    assert_eq!(
        SegmentAllocator::new(TOTAL, 0),
        Err(AllocatorError::ZeroMinimumSplit)
    );
}

#[test]
fn the_largest_active_remainder_is_split_before_a_smaller_one() {
    let first = WorkerId::new(1);
    let second = WorkerId::new(2);
    let third = WorkerId::new(3);
    let mut allocator = SegmentAllocator::new(96, MIN_SPLIT).expect("valid allocator");

    allocator
        .allocate(first, &everyone())
        .expect("allocation is valid")
        .expect("pending bytes exist");
    allocator
        .allocate(second, &everyone())
        .expect("allocation is valid")
        .expect("the initial grant is splittable");
    allocator
        .complete_durable(second, 48..80)
        .expect("the second worker owns this prefix of its grant");

    let split = allocator
        .allocate(third, &everyone())
        .expect("allocation is valid")
        .expect("the 48-byte remainder is splittable");
    assert_eq!(
        split.grant().range(),
        &(24..48),
        "the 48-byte first-worker remainder must win over the 16-byte second-worker remainder"
    );
    assert_eq!(split.shortened().map(Grant::worker), Some(first));
}

#[test]
fn equal_active_remainders_choose_the_lowest_offset() {
    let mut allocator = SegmentAllocator::new(TOTAL, MIN_SPLIT).expect("valid allocator");
    allocator
        .allocate(WorkerId::new(1), &everyone())
        .expect("allocation is valid")
        .expect("pending bytes exist");
    allocator
        .allocate(WorkerId::new(2), &everyone())
        .expect("allocation is valid")
        .expect("the initial grant is splittable");

    let allocation = allocator
        .allocate(WorkerId::new(3), &everyone())
        .expect("allocation is valid")
        .expect("both equal remainders are splittable");
    assert_eq!(
        allocation.grant().range(),
        &(16..32),
        "equal-sized candidates must resolve toward the lowest offset"
    );
}

#[test]
fn the_largest_pending_remainder_is_granted_before_any_active_split() {
    let first = WorkerId::new(1);
    let second = WorkerId::new(2);
    let separator = WorkerId::new(3);
    let recipient = WorkerId::new(4);
    let mut allocator = SegmentAllocator::new(96, MIN_SPLIT).expect("valid allocator");

    allocator
        .allocate(first, &everyone())
        .expect("allocation is valid")
        .expect("pending bytes exist");
    allocator
        .allocate(second, &everyone())
        .expect("allocation is valid")
        .expect("the initial grant is splittable");
    allocator
        .allocate(separator, &everyone())
        .expect("allocation is valid")
        .expect("one active half is splittable");

    assert_eq!(allocator.abandon(first), 24);
    assert_eq!(allocator.abandon(second), 48);
    let allocation = allocator
        .allocate(recipient, &everyone())
        .expect("allocation is valid")
        .expect("pending bytes exist");
    assert_eq!(
        allocation.grant().range(),
        &(48..96),
        "the 48-byte pending range must win over the 24-byte pending range and active work"
    );
    assert_eq!(allocation.shortened(), None, "pending work is not a split");
}

#[test]
fn a_worker_with_a_request_in_flight_never_has_its_grant_split() {
    let busy = WorkerId::new(1);
    let idle = WorkerId::new(2);
    let mut allocator = SegmentAllocator::new(TOTAL, MIN_SPLIT).expect("valid allocator");
    allocator
        .allocate(busy, &everyone())
        .expect("allocation is valid")
        .expect("pending bytes exist");

    let quiesced = BTreeSet::from([idle.get()]);
    assert_eq!(
        allocator
            .allocate(idle, &quiesced)
            .expect("allocation is valid"),
        None,
        "a grant whose owner is still transferring must not be split"
    );
    assert_eq!(
        allocator.intervals().len(),
        1,
        "a refused split must leave the map untouched"
    );

    let quiesced = BTreeSet::from([idle.get(), busy.get()]);
    let allocation = allocator
        .allocate(idle, &quiesced)
        .expect("allocation is valid")
        .expect("a quiesced owner's grant is splittable");
    assert_eq!(allocation.grant().range(), &(32..64));
    assert_eq!(allocation.shortened().map(Grant::worker), Some(busy));
}

#[test]
fn the_split_candidate_names_the_worker_that_would_have_to_be_stopped() {
    let first = WorkerId::new(1);
    let second = WorkerId::new(2);
    let mut allocator = SegmentAllocator::new(96, MIN_SPLIT).expect("valid allocator");
    assert_eq!(
        allocator.split_candidate(),
        None,
        "with everything pending there is nobody to stop"
    );

    allocator
        .allocate(first, &everyone())
        .expect("allocation is valid")
        .expect("pending bytes exist");
    allocator
        .allocate(second, &everyone())
        .expect("allocation is valid")
        .expect("the initial grant is splittable");
    allocator
        .complete_durable(second, 48..80)
        .expect("the second worker owns this prefix of its grant");

    assert_eq!(
        allocator.split_candidate(),
        Some(first),
        "the candidate must be the owner the allocator would actually split"
    );
    let allocation = allocator
        .allocate(WorkerId::new(3), &BTreeSet::from([3, first.get()]))
        .expect("allocation is valid")
        .expect("the named candidate is splittable once quiesced");
    assert_eq!(allocation.shortened().map(Grant::worker), Some(first));
}

#[test]
fn no_candidate_is_named_when_nothing_is_large_enough_to_divide() {
    let worker = WorkerId::new(1);
    let mut allocator = SegmentAllocator::new(15, 8).expect("valid allocator");
    allocator
        .allocate(worker, &everyone())
        .expect("allocation is valid")
        .expect("pending bytes exist");
    assert_eq!(
        allocator.split_candidate(),
        None,
        "stopping a worker for a segment that cannot be divided costs a connection and buys \
         nothing"
    );
}

#[test]
fn every_decision_matches_the_semantic_oracle() {
    let mut numbers = Numbers(11);
    for _ in 0..300 {
        let mut allocator =
            SegmentAllocator::new(TOTAL, MIN_SPLIT).expect("the fixed configuration is valid");
        for _ in 0..100 {
            let before = allocator.clone();
            let worker = WorkerId::new(numbers.below(8));
            match numbers.below(3) {
                0 => {
                    let mut quiesced = BTreeSet::new();
                    for _ in 0..numbers.below(8) {
                        quiesced.insert(numbers.below(8));
                    }
                    let expected = expected_allocation(&before, worker, &quiesced);
                    let actual = allocator.allocate(worker, &quiesced);
                    assert_eq!(
                        actual.map(|given| given.as_ref().map(actual_allocation)),
                        expected
                    );
                    match expected {
                        Ok(Some(expected)) => {
                            assert!(wholly_owned(
                                allocator.intervals(),
                                &expected.grant.range,
                                expected.grant.worker
                            ));
                            if let Some(shortened) = expected.shortened {
                                assert!(wholly_owned(
                                    allocator.intervals(),
                                    &shortened.range,
                                    shortened.worker
                                ));
                            }
                        }
                        _ => assert_eq!(allocator, before, "nothing was given out"),
                    }
                }
                1 => {
                    let range = numbers.below(TOTAL + 1)..numbers.below(TOTAL + 1);
                    let permitted = wholly_owned(before.intervals(), &range, worker);
                    let result = allocator.complete_durable(worker, range.clone());
                    assert_eq!(result.is_ok(), permitted);
                    if permitted {
                        assert!(wholly_complete(allocator.intervals(), &range));
                    } else {
                        assert_eq!(allocator, before);
                    }
                }
                _ => {
                    let expected = before
                        .intervals()
                        .iter()
                        .filter(|interval| {
                            *interval.state() == IntervalState::InProgress { worker }
                        })
                        .map(|interval| interval.len())
                        .sum::<u64>();
                    assert_eq!(allocator.abandon(worker), expected);
                    assert!(!worker_is_active(allocator.intervals(), worker));
                }
            }
            assert_partition(allocator.intervals());
        }
    }
}

#[test]
fn a_worker_with_a_grant_gets_no_second_one() {
    let worker = WorkerId::new(1);
    let mut allocator = SegmentAllocator::new(TOTAL, MIN_SPLIT).expect("valid allocator");
    allocator
        .allocate(worker, &everyone())
        .expect("allocation is valid")
        .expect("pending bytes exist");
    assert_eq!(
        allocator.allocate(worker, &everyone()),
        Err(AllocatorError::WorkerAlreadyActive { worker })
    );
}
