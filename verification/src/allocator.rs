//! The sole allocator of worker-owned byte ranges.
//!
//! One allocator serves one download. It hands an idle worker the largest pending interval, or
//! splits the largest interval of a worker that has no request in flight.

use crate::intervals;
use crate::intervals::{Interval, IntervalMap, IntervalMapError, IntervalState, WorkerId};
use std::collections::BTreeSet;
use std::ops::Range;
use vstd::prelude::*;

verus! {

/// Default lower bound for either half of a split grant.
pub const DEFAULT_MIN_SPLIT_BYTES: u64 = 1_048_576;

/// One exact byte range owned by one worker.
#[derive(Debug, PartialEq, Eq)]
pub struct Grant {
    /// Worker that exclusively owns the range.
    pub worker: WorkerId,
    /// Exact half-open range the worker may write.
    pub range: Range<u64>,
}

impl Clone for Grant {
    /// Copies the grant.
    fn clone(&self) -> (copy: Self)
        ensures
            copy == *self,
    {
        Grant { worker: self.worker, range: Range { start: self.range.start, end: self.range.end } }
    }
}

impl Grant {
    /// Worker that exclusively owns this range.
    pub fn worker(&self) -> (worker: WorkerId)
        ensures
            worker == self.worker,
    {
        self.worker
    }

    /// Exact half-open range the worker may write.
    pub fn range(&self) -> (range: &Range<u64>)
        ensures
            *range == self.range,
    {
        &self.range
    }
}

/// Result of one idle worker asking the allocator for work.
#[derive(Debug, PartialEq, Eq)]
pub struct Allocation {
    /// New grant issued to the requesting worker.
    pub grant: Grant,
    /// Existing source grant shortened by a split, if work came from an active worker.
    pub shortened: Option<Grant>,
}

impl Clone for Allocation {
    /// Copies the allocation.
    fn clone(&self) -> (copy: Self)
        ensures
            copy == *self,
    {
        let shortened = match &self.shortened {
            Some(grant) => Some(grant.clone()),
            None => None,
        };
        Allocation { grant: self.grant.clone(), shortened }
    }
}

impl Allocation {
    /// New grant issued to the requesting worker.
    pub fn grant(&self) -> (grant: &Grant)
        ensures
            *grant == self.grant,
    {
        &self.grant
    }

    /// Existing source grant shortened by a split, if work came from an active worker.
    pub fn shortened(&self) -> (shortened: Option<&Grant>)
        ensures
            shortened == (match self.shortened {
                Some(grant) => Some(&grant),
                None => None,
            }),
    {
        match &self.shortened {
            Some(grant) => Some(grant),
            None => None,
        }
    }
}

/// A segment-allocation request that could not be honoured safely.
#[derive(Clone, Copy, Debug, PartialEq, Eq, Structural)]
pub enum AllocatorError {
    /// A zero split floor would permit zero-useful-work churn.
    ZeroMinimumSplit,
    /// A worker that already owns bytes asked for a second grant.
    WorkerAlreadyActive {
        /// Worker that made the invalid request.
        worker: WorkerId,
    },
    /// The canonical interval map rejected the mutation.
    Interval(IntervalMapError),
}

/// Which intervals a search may choose.
pub enum Eligible {
    /// Unassigned intervals.
    Pending,
    /// Intervals of the workers with these numbers.
    OwnedBy(Set<u64>),
    /// Intervals of any worker.
    Owned,
}

impl Eligible {
    /// The search may choose an interval in this state.
    pub open spec fn admits(self, state: IntervalState) -> bool {
        match (self, state) {
            (Eligible::Pending, IntervalState::Pending) => true,
            (Eligible::OwnedBy(workers), IntervalState::InProgress { worker }) => workers.contains(
                worker.0,
            ),
            (Eligible::Owned, IntervalState::InProgress { worker }) => true,
            _ => false,
        }
    }
}

/// The widest eligible interval; among equally wide ones, the one at the lowest offset.
pub open spec fn preferred(runs: Seq<Interval>, eligible: Eligible) -> Option<Interval>
    decreases runs.len(),
{
    if runs.len() == 0 {
        None
    } else {
        let before = preferred(runs.drop_last(), eligible);
        let candidate = runs.last();
        if !eligible.admits(candidate.state) {
            before
        } else {
            match before {
                Some(best) if best.width() >= candidate.width() => before,
                _ => Some(candidate),
            }
        }
    }
}

/// Some byte belongs to `worker`.
pub open spec fn is_active(states: Seq<IntervalState>, worker: WorkerId) -> bool {
    exists|i: int|
        0 <= i < states.len() && #[trigger] states[i] == (IntervalState::InProgress { worker })
}

/// What the search finds is eligible, no eligible interval is wider, and no equally wide one
/// stands before it.
pub proof fn law_preferred_is_widest_then_lowest(runs: Seq<Interval>, eligible: Eligible)
    ensures
        match preferred(runs, eligible) {
            Some(best) => exists|k: int|
                #![trigger runs[k]]
                0 <= k < runs.len() && runs[k] == best && eligible.admits(best.state) && forall|
                    j: int,
                |
                    0 <= j < runs.len() && eligible.admits((#[trigger] runs[j]).state)
                        ==> runs[j].width() < best.width() || (runs[j].width() == best.width() && k
                        <= j),
            None => forall|j: int|
                0 <= j < runs.len() ==> !eligible.admits((#[trigger] runs[j]).state),
        },
    decreases runs.len(),
{
    if runs.len() > 0 {
        let front = runs.drop_last();
        law_preferred_is_widest_then_lowest(front, eligible);
        let last = runs.len() - 1;
        assert(forall|j: int| 0 <= j < front.len() ==> #[trigger] runs[j] == front[j]);
        match preferred(runs, eligible) {
            Some(best) => {
                if preferred(front, eligible) == Some(best) {
                    let k = choose|k: int|
                        #![trigger front[k]]
                        0 <= k < front.len() && front[k] == best && eligible.admits(best.state)
                            && forall|j: int|
                            0 <= j < front.len() && eligible.admits((#[trigger] front[j]).state)
                                ==> front[j].width() < best.width() || (front[j].width()
                                == best.width() && k <= j);
                    assert(runs[k] == best);
                    assert forall|j: int|
                        0 <= j < runs.len() && eligible.admits(
                            (#[trigger] runs[j]).state,
                        ) implies runs[j].width() < best.width() || (runs[j].width()
                        == best.width() && k <= j) by {
                        if j < front.len() {
                            assert(runs[j] == front[j]);
                        }
                    }
                } else {
                    assert(runs[last] == best);
                    assert forall|j: int|
                        0 <= j < runs.len() && eligible.admits(
                            (#[trigger] runs[j]).state,
                        ) implies runs[j].width() < best.width() || (runs[j].width()
                        == best.width() && last <= j) by {
                        if j < front.len() {
                            assert(runs[j] == front[j]);
                        }
                    }
                }
            },
            None => {
                assert forall|j: int| 0 <= j < runs.len() implies !eligible.admits(
                    (#[trigger] runs[j]).state,
                ) by {
                    if j < front.len() {
                        assert(runs[j] == front[j]);
                    }
                }
            },
        }
    }
}

/// Sole allocator for one download's byte space.
#[derive(Debug, PartialEq, Eq)]
pub struct SegmentAllocator {
    intervals: IntervalMap,
    min_split_bytes: u64,
}

impl Clone for SegmentAllocator {
    /// Copies the allocator.
    fn clone(&self) -> (copy: Self)
        ensures
            copy.map().runs() == self.map().runs(),
            copy.map().length() == self.map().length(),
            copy.floor() == self.floor(),
    {
        SegmentAllocator {
            intervals: self.intervals.clone(),
            min_split_bytes: self.min_split_bytes,
        }
    }
}

impl SegmentAllocator {
    /// The canonical partition that this allocator hands out.
    pub closed spec fn map(&self) -> IntervalMap {
        self.intervals
    }

    /// The configured lower bound for either half of a split.
    pub closed spec fn floor(&self) -> u64 {
        self.min_split_bytes
    }

    /// The partition is canonical and the split floor is positive.
    pub open spec fn wf(&self) -> bool {
        &&& self.map().wf()
        &&& self.floor() > 0
    }

    /// The widest interval that the search admits and that can be halved with both halves at or
    /// above the floor.
    pub open spec fn divisible(&self, eligible: Eligible) -> Option<Interval> {
        match preferred(self.map().runs(), eligible) {
            Some(interval) if interval.width() >= 2 * self.floor() && 2 * self.floor()
                <= u64::MAX => Some(interval),
            _ => None,
        }
    }

    /// What a worker that asks for work is told.
    pub open spec fn allocate_answer(&self, worker: WorkerId, quiesced: Set<u64>) -> Result<
        Option<Allocation>,
        AllocatorError,
    > {
        if is_active(self.map()@, worker) {
            Err(AllocatorError::WorkerAlreadyActive { worker })
        } else {
            match preferred(self.map().runs(), Eligible::Pending) {
                Some(pending) => Ok(
                    Some(
                        Allocation {
                            grant: Grant {
                                worker,
                                range: Range { start: pending.start, end: pending.end },
                            },
                            shortened: None,
                        },
                    ),
                ),
                None => match self.divisible(Eligible::OwnedBy(quiesced)) {
                    Some(active) => {
                        let at = (active.start + active.width() / 2) as u64;
                        Ok(
                            Some(
                                Allocation {
                                    grant: Grant {
                                        worker,
                                        range: Range { start: at, end: active.end },
                                    },
                                    shortened: Some(
                                        Grant {
                                            worker: active.state->worker,
                                            range: Range { start: active.start, end: at },
                                        },
                                    ),
                                },
                            ),
                        )
                    },
                    None => Ok(None),
                },
            }
        }
    }

    /// Create a pending map over `[0, total_length)`.
    pub fn new(total_length: u64, min_split_bytes: u64) -> (made: Result<Self, AllocatorError>)
        ensures
            min_split_bytes == 0 ==> made == Err::<Self, AllocatorError>(
                AllocatorError::ZeroMinimumSplit,
            ),
            min_split_bytes > 0 ==> made is Ok,
            made matches Ok(allocator) ==> {
                &&& allocator.wf()
                &&& allocator.floor() == min_split_bytes
                &&& allocator.map().length() == total_length
                &&& allocator.map()@ == intervals::repeated(total_length as int, IntervalState::Pending)
            },
    {
        if min_split_bytes == 0 {
            return Err(AllocatorError::ZeroMinimumSplit);
        }
        Ok(SegmentAllocator { intervals: IntervalMap::new(total_length), min_split_bytes })
    }

    /// Continue from a partition that recovery established.
    pub fn resume(intervals: IntervalMap, min_split_bytes: u64) -> (made: Result<
        Self,
        AllocatorError,
    >)
        requires
            intervals.wf(),
        ensures
            min_split_bytes == 0 ==> made == Err::<Self, AllocatorError>(
                AllocatorError::ZeroMinimumSplit,
            ),
            min_split_bytes > 0 ==> made is Ok,
            made matches Ok(allocator) ==> {
                &&& allocator.wf()
                &&& allocator.floor() == min_split_bytes
                &&& allocator.map() == intervals
            },
    {
        if min_split_bytes == 0 {
            return Err(AllocatorError::ZeroMinimumSplit);
        }
        Ok(SegmentAllocator { intervals, min_split_bytes })
    }

    /// Canonical interval partition, exposed for scheduling evidence and recovery.
    pub fn intervals(&self) -> (intervals: &[Interval])
        ensures
            intervals@ == self.map().runs(),
    {
        self.intervals.intervals()
    }

    /// Length of the byte space that this allocator serves.
    pub fn total_length(&self) -> (length: u64)
        ensures
            length == self.map().length(),
    {
        self.intervals.total_length()
    }

    /// Configured lower bound for either half of a split.
    pub fn min_split_bytes(&self) -> (floor: u64)
        ensures
            floor == self.floor(),
    {
        self.min_split_bytes
    }

    /// Allocate work to an idle worker.
    ///
    /// Pending work wins. When no pending interval remains, the largest interval owned by a
    /// quiesced worker is split in half if both resulting grants meet the floor. Equal-sized
    /// candidates are resolved toward the lowest offset, so replaying the same state produces
    /// the same decision.
    ///
    /// `quiesced` holds the numbers of the workers that have no request in flight. Shortening the
    /// grant of a worker whose response is still arriving would make the rest of that response
    /// fail against a boundary it has never seen, so a scheduler stops a worker before its
    /// segment can be split; see [`Self::split_candidate`] for choosing which one.
    pub fn allocate(&mut self, worker: WorkerId, quiesced: &BTreeSet<u64>) -> (answer: Result<
        Option<Allocation>,
        AllocatorError,
    >)
        requires
            old(self).wf(),
        ensures
            final(self).wf(),
            answer == old(self).allocate_answer(worker, quiesced@),
            final(self).floor() == old(self).floor(),
            final(self).map().length() == old(self).map().length(),
            answer matches Ok(Some(allocation)) ==> final(self).map()@ == intervals::overwritten(
                old(self).map()@,
                allocation.grant.range.start as int,
                allocation.grant.range.end as int,
                IntervalState::InProgress { worker },
            ),
            (answer is Err || answer == Ok::<Option<Allocation>, AllocatorError>(None))
                ==> *final(self) == *old(self),
    {
        if self.owns(worker) {
            return Err(AllocatorError::WorkerAlreadyActive { worker });
        }
        let ghost runs = self.map().runs();
        if let Some(pending) = self.preferred_pending() {
            proof {
                lemma_preferred_found(runs, Eligible::Pending, pending);
                self.lemma_bytes_of(pending);
            }
            let range = Range { start: pending.start, end: pending.end };
            match self.intervals.grant(Range { start: pending.start, end: pending.end }, worker) {
                Ok(()) => {},
                Err(error) => {
                    return Err(AllocatorError::Interval(error));
                },
            }
            return Ok(Some(Allocation { grant: Grant { worker, range }, shortened: None }));
        }
        let required: u64 = match self.min_split_bytes.checked_mul(2) {
            Some(required) => required,
            None => {
                return Ok(None);
            },
        };
        let active = match self.preferred_active(Some(quiesced)) {
            Some(active) => active,
            None => {
                return Ok(None);
            },
        };
        proof {
            lemma_preferred_found(runs, Eligible::OwnedBy(quiesced@), active);
            self.lemma_bytes_of(active);
        }
        let width: u64 = active.len();
        if width < required {
            return Ok(None);
        }
        let source: WorkerId = match active.state {
            IntervalState::InProgress { worker } => worker,
            _ => {
                return Ok(None);
            },
        };
        let split_at: u64 = active.start + width / 2;
        proof {
            assert(self.map()@[active.start as int] == active.state);
            assert(source != worker);
            let k = choose|k: int| 0 <= k < runs.len() && runs[k] == active;
            self.map().lemma_run_of(k, split_at as int);
        }
        match self.intervals.split_in_progress(split_at, source, worker) {
            Ok(()) => {},
            Err(error) => {
                return Err(AllocatorError::Interval(error));
            },
        }
        Ok(
            Some(
                Allocation {
                    grant: Grant { worker, range: Range { start: split_at, end: active.end } },
                    shortened: Some(
                        Grant {
                            worker: source,
                            range: Range { start: active.start, end: split_at },
                        },
                    ),
                },
            ),
        )
    }

    /// Mark a durably committed sub-range complete for its owning worker.
    pub fn complete_durable(&mut self, worker: WorkerId, range: Range<u64>) -> (answer: Result<
        (),
        AllocatorError,
    >)
        requires
            old(self).wf(),
        ensures
            final(self).wf(),
            final(self).floor() == old(self).floor(),
            final(self).map().length() == old(self).map().length(),
            answer == (match old(self).map().complete_answer(range, worker) {
                Ok(()) => Ok::<(), AllocatorError>(()),
                Err(error) => Err(AllocatorError::Interval(error)),
            }),
            answer is Ok ==> final(self).map()@ == intervals::overwritten(
                old(self).map()@,
                range.start as int,
                range.end as int,
                IntervalState::Complete,
            ),
            answer is Err ==> *final(self) == *old(self),
    {
        match self.intervals.complete(range, worker) {
            Ok(()) => Ok(()),
            Err(error) => Err(AllocatorError::Interval(error)),
        }
    }

    /// The answer that marking a range complete would get, without making it.
    pub fn check_durable(&self, worker: WorkerId, range: &Range<u64>) -> (answer: Result<
        (),
        IntervalMapError,
    >)
        requires
            self.wf(),
        ensures
            answer == self.map().complete_answer(*range, worker),
    {
        self.intervals.check_completion(range, worker)
    }

    /// Return every active grant of a dead or retiring worker to pending state.
    pub fn abandon(&mut self, worker: WorkerId) -> (released: u64)
        requires
            old(self).wf(),
        ensures
            final(self).wf(),
            final(self).floor() == old(self).floor(),
            final(self).map().length() == old(self).map().length(),
            final(self).map()@ == intervals::restated(
                old(self).map()@,
                IntervalState::InProgress { worker },
                IntervalState::Pending,
            ),
            released == intervals::bytes_in(old(self).map()@, IntervalState::InProgress { worker }),
    {
        self.intervals.abandon(worker)
    }

    /// The worker whose grant the next split would target, ignoring whether it is quiesced.
    ///
    /// A scheduler with an idle worker and no pending work calls this to learn which single peer
    /// it must stop before [`Self::allocate`] can split anything. `None` means no active interval
    /// is large enough to split, so the idle worker retires instead.
    pub fn split_candidate(&self) -> (candidate: Option<WorkerId>)
        requires
            self.wf(),
        ensures
            candidate == (match self.divisible(Eligible::Owned) {
                Some(interval) => Some(interval.state->worker),
                None => None::<WorkerId>,
            }),
    {
        let required: u64 = match self.min_split_bytes.checked_mul(2) {
            Some(required) => required,
            None => {
                return None;
            },
        };
        let active = match self.preferred_active(None) {
            Some(active) => active,
            None => {
                return None;
            },
        };
        proof {
            lemma_preferred_found(self.map().runs(), Eligible::Owned, active);
            self.lemma_bytes_of(active);
        }
        if active.len() < required {
            return None;
        }
        match active.state {
            IntervalState::InProgress { worker } => Some(worker),
            _ => None,
        }
    }

    /// Reports whether the worker owns any byte.
    fn owns(&self, worker: WorkerId) -> (active: bool)
        requires
            self.wf(),
        ensures
            active == is_active(self.map()@, worker),
    {
        let runs = self.intervals.intervals();
        let mut index: usize = 0;
        proof {
            intervals::lemma_flatten(runs@);
        }
        while index < runs.len()
            invariant
                self.wf(),
                runs@ == self.map().runs(),
                intervals::flatten(runs@).len() == intervals::extent(runs@),
                index <= runs.len(),
                forall|k: int|
                    0 <= k < index ==> (#[trigger] runs@[k]).state != (IntervalState::InProgress {
                        worker,
                    }),
            decreases runs.len() - index,
        {
            let interval = runs[index];
            if interval.state == (IntervalState::InProgress { worker }) {
                proof {
                    self.lemma_bytes_of(runs@[index as int]);
                    assert(self.map()@[interval.start as int] == interval.state);
                }
                return true;
            }
            index = index + 1;
        }
        proof {
            assert forall|i: int| 0 <= i < self.map()@.len() implies #[trigger] self.map()@[i] != (
            IntervalState::InProgress { worker }) by {
                let k = intervals::lemma_interval_of(runs@, i);
                intervals::lemma_flatten(runs@);
                assert(intervals::flatten(runs@)[i] == runs@[k].state);
            }
        }
        false
    }

    fn preferred_pending(&self) -> (best: Option<Interval>)
        requires
            self.wf(),
        ensures
            best == preferred(self.map().runs(), Eligible::Pending),
    {
        let runs = self.intervals.intervals();
        let mut best: Option<Interval> = None;
        let mut index: usize = 0;
        while index < runs.len()
            invariant
                intervals::contiguous(runs@),
                index <= runs.len(),
                best == preferred(runs@.take(index as int), Eligible::Pending),
                best matches Some(found) ==> found.start < found.end,
            decreases runs.len() - index,
        {
            let interval = runs[index];
            proof {
                assert(runs@.take(index + 1).drop_last() =~= runs@.take(index as int));
                assert(runs@[index as int].start < runs@[index as int].end);
            }
            if interval.state == IntervalState::Pending {
                best = wider(best, interval);
            }
            index = index + 1;
        }
        proof {
            assert(runs@.take(runs@.len() as int) =~= runs@);
        }
        best
    }

    fn preferred_active(&self, quiesced: Option<&BTreeSet<u64>>) -> (best: Option<Interval>)
        requires
            self.wf(),
        ensures
            best == preferred(
                self.map().runs(),
                match quiesced {
                    Some(workers) => Eligible::OwnedBy(workers@),
                    None => Eligible::Owned,
                },
            ),
    {
        let runs = self.intervals.intervals();
        let ghost eligible = match quiesced {
            Some(workers) => Eligible::OwnedBy(workers@),
            None => Eligible::Owned,
        };
        let mut best: Option<Interval> = None;
        let mut index: usize = 0;
        while index < runs.len()
            invariant
                intervals::contiguous(runs@),
                index <= runs.len(),
                best == preferred(runs@.take(index as int), eligible),
                best matches Some(found) ==> found.start < found.end,
                eligible == (match quiesced {
                    Some(workers) => Eligible::OwnedBy(workers@),
                    None => Eligible::Owned,
                }),
            decreases runs.len() - index,
        {
            let interval = runs[index];
            proof {
                assert(runs@.take(index + 1).drop_last() =~= runs@.take(index as int));
                assert(runs@[index as int].start < runs@[index as int].end);
            }
            let admitted: bool = match interval.state {
                IntervalState::InProgress { worker } => match quiesced {
                    Some(workers) => workers.contains(&worker.0),
                    None => true,
                },
                _ => false,
            };
            if admitted {
                best = wider(best, interval);
            }
            index = index + 1;
        }
        proof {
            assert(runs@.take(runs@.len() as int) =~= runs@);
        }
        best
    }

    /// The bytes of one of the partition's intervals are all in its state.
    pub proof fn lemma_bytes_of(&self, interval: Interval)
        requires
            self.wf(),
            self.map().runs().contains(interval),
        ensures
            interval.start < interval.end <= self.map().length(),
            self.map()@.len() == self.map().length(),
            intervals::wholly(
                self.map()@,
                interval.start as int,
                interval.end as int,
                interval.state,
            ),
    {
        let runs = self.map().runs();
        let k = choose|k: int| 0 <= k < runs.len() && runs[k] == interval;
        intervals::lemma_flatten(runs);
        self.map().lemma_run_of(k, interval.start as int);
        assert forall|i: int| interval.start <= i < interval.end implies #[trigger] self.map()@[i]
            == interval.state by {
            assert(intervals::flatten(runs)[i] == runs[k].state);
        }
    }
}

/// The search result is one of the intervals, and its state is eligible.
proof fn lemma_preferred_found(runs: Seq<Interval>, eligible: Eligible, found: Interval)
    requires
        preferred(runs, eligible) == Some(found),
    ensures
        runs.contains(found),
        eligible.admits(found.state),
{
    law_preferred_is_widest_then_lowest(runs, eligible);
}

/// The candidate, unless what was found before is at least as wide.
fn wider(best: Option<Interval>, candidate: Interval) -> (kept: Option<Interval>)
    requires
        candidate.start <= candidate.end,
        best matches Some(found) ==> found.start <= found.end,
    ensures
        kept == (match best {
            Some(found) if found.width() >= candidate.width() => best,
            _ => Some(candidate),
        }),
{
    match best {
        Some(found) => if found.len() >= candidate.len() {
            best
        } else {
            Some(candidate)
        },
        None => Some(candidate),
    }
}

/// Allocation takes bytes only from pending intervals and from quiesced workers: whatever belongs
/// to a worker with a request in flight, and whatever is complete, stays as it was.
pub proof fn law_a_live_grant_is_never_shortened(
    allocator: SegmentAllocator,
    worker: WorkerId,
    quiesced: Set<u64>,
    offset: int,
)
    requires
        allocator.wf(),
        0 <= offset < allocator.map()@.len(),
    ensures
        allocator.allocate_answer(worker, quiesced) matches Ok(Some(allocation)) ==> {
            let range = allocation.grant.range;
            &&& intervals::valid_range(range.start, range.end, allocator.map().length() as int)
            &&& range.start <= offset < range.end ==> match allocator.map()@[offset] {
                IntervalState::Pending => true,
                IntervalState::InProgress { worker: owner } => quiesced.contains(owner.0) && owner
                    != worker,
                IntervalState::Complete => false,
            }
        },
{
    let runs = allocator.map().runs();
    let eligible = if preferred(runs, Eligible::Pending) is Some {
        Eligible::Pending
    } else {
        Eligible::OwnedBy(quiesced)
    };
    if let Ok(Some(allocation)) = allocator.allocate_answer(worker, quiesced) {
        let found = preferred(runs, eligible)->0;
        lemma_preferred_found(runs, eligible, found);
        allocator.lemma_bytes_of(found);
        let range = allocation.grant.range;
        if range.start <= offset < range.end {
            assert(allocator.map()@[offset] == found.state);
        }
    }
}

/// A split leaves both workers with at least the configured floor, and the two halves are the
/// source's whole interval.
pub proof fn law_neither_half_falls_below_the_floor(
    allocator: SegmentAllocator,
    worker: WorkerId,
    quiesced: Set<u64>,
)
    requires
        allocator.wf(),
    ensures
        allocator.allocate_answer(worker, quiesced) matches Ok(Some(allocation)) ==> (
        allocation.shortened matches Some(kept) ==> {
            &&& kept.range.end - kept.range.start >= allocator.floor()
            &&& allocation.grant.range.end - allocation.grant.range.start >= allocator.floor()
            &&& kept.range.end == allocation.grant.range.start
            &&& intervals::wholly(
                allocator.map()@,
                kept.range.start as int,
                allocation.grant.range.end as int,
                IntervalState::InProgress { worker: kept.worker },
            )
        }),
{
    let runs = allocator.map().runs();
    if let Ok(Some(allocation)) = allocator.allocate_answer(worker, quiesced) {
        if allocation.shortened is Some {
            let found = preferred(runs, Eligible::OwnedBy(quiesced))->0;
            lemma_preferred_found(runs, Eligible::OwnedBy(quiesced), found);
            allocator.lemma_bytes_of(found);
        }
    }
}

/// The split candidate is the worker that a split shortens once every owner is quiesced.
pub proof fn law_the_split_candidate_is_the_owner_that_would_be_split(
    allocator: SegmentAllocator,
    worker: WorkerId,
    quiesced: Set<u64>,
)
    requires
        allocator.wf(),
        !is_active(allocator.map()@, worker),
        preferred(allocator.map().runs(), Eligible::Pending) is None,
        forall|owner: WorkerId|
            is_active(allocator.map()@, owner) ==> #[trigger] quiesced.contains(owner.0),
    ensures
        match allocator.divisible(Eligible::Owned) {
            Some(interval) => {
                &&& allocator.allocate_answer(worker, quiesced) is Ok
                &&& allocator.allocate_answer(worker, quiesced)->Ok_0 is Some
                &&& allocator.allocate_answer(worker, quiesced)->Ok_0->0.shortened is Some
                &&& allocator.allocate_answer(worker, quiesced)->Ok_0->0.shortened->0.worker
                    == interval.state->worker
            },
            None => allocator.allocate_answer(worker, quiesced) == Ok::<
                Option<Allocation>,
                AllocatorError,
            >(None),
        },
{
    let runs = allocator.map().runs();
    assert forall|k: int| 0 <= k < runs.len() implies Eligible::Owned.admits(
        (#[trigger] runs[k]).state,
    ) == Eligible::OwnedBy(quiesced).admits(runs[k].state) by {
        assert(runs.contains(runs[k]));
        allocator.lemma_bytes_of(runs[k]);
        if let IntervalState::InProgress { worker: owner } = runs[k].state {
            assert(allocator.map()@[runs[k].start as int] == runs[k].state);
            assert(is_active(allocator.map()@, owner));
        }
    }
    lemma_preferred_agrees(runs, Eligible::Owned, Eligible::OwnedBy(quiesced));
}

/// Searches that admit the same intervals find the same one.
proof fn lemma_preferred_agrees(runs: Seq<Interval>, one: Eligible, other: Eligible)
    requires
        forall|k: int|
            0 <= k < runs.len() ==> one.admits((#[trigger] runs[k]).state) == other.admits(
                runs[k].state,
            ),
    ensures
        preferred(runs, one) == preferred(runs, other),
    decreases runs.len(),
{
    if runs.len() > 0 {
        let front = runs.drop_last();
        assert forall|k: int| 0 <= k < front.len() implies one.admits((#[trigger] front[k]).state)
            == other.admits(front[k].state) by {
            assert(front[k] == runs[k]);
        }
        lemma_preferred_agrees(front, one, other);
        assert(runs.last() == runs[runs.len() - 1]);
    }
}

/// A search looks at the intervals it names: the pending ones, those of the named workers, or those
/// of any worker; a complete one is never chosen.
pub proof fn law_a_search_looks_at_what_it_names(workers: Set<u64>, state: IntervalState)
    ensures
        Eligible::Pending.admits(state) <==> state is Pending,
        Eligible::Owned.admits(state) <==> state is InProgress,
        Eligible::OwnedBy(workers).admits(state) <==> state is InProgress && workers.contains(
            state->worker.0,
        ),
{
}

/// A worker without work gets some wherever there is any: a whole pending interval, none of which
/// is wider, while anything is pending; else the upper half of the widest interval of a quiesced
/// worker, if both halves reach the floor; and nothing otherwise. One that has work is refused.
pub proof fn law_an_idle_worker_gets_the_most_there_is(
    allocator: SegmentAllocator,
    worker: WorkerId,
    quiesced: Set<u64>,
    k: int,
)
    requires
        allocator.wf(),
        0 <= k < allocator.map().runs().len(),
    ensures
        ({
            let answer = allocator.allocate_answer(worker, quiesced);
            let run = allocator.map().runs()[k];
            let active = exists|i: int|
                0 <= i < allocator.map()@.len() && #[trigger] allocator.map()@[i] == (
                IntervalState::InProgress { worker });
            let idle_run = run.state is InProgress && quiesced.contains(run.state->worker.0);
            &&& answer is Err <==> active
            &&& active ==> answer == Err::<Option<Allocation>, AllocatorError>(
                AllocatorError::WorkerAlreadyActive { worker },
            )
            &&& !active && run.state is Pending ==> {
                let given = answer->Ok_0->0;
                &&& answer is Ok && answer->Ok_0 is Some
                &&& given.shortened is None
                &&& given.grant.worker == worker
                &&& given.grant.range.end - given.grant.range.start >= run.end - run.start
                &&& intervals::wholly(
                    allocator.map()@,
                    given.grant.range.start as int,
                    given.grant.range.end as int,
                    IntervalState::Pending,
                )
            }
            &&& !active && idle_run && run.end - run.start >= 2 * allocator.floor() ==> answer is Ok
                && answer->Ok_0 is Some
            &&& answer matches Ok(Some(given)) ==> (given.shortened matches Some(kept) ==> {
                let low = kept.range.end - kept.range.start;
                let high = given.grant.range.end - given.grant.range.start;
                &&& given.grant.worker == worker
                &&& quiesced.contains(kept.worker.0)
                &&& low <= high <= low + 1
                &&& idle_run ==> low + high >= run.end - run.start
            })
        }),
{
    let runs = allocator.map().runs();
    let run = runs[k];
    law_preferred_is_widest_then_lowest(runs, Eligible::Pending);
    law_preferred_is_widest_then_lowest(runs, Eligible::OwnedBy(quiesced));
    if let Some(found) = preferred(runs, Eligible::Pending) {
        lemma_preferred_found(runs, Eligible::Pending, found);
        allocator.lemma_bytes_of(found);
    }
    if let Some(found) = preferred(runs, Eligible::OwnedBy(quiesced)) {
        lemma_preferred_found(runs, Eligible::OwnedBy(quiesced), found);
        allocator.lemma_bytes_of(found);
    }
}

} // verus!
