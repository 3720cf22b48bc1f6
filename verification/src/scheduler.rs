//! Which worker does what: the live state of one segmented execution.
//!
//! A worker that finishes its segment asks for more work. Pending work is handed over with nothing
//! interrupted. When there is none, exactly one peer, the owner of the segment that the allocator
//! would split, is stopped so that its grant can be shortened safely; every other connection keeps
//! transferring.
//!
//! The scheduler performs nothing itself. Its caller runs workers, asks the writer, and reports;
//! each report is one method, and the method's result says what to do next.

use crate::allocator::{Allocation, Grant, SegmentAllocator};
use crate::intervals;
use crate::intervals::{Interval, IntervalState, WorkerId};
use crate::retry;
use crate::retry::{RetryDecision, RetryPolicy};
use crate::time::{Duration, Timestamp};
use crate::worker_pool;
use crate::worker_pool::{PoolError, PoolPlan, PoolReport, WorkerReport};
use std::collections::BTreeSet;
use std::ops::Range;
use vstd::prelude::*;

verus! {

/// The grants stand in strictly increasing order of their workers.
pub open spec fn by_worker(grants: Seq<Grant>) -> bool {
    forall|i: int, j: int|
        #![trigger grants[i], grants[j]]
        0 <= i < j < grants.len() ==> grants[i].worker.0 < grants[j].worker.0
}

/// The numbers stand in strictly increasing order.
pub open spec fn ascending(numbers: Seq<u64>) -> bool {
    forall|i: int, j: int|
        #![trigger numbers[i], numbers[j]]
        0 <= i < j < numbers.len() ==> numbers[i] < numbers[j]
}

/// The grant of a worker, if the list holds one.
pub open spec fn grant_of(grants: Seq<Grant>, worker: u64) -> Option<Grant>
    decreases grants.len(),
{
    if grants.len() == 0 {
        None
    } else if grants.last().worker.0 == worker {
        Some(grants.last())
    } else {
        grant_of(grants.drop_last(), worker)
    }
}

/// The ordered list with a grant put in, in place of an earlier grant of the same worker.
pub open spec fn placed(grants: Seq<Grant>, grant: Grant) -> Seq<Grant>
    decreases grants.len(),
{
    if grants.len() == 0 || grants.last().worker.0 < grant.worker.0 {
        grants.push(grant)
    } else if grants.last().worker.0 == grant.worker.0 {
        grants.drop_last().push(grant)
    } else {
        placed(grants.drop_last(), grant).push(grants.last())
    }
}

/// The ordered list without a worker's grant.
pub open spec fn released(grants: Seq<Grant>, worker: u64) -> Seq<Grant>
    decreases grants.len(),
{
    if grants.len() == 0 {
        grants
    } else if grants.last().worker.0 == worker {
        grants.drop_last()
    } else {
        released(grants.drop_last(), worker).push(grants.last())
    }
}

/// The list without any occurrence of a number.
pub open spec fn without(numbers: Seq<u64>, gone: u64) -> Seq<u64>
    decreases numbers.len(),
{
    if numbers.len() == 0 {
        numbers
    } else if numbers.last() == gone {
        without(numbers.drop_last(), gone)
    } else {
        without(numbers.drop_last(), gone).push(numbers.last())
    }
}

/// The ordered list with a number put in once.
pub open spec fn enrolled(numbers: Seq<u64>, new: u64) -> Seq<u64>
    decreases numbers.len(),
{
    if numbers.len() == 0 || numbers.last() < new {
        numbers.push(new)
    } else if numbers.last() == new {
        numbers
    } else {
        enrolled(numbers.drop_last(), new).push(numbers.last())
    }
}

/// The queue with a number appended, unless it waits already.
pub open spec fn queued(queue: Seq<u64>, new: u64) -> Seq<u64> {
    if queue.contains(new) {
        queue
    } else {
        queue.push(new)
    }
}

/// The queue with several numbers appended in turn.
pub open spec fn all_queued(queue: Seq<u64>, new: Seq<u64>) -> Seq<u64>
    decreases new.len(),
{
    if new.len() == 0 {
        queue
    } else {
        queued(all_queued(queue, new.drop_last()), new.last())
    }
}

/// The mathematical reading of a [`Scheduler`].
pub struct SchedulerView {
    /// How many workers the pool has; they are numbered from zero.
    pub workers: u64,
    /// Grants with a request in flight, by worker.
    pub running: Seq<Grant>,
    /// Workers holding no grant, in the order they became free.
    pub idle: Seq<u64>,
    /// Workers that asked for work and found none to take, in increasing order.
    pub parked: Seq<u64>,
    /// The one peer stopped so that its segment can be split.
    pub stopping: Option<u64>,
    /// What finished and stopped attempts delivered.
    pub reports: Seq<WorkerReport>,
    /// Transient failures survived so far.
    pub transient_failures: u32,
}

impl SchedulerView {
    /// The ordered lists are ordered.
    pub open spec fn wf(self) -> bool {
        &&& by_worker(self.running)
        &&& ascending(self.parked)
    }

    /// The worker has a request in flight.
    pub open spec fn is_running(self, worker: u64) -> bool {
        grant_of(self.running, worker) is Some
    }

    /// A request for the grant is in flight, and its worker neither waits nor rests.
    pub open spec fn spawned(self, grant: Grant) -> SchedulerView {
        SchedulerView {
            running: placed(self.running, grant),
            idle: without(self.idle, grant.worker.0),
            parked: without(self.parked, grant.worker.0),
            ..self
        }
    }

    /// The worker waits for work.
    pub open spec fn idled(self, worker: u64) -> SchedulerView {
        SchedulerView {
            parked: without(self.parked, worker),
            idle: queued(self.idle, worker),
            ..self
        }
    }

    /// Every resting worker waits for work again, in increasing order.
    pub open spec fn unparked(self) -> SchedulerView {
        SchedulerView {
            idle: all_queued(self.idle, self.parked),
            parked: Seq::empty(),
            ..self
        }
    }

    /// The worker's attempt is over.
    pub open spec fn ended(self, worker: u64) -> SchedulerView {
        SchedulerView { running: released(self.running, worker), ..self }
    }

    /// The first waiting worker rests.
    pub open spec fn rested(self) -> SchedulerView {
        SchedulerView {
            idle: self.idle.skip(1),
            parked: enrolled(self.parked, self.idle[0]),
            ..self
        }
    }

    /// A stopped attempt's bytes are on record, if it delivered any.
    pub open spec fn credited(
        self,
        attempt: Grant,
        states: Seq<IntervalState>,
        elapsed: Duration,
    ) -> SchedulerView {
        let bytes = complete_within(
            states,
            attempt.range.start as int,
            attempt.range.end as int,
        );
        if bytes > 0 {
            SchedulerView {
                reports: self.reports.push(
                    WorkerReport { worker: attempt.worker, bytes: bytes as u64, elapsed },
                ),
                ..self
            }
        } else {
            self
        }
    }

    /// An allocation was made before anything runs.
    pub open spec fn assigned(self, allocation: Allocation) -> SchedulerView {
        SchedulerView {
            running: placed(
                match allocation.shortened {
                    Some(kept) => placed(self.running, kept),
                    None => self.running,
                },
                allocation.grant,
            ),
            ..self
        }
    }

    /// The requests of the first grants are in flight, and whoever has none rests.
    pub open spec fn opened(self) -> SchedulerView {
        SchedulerView { parked: unassigned(self.running, self.workers), ..self }
    }

    /// A waiting worker was given work, perhaps half of what another held.
    pub open spec fn served(self, allocation: Allocation) -> SchedulerView {
        match allocation.shortened {
            Some(kept) => self.spawned(allocation.grant).spawned(kept),
            None => self.spawned(allocation.grant),
        }
    }

    /// The first waiting worker could not be given work: a peer with a request in flight is
    /// stopped, unless one is stopping already; without such a peer the worker rests.
    pub open spec fn unserved(self, candidate: Option<WorkerId>) -> SchedulerView {
        match candidate {
            Some(peer) if self.is_running(peer.0) => if self.stopping is Some {
                self
            } else {
                SchedulerView { stopping: Some(peer.0), ..self }
            },
            _ => self.rested(),
        }
    }

    /// A worker delivered its whole grant and waits for more.
    pub open spec fn finished(self, report: WorkerReport) -> SchedulerView {
        (SchedulerView {
            reports: self.reports.push(report),
            ..self.ended(report.worker.0)
        }).idled(report.worker.0)
    }

    /// A worker's request failed in a way that may pass.
    pub open spec fn faltered(self, worker: u64) -> SchedulerView {
        SchedulerView {
            transient_failures: retry::one_more(self.transient_failures),
            ..self.ended(worker)
        }
    }

    /// What to do about a worker's failed request.
    pub open spec fn failure_step(
        self,
        worker: u64,
        error: PoolError,
        policy: RetryPolicy,
        variation: u64,
    ) -> FailureStep {
        match grant_of(self.running, worker) {
            None => FailureStep::Unknown,
            Some(attempt) => match worker_pool::worker_failure(error) {
                None => FailureStep::Fatal,
                Some(kind) => match policy.decision(
                    kind,
                    self.transient_failures,
                    None,
                    Timestamp { nanos: 0 },
                    variation,
                ) {
                    RetryDecision::GiveUp => FailureStep::Fatal,
                    RetryDecision::RetryAfter(delay) => FailureStep::Retry { attempt, delay },
                },
            },
        }
    }

    /// A worker's request failed, and this step was taken.
    pub open spec fn failed(self, worker: u64, step: FailureStep) -> SchedulerView {
        match step {
            FailureStep::Unknown => self,
            FailureStep::Fatal => self.ended(worker),
            FailureStep::Retry { attempt, delay } => self.faltered(worker),
        }
    }

    /// What to do about a waiting worker that could not be given work.
    pub open spec fn service_step(self, candidate: Option<WorkerId>) -> ServiceStep {
        match candidate {
            Some(peer) if self.is_running(peer.0) => if self.stopping is Some {
                ServiceStep::Wait
            } else {
                ServiceStep::Stop(peer)
            },
            _ => ServiceStep::NextWorker,
        }
    }

    /// The worker is accounted for: it has a request in flight, waits for work, or rests.
    pub open spec fn accounts_for(self, worker: u64) -> bool {
        self.is_running(worker) || self.idle.contains(worker) || self.parked.contains(worker)
    }

    /// A failed attempt was reclaimed and credited, and everyone may ask for its bytes.
    pub open spec fn reclaimed(
        self,
        attempt: Grant,
        states: Seq<IntervalState>,
        elapsed: Duration,
    ) -> SchedulerView {
        self.credited(attempt, states, elapsed).idled(attempt.worker.0).unparked()
    }

    /// A stopped attempt was credited, and its worker stops no more.
    pub open spec fn halted(
        self,
        attempt: Grant,
        states: Seq<IntervalState>,
        elapsed: Duration,
    ) -> SchedulerView {
        SchedulerView {
            stopping: if self.stopping == Some(attempt.worker.0) {
                None
            } else {
                self.stopping
            },
            ..self.credited(attempt, states, elapsed)
        }
    }

    /// Every listed grant whose worker has no request in flight gets one.
    pub open spec fn revived(self, grants: Seq<Grant>) -> SchedulerView
        decreases grants.len(),
    {
        if grants.len() == 0 {
            self
        } else {
            let before = self.revived(grants.drop_last());
            if before.is_running(grants.last().worker.0) {
                before
            } else {
                before.spawned(grants.last())
            }
        }
    }

    /// The listed grants that get a request, in order.
    pub open spec fn revivals(self, grants: Seq<Grant>) -> Seq<Grant>
        decreases grants.len(),
    {
        if grants.len() == 0 {
            Seq::empty()
        } else {
            let before = self.revived(grants.drop_last());
            if before.is_running(grants.last().worker.0) {
                self.revivals(grants.drop_last())
            } else {
                self.revivals(grants.drop_last()).push(grants.last())
            }
        }
    }
}

/// How many bytes of `[start, end)` are complete.
pub open spec fn complete_within(states: Seq<IntervalState>, start: int, end: int) -> nat
    decreases states.len(),
{
    if states.len() == 0 {
        0
    } else {
        let offset = states.len() - 1;
        complete_within(states.drop_last(), start, end) + (if start <= offset < end
            && states.last() == IntervalState::Complete {
            1nat
        } else {
            0nat
        })
    }
}

/// The grants that a partition's active intervals amount to, in offset order.
pub open spec fn grants_in(runs: Seq<Interval>) -> Seq<Grant>
    decreases runs.len(),
{
    if runs.len() == 0 {
        Seq::empty()
    } else {
        let before = grants_in(runs.drop_last());
        match runs.last().state {
            IntervalState::InProgress { worker } => before.push(
                Grant {
                    worker,
                    range: Range { start: runs.last().start, end: runs.last().end },
                },
            ),
            _ => before,
        }
    }
}

/// Every byte is complete.
pub open spec fn all_complete(states: Seq<IntervalState>) -> bool {
    forall|i: int| 0 <= i < states.len() ==> #[trigger] states[i] == IntervalState::Complete
}

/// What to do after a waiting worker could not be given work.
#[derive(Clone, Copy, Debug, PartialEq, Eq, Structural)]
pub enum ServiceStep {
    /// The worker rests; look at the next one.
    NextWorker,
    /// A peer is already stopping; wait for it.
    Wait,
    /// Stop this peer so that its segment can be split, then wait for it.
    Stop(WorkerId),
}

/// What to do after a worker's request failed.
#[derive(Debug, PartialEq, Eq)]
pub enum FailureStep {
    /// No attempt of this worker was known; stop with incomplete coverage.
    Unknown,
    /// The failure is final.
    Fatal,
    /// Reclaim the worker's grant, report it, and wait before going on.
    Retry {
        /// The attempt that failed.
        attempt: Grant,
        /// How long to wait.
        delay: Duration,
    },
}

/// What to do when no request is in flight and no waiting worker could be served.
#[derive(Debug, PartialEq, Eq)]
pub enum QuietStep {
    /// Every byte is complete.
    Done,
    /// Start these grants' requests again.
    Revived(Vec<Grant>),
    /// Bytes are missing and nobody owns them.
    Incomplete,
}

/// One segmented execution's live scheduling state.
#[derive(Debug)]
pub struct Scheduler {
    workers: u64,
    running: Vec<Grant>,
    idle: Vec<u64>,
    parked: Vec<u64>,
    stopping: Option<u64>,
    reports: Vec<WorkerReport>,
    transient_failures: u32,
}

impl Scheduler {
    /// The mathematical reading.
    pub closed spec fn view(&self) -> SchedulerView {
        SchedulerView {
            workers: self.workers,
            running: self.running@,
            idle: self.idle@,
            parked: self.parked@,
            stopping: self.stopping,
            reports: self.reports@,
            transient_failures: self.transient_failures,
        }
    }

    /// The ordered lists are ordered.
    pub open spec fn wf(&self) -> bool {
        self@.wf()
    }

    /// A scheduler for workers numbered from zero, with nothing running.
    pub fn new(workers: usize) -> (scheduler: Self)
        ensures
            scheduler.wf(),
            scheduler@ == (SchedulerView {
                workers: workers as u64,
                running: Seq::empty(),
                idle: Seq::empty(),
                parked: Seq::empty(),
                stopping: None,
                reports: Seq::empty(),
                transient_failures: 0,
            }),
    {
        Scheduler {
            workers: workers as u64,
            running: Vec::new(),
            idle: Vec::new(),
            parked: Vec::new(),
            stopping: None,
            reports: Vec::new(),
            transient_failures: 0,
        }
    }

    /// Index of a worker's grant among the running ones, or where it would stand.
    fn position(&self, worker: u64) -> (at: (usize, bool))
        requires
            self.wf(),
        ensures
            at.0 <= self@.running.len(),
            at.1 ==> at.0 < self@.running.len() && self@.running[at.0 as int].worker.0 == worker,
            forall|i: int| 0 <= i < at.0 ==> (#[trigger] self@.running[i]).worker.0 < worker,
            !at.1 ==> forall|i: int|
                at.0 <= i < self@.running.len() ==> (#[trigger] self@.running[i]).worker.0
                    > worker,
            at.1 == self@.is_running(worker),
            at.1 ==> grant_of(self@.running, worker) == Some(self@.running[at.0 as int]),
    {
        let mut index: usize = 0;
        while index < self.running.len()
            invariant
                self.wf(),
                index <= self.running.len(),
                forall|i: int| 0 <= i < index ==> (#[trigger] self@.running[i]).worker.0 < worker,
            decreases self.running.len() - index,
        {
            let held: u64 = self.running[index].worker.0;
            if held >= worker {
                proof {
                    if held == worker {
                        lemma_grant_of_at(self@.running, index as int);
                    } else {
                        assert forall|i: int| index <= i < self@.running.len() implies (
                        #[trigger] self@.running[i]).worker.0 > worker by {
                            if i > index {
                                assert(self@.running[index as int].worker.0
                                    < self@.running[i].worker.0);
                            }
                        }
                        lemma_grant_of_none(self@.running, worker);
                    }
                }
                return (index, held == worker);
            }
            index = index + 1;
        }
        proof {
            lemma_grant_of_none(self@.running, worker);
        }
        (index, false)
    }

    /// Whether a worker has a request in flight.
    pub fn is_running(&self, worker: WorkerId) -> (yes: bool)
        requires
            self.wf(),
        ensures
            yes == self@.is_running(worker.0),
    {
        self.position(worker.0).1
    }

    /// Puts a grant among the running ones.
    fn place(&mut self, grant: Grant)
        requires
            old(self).wf(),
        ensures
            final(self).wf(),
            final(self)@ == (SchedulerView {
                running: placed(old(self)@.running, grant),
                ..old(self)@
            }),
    {
        let (at, known) = self.position(grant.worker.0);
        let ghost before = self.running@;
        if known {
            proof {
                lemma_placed_replaces(before, grant, at as int);
            }
            self.running.set(at, grant);
        } else {
            proof {
                lemma_placed_inserts(before, grant, at as int);
            }
            self.running.insert(at, grant);
        }
        proof {
            lemma_placed_ordered(before, grant);
        }
    }

    /// Takes a worker's grant from among the running ones.
    fn take(&mut self, worker: u64) -> (grant: Option<Grant>)
        requires
            old(self).wf(),
        ensures
            final(self).wf(),
            grant == grant_of(old(self)@.running, worker),
            final(self)@ == old(self)@.ended(worker),
    {
        let (at, known) = self.position(worker);
        let ghost before = self.running@;
        proof {
            lemma_released_ordered(before, worker);
        }
        if known {
            proof {
                lemma_released_at(before, worker, at as int);
            }
            Some(self.running.remove(at))
        } else {
            proof {
                lemma_released_none(before, worker);
            }
            None
        }
    }

    /// Note a request for the grant in flight.
    fn spawn(&mut self, grant: Grant)
        requires
            old(self).wf(),
        ensures
            final(self).wf(),
            final(self)@ == old(self)@.spawned(grant),
    {
        let worker: u64 = grant.worker.0;
        let idle = remove_all(&self.idle, worker);
        let parked = remove_all(&self.parked, worker);
        proof {
            lemma_without_ordered(self.parked@, worker);
        }
        self.idle = idle;
        self.parked = parked;
        self.place(grant);
    }

    /// Let a worker wait for work.
    fn make_idle(&mut self, worker: u64)
        requires
            old(self).wf(),
        ensures
            final(self).wf(),
            final(self)@ == old(self)@.idled(worker),
    {
        let parked = remove_all(&self.parked, worker);
        proof {
            lemma_without_ordered(self.parked@, worker);
        }
        self.parked = parked;
        enqueue(&mut self.idle, worker);
    }

    /// Let every resting worker wait for work again.
    fn unpark_everyone(&mut self)
        requires
            old(self).wf(),
        ensures
            final(self).wf(),
            final(self)@ == old(self)@.unparked(),
    {
        let mut index: usize = 0;
        proof {
            assert(self.parked@.take(0) =~= Seq::<u64>::empty());
        }
        while index < self.parked.len()
            invariant
                index <= self.parked.len(),
                self@ == (SchedulerView {
                    idle: all_queued(old(self)@.idle, old(self)@.parked.take(index as int)),
                    ..old(self)@
                }),
            decreases self.parked.len() - index,
        {
            proof {
                assert(self.parked@.take(index + 1).drop_last() =~= self.parked@.take(
                    index as int,
                ));
            }
            let worker: u64 = self.parked[index];
            enqueue(&mut self.idle, worker);
            index = index + 1;
        }
        proof {
            assert(self.parked@.take(self.parked@.len() as int) =~= self.parked@);
        }
        self.parked = Vec::new();
    }
}

/// A copy of the list without any occurrence of a number.
fn remove_all(numbers: &Vec<u64>, gone: u64) -> (kept: Vec<u64>)
    ensures
        kept@ == without(numbers@, gone),
{
    let mut kept: Vec<u64> = Vec::new();
    let mut index: usize = 0;
    proof {
        assert(numbers@.take(0) =~= Seq::<u64>::empty());
    }
    while index < numbers.len()
        invariant
            index <= numbers.len(),
            kept@ == without(numbers@.take(index as int), gone),
        decreases numbers.len() - index,
    {
        proof {
            assert(numbers@.take(index + 1).drop_last() =~= numbers@.take(index as int));
        }
        let number: u64 = numbers[index];
        if number != gone {
            kept.push(number);
        }
        index = index + 1;
    }
    proof {
        assert(numbers@.take(numbers@.len() as int) =~= numbers@);
    }
    kept
}

/// Appends a number to a queue, unless it waits already.
fn enqueue(queue: &mut Vec<u64>, new: u64)
    ensures
        final(queue)@ == queued(old(queue)@, new),
{
    let mut index: usize = 0;
    while index < queue.len()
        invariant
            index <= queue.len(),
            queue@ == old(queue)@,
            forall|i: int| 0 <= i < index ==> #[trigger] queue@[i] != new,
        decreases queue.len() - index,
    {
        if queue[index] == new {
            proof {
                assert(queue@[index as int] == new);
            }
            return ;
        }
        index = index + 1;
    }
    queue.push(new);
}

proof fn lemma_grant_of_at(grants: Seq<Grant>, at: int)
    requires
        by_worker(grants),
        0 <= at < grants.len(),
    ensures
        grant_of(grants, grants[at].worker.0) == Some(grants[at]),
    decreases grants.len(),
{
    let last = grants.len() - 1;
    if at < last {
        assert(grants[at].worker.0 < grants[last].worker.0);
        lemma_by_worker_front(grants);
        lemma_grant_of_at(grants.drop_last(), at);
    }
}

pub proof fn lemma_by_worker_front(grants: Seq<Grant>)
    requires
        by_worker(grants),
        grants.len() > 0,
    ensures
        by_worker(grants.drop_last()),
{
    let front = grants.drop_last();
    assert forall|i: int, j: int|
        #![trigger front[i], front[j]]
        0 <= i < j < front.len() implies front[i].worker.0 < front[j].worker.0 by {
        assert(front[i] == grants[i] && front[j] == grants[j]);
    }
}

proof fn lemma_grant_of_none(grants: Seq<Grant>, worker: u64)
    requires
        forall|i: int| 0 <= i < grants.len() ==> (#[trigger] grants[i]).worker.0 != worker,
    ensures
        grant_of(grants, worker) is None,
    decreases grants.len(),
{
    if grants.len() > 0 {
        assert(grants[grants.len() - 1].worker.0 != worker);
        assert forall|i: int| 0 <= i < grants.drop_last().len() implies (
        #[trigger] grants.drop_last()[i]).worker.0 != worker by {
            assert(grants[i].worker.0 != worker);
        }
        lemma_grant_of_none(grants.drop_last(), worker);
    }
}

proof fn lemma_placed_replaces(grants: Seq<Grant>, grant: Grant, at: int)
    requires
        by_worker(grants),
        0 <= at < grants.len(),
        grants[at].worker.0 == grant.worker.0,
    ensures
        placed(grants, grant) == grants.update(at, grant),
    decreases grants.len(),
{
    let last = grants.len() - 1;
    if at == last {
        assert(grants.drop_last().push(grant) =~= grants.update(at, grant));
    } else {
        assert(grants[at].worker.0 < grants[last].worker.0);
        lemma_by_worker_front(grants);
        lemma_placed_replaces(grants.drop_last(), grant, at);
        assert(grants.drop_last().update(at, grant).push(grants.last()) =~= grants.update(
            at,
            grant,
        ));
    }
}

proof fn lemma_placed_inserts(grants: Seq<Grant>, grant: Grant, at: int)
    requires
        by_worker(grants),
        0 <= at <= grants.len(),
        forall|i: int| 0 <= i < at ==> (#[trigger] grants[i]).worker.0 < grant.worker.0,
        forall|i: int| at <= i < grants.len() ==> (#[trigger] grants[i]).worker.0 > grant.worker.0,
    ensures
        placed(grants, grant) == grants.insert(at, grant),
    decreases grants.len(),
{
    if at == grants.len() {
        if grants.len() > 0 {
            assert(grants[grants.len() - 1].worker.0 < grant.worker.0);
        }
        assert(grants.push(grant) =~= grants.insert(at, grant));
    } else {
        assert(grants[grants.len() - 1].worker.0 > grant.worker.0);
        lemma_by_worker_front(grants);
        let front = grants.drop_last();
        assert forall|i: int| 0 <= i < at implies (#[trigger] front[i]).worker.0
            < grant.worker.0 by {
            assert(grants[i].worker.0 < grant.worker.0);
        }
        assert forall|i: int| at <= i < front.len() implies (#[trigger] front[i]).worker.0
            > grant.worker.0 by {
            assert(grants[i].worker.0 > grant.worker.0);
        }
        lemma_placed_inserts(front, grant, at);
        assert(front.insert(at, grant).push(grants.last()) =~= grants.insert(at, grant));
    }
}

/// Placing keeps the order, and every worker of the new list was there or is the grant's own.
pub proof fn lemma_placed_ordered(grants: Seq<Grant>, grant: Grant)
    requires
        by_worker(grants),
    ensures
        by_worker(placed(grants, grant)),
        forall|i: int|
            0 <= i < placed(grants, grant).len() ==> (#[trigger] placed(grants, grant)[i]).worker.0
                == grant.worker.0 || exists|k: int|
                #![trigger grants[k]]
                0 <= k < grants.len() && grants[k].worker == placed(grants, grant)[i].worker,
    decreases grants.len(),
{
    let after = placed(grants, grant);
    if grants.len() == 0 || grants.last().worker.0 < grant.worker.0 {
        assert forall|i: int, j: int|
            #![trigger after[i], after[j]]
            0 <= i < j < after.len() implies after[i].worker.0 < after[j].worker.0 by {
            if j < grants.len() {
                assert(grants[i].worker.0 < grants[j].worker.0);
            } else if i < grants.len() - 1 {
                assert(grants[i].worker.0 < grants[grants.len() - 1].worker.0);
            }
        }
        assert forall|i: int| 0 <= i < after.len() implies (#[trigger] after[i]).worker.0
            == grant.worker.0 || exists|k: int|
            #![trigger grants[k]]
            0 <= k < grants.len() && grants[k].worker == after[i].worker by {
            if i < grants.len() {
                assert(grants[i].worker == after[i].worker);
            }
        }
    } else if grants.last().worker.0 == grant.worker.0 {
        let last = grants.len() - 1;
        assert forall|i: int, j: int|
            #![trigger after[i], after[j]]
            0 <= i < j < after.len() implies after[i].worker.0 < after[j].worker.0 by {
            assert(grants[i].worker.0 < grants[j].worker.0);
        }
        assert forall|i: int| 0 <= i < after.len() implies (#[trigger] after[i]).worker.0
            == grant.worker.0 || exists|k: int|
            #![trigger grants[k]]
            0 <= k < grants.len() && grants[k].worker == after[i].worker by {
            if i < last {
                assert(grants[i].worker == after[i].worker);
            }
        }
    } else {
        lemma_by_worker_front(grants);
        let front = grants.drop_last();
        lemma_placed_ordered(front, grant);
        let inner = placed(front, grant);
        assert forall|i: int, j: int|
            #![trigger after[i], after[j]]
            0 <= i < j < after.len() implies after[i].worker.0 < after[j].worker.0 by {
            if j < inner.len() {
                assert(inner[i].worker.0 < inner[j].worker.0);
            } else {
                assert(after[i] == inner[i]);
                if inner[i].worker.0 != grant.worker.0 {
                    let k = choose|k: int|
                        #![trigger front[k]]
                        0 <= k < front.len() && front[k].worker == inner[i].worker;
                    assert(grants[k].worker.0 < grants[grants.len() - 1].worker.0);
                }
            }
        }
        assert forall|i: int| 0 <= i < after.len() implies (#[trigger] after[i]).worker.0
            == grant.worker.0 || exists|k: int|
            #![trigger grants[k]]
            0 <= k < grants.len() && grants[k].worker == after[i].worker by {
            if i < inner.len() {
                assert(after[i] == inner[i]);
                if inner[i].worker.0 != grant.worker.0 {
                    let k = choose|k: int|
                        #![trigger front[k]]
                        0 <= k < front.len() && front[k].worker == inner[i].worker;
                    assert(grants[k].worker == after[i].worker);
                }
            } else {
                assert(grants[grants.len() - 1].worker == after[i].worker);
            }
        }
    }
}

proof fn lemma_released_at(grants: Seq<Grant>, worker: u64, at: int)
    requires
        by_worker(grants),
        0 <= at < grants.len(),
        grants[at].worker.0 == worker,
    ensures
        released(grants, worker) == grants.remove(at),
    decreases grants.len(),
{
    let last = grants.len() - 1;
    if at == last {
        assert(grants.drop_last() =~= grants.remove(at));
    } else {
        assert(grants[at].worker.0 < grants[last].worker.0);
        lemma_by_worker_front(grants);
        lemma_released_at(grants.drop_last(), worker, at);
        assert(grants.drop_last().remove(at).push(grants.last()) =~= grants.remove(at));
    }
}

proof fn lemma_released_none(grants: Seq<Grant>, worker: u64)
    requires
        grant_of(grants, worker) is None,
    ensures
        released(grants, worker) == grants,
    decreases grants.len(),
{
    if grants.len() > 0 {
        lemma_released_none(grants.drop_last(), worker);
        assert(grants.drop_last().push(grants.last()) =~= grants);
    }
}

pub proof fn lemma_released_ordered(grants: Seq<Grant>, worker: u64)
    requires
        by_worker(grants),
    ensures
        by_worker(released(grants, worker)),
{
    if grant_of(grants, worker) is None {
        lemma_released_none(grants, worker);
    } else {
        let at = lemma_grant_index(grants, worker);
        lemma_released_at(grants, worker, at);
        let after = grants.remove(at);
        assert forall|i: int, j: int|
            #![trigger after[i], after[j]]
            0 <= i < j < after.len() implies after[i].worker.0 < after[j].worker.0 by {
            let a = if i < at {
                i
            } else {
                i + 1
            };
            let b = if j < at {
                j
            } else {
                j + 1
            };
            assert(grants[a].worker.0 < grants[b].worker.0);
        }
    }
}

proof fn lemma_grant_index(grants: Seq<Grant>, worker: u64) -> (at: int)
    requires
        grant_of(grants, worker) is Some,
    ensures
        0 <= at < grants.len(),
        grants[at].worker.0 == worker,
        grant_of(grants, worker) == Some(grants[at]),
    decreases grants.len(),
{
    if grants.last().worker.0 == worker {
        grants.len() - 1
    } else {
        lemma_grant_index(grants.drop_last(), worker)
    }
}

/// Removing numbers keeps the order, and keeps no number that was not there.
pub proof fn lemma_without_ordered(numbers: Seq<u64>, gone: u64)
    requires
        ascending(numbers),
    ensures
        ascending(without(numbers, gone)),
        forall|i: int|
            0 <= i < without(numbers, gone).len() ==> numbers.contains(
                #[trigger] without(numbers, gone)[i],
            ),
    decreases numbers.len(),
{
    if numbers.len() > 0 {
        let front = numbers.drop_last();
        assert forall|i: int, j: int|
            #![trigger front[i], front[j]]
            0 <= i < j < front.len() implies front[i] < front[j] by {
            assert(numbers[i] < numbers[j]);
        }
        lemma_without_ordered(front, gone);
        let inner = without(front, gone);
        let after = without(numbers, gone);
        assert forall|i: int| 0 <= i < inner.len() implies numbers.contains(
            #[trigger] inner[i],
        ) && inner[i] < numbers.last() by {
            assert(front.contains(inner[i]));
            let k = choose|k: int| 0 <= k < front.len() && front[k] == inner[i];
            assert(numbers[k] == inner[i]);
            assert(numbers[k] < numbers[numbers.len() - 1]);
        }
        if numbers.last() != gone {
            assert forall|i: int, j: int|
                #![trigger after[i], after[j]]
                0 <= i < j < after.len() implies after[i] < after[j] by {
                if j < inner.len() {
                    assert(inner[i] < inner[j]);
                } else {
                    assert(inner[i] < numbers.last());
                }
            }
            assert forall|i: int| 0 <= i < after.len() implies numbers.contains(
                #[trigger] after[i],
            ) by {
                if i < inner.len() {
                    assert(after[i] == inner[i]);
                } else {
                    assert(numbers[numbers.len() - 1] == after[i]);
                }
            }
        }
    }
}

/// The numbers from zero up to a bound that hold no grant, in order.
pub open spec fn unassigned(running: Seq<Grant>, bound: u64) -> Seq<u64>
    decreases bound,
{
    if bound == 0 {
        Seq::empty()
    } else {
        let before = unassigned(running, (bound - 1) as u64);
        if grant_of(running, (bound - 1) as u64) is Some {
            before
        } else {
            before.push((bound - 1) as u64)
        }
    }
}

impl Scheduler {
    /// Take note of one allocation made before anything runs. A later allocation may shorten an
    /// earlier one.
    pub fn on_initial(&mut self, allocation: &Allocation)
        requires
            old(self).wf(),
        ensures
            final(self).wf(),
            final(self)@ == old(self)@.assigned(*allocation),
    {
        if let Some(kept) = &allocation.shortened {
            self.place(kept.clone());
        }
        self.place(allocation.grant.clone());
    }

    /// Begin: returns the grants to request, by worker. A worker that the representation was too
    /// small to give a share of rests, so that reclaimed bytes can still reach it.
    pub fn start(&mut self) -> (grants: Result<Vec<Grant>, PoolError>)
        requires
            old(self).wf(),
        ensures
            final(self).wf(),
            old(self)@.running.len() == 0 ==> grants == Err::<Vec<Grant>, PoolError>(
                PoolError::IncompleteCoverage,
            ) && *final(self) == *old(self),
            old(self)@.running.len() > 0 ==> grants is Ok && grants->Ok_0@ == old(self)@.running
                && final(self)@ == old(self)@.opened(),
    {
        if self.running.len() == 0 {
            return Err(PoolError::IncompleteCoverage);
        }
        let mut parked: Vec<u64> = Vec::new();
        let mut worker: u64 = 0;
        while worker < self.workers
            invariant
                *self == *old(self),
                self.wf(),
                worker <= self.workers,
                parked@ == unassigned(self@.running, worker),
                ascending(parked@),
                forall|i: int| 0 <= i < parked@.len() ==> #[trigger] parked@[i] < worker,
            decreases self.workers - worker,
        {
            if !self.is_running(WorkerId(worker)) {
                parked.push(worker);
            }
            worker = worker + 1;
        }
        self.parked = parked;
        Ok(copy_grants(&self.running))
    }

    /// The waiting worker to serve next.
    pub fn next_idle(&self) -> (worker: Option<WorkerId>)
        ensures
            worker == (if self@.idle.len() == 0 {
                None::<WorkerId>
            } else {
                Some(WorkerId(self@.idle[0]))
            }),
    {
        if self.idle.len() == 0 {
            None
        } else {
            Some(WorkerId(self.idle[0]))
        }
    }

    /// Workers with no request in flight. Only these may have a grant shortened by a split.
    pub fn quiesced(&self) -> (workers: BTreeSet<u64>)
        requires
            self.wf(),
        ensures
            forall|worker: u64| #[trigger]
                workers@.contains(worker) <==> worker < self@.workers && !self@.is_running(worker),
    {
        let mut workers: BTreeSet<u64> = BTreeSet::new();
        let mut worker: u64 = 0;
        while worker < self.workers
            invariant
                self.wf(),
                worker <= self.workers,
                forall|known: u64| #[trigger]
                    workers@.contains(known) <==> known < worker && !self@.is_running(known),
            decreases self.workers - worker,
        {
            if !self.is_running(WorkerId(worker)) {
                workers.insert(worker);
            }
            worker = worker + 1;
        }
        workers
    }

    /// A waiting worker was given work: returns the grants to request. A split shortens the grant
    /// of a worker without a request, which then needs one again for the half it kept.
    pub fn on_allocated(&mut self, allocation: &Allocation) -> (grants: Vec<Grant>)
        requires
            old(self).wf(),
        ensures
            final(self).wf(),
            final(self)@ == old(self)@.served(*allocation),
            grants@ == (match allocation.shortened {
                Some(kept) => seq![allocation.grant, kept],
                None => seq![allocation.grant],
            }),
    {
        let mut grants: Vec<Grant> = Vec::new();
        grants.push(allocation.grant.clone());
        self.spawn(allocation.grant.clone());
        if let Some(kept) = &allocation.shortened {
            grants.push(kept.clone());
            self.spawn(kept.clone());
        }
        grants
    }

    /// The first waiting worker could not be given work, and a split would have to target
    /// `candidate`. At most one peer is stopped at a time.
    pub fn on_unserved(&mut self, candidate: Option<WorkerId>) -> (step: ServiceStep)
        requires
            old(self).wf(),
            old(self)@.idle.len() > 0,
        ensures
            final(self).wf(),
            final(self)@ == old(self)@.unserved(candidate),
            step == old(self)@.service_step(candidate),
    {
        if let Some(peer) = candidate {
            if self.is_running(peer) {
                if self.stopping.is_some() {
                    return ServiceStep::Wait;
                }
                self.stopping = Some(peer.0);
                return ServiceStep::Stop(peer);
            }
        }
        let worker: u64 = self.idle.remove(0);
        proof {
            assert(self.idle@ =~= old(self)@.idle.skip(1));
        }
        enroll(&mut self.parked, worker);
        ServiceStep::NextWorker
    }

    /// A worker finished its grant.
    pub fn on_finished(&mut self, report: WorkerReport)
        requires
            old(self).wf(),
        ensures
            final(self).wf(),
            final(self)@ == old(self)@.finished(report),
    {
        self.take(report.worker.0);
        self.reports.push(report);
        self.make_idle(report.worker.0);
    }

    /// A worker's request failed. A failure on the wire is retried within the pool's budget; any
    /// other is final.
    pub fn on_failed(
        &mut self,
        worker: WorkerId,
        error: &PoolError,
        policy: &RetryPolicy,
        variation: u64,
    ) -> (step: FailureStep)
        requires
            old(self).wf(),
        ensures
            final(self).wf(),
            step == old(self)@.failure_step(worker.0, *error, *policy, variation),
            final(self)@ == old(self)@.failed(worker.0, step),
    {
        let attempt = match self.take(worker.0) {
            Some(attempt) => attempt,
            None => {
                proof {
                    lemma_released_none(old(self)@.running, worker.0);
                }
                return FailureStep::Unknown;
            },
        };
        let kind = match worker_pool::retryable_worker_failure(error) {
            Some(kind) => kind,
            None => {
                return FailureStep::Fatal;
            },
        };
        let failures: u32 = self.transient_failures;
        match policy.decide_at(kind, failures, None, Timestamp { nanos: 0 }, variation) {
            RetryDecision::GiveUp => FailureStep::Fatal,
            RetryDecision::RetryAfter(delay) => {
                self.transient_failures = failures.saturating_add(1);
                FailureStep::Retry { attempt, delay }
            },
        }
    }

    /// A failed attempt's grant was reclaimed; `snapshot` is the state right after. What the
    /// attempt delivered is credited to it, and everyone may ask for the reclaimed bytes.
    pub fn on_reclaimed(
        &mut self,
        attempt: &Grant,
        snapshot: &SegmentAllocator,
        elapsed: Duration,
    )
        requires
            old(self).wf(),
            snapshot.wf(),
        ensures
            final(self).wf(),
            final(self)@ == old(self)@.reclaimed(*attempt, snapshot.map()@, elapsed),
    {
        self.credit(attempt, snapshot, elapsed);
        self.make_idle(attempt.worker.0);
        self.unpark_everyone();
    }

    /// A worker was stopped: returns its attempt, if one was known.
    pub fn on_cancelled(&mut self, worker: WorkerId) -> (attempt: Option<Grant>)
        requires
            old(self).wf(),
        ensures
            final(self).wf(),
            attempt == grant_of(old(self)@.running, worker.0),
            final(self)@ == old(self)@.ended(worker.0),
    {
        self.take(worker.0)
    }

    /// A stopped attempt was fenced; `snapshot` is the state right after. Its bytes are credited
    /// before its range is split, while they are still its own.
    pub fn on_stopped(&mut self, attempt: &Grant, snapshot: &SegmentAllocator, elapsed: Duration)
        requires
            old(self).wf(),
            snapshot.wf(),
        ensures
            final(self).wf(),
            final(self)@ == old(self)@.halted(*attempt, snapshot.map()@, elapsed),
    {
        self.credit(attempt, snapshot, elapsed);
        if let Some(stopping) = self.stopping {
            if stopping == attempt.worker.0 {
                self.stopping = None;
            }
        }
    }

    fn credit(&mut self, attempt: &Grant, snapshot: &SegmentAllocator, elapsed: Duration)
        requires
            old(self).wf(),
            snapshot.wf(),
        ensures
            final(self).wf(),
            final(self)@ == old(self)@.credited(*attempt, snapshot.map()@, elapsed),
    {
        let bytes: u64 = completed_bytes_inside(snapshot, &attempt.range);
        if bytes > 0 {
            self.reports.push(WorkerReport { worker: attempt.worker, bytes, elapsed });
        }
    }

    /// No request is in flight and no waiting worker could be served. Any interval still owned by
    /// a worker without a request is one that this pool must finish itself.
    pub fn on_quiet(&mut self, snapshot: &SegmentAllocator) -> (step: QuietStep)
        requires
            old(self).wf(),
            snapshot.wf(),
        ensures
            final(self).wf(),
            all_complete(snapshot.map()@) ==> step == QuietStep::Done && final(self)@
                == old(self)@,
            !all_complete(snapshot.map()@) ==> {
                let revivals = old(self)@.revivals(grants_in(snapshot.map().runs()));
                &&& final(self)@ == old(self)@.revived(grants_in(snapshot.map().runs()))
                &&& revivals.len() == 0 ==> step == QuietStep::Incomplete
                &&& revivals.len() > 0 ==> step is Revived && step->Revived_0@ == revivals
            },
    {
        if covered(snapshot) {
            return QuietStep::Done;
        }
        let grants = active_grants(snapshot);
        let mut revived: Vec<Grant> = Vec::new();
        let mut index: usize = 0;
        proof {
            assert(grants@.take(0) =~= Seq::<Grant>::empty());
        }
        while index < grants.len()
            invariant
                index <= grants.len(),
                self.wf(),
                self@ == old(self)@.revived(grants@.take(index as int)),
                revived@ == old(self)@.revivals(grants@.take(index as int)),
            decreases grants.len() - index,
        {
            proof {
                assert(grants@.take(index + 1).drop_last() =~= grants@.take(index as int));
                assert(grants@.take(index + 1).last() == grants@[index as int]);
            }
            let grant = grants[index].clone();
            if !self.is_running(grant.worker) {
                revived.push(grant.clone());
                self.spawn(grant);
            }
            index = index + 1;
        }
        proof {
            assert(grants@.take(grants@.len() as int) =~= grants@);
        }
        if revived.len() == 0 {
            QuietStep::Incomplete
        } else {
            QuietStep::Revived(revived)
        }
    }

    /// The execution failed: nothing is in flight any more. Returns the workers whose grants must
    /// be reclaimed, in order.
    pub fn reclaim(&mut self) -> (workers: Vec<WorkerId>)
        requires
            old(self).wf(),
        ensures
            final(self).wf(),
            final(self)@ == (SchedulerView { running: Seq::empty(), ..old(self)@ }),
            workers@.len() == old(self)@.workers,
            forall|i: int| 0 <= i < workers@.len() ==> #[trigger] workers@[i] == WorkerId(i as u64),
    {
        self.running = Vec::new();
        let mut workers: Vec<WorkerId> = Vec::new();
        let mut worker: u64 = 0;
        while worker < self.workers
            invariant
                worker <= self.workers,
                workers@.len() == worker,
                forall|i: int|
                    0 <= i < workers@.len() ==> #[trigger] workers@[i] == WorkerId(i as u64),
            decreases self.workers - worker,
        {
            workers.push(WorkerId(worker));
            worker = worker + 1;
        }
        workers
    }

    /// Conclude: the last snapshot must be complete, and the reports come out by worker.
    pub fn finish(&self, plan: PoolPlan, snapshot: &SegmentAllocator) -> (report: Result<
        PoolReport,
        PoolError,
    >)
        requires
            snapshot.wf(),
        ensures
            !all_complete(snapshot.map()@) ==> report == Err::<PoolReport, PoolError>(
                PoolError::IncompleteCoverage,
            ),
            all_complete(snapshot.map()@) ==> report is Ok && report->Ok_0.plan == plan
                && report->Ok_0.workers@ == sorted(self@.reports),
    {
        if !covered(snapshot) {
            return Err(PoolError::IncompleteCoverage);
        }
        let mut workers: Vec<WorkerReport> = Vec::new();
        let mut index: usize = 0;
        proof {
            assert(self.reports@.take(0) =~= Seq::<WorkerReport>::empty());
        }
        while index < self.reports.len()
            invariant
                index <= self.reports.len(),
                workers@ == sorted(self.reports@.take(index as int)),
            decreases self.reports.len() - index,
        {
            proof {
                assert(self.reports@.take(index + 1).drop_last() =~= self.reports@.take(
                    index as int,
                ));
            }
            file(&mut workers, self.reports[index]);
            index = index + 1;
        }
        proof {
            assert(self.reports@.take(self.reports@.len() as int) =~= self.reports@);
        }
        Ok(PoolReport { plan, workers })
    }
}

/// An ordered list of reports with one more put behind all that do not belong after it.
pub open spec fn filed(reports: Seq<WorkerReport>, report: WorkerReport) -> Seq<WorkerReport>
    decreases reports.len(),
{
    if reports.len() == 0 || reports.last().worker.0 <= report.worker.0 {
        reports.push(report)
    } else {
        filed(reports.drop_last(), report).push(reports.last())
    }
}

/// The reports by worker; those of one worker keep their order.
pub open spec fn sorted(reports: Seq<WorkerReport>) -> Seq<WorkerReport>
    decreases reports.len(),
{
    if reports.len() == 0 {
        reports
    } else {
        filed(sorted(reports.drop_last()), reports.last())
    }
}

/// Puts a report into an ordered list.
fn file(reports: &mut Vec<WorkerReport>, report: WorkerReport)
    ensures
        final(reports)@ == filed(old(reports)@, report),
{
    let mut at: usize = reports.len();
    let ghost before = reports@;
    proof {
        assert(before.take(before.len() as int) =~= before);
        assert(before.skip(before.len() as int) =~= Seq::<WorkerReport>::empty());
        assert(filed(before, report) + Seq::<WorkerReport>::empty() =~= filed(before, report));
    }
    while at > 0 && reports[at - 1].worker.0 > report.worker.0
        invariant
            reports@ == before,
            at <= before.len(),
            filed(before, report) == filed(before.take(at as int), report) + before.skip(at as int),
        decreases at,
    {
        proof {
            let head = before.take(at as int);
            assert(head.last() == before[at - 1]);
            assert(head.drop_last() =~= before.take(at - 1));
            assert(before.skip(at - 1) =~= seq![before[at - 1]] + before.skip(at as int));
            assert(filed(before.take(at - 1), report).push(before[at - 1]) + before.skip(at as int)
                =~= filed(before.take(at - 1), report) + before.skip(at - 1));
        }
        at = at - 1;
    }
    proof {
        let head = before.take(at as int);
        if at > 0 {
            assert(head.last() == before[at - 1]);
        }
        assert(before.insert(at as int, report) =~= head.push(report) + before.skip(at as int));
    }
    reports.insert(at, report);
}

/// Puts a number into an ordered list once.
fn enroll(numbers: &mut Vec<u64>, new: u64)
    requires
        ascending(old(numbers)@),
    ensures
        final(numbers)@ == enrolled(old(numbers)@, new),
        ascending(final(numbers)@),
{
    let ghost before = numbers@;
    let mut at: usize = numbers.len();
    while at > 0 && numbers[at - 1] > new
        invariant
            numbers@ == before,
            ascending(before),
            at <= before.len(),
            forall|i: int| at <= i < before.len() ==> #[trigger] before[i] > new,
        decreases at,
    {
        at = at - 1;
    }
    proof {
        lemma_enrolled(before, new, at as int);
    }
    if at > 0 && numbers[at - 1] == new {
        return ;
    }
    numbers.insert(at, new);
    proof {
        let after = numbers@;
        assert forall|i: int, j: int|
            #![trigger after[i], after[j]]
            0 <= i < j < after.len() implies after[i] < after[j] by {
            let a = if i < at {
                i
            } else {
                i - 1
            };
            let b = if j < at {
                j
            } else {
                j - 1
            };
            if i < at && j > at {
                assert(before[a] < before[b]);
            } else if j == at {
                if i < at - 1 {
                    assert(before[i] < before[at - 1]);
                }
            } else if i == at {
                assert(before[b] > new);
            } else {
                assert(before[a] < before[b]);
            }
        }
    }
}

proof fn lemma_enrolled(numbers: Seq<u64>, new: u64, at: int)
    requires
        ascending(numbers),
        0 <= at <= numbers.len(),
        forall|i: int| at <= i < numbers.len() ==> #[trigger] numbers[i] > new,
        at > 0 ==> numbers[at - 1] <= new,
    ensures
        at > 0 && numbers[at - 1] == new ==> enrolled(numbers, new) == numbers,
        !(at > 0 && numbers[at - 1] == new) ==> enrolled(numbers, new) == numbers.insert(at, new),
    decreases numbers.len(),
{
    if at == numbers.len() {
        assert(numbers.push(new) =~= numbers.insert(at, new));
    } else {
        assert(numbers[numbers.len() - 1] > new);
        let front = numbers.drop_last();
        assert forall|i: int, j: int|
            #![trigger front[i], front[j]]
            0 <= i < j < front.len() implies front[i] < front[j] by {
            assert(numbers[i] < numbers[j]);
        }
        assert forall|i: int| at <= i < front.len() implies #[trigger] front[i] > new by {
            assert(numbers[i] > new);
        }
        lemma_enrolled(front, new, at);
        if at > 0 && numbers[at - 1] == new {
            assert(front.push(numbers.last()) =~= numbers);
        } else {
            assert(front.insert(at, new).push(numbers.last()) =~= numbers.insert(at, new));
        }
    }
}

/// Copies a list of grants.
fn copy_grants(grants: &Vec<Grant>) -> (copy: Vec<Grant>)
    ensures
        copy@ == grants@,
{
    let mut copy: Vec<Grant> = Vec::with_capacity(grants.len());
    let mut index: usize = 0;
    while index < grants.len()
        invariant
            index <= grants.len(),
            copy@ == grants@.take(index as int),
        decreases grants.len() - index,
    {
        copy.push(grants[index].clone());
        proof {
            assert(grants@.take(index + 1) =~= grants@.take(index as int).push(
                grants@[index as int],
            ));
        }
        index = index + 1;
    }
    proof {
        assert(grants@.take(grants@.len() as int) =~= grants@);
    }
    copy
}

/// The grants that an allocator's active intervals amount to.
pub fn active_grants(allocator: &SegmentAllocator) -> (grants: Vec<Grant>)
    ensures
        grants@ == grants_in(allocator.map().runs()),
{
    let runs = allocator.intervals();
    let mut grants: Vec<Grant> = Vec::new();
    let mut index: usize = 0;
    proof {
        assert(runs@.take(0) =~= Seq::<Interval>::empty());
    }
    while index < runs.len()
        invariant
            index <= runs.len(),
            grants@ == grants_in(runs@.take(index as int)),
        decreases runs.len() - index,
    {
        proof {
            assert(runs@.take(index + 1).drop_last() =~= runs@.take(index as int));
        }
        let interval = runs[index];
        if let IntervalState::InProgress { worker } = interval.state {
            grants.push(
                Grant { worker, range: Range { start: interval.start, end: interval.end } },
            );
        }
        index = index + 1;
    }
    proof {
        assert(runs@.take(runs@.len() as int) =~= runs@);
    }
    grants
}

/// Reports whether every byte is complete.
pub fn covered(allocator: &SegmentAllocator) -> (yes: bool)
    requires
        allocator.wf(),
    ensures
        yes == all_complete(allocator.map()@),
{
    let runs = allocator.intervals();
    let mut index: usize = 0;
    proof {
        intervals::lemma_flatten(runs@);
    }
    while index < runs.len()
        invariant
            allocator.wf(),
            runs@ == allocator.map().runs(),
            index <= runs.len(),
            intervals::flatten(runs@).len() == intervals::extent(runs@),
            forall|k: int| 0 <= k < index ==> (#[trigger] runs@[k]).state == IntervalState::Complete,
        decreases runs.len() - index,
    {
        let interval = runs[index];
        if interval.state != IntervalState::Complete {
            proof {
                intervals::lemma_flatten(runs@);
                allocator.map().lemma_run_of(index as int, interval.start as int);
                assert(allocator.map()@[interval.start as int] != IntervalState::Complete);
            }
            return false;
        }
        index = index + 1;
    }
    proof {
        assert forall|i: int| 0 <= i < allocator.map()@.len() implies #[trigger] allocator.map()@[i]
            == IntervalState::Complete by {
            let k = intervals::lemma_interval_of(runs@, i);
            intervals::lemma_flatten(runs@);
            assert(intervals::flatten(runs@)[i] == runs@[k].state);
        }
    }
    true
}

/// Complete bytes of a run, appended to a prefix that ends where the run starts.
proof fn lemma_complete_run(
    front: Seq<IntervalState>,
    count: int,
    state: IntervalState,
    start: int,
    end: int,
)
    requires
        count >= 0,
    ensures
        complete_within(front + intervals::repeated(count, state), start, end) == complete_within(
            front,
            start,
            end,
        ) + (if state == IntervalState::Complete {
            overlap(front.len() as int, front.len() + count, start, end)
        } else {
            0
        }),
    decreases count,
{
    let whole = front + intervals::repeated(count, state);
    if count == 0 {
        assert(whole =~= front);
    } else {
        assert(whole.drop_last() =~= front + intervals::repeated(count - 1, state));
        lemma_complete_run(front, count - 1, state, start, end);
    }
}

/// How many offsets lie in both half-open ranges.
pub open spec fn overlap(a: int, b: int, start: int, end: int) -> int {
    let low = if a < start {
        start
    } else {
        a
    };
    let high = if b < end {
        b
    } else {
        end
    };
    if low < high {
        high - low
    } else {
        0
    }
}

/// How many bytes of a range are complete.
pub fn completed_bytes_inside(allocator: &SegmentAllocator, range: &Range<u64>) -> (bytes: u64)
    requires
        allocator.wf(),
    ensures
        bytes == complete_within(allocator.map()@, range.start as int, range.end as int),
{
    let runs = allocator.intervals();
    let mut bytes: u64 = 0;
    let mut index: usize = 0;
    proof {
        assert(runs@.take(0) =~= Seq::<Interval>::empty());
    }
    while index < runs.len()
        invariant
            intervals::contiguous(runs@),
            index <= runs.len(),
            bytes == complete_within(
                intervals::flatten(runs@.take(index as int)),
                range.start as int,
                range.end as int,
            ),
            bytes <= intervals::flatten(runs@.take(index as int)).len(),
            intervals::flatten(runs@.take(index as int)).len() == (if index == 0 {
                0
            } else {
                runs@[index - 1].end as int
            }),
        decreases runs.len() - index,
    {
        let interval = runs[index];
        proof {
            let ahead = runs@.take(index + 1);
            assert(ahead.drop_last() =~= runs@.take(index as int));
            assert(ahead.last() == interval);
            assert(interval.start < interval.end) by {
                assert(runs@[index as int] == interval);
            }
            if index > 0 {
                assert(runs@[index - 1].end == runs@[index as int].start);
            }
            lemma_complete_run(
                intervals::flatten(runs@.take(index as int)),
                interval.width(),
                interval.state,
                range.start as int,
                range.end as int,
            );
        }
        if interval.state == IntervalState::Complete {
            let low: u64 = if interval.start < range.start {
                range.start
            } else {
                interval.start
            };
            let high: u64 = if interval.end < range.end {
                interval.end
            } else {
                range.end
            };
            bytes = bytes + high.saturating_sub(low);
        }
        index = index + 1;
    }
    proof {
        assert(runs@.take(runs@.len() as int) =~= runs@);
    }
    bytes
}

/// The reports of one worker, in order.
pub open spec fn of_worker(reports: Seq<WorkerReport>, worker: u64) -> Seq<WorkerReport>
    decreases reports.len(),
{
    if reports.len() == 0 {
        reports
    } else if reports.last().worker.0 == worker {
        of_worker(reports.drop_last(), worker).push(reports.last())
    } else {
        of_worker(reports.drop_last(), worker)
    }
}

/// The reports stand in order of their workers.
pub open spec fn in_order(reports: Seq<WorkerReport>) -> bool {
    forall|i: int, j: int|
        #![trigger reports[i], reports[j]]
        0 <= i < j < reports.len() ==> reports[i].worker.0 <= reports[j].worker.0
}

proof fn lemma_filed(reports: Seq<WorkerReport>, report: WorkerReport, worker: u64)
    requires
        in_order(reports),
    ensures
        in_order(filed(reports, report)),
        filed(reports, report).len() == reports.len() + 1,
        filed(reports, report).last() == report || (reports.len() > 0 && filed(
            reports,
            report,
        ).last() == reports.last() && reports.last().worker.0 > report.worker.0),
        of_worker(filed(reports, report), worker) == of_worker(reports.push(report), worker),
    decreases reports.len(),
{
    let after = filed(reports, report);
    assert(reports.push(report).drop_last() =~= reports);
    if reports.len() == 0 || reports.last().worker.0 <= report.worker.0 {
        assert forall|i: int, j: int|
            #![trigger after[i], after[j]]
            0 <= i < j < after.len() implies after[i].worker.0 <= after[j].worker.0 by {
            if j < reports.len() {
                assert(reports[i].worker.0 <= reports[j].worker.0);
            } else if i < reports.len() - 1 {
                assert(reports[i].worker.0 <= reports[reports.len() - 1].worker.0);
            }
        }
    } else {
        let front = reports.drop_last();
        assert forall|i: int, j: int|
            #![trigger front[i], front[j]]
            0 <= i < j < front.len() implies front[i].worker.0 <= front[j].worker.0 by {
            assert(reports[i].worker.0 <= reports[j].worker.0);
        }
        lemma_filed(front, report, worker);
        let inner = filed(front, report);
        assert(after.drop_last() =~= inner);
        assert(front.push(report).drop_last() =~= front);
        assert forall|i: int, j: int|
            #![trigger after[i], after[j]]
            0 <= i < j < after.len() implies after[i].worker.0 <= after[j].worker.0 by {
            if j < inner.len() {
                assert(inner[i].worker.0 <= inner[j].worker.0);
            } else {
                if i < inner.len() - 1 {
                    assert(inner[i].worker.0 <= inner[inner.len() - 1].worker.0);
                }
                if inner.last() != report {
                    assert(reports[reports.len() - 2].worker.0
                        <= reports[reports.len() - 1].worker.0);
                }
            }
        }
        reveal_with_fuel(of_worker, 2);
    }
}

/// The final report lists the attempts by worker, and each worker's attempts in the order in which
/// they ended; none is lost and none is added.
pub proof fn law_reports_come_out_by_worker(reports: Seq<WorkerReport>, worker: u64)
    ensures
        in_order(sorted(reports)),
        sorted(reports).len() == reports.len(),
        of_worker(sorted(reports), worker) == of_worker(reports, worker),
    decreases reports.len(),
{
    if reports.len() > 0 {
        let front = reports.drop_last();
        law_reports_come_out_by_worker(front, worker);
        lemma_filed(sorted(front), reports.last(), worker);
        assert(sorted(front).push(reports.last()).drop_last() =~= sorted(front));
        assert(sorted(front).push(reports.last()).last() == reports.last());
    }
}

/// A worker with a request in flight keeps every byte of its grant: allocation for an idle worker,
/// asked with the scheduler's quiesced workers, takes nothing from it.
pub proof fn law_a_running_worker_keeps_its_grant(
    view: SchedulerView,
    quiesced: Set<u64>,
    allocator: SegmentAllocator,
    worker: WorkerId,
    running: WorkerId,
    offset: int,
)
    requires
        allocator.wf(),
        forall|known: u64| #[trigger]
            quiesced.contains(known) <==> known < view.workers && !view.is_running(known),
        view.is_running(running.0),
        0 <= offset < allocator.map()@.len(),
        allocator.map()@[offset] == (IntervalState::InProgress { worker: running }),
    ensures
        crate::writer_service::granted_states(
            allocator.map()@,
            allocator.allocate_answer(worker, quiesced),
        )[offset] == allocator.map()@[offset],
{
    crate::allocator::law_a_live_grant_is_never_shortened(allocator, worker, quiesced, offset);
    assert(!quiesced.contains(running.0));
}

/// A worker whose request starts is running and nothing else; one that ends is running no more.
pub proof fn law_a_worker_is_in_one_place(view: SchedulerView, grant: Grant)
    requires
        view.wf(),
    ensures
        view.spawned(grant).is_running(grant.worker.0),
        !view.spawned(grant).idle.contains(grant.worker.0),
        !view.spawned(grant).parked.contains(grant.worker.0),
        !view.ended(grant.worker.0).is_running(grant.worker.0),
{
    lemma_placed_found(view.running, grant);
    lemma_without_gone(view.idle, grant.worker.0);
    lemma_without_gone(view.parked, grant.worker.0);
    lemma_released_gone(view.running, grant.worker.0);
}

pub proof fn lemma_placed_found(grants: Seq<Grant>, grant: Grant)
    requires
        by_worker(grants),
    ensures
        grant_of(placed(grants, grant), grant.worker.0) == Some(grant),
    decreases grants.len(),
{
    if grants.len() > 0 && grants.last().worker.0 > grant.worker.0 {
        lemma_by_worker_front(grants);
        lemma_placed_found(grants.drop_last(), grant);
        assert(placed(grants, grant).drop_last() =~= placed(grants.drop_last(), grant));
    }
}

proof fn lemma_without_gone(numbers: Seq<u64>, gone: u64)
    ensures
        !without(numbers, gone).contains(gone),
    decreases numbers.len(),
{
    if numbers.len() > 0 {
        lemma_without_gone(numbers.drop_last(), gone);
        let inner = without(numbers.drop_last(), gone);
        if numbers.last() != gone {
            assert forall|i: int| 0 <= i < inner.push(numbers.last()).len() implies inner.push(
                numbers.last(),
            )[i] != gone by {
                if i < inner.len() {
                    assert(inner.contains(inner[i]));
                }
            }
        }
    }
}

pub proof fn lemma_released_gone(grants: Seq<Grant>, worker: u64)
    requires
        by_worker(grants),
    ensures
        grant_of(released(grants, worker), worker) is None,
    decreases grants.len(),
{
    if grants.len() > 0 {
        lemma_by_worker_front(grants);
        if grants.last().worker.0 == worker {
            assert forall|i: int| 0 <= i < grants.drop_last().len() implies (
            #[trigger] grants.drop_last()[i]).worker.0 != worker by {
                assert(grants[i].worker.0 < grants[grants.len() - 1].worker.0);
            }
            lemma_grant_of_none(grants.drop_last(), worker);
        } else {
            lemma_released_gone(grants.drop_last(), worker);
            assert(released(grants, worker).drop_last() =~= released(grants.drop_last(), worker));
        }
    }
}

proof fn lemma_placed_keeps(grants: Seq<Grant>, grant: Grant, other: u64)
    requires
        by_worker(grants),
        other != grant.worker.0,
    ensures
        grant_of(placed(grants, grant), other) == grant_of(grants, other),
    decreases grants.len(),
{
    let after = placed(grants, grant);
    if grants.len() == 0 || grants.last().worker.0 < grant.worker.0 {
        assert(after.drop_last() =~= grants);
    } else if grants.last().worker.0 == grant.worker.0 {
        assert(after.drop_last() =~= grants.drop_last());
    } else {
        lemma_by_worker_front(grants);
        lemma_placed_keeps(grants.drop_last(), grant, other);
        assert(after.drop_last() =~= placed(grants.drop_last(), grant));
    }
}

proof fn lemma_released_keeps(grants: Seq<Grant>, worker: u64, other: u64)
    requires
        other != worker,
    ensures
        grant_of(released(grants, worker), other) == grant_of(grants, other),
    decreases grants.len(),
{
    if grants.len() > 0 && grants.last().worker.0 != worker {
        lemma_released_keeps(grants.drop_last(), worker, other);
        assert(released(grants, worker).drop_last() =~= released(grants.drop_last(), worker));
    }
}

/// A grant in flight is known by its worker: putting one in gives that worker this grant and takes
/// none from another, and taking one out gives it back and leaves the others.
pub proof fn law_grants_are_known_by_their_workers(grants: Seq<Grant>, grant: Grant, other: u64)
    requires
        by_worker(grants),
        other != grant.worker.0,
    ensures
        by_worker(placed(grants, grant)),
        grant_of(placed(grants, grant), grant.worker.0) == Some(grant),
        grant_of(placed(grants, grant), other) == grant_of(grants, other),
        by_worker(released(grants, grant.worker.0)),
        grant_of(released(grants, grant.worker.0), grant.worker.0) is None,
        grant_of(released(grants, grant.worker.0), other) == grant_of(grants, other),
        grant_of(grants, other) is Some ==> grants.contains(grant_of(grants, other)->0)
            && grant_of(grants, other)->0.worker.0 == other,
{
    lemma_placed_ordered(grants, grant);
    lemma_placed_found(grants, grant);
    lemma_placed_keeps(grants, grant, other);
    lemma_released_ordered(grants, grant.worker.0);
    lemma_released_gone(grants, grant.worker.0);
    lemma_released_keeps(grants, grant.worker.0, other);
    lemma_grant_listed(grants, other);
}

proof fn lemma_grant_listed(grants: Seq<Grant>, worker: u64)
    ensures
        grant_of(grants, worker) is Some ==> grants.contains(grant_of(grants, worker)->0)
            && grant_of(grants, worker)->0.worker.0 == worker,
        forall|i: int|
            0 <= i < grants.len() && (#[trigger] grants[i]).worker.0 == worker ==> grant_of(
                grants,
                worker,
            ) is Some,
    decreases grants.len(),
{
    if grants.len() > 0 {
        let front = grants.drop_last();
        lemma_grant_listed(front, worker);
        if grants.last().worker.0 == worker {
            assert(grants[grants.len() - 1] == grants.last());
        } else {
            if grant_of(front, worker) is Some {
                let k = choose|k: int| 0 <= k < front.len() && front[k] == grant_of(front, worker)->0;
                assert(grants[k] == front[k]);
            }
            assert forall|i: int|
                0 <= i < grants.len() && (#[trigger] grants[i]).worker.0 == worker implies grant_of(
                grants,
                worker,
            ) is Some by {
                assert(i < front.len());
                assert(front[i] == grants[i]);
            }
        }
    }
}

/// Taking a number out of a list takes that number and no other.
pub proof fn law_taking_out_takes_one_number(numbers: Seq<u64>, gone: u64, number: u64)
    ensures
        without(numbers, gone).contains(number) <==> numbers.contains(number) && number != gone,
        without(numbers, gone).len() <= numbers.len(),
        !numbers.contains(gone) ==> without(numbers, gone) == numbers,
    decreases numbers.len(),
{
    if numbers.len() > 0 {
        let front = numbers.drop_last();
        law_taking_out_takes_one_number(front, gone, number);
        lemma_pushed(front, numbers.last(), number);
        lemma_pushed(front, numbers.last(), gone);
        lemma_pushed(without(front, gone), numbers.last(), number);
        assert(front.push(numbers.last()) =~= numbers);
    }
}

proof fn lemma_pushed(numbers: Seq<u64>, new: u64, number: u64)
    ensures
        numbers.push(new).contains(number) <==> numbers.contains(number) || number == new,
{
    let after = numbers.push(new);
    assert(after[numbers.len() as int] == new);
    if numbers.contains(number) {
        let k = choose|k: int| 0 <= k < numbers.len() && numbers[k] == number;
        assert(after[k] == number);
    }
    if after.contains(number) && number != new {
        let k = choose|k: int| 0 <= k < after.len() && after[k] == number;
        assert(numbers[k] == number);
    }
}

/// A number put into an ordered list is in it, nothing else comes in or goes out, and the list
/// stays in order.
pub proof fn law_enrolling_adds_one_number(numbers: Seq<u64>, new: u64, number: u64)
    requires
        ascending(numbers),
    ensures
        enrolled(numbers, new).contains(number) <==> numbers.contains(number) || number == new,
    decreases numbers.len(),
{
    if numbers.len() > 0 {
        let front = numbers.drop_last();
        assert(front.push(numbers.last()) =~= numbers);
        lemma_pushed(front, numbers.last(), number);
        assert forall|i: int, j: int|
            #![trigger front[i], front[j]]
            0 <= i < j < front.len() implies front[i] < front[j] by {
            assert(numbers[i] < numbers[j]);
        }
        law_enrolling_adds_one_number(front, new, number);
        lemma_pushed(enrolled(front, new), numbers.last(), number);
    }
    lemma_pushed(numbers, new, number);
}

/// Waiting is first come, first served: whoever waits already keeps its place, newcomers come
/// behind in the order given, everyone who asks waits, and nobody waits twice.
pub proof fn law_the_queue_is_fair(queue: Seq<u64>, new: Seq<u64>, number: u64)
    ensures
        all_queued(queue, new).len() >= queue.len(),
        all_queued(queue, new).take(queue.len() as int) == queue,
        all_queued(queue, new).contains(number) <==> queue.contains(number) || new.contains(number),
        queue.no_duplicates() ==> all_queued(queue, new).no_duplicates(),
        queued(queue, number) == all_queued(queue, seq![number]),
    decreases new.len(),
{
    reveal_with_fuel(all_queued, 2);
    assert(seq![number].drop_last() =~= Seq::<u64>::empty());
    if new.len() == 0 {
        assert(queue.take(queue.len() as int) =~= queue);
    } else {
        let front = new.drop_last();
        law_the_queue_is_fair(queue, front, number);
        let before = all_queued(queue, front);
        let after = all_queued(queue, new);
        assert(front.push(new.last()) =~= new);
        lemma_pushed(front, new.last(), number);
        lemma_pushed(before, new.last(), number);
        assert(after.take(queue.len() as int) =~= before.take(queue.len() as int));
        if queue.no_duplicates() && !before.contains(new.last()) {
            assert forall|i: int, j: int|
                0 <= i < after.len() && 0 <= j < after.len() && i != j implies after[i]
                != after[j] by {
                if i < before.len() && j < before.len() {
                    assert(before[i] != before[j]);
                } else if i < before.len() {
                    assert(before.contains(before[i]));
                } else {
                    assert(before.contains(before[j]));
                }
            }
        }
    }
}

/// Before anything runs, exactly the workers that were given no share rest.
pub proof fn law_whoever_has_no_share_rests(running: Seq<Grant>, bound: u64, worker: u64)
    ensures
        unassigned(running, bound).contains(worker) <==> worker < bound && grant_of(
            running,
            worker,
        ) is None,
    decreases bound,
{
    if bound > 0 {
        let before = unassigned(running, (bound - 1) as u64);
        law_whoever_has_no_share_rests(running, (bound - 1) as u64, worker);
        lemma_pushed(before, (bound - 1) as u64, worker);
    }
}

/// No worker is lost: whoever is accounted for stays so when the pool starts, when someone is given
/// work, finds none, finishes, or has a failed attempt reclaimed; and whoever finished or was
/// reclaimed waits for work.
pub proof fn law_no_worker_is_lost(
    view: SchedulerView,
    allocation: Allocation,
    candidate: Option<WorkerId>,
    report: WorkerReport,
    attempt: Grant,
    states: Seq<IntervalState>,
    elapsed: Duration,
    worker: u64,
)
    requires
        view.wf(),
        view.accounts_for(worker),
    ensures
        view.served(allocation).accounts_for(worker),
        view.idle.len() > 0 ==> view.unserved(candidate).accounts_for(worker),
        view.finished(report).accounts_for(worker),
        view.finished(report).idle.contains(report.worker.0),
        !view.finished(report).is_running(report.worker.0),
        view.reclaimed(attempt, states, elapsed).accounts_for(worker),
        view.reclaimed(attempt, states, elapsed).idle.contains(attempt.worker.0),
        view.reclaimed(attempt, states, elapsed).parked.len() == 0,
        view.halted(attempt, states, elapsed).accounts_for(worker),
        worker < view.workers ==> view.opened().accounts_for(worker),
{
    lemma_spawned_accounts(view, allocation.grant, worker);
    if let Some(kept) = allocation.shortened {
        lemma_spawned_accounts(view.spawned(allocation.grant), kept, worker);
    }
    if view.idle.len() > 0 {
        law_enrolling_adds_one_number(view.parked, view.idle[0], worker);
        if view.idle.contains(worker) {
            let k = choose|k: int| 0 <= k < view.idle.len() && view.idle[k] == worker;
            if k > 0 {
                assert(view.idle.skip(1)[k - 1] == worker);
            }
        }
    }
    let done = report.worker.0;
    lemma_released_gone(view.running, done);
    if worker != done {
        lemma_released_keeps(view.running, done, worker);
    }
    law_taking_out_takes_one_number(view.parked, done, worker);
    lemma_pushed(view.idle, done, worker);
    lemma_pushed(view.idle, done, done);
    let credited = view.credited(attempt, states, elapsed);
    let idled = credited.idled(attempt.worker.0);
    law_taking_out_takes_one_number(credited.parked, attempt.worker.0, worker);
    lemma_pushed(credited.idle, attempt.worker.0, worker);
    lemma_pushed(credited.idle, attempt.worker.0, attempt.worker.0);
    law_the_queue_is_fair(idled.idle, idled.parked, worker);
    law_the_queue_is_fair(idled.idle, idled.parked, attempt.worker.0);
    law_whoever_has_no_share_rests(view.running, view.workers, worker);
}

proof fn lemma_spawned_accounts(view: SchedulerView, grant: Grant, worker: u64)
    requires
        view.wf(),
        view.accounts_for(worker),
    ensures
        view.spawned(grant).wf(),
        view.spawned(grant).accounts_for(worker),
{
    lemma_placed_ordered(view.running, grant);
    lemma_placed_found(view.running, grant);
    lemma_without_ordered(view.parked, grant.worker.0);
    if worker != grant.worker.0 {
        lemma_placed_keeps(view.running, grant, worker);
    }
    law_taking_out_takes_one_number(view.idle, grant.worker.0, worker);
    law_taking_out_takes_one_number(view.parked, grant.worker.0, worker);
}

/// A failure on the wire is retried while the budget lasts: the connection broke, the time ran out
/// or the body ended early, and fewer failures were counted than the policy allows. Then the
/// failed attempt is handed back to be reclaimed and the failure is counted. Every other failure
/// of a known attempt is final, and either way the attempt is over.
pub proof fn law_a_failure_on_the_wire_is_retried_within_the_budget(
    view: SchedulerView,
    worker: u64,
    error: PoolError,
    policy: RetryPolicy,
    variation: u64,
)
    requires
        view.wf(),
    ensures
        ({
            let step = view.failure_step(worker, error, policy, variation);
            let after = view.failed(worker, step);
            let on_the_wire = error is Transfer && (error->Transfer_0 is Transport
                || error->Transfer_0 is Timeout || error->Transfer_0 is TruncatedBody);
            &&& step is Unknown <==> !view.is_running(worker)
            &&& step is Unknown ==> after == view
            &&& view.is_running(worker) && on_the_wire && view.transient_failures
                < policy.max_retries ==> step is Retry && grant_of(view.running, worker) == Some(
                step->attempt,
            ) && step->delay == policy.computed_delay(view.transient_failures, variation)
            &&& step is Retry ==> on_the_wire && view.transient_failures < policy.max_retries
            &&& step is Retry ==> after.transient_failures == view.transient_failures + 1
            &&& !(step is Retry) ==> after.transient_failures == view.transient_failures
            &&& view.is_running(worker) && !(on_the_wire && view.transient_failures
                < policy.max_retries) ==> step is Fatal
            &&& !after.is_running(worker)
            &&& after.idle == view.idle && after.parked == view.parked && after.reports
                == view.reports && after.stopping == view.stopping && after.workers == view.workers
        }),
{
    lemma_released_gone(view.running, worker);
}

/// At most one peer is stopped at a time, and only one with a request in flight; it stops no more
/// once it has stopped.
pub proof fn law_one_peer_stops_at_a_time(
    view: SchedulerView,
    candidate: Option<WorkerId>,
    attempt: Grant,
    states: Seq<IntervalState>,
    elapsed: Duration,
)
    requires
        view.wf(),
        view.idle.len() > 0,
    ensures
        ({
            let step = view.service_step(candidate);
            let after = view.unserved(candidate);
            &&& step is Stop <==> candidate is Some && view.is_running((candidate->0).0)
                && view.stopping is None
            &&& step is Stop ==> candidate == Some(step->Stop_0) && after.stopping == Some(
                step->Stop_0.0,
            )
            &&& step is Wait <==> candidate is Some && view.is_running((candidate->0).0)
                && view.stopping is Some
            &&& !(step is Stop) ==> after.stopping == view.stopping
            &&& step is NextWorker ==> after.parked.contains(view.idle[0]) && after.idle
                == view.idle.skip(1)
            &&& !(step is NextWorker) ==> after.idle == view.idle && after.parked == view.parked
            &&& after.running == view.running
        }),
        view.stopping == Some(attempt.worker.0) ==> view.halted(
            attempt,
            states,
            elapsed,
        ).stopping is None,
        view.stopping != Some(attempt.worker.0) ==> view.halted(attempt, states, elapsed).stopping
            == view.stopping,
{
    law_enrolling_adds_one_number(view.parked, view.idle[0], view.idle[0]);
}

/// Bytes are counted one by one: a single complete byte counts one and any other none, and what a
/// range holds is what its parts hold.
pub proof fn law_complete_bytes_are_counted_one_by_one(
    states: Seq<IntervalState>,
    start: int,
    middle: int,
    end: int,
)
    requires
        0 <= start <= middle <= end <= states.len(),
    ensures
        complete_within(states, start, end) == complete_within(states, start, middle)
            + complete_within(states, middle, end),
        start < states.len() ==> complete_within(states, start, start + 1) == (if states[start]
            == IntervalState::Complete {
            1nat
        } else {
            0nat
        }),
        complete_within(states, start, start) == 0,
        complete_within(states, start, end) <= end - start,
    decreases states.len(),
{
    lemma_counted(states, start, middle, end);
    lemma_counted(states, start, start, end);
    lemma_counted_once(states, start);
}

proof fn lemma_counted(states: Seq<IntervalState>, start: int, middle: int, end: int)
    requires
        start <= middle <= end,
    ensures
        complete_within(states, start, end) == complete_within(states, start, middle)
            + complete_within(states, middle, end),
        complete_within(states, start, end) <= end - start,
        states.len() <= start ==> complete_within(states, start, end) == 0,
        complete_within(states, start, end) <= (if states.len() <= start {
            0
        } else {
            states.len() - start
        }),
        complete_within(states, start, start) == 0,
    decreases states.len(),
{
    if states.len() > 0 {
        let front = states.drop_last();
        lemma_counted(front, start, middle, end);
        if start <= states.len() - 1 < end {
            lemma_counted(front, start, states.len() - 1, end);
            lemma_counted(front, start, states.len() - 1, states.len() - 1);
            lemma_counted(front, states.len() - 1, states.len() - 1, end);
        }
    }
}

proof fn lemma_counted_once(states: Seq<IntervalState>, at: int)
    requires
        0 <= at,
    ensures
        complete_within(states, at, at + 1) == (if at < states.len() && states[at]
            == IntervalState::Complete {
            1nat
        } else {
            0nat
        }),
    decreases states.len(),
{
    if states.len() > 0 {
        lemma_counted_once(states.drop_last(), at);
    }
}

/// A stopped or failed attempt is credited with the bytes of its grant that are complete, and is
/// not reported at all where there are none.
pub proof fn law_an_attempt_is_credited_with_what_it_completed(
    view: SchedulerView,
    attempt: Grant,
    states: Seq<IntervalState>,
    elapsed: Duration,
)
    requires
        attempt.range.start <= attempt.range.end <= states.len(),
    ensures
        ({
            let after = view.credited(attempt, states, elapsed);
            let bytes = complete_within(
                states,
                attempt.range.start as int,
                attempt.range.end as int,
            );
            &&& bytes == 0 ==> after == view
            &&& bytes > 0 ==> after.reports.len() == view.reports.len() + 1
                && after.reports.drop_last() == view.reports && after.reports.last().worker
                == attempt.worker && after.reports.last().bytes == bytes
                && after.reports.last().elapsed == elapsed
            &&& after.running == view.running && after.idle == view.idle && after.parked
                == view.parked
        }),
{
    let start = attempt.range.start as int;
    let end = attempt.range.end as int;
    law_complete_bytes_are_counted_one_by_one(states, start, start, end);
    let bytes = complete_within(states, start, end);
    if bytes > 0 {
        assert(view.credited(attempt, states, elapsed).reports.drop_last() =~= view.reports);
    }
}

/// A partition's active grants are its active intervals, each under its worker and with its bounds.
pub proof fn law_active_grants_are_the_active_intervals(runs: Seq<Interval>, grant: Grant)
    ensures
        grants_in(runs).contains(grant) <==> exists|k: int|
            0 <= k < runs.len() && (#[trigger] runs[k]).state == (IntervalState::InProgress {
                worker: grant.worker,
            }) && runs[k].start == grant.range.start && runs[k].end == grant.range.end,
    decreases runs.len(),
{
    if runs.len() > 0 {
        let front = runs.drop_last();
        law_active_grants_are_the_active_intervals(front, grant);
        let before = grants_in(front);
        let after = grants_in(runs);
        let fits = |run: Interval|
            run.state == (IntervalState::InProgress { worker: grant.worker }) && run.start
                == grant.range.start && run.end == grant.range.end;
        assert(forall|k: int| 0 <= k < front.len() ==> front[k] == #[trigger] runs[k]);
        if before.contains(grant) {
            let at = choose|at: int| 0 <= at < before.len() && before[at] == grant;
            assert(after[at] == grant);
            let k = choose|k: int|
                0 <= k < front.len() && (#[trigger] front[k]).state == (IntervalState::InProgress {
                    worker: grant.worker,
                }) && front[k].start == grant.range.start && front[k].end == grant.range.end;
            assert(fits(runs[k]));
        }
        let last = runs[runs.len() - 1];
        if fits(last) {
            assert(after[before.len() as int] == grant);
        }
        if after.contains(grant) && !before.contains(grant) {
            let at = choose|at: int| 0 <= at < after.len() && after[at] == grant;
            if at < before.len() {
                assert(before[at] == grant);
            }
            assert(fits(last));
        }
        if exists|k: int| 0 <= k < runs.len() && fits(#[trigger] runs[k]) {
            let k = choose|k: int| 0 <= k < runs.len() && fits(#[trigger] runs[k]);
            if k < front.len() {
                assert(fits(front[k]));
                assert(before.contains(grant));
            }
        }
    }
}

/// When all is quiet, every listed grant's worker gets its request again, nobody's request is
/// replaced, and exactly the grants that got one are handed out.
pub proof fn law_quiet_grants_are_revived(view: SchedulerView, grants: Seq<Grant>, worker: u64)
    requires
        view.wf(),
    ensures
        view.revived(grants).wf(),
        view.is_running(worker) ==> grant_of(view.revived(grants).running, worker) == grant_of(
            view.running,
            worker,
        ),
        view.revived(grants).is_running(worker) <==> view.is_running(worker) || exists|k: int|
            0 <= k < grants.len() && (#[trigger] grants[k]).worker.0 == worker,
        grant_of(view.revivals(grants), worker) is Some <==> view.revived(grants).is_running(worker)
            && !view.is_running(worker),
        grant_of(view.revivals(grants), worker) is Some ==> grant_of(
            view.revivals(grants),
            worker,
        ) == grant_of(view.revived(grants).running, worker),
    decreases grants.len(),
{
    if grants.len() > 0 {
        let front = grants.drop_last();
        law_quiet_grants_are_revived(view, front, worker);
        let last = grants.last();
        law_quiet_grants_are_revived(view, front, last.worker.0);
        let before = view.revived(front);
        let handed = view.revivals(front);
        assert(forall|k: int| 0 <= k < front.len() ==> front[k] == #[trigger] grants[k]);
        assert(grants[grants.len() - 1] == last);
        if exists|k: int| 0 <= k < front.len() && (#[trigger] front[k]).worker.0 == worker {
            let k = choose|k: int| 0 <= k < front.len() && (#[trigger] front[k]).worker.0 == worker;
            assert(grants[k].worker.0 == worker);
        }
        if exists|k: int| 0 <= k < grants.len() && (#[trigger] grants[k]).worker.0 == worker {
            let k = choose|k: int|
                0 <= k < grants.len() && (#[trigger] grants[k]).worker.0 == worker;
            if k < front.len() {
                assert(front[k].worker.0 == worker);
            }
        }
        if !before.is_running(last.worker.0) {
            lemma_placed_ordered(before.running, last);
            lemma_placed_found(before.running, last);
            lemma_without_ordered(before.parked, last.worker.0);
            if worker != last.worker.0 {
                lemma_placed_keeps(before.running, last, worker);
            }
            assert(handed.push(last).drop_last() =~= handed);
        }
    }
}

} // verus!
