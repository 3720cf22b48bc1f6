//! The books of one segmented execution: every fetched byte stands on one worker's record, once.
//!
//! A worker's bytes are credited when its attempt ends: all of its grant when it delivered that,
//! and otherwise whatever of it the writer had completed by then. Between splits, stops and
//! retries the same bytes pass through several hands; this module states that none is credited
//! twice and none is forgotten.

use crate::allocator;
use crate::allocator::{Grant, SegmentAllocator};
use crate::intervals;
use crate::intervals::{Interval, IntervalState, WorkerId};
use crate::scheduler;
use crate::scheduler::SchedulerView;
use crate::time::Duration;
use crate::worker_pool::WorkerReport;
use crate::writer_service;
use crate::writer_service::DurableBlock;
use vstd::prelude::*;

verus! {

/// One moment of an execution: what the scheduler knows and what the writer holds.
pub struct PoolRun {
    /// The scheduler.
    pub view: SchedulerView,
    /// The writer's state of every byte.
    pub states: Seq<IntervalState>,
    /// The attempt that has ended and is not credited yet, if there is one.
    pub closing: Option<Grant>,
    /// The first requests are in flight.
    pub started: bool,
}

/// What happens in an execution: a report to the scheduler, or a step of the writer.
pub enum PoolEvent {
    /// A worker is given its first share, before anything runs.
    Assigned {
        /// The writer's allocator.
        allocator: SegmentAllocator,
        /// The worker.
        worker: WorkerId,
        /// Every worker of the pool.
        everyone: Set<u64>,
    },
    /// The first requests go out.
    Started,
    /// Storage reports blocks durable.
    Written {
        /// The blocks.
        blocks: Seq<DurableBlock>,
    },
    /// The first waiting worker is given work.
    Served {
        /// The writer's allocator.
        allocator: SegmentAllocator,
        /// The workers without a request in flight.
        quiesced: Set<u64>,
    },
    /// The first waiting worker is not given work.
    Unserved {
        /// Whom a split would have to target.
        candidate: Option<WorkerId>,
    },
    /// A worker delivered its whole grant, and the writer has completed it.
    Finished {
        /// What it reports.
        report: WorkerReport,
    },
    /// A worker's request failed in a way that may pass.
    Failed {
        /// The worker.
        worker: u64,
    },
    /// A worker was stopped.
    Cancelled {
        /// The worker.
        worker: u64,
    },
    /// The writer takes back what the ended attempt's worker owns.
    Abandoned,
    /// The failed attempt is credited.
    Reclaimed {
        /// How long it ran.
        elapsed: Duration,
    },
    /// The stopped attempt is credited.
    Halted {
        /// How long it ran.
        elapsed: Duration,
    },
    /// Nothing runs, and grants without a request get one.
    Revived {
        /// The writer's allocator.
        allocator: SegmentAllocator,
    },
}

/// The byte lies in the grant.
pub open spec fn inside(grant: Grant, offset: int) -> bool {
    grant.range.start <= offset < grant.range.end
}

/// The worker has a request in flight whose grant holds the byte.
pub open spec fn holds(running: Seq<Grant>, worker: u64, offset: int) -> bool {
    scheduler::grant_of(running, worker) is Some && inside(
        scheduler::grant_of(running, worker)->0,
        offset,
    )
}

/// The byte lies in a grant that is not credited yet.
pub open spec fn claimed(running: Seq<Grant>, closing: Option<Grant>, offset: int) -> bool {
    ||| exists|worker: u64| #[trigger] holds(running, worker, offset)
    ||| (closing is Some && inside(closing->0, offset))
}

/// How many of the flags are set.
pub open spec fn tally(flags: Seq<bool>) -> nat
    decreases flags.len(),
{
    if flags.len() == 0 {
        0
    } else {
        tally(flags.drop_last()) + (if flags.last() {
            1nat
        } else {
            0nat
        })
    }
}

/// The bytes on all records together.
pub open spec fn bytes_on(reports: Seq<WorkerReport>) -> nat
    decreases reports.len(),
{
    if reports.len() == 0 {
        0
    } else {
        bytes_on(reports.drop_last()) + reports.last().bytes as nat
    }
}

/// Two grants share no byte.
pub open spec fn apart(one: Grant, other: Grant) -> bool {
    one.range.end <= other.range.start || other.range.end <= one.range.start
}

/// Whatever byte belongs to a worker belongs to one below the bound.
pub open spec fn held_below(states: Seq<IntervalState>, bound: int) -> bool {
    forall|i: int|
        0 <= i < states.len() ==> ((#[trigger] states[i]) matches IntervalState::InProgress {
            worker,
        } ==> worker.0 < bound)
}

impl PoolRun {
    /// An execution that has not begun: so many workers, and a partition.
    pub open spec fn first(workers: u64, states: Seq<IntervalState>) -> PoolRun {
        PoolRun {
            view: SchedulerView {
                workers,
                running: Seq::empty(),
                idle: Seq::empty(),
                parked: Seq::empty(),
                stopping: None,
                reports: Seq::empty(),
                transient_failures: 0,
            },
            states,
            closing: None,
            started: false,
        }
    }

    /// Nothing is in flight, nothing is left to credit, and every byte is complete.
    pub open spec fn is_over(self) -> bool {
        &&& self.view.running.len() == 0
        &&& self.closing is None
        &&& scheduler::all_complete(self.states)
    }

    /// The byte is complete, and whoever fetched it in this execution has been credited.
    pub open spec fn is_settled(self, offset: int) -> bool {
        self.states[offset] == IntervalState::Complete && !claimed(
            self.view.running,
            self.closing,
            offset,
        )
    }

    /// Which bytes are settled.
    pub open spec fn settled(self) -> Seq<bool> {
        Seq::new(self.states.len(), |i: int| self.is_settled(i))
    }

    /// The grant belongs to a worker below the bound, and its bytes are the worker's or complete.
    /// Before the first requests go out none of them is complete.
    pub open spec fn is_owned(self, grant: Grant, bound: int) -> bool {
        &&& grant.worker.0 < bound
        &&& grant.range.start < grant.range.end <= self.states.len()
        &&& forall|i: int|
            inside(grant, i) ==> {
                ||| #[trigger] self.states[i] == (IntervalState::InProgress {
                    worker: grant.worker,
                })
                ||| (self.started && self.states[i] == IntervalState::Complete)
            }
    }

    /// Every grant in flight is its worker's own, and no two share a byte.
    pub open spec fn grants_are_sound(self, bound: int) -> bool {
        &&& forall|worker: u64|
            (#[trigger] scheduler::grant_of(self.view.running, worker)) matches Some(grant)
                ==> self.is_owned(grant, bound) && grant.worker == WorkerId(worker)
        &&& forall|one: u64, other: u64|
            #![trigger scheduler::grant_of(self.view.running, one), scheduler::grant_of(self.view.running, other)]
            one != other && scheduler::grant_of(self.view.running, one) is Some
                && scheduler::grant_of(self.view.running, other) is Some ==> apart(
                scheduler::grant_of(self.view.running, one)->0,
                scheduler::grant_of(self.view.running, other)->0,
            )
    }

    /// The ended attempt is its worker's own, and shares no byte with a grant in flight.
    pub open spec fn closing_is_sound(self, bound: int) -> bool {
        self.closing matches Some(attempt) ==> {
            &&& self.started
            &&& attempt.worker.0 < bound
            &&& attempt.range.start < attempt.range.end <= self.states.len()
            &&& scheduler::grant_of(self.view.running, attempt.worker.0) is None
            &&& forall|worker: u64|
                (#[trigger] scheduler::grant_of(self.view.running, worker)) matches Some(grant)
                    ==> apart(grant, attempt)
            &&& forall|i: int|
                inside(attempt, i) ==> {
                    ||| #[trigger] self.states[i] == (IntervalState::InProgress {
                        worker: attempt.worker,
                    })
                    ||| self.states[i] == IntervalState::Complete
                    ||| self.states[i] == IntervalState::Pending
                }
        }
    }

    /// The listed workers are below the bound and have no request in flight.
    pub open spec fn are_free(self, workers: Seq<u64>, bound: int) -> bool {
        forall|k: int|
            0 <= k < workers.len() ==> (#[trigger] workers[k]) < bound
                && scheduler::grant_of(self.view.running, workers[k]) is None
    }

    /// Every record names a worker below the bound and some bytes.
    pub open spec fn records_are_sound(self, bound: int) -> bool {
        forall|k: int|
            0 <= k < self.view.reports.len() ==> (#[trigger] self.view.reports[k]).worker.0
                < bound && self.view.reports[k].bytes > 0
    }

    /// What every moment of an execution satisfies, where `earlier` bytes were complete before it
    /// began and `bound` is above every worker that held a byte then: in particular the bytes on
    /// record, with those, are the settled ones.
    pub open spec fn is_sound(self, earlier: nat, bound: int) -> bool {
        &&& self.view.workers <= bound
        &&& self.view.wf()
        &&& self.states.len() <= u64::MAX
        &&& self.grants_are_sound(bound)
        &&& self.closing_is_sound(bound)
        &&& self.are_free(self.view.idle, bound)
        &&& self.are_free(self.view.parked, bound)
        &&& !self.started ==> self.view.idle.len() == 0 && self.view.parked.len() == 0
        &&& held_below(self.states, bound)
        &&& self.records_are_sound(bound)
        &&& bytes_on(self.view.reports) + earlier == tally(self.settled())
    }
}

/// The block lies in a grant of its worker that is not credited yet: a cursor never leaves its
/// grant, and what was staged through it is flushed before the attempt is credited.
pub open spec fn is_underway(run: PoolRun, block: DurableBlock) -> bool {
    let grant = match scheduler::grant_of(run.view.running, block.worker.0) {
        Some(grant) => Some(grant),
        None => run.closing,
    };
    &&& grant is Some
    &&& grant->0.worker == block.worker
    &&& grant->0.range.start <= block.range.start
    &&& block.range.end <= grant->0.range.end
}

/// The event leads from one moment to the next. What the scheduler makes of a report, and the
/// writer of a request, is what their contracts say.
pub open spec fn follows(before: PoolRun, event: PoolEvent, after: PoolRun) -> bool {
    match event {
        PoolEvent::Assigned { allocator, worker, everyone } => {
            let answer = allocator.allocate_answer(worker, everyone);
            &&& !before.started
            &&& allocator.wf() && allocator.map()@ == before.states
            &&& worker.0 < before.view.workers
            &&& forall|known: u64| #[trigger]
                everyone.contains(known) <==> known < before.view.workers
            &&& answer is Ok && answer->Ok_0 is Some
            &&& after == (PoolRun {
                view: before.view.assigned(answer->Ok_0->0),
                states: writer_service::granted_states(before.states, answer),
                ..before
            })
        },
        PoolEvent::Started => {
            &&& !before.started
            &&& before.view.running.len() > 0
            &&& after == (PoolRun { view: before.view.opened(), started: true, ..before })
        },
        PoolEvent::Written { blocks } => {
            &&& before.started
            &&& forall|k: int| 0 <= k < blocks.len() ==> is_underway(before, #[trigger] blocks[k])
            &&& after == (PoolRun {
                states: writer_service::recorded(before.states, blocks).0,
                ..before
            })
        },
        PoolEvent::Served { allocator, quiesced } => {
            let answer = allocator.allocate_answer(WorkerId(before.view.idle[0]), quiesced);
            &&& before.started && before.closing is None
            &&& before.view.idle.len() > 0
            &&& allocator.wf() && allocator.map()@ == before.states
            &&& forall|known: u64| #[trigger]
                quiesced.contains(known) <==> known < before.view.workers
                    && !before.view.is_running(known)
            &&& answer is Ok && answer->Ok_0 is Some
            &&& after == (PoolRun {
                view: before.view.served(answer->Ok_0->0),
                states: writer_service::granted_states(before.states, answer),
                ..before
            })
        },
        PoolEvent::Unserved { candidate } => {
            &&& before.started && before.closing is None
            &&& before.view.idle.len() > 0
            &&& after == (PoolRun { view: before.view.unserved(candidate), ..before })
        },
        PoolEvent::Finished { report } => {
            let grant = scheduler::grant_of(before.view.running, report.worker.0);
            &&& before.started && before.closing is None
            &&& grant is Some
            &&& report.bytes == grant->0.range.end - grant->0.range.start
            &&& intervals::wholly(
                before.states,
                grant->0.range.start as int,
                grant->0.range.end as int,
                IntervalState::Complete,
            )
            &&& after == (PoolRun { view: before.view.finished(report), ..before })
        },
        PoolEvent::Failed { worker } => {
            let grant = scheduler::grant_of(before.view.running, worker);
            &&& before.started && before.closing is None
            &&& grant is Some
            &&& after == (PoolRun { view: before.view.faltered(worker), closing: grant, ..before })
        },
        PoolEvent::Cancelled { worker } => {
            let grant = scheduler::grant_of(before.view.running, worker);
            &&& before.started && before.closing is None
            &&& grant is Some
            &&& after == (PoolRun { view: before.view.ended(worker), closing: grant, ..before })
        },
        PoolEvent::Abandoned => {
            &&& before.closing is Some
            &&& after == (PoolRun {
                states: intervals::restated(
                    before.states,
                    IntervalState::InProgress { worker: before.closing->0.worker },
                    IntervalState::Pending,
                ),
                ..before
            })
        },
        PoolEvent::Reclaimed { elapsed } => {
            &&& before.closing is Some
            &&& after == (PoolRun {
                view: before.view.reclaimed(before.closing->0, before.states, elapsed),
                closing: None,
                ..before
            })
        },
        PoolEvent::Halted { elapsed } => {
            &&& before.closing is Some
            &&& after == (PoolRun {
                view: before.view.halted(before.closing->0, before.states, elapsed),
                closing: None,
                ..before
            })
        },
        PoolEvent::Revived { allocator } => {
            &&& before.started && before.closing is None
            &&& allocator.wf() && allocator.map()@ == before.states
            &&& after == (PoolRun {
                view: before.view.revived(scheduler::grants_in(allocator.map().runs())),
                ..before
            })
        },
    }
}

/// The moments of an execution, one event after another.
pub open spec fn is_execution(moments: Seq<PoolRun>, events: Seq<PoolEvent>) -> bool {
    &&& moments.len() == events.len() + 1
    &&& forall|k: int|
        0 <= k < events.len() ==> follows(
            moments[k],
            #[trigger] events[k],
            moments[k + 1],
        )
}

proof fn lemma_placed_of(grants: Seq<Grant>, grant: Grant, worker: u64)
    requires
        scheduler::by_worker(grants),
    ensures
        scheduler::grant_of(scheduler::placed(grants, grant), worker) == (if worker
            == grant.worker.0 {
            Some(grant)
        } else {
            scheduler::grant_of(grants, worker)
        }),
    decreases grants.len(),
{
    let after = scheduler::placed(grants, grant);
    if worker == grant.worker.0 {
        scheduler::lemma_placed_found(grants, grant);
    } else if grants.len() == 0 || grants.last().worker.0 < grant.worker.0 {
        assert(after.drop_last() =~= grants);
    } else if grants.last().worker.0 == grant.worker.0 {
        assert(after.drop_last() =~= grants.drop_last());
    } else {
        scheduler::lemma_by_worker_front(grants);
        lemma_placed_of(grants.drop_last(), grant, worker);
        assert(after.drop_last() =~= scheduler::placed(grants.drop_last(), grant));
    }
}

proof fn lemma_released_of(grants: Seq<Grant>, gone: u64, worker: u64)
    requires
        scheduler::by_worker(grants),
    ensures
        scheduler::grant_of(scheduler::released(grants, gone), worker) == (if worker == gone {
            None
        } else {
            scheduler::grant_of(grants, worker)
        }),
    decreases grants.len(),
{
    if worker == gone {
        scheduler::lemma_released_gone(grants, gone);
    } else if grants.len() > 0 && grants.last().worker.0 != gone {
        scheduler::lemma_by_worker_front(grants);
        lemma_released_of(grants.drop_last(), gone, worker);
        assert(scheduler::released(grants, gone).drop_last() =~= scheduler::released(
            grants.drop_last(),
            gone,
        ));
    }
}

proof fn lemma_without(numbers: Seq<u64>, gone: u64)
    ensures
        forall|k: int|
            0 <= k < scheduler::without(numbers, gone).len() ==> (
            #[trigger] scheduler::without(numbers, gone)[k]) != gone && numbers.contains(
                scheduler::without(numbers, gone)[k],
            ),
    decreases numbers.len(),
{
    if numbers.len() > 0 {
        let front = numbers.drop_last();
        lemma_without(front, gone);
        let inner = scheduler::without(front, gone);
        let after = scheduler::without(numbers, gone);
        assert forall|k: int| 0 <= k < after.len() implies (#[trigger] after[k]) != gone
            && numbers.contains(after[k]) by {
            if k < inner.len() {
                assert(after[k] == inner[k]);
                let m = choose|m: int| 0 <= m < front.len() && front[m] == inner[k];
                assert(numbers[m] == after[k]);
            } else {
                assert(numbers[numbers.len() - 1] == after[k]);
            }
        }
    }
}

proof fn lemma_tally_adds(whole: Seq<bool>, one: Seq<bool>, other: Seq<bool>)
    requires
        whole.len() == one.len() == other.len(),
        forall|i: int|
            0 <= i < whole.len() ==> #[trigger] whole[i] == (one[i] || other[i]) && !(one[i]
                && other[i]),
    ensures
        tally(whole) == tally(one) + tally(other),
    decreases whole.len(),
{
    if whole.len() > 0 {
        let last = whole.len() - 1;
        assert(whole[last] == (one[last] || other[last]));
        assert forall|i: int| 0 <= i < last implies #[trigger] whole.drop_last()[i] == (
        one.drop_last()[i] || other.drop_last()[i]) && !(one.drop_last()[i]
            && other.drop_last()[i]) by {
            assert(whole[i] == (one[i] || other[i]));
        }
        lemma_tally_adds(whole.drop_last(), one.drop_last(), other.drop_last());
    }
}

proof fn lemma_tally_within(states: Seq<IntervalState>, start: int, end: int)
    ensures
        tally(
            Seq::new(
                states.len(),
                |i: int| start <= i < end && states[i] == IntervalState::Complete,
            ),
        ) == scheduler::complete_within(states, start, end),
        scheduler::complete_within(states, start, end) <= states.len(),
    decreases states.len(),
{
    if states.len() > 0 {
        let front = states.drop_last();
        lemma_tally_within(front, start, end);
        let flags = Seq::new(
            states.len(),
            |i: int| start <= i < end && states[i] == IntervalState::Complete,
        );
        assert(flags.drop_last() =~= Seq::new(
            front.len(),
            |i: int| start <= i < end && front[i] == IntervalState::Complete,
        ));
    }
}

proof fn lemma_tally_complete(states: Seq<IntervalState>)
    ensures
        tally(Seq::new(states.len(), |i: int| states[i] == IntervalState::Complete))
            == intervals::bytes_in(states, IntervalState::Complete),
    decreases states.len(),
{
    if states.len() > 0 {
        let front = states.drop_last();
        lemma_tally_complete(front);
        let flags = Seq::new(states.len(), |i: int| states[i] == IntervalState::Complete);
        assert(flags.drop_last() =~= Seq::new(
            front.len(),
            |i: int| front[i] == IntervalState::Complete,
        ));
    }
}

proof fn lemma_tally_all(flags: Seq<bool>)
    requires
        forall|i: int| 0 <= i < flags.len() ==> #[trigger] flags[i],
    ensures
        tally(flags) == flags.len(),
    decreases flags.len(),
{
    if flags.len() > 0 {
        assert(flags[flags.len() - 1]);
        assert forall|i: int| 0 <= i < flags.len() - 1 implies #[trigger] flags.drop_last()[i] by {
            assert(flags[i]);
        }
        lemma_tally_all(flags.drop_last());
    }
}

/// All of a range is complete: that many bytes.
proof fn lemma_wholly_complete(states: Seq<IntervalState>, start: int, end: int)
    requires
        0 <= start <= end <= states.len(),
        intervals::wholly(states, start, end, IntervalState::Complete),
    ensures
        scheduler::complete_within(states, start, end) == end - start,
    decreases states.len(),
{
    if states.len() > 0 {
        let front = states.drop_last();
        let cut = if end < states.len() {
            end
        } else {
            states.len() - 1
        };
        if start <= cut {
            assert forall|i: int| start <= i < cut implies #[trigger] front[i]
                == IntervalState::Complete by {
                assert(states[i] == IntervalState::Complete);
            }
            lemma_wholly_complete(front, start, cut);
            if cut < end {
                lemma_within_agrees(front, start, end, cut);
            }
        } else {
            lemma_nothing_within(front, start, end);
        }
        if end == states.len() && start < end {
            assert(states[end - 1] == IntervalState::Complete);
        }
    }
}

proof fn lemma_within_agrees(
    states: Seq<IntervalState>,
    start: int,
    end: int,
    cut: int,
)
    requires
        states.len() <= cut <= end,
    ensures
        scheduler::complete_within(states, start, end) == scheduler::complete_within(
            states,
            start,
            cut,
        ),
    decreases states.len(),
{
    if states.len() > 0 {
        lemma_within_agrees(states.drop_last(), start, end, cut);
    }
}

proof fn lemma_nothing_within(states: Seq<IntervalState>, start: int, end: int)
    requires
        states.len() <= start,
    ensures
        scheduler::complete_within(states, start, end) == 0,
    decreases states.len(),
{
    if states.len() > 0 {
        lemma_nothing_within(states.drop_last(), start, end);
    }
}

/// Moments that settle the same bytes have the same count of them.
proof fn lemma_settled_alike(one: PoolRun, other: PoolRun)
    requires
        one.states.len() == other.states.len(),
        forall|i: int|
            0 <= i < one.states.len() ==> one.is_settled(i) == #[trigger] other.is_settled(i),
    ensures
        one.settled() == other.settled(),
{
    assert forall|i: int| 0 <= i < one.states.len() implies one.settled()[i]
        == other.settled()[i] by {
        assert(one.is_settled(i) == other.is_settled(i));
    }
    assert(one.settled() =~= other.settled());
}

/// A request goes out for bytes that all belong to its worker. It may take the place of an earlier
/// grant of the worker, if no byte of that is complete.
proof fn lemma_place(run: PoolRun, grant: Grant, earlier: nat, bound: int)
    requires
        run.is_sound(earlier, bound),
        run.closing is None,
        grant.worker.0 < bound,
        grant.range.start < grant.range.end <= run.states.len(),
        intervals::wholly(
            run.states,
            grant.range.start as int,
            grant.range.end as int,
            IntervalState::InProgress { worker: grant.worker },
        ),
        scheduler::grant_of(run.view.running, grant.worker.0) is Some ==> !run.started,
        !run.view.idle.contains(grant.worker.0),
        !run.view.parked.contains(grant.worker.0),
    ensures
        (PoolRun {
            view: SchedulerView {
                running: scheduler::placed(run.view.running, grant),
                ..run.view
            },
            ..run
        }).is_sound(earlier, bound),
{
    let before = run.view.running;
    let running = scheduler::placed(before, grant);
    let after = PoolRun { view: SchedulerView { running, ..run.view }, ..run };
    scheduler::lemma_placed_ordered(before, grant);
    assert forall|worker: u64| true implies #[trigger] scheduler::grant_of(running, worker) == (
    if worker == grant.worker.0 {
        Some(grant)
    } else {
        scheduler::grant_of(before, worker)
    }) by {
        lemma_placed_of(before, grant, worker);
    }
    assert(after.is_owned(grant, bound));
    assert forall|worker: u64|
        (#[trigger] scheduler::grant_of(running, worker)) matches Some(held) implies after.is_owned(
        scheduler::grant_of(running, worker)->0,
        bound,
    ) && scheduler::grant_of(running, worker)->0.worker == WorkerId(worker) by {
        if worker != grant.worker.0 {
            let held = scheduler::grant_of(before, worker)->0;
            assert(run.is_owned(held, bound));
            assert(after.is_owned(held, bound));
        }
    }
    assert forall|other: u64|
        other != grant.worker.0 && scheduler::grant_of(before, other) is Some implies apart(
        (#[trigger] scheduler::grant_of(before, other))->0,
        grant,
    ) by {
        let held = scheduler::grant_of(before, other)->0;
        assert(run.is_owned(held, bound));
        if !apart(held, grant) {
            let i = if held.range.start < grant.range.start {
                grant.range.start as int
            } else {
                held.range.start as int
            };
            assert(inside(held, i) && inside(grant, i));
            assert(run.states[i] == (IntervalState::InProgress { worker: grant.worker }));
        }
    }
    assert forall|one: u64, other: u64|
        #![trigger scheduler::grant_of(running, one), scheduler::grant_of(running, other)]
        one != other && scheduler::grant_of(running, one) is Some && scheduler::grant_of(
            running,
            other,
        ) is Some implies apart(
        scheduler::grant_of(running, one)->0,
        scheduler::grant_of(running, other)->0,
    ) by {
        if one == grant.worker.0 {
            assert(apart(scheduler::grant_of(before, other)->0, grant));
        } else if other == grant.worker.0 {
            assert(apart(scheduler::grant_of(before, one)->0, grant));
        } else {
            assert(scheduler::grant_of(before, one) is Some && scheduler::grant_of(before, other)
                is Some);
        }
    }
    assert(after.grants_are_sound(bound));
    assert(after.are_free(after.view.idle, bound)) by {
        assert forall|k: int| 0 <= k < run.view.idle.len() implies (#[trigger] run.view.idle[k])
            < bound && scheduler::grant_of(running, run.view.idle[k]) is None by {
            assert(run.view.idle.contains(run.view.idle[k]));
        }
    }
    assert(after.are_free(after.view.parked, bound)) by {
        assert forall|k: int|
            0 <= k < run.view.parked.len() implies (#[trigger] run.view.parked[k])
            < bound && scheduler::grant_of(running, run.view.parked[k]) is None by {
            assert(run.view.parked.contains(run.view.parked[k]));
        }
    }
    assert forall|i: int| 0 <= i < run.states.len() implies run.is_settled(i)
        == #[trigger] after.is_settled(i) by {
        if run.states[i] == IntervalState::Complete {
            assert(!inside(grant, i));
            if claimed(before, None, i) {
                let worker = choose|worker: u64| #[trigger] holds(before, worker, i);
                if worker == grant.worker.0 {
                    assert(run.is_owned(scheduler::grant_of(before, worker)->0, bound));
                }
                assert(holds(running, worker, i));
            }
            if claimed(running, None, i) {
                let worker = choose|worker: u64| #[trigger] holds(running, worker, i);
                assert(holds(before, worker, i));
            }
        }
    }
    lemma_settled_alike(run, after);
}

/// A worker neither waits nor rests any more.
proof fn lemma_leave(run: PoolRun, worker: u64, earlier: nat, bound: int)
    requires
        run.is_sound(earlier, bound),
    ensures
        ({
            let after = PoolRun {
                view: SchedulerView {
                    idle: scheduler::without(run.view.idle, worker),
                    parked: scheduler::without(run.view.parked, worker),
                    ..run.view
                },
                ..run
            };
            &&& after.is_sound(earlier, bound)
            &&& !after.view.idle.contains(worker)
            &&& !after.view.parked.contains(worker)
        }),
{
    let idle = scheduler::without(run.view.idle, worker);
    let parked = scheduler::without(run.view.parked, worker);
    let after = PoolRun { view: SchedulerView { idle, parked, ..run.view }, ..run };
    lemma_without(run.view.idle, worker);
    lemma_without(run.view.parked, worker);
    scheduler::lemma_without_ordered(run.view.parked, worker);
    lemma_free_subset(run, run.view.idle, idle, bound);
    lemma_free_subset(run, run.view.parked, parked, bound);
    lemma_same_grants(run, after, bound);
    if !run.started {
        if idle.len() > 0 {
            assert(run.view.idle.contains(idle[0]));
        }
        if parked.len() > 0 {
            assert(run.view.parked.contains(parked[0]));
        }
    }
}

/// Of free workers, those that are listed again are free.
proof fn lemma_free_subset(run: PoolRun, known: Seq<u64>, listed: Seq<u64>, bound: int)
    requires
        run.are_free(known, bound),
        forall|k: int| 0 <= k < listed.len() ==> known.contains(#[trigger] listed[k]),
    ensures
        run.are_free(listed, bound),
{
    assert forall|k: int| 0 <= k < listed.len() implies (#[trigger] listed[k]) < bound
        && scheduler::grant_of(run.view.running, listed[k]) is None by {
        assert(known.contains(listed[k]));
        let m = choose|m: int| 0 <= m < known.len() && known[m] == listed[k];
        assert(known[m] < bound);
    }
}

/// A step that touches neither grants nor bytes keeps what is said of them.
proof fn lemma_same_grants(run: PoolRun, after: PoolRun, bound: int)
    requires
        run.view.running == after.view.running,
        run.view.workers == after.view.workers,
        run.states == after.states,
        run.closing == after.closing,
        run.started == after.started,
    ensures
        run.grants_are_sound(bound) == after.grants_are_sound(bound),
        run.closing_is_sound(bound) == after.closing_is_sound(bound),
        run.settled() == after.settled(),
        forall|workers: Seq<u64>|
            run.are_free(workers, bound) == #[trigger] after.are_free(workers, bound),
{
    lemma_settled_alike(run, after);
    assert forall|grant: Grant|
        run.is_owned(grant, bound) == #[trigger] after.is_owned(grant, bound) by {}
}

/// A worker without a request gets one for bytes that all belong to it.
proof fn lemma_spawn(run: PoolRun, grant: Grant, earlier: nat, bound: int)
    requires
        run.is_sound(earlier, bound),
        run.started,
        run.closing is None,
        grant.worker.0 < bound,
        grant.range.start < grant.range.end <= run.states.len(),
        intervals::wholly(
            run.states,
            grant.range.start as int,
            grant.range.end as int,
            IntervalState::InProgress { worker: grant.worker },
        ),
        !run.view.is_running(grant.worker.0),
    ensures
        (PoolRun { view: run.view.spawned(grant), ..run }).is_sound(earlier, bound),
{
    lemma_leave(run, grant.worker.0, earlier, bound);
    let left = PoolRun {
        view: SchedulerView {
            idle: scheduler::without(run.view.idle, grant.worker.0),
            parked: scheduler::without(run.view.parked, grant.worker.0),
            ..run.view
        },
        ..run
    };
    lemma_place(left, grant, earlier, bound);
}

/// Bytes that nobody is fetching change hands.
proof fn lemma_grant(run: PoolRun, grant: Grant, earlier: nat, bound: int)
    requires
        run.is_sound(earlier, bound),
        run.closing is None,
        grant.worker.0 < bound,
        grant.range.start < grant.range.end <= run.states.len(),
        forall|i: int|
            inside(grant, i) ==> #[trigger] run.states[i] != IntervalState::Complete && !claimed(
                run.view.running,
                None,
                i,
            ),
    ensures
        (PoolRun {
            states: intervals::overwritten(
                run.states,
                grant.range.start as int,
                grant.range.end as int,
                IntervalState::InProgress { worker: grant.worker },
            ),
            ..run
        }).is_sound(earlier, bound),
{
    let states = intervals::overwritten(
        run.states,
        grant.range.start as int,
        grant.range.end as int,
        IntervalState::InProgress { worker: grant.worker },
    );
    let after = PoolRun { states, ..run };
    assert forall|worker: u64|
        (#[trigger] scheduler::grant_of(run.view.running, worker)) matches Some(
            held,
        ) implies after.is_owned(scheduler::grant_of(run.view.running, worker)->0, bound)
        && scheduler::grant_of(run.view.running, worker)->0.worker == WorkerId(worker) by {
        let held = scheduler::grant_of(run.view.running, worker)->0;
        assert(run.is_owned(held, bound));
        assert forall|i: int| inside(held, i) implies {
            ||| #[trigger] states[i] == (IntervalState::InProgress { worker: held.worker })
            ||| (after.started && states[i] == IntervalState::Complete)
        } by {
            assert(holds(run.view.running, worker, i));
            if inside(grant, i) {
                assert(run.states[i] != IntervalState::Complete);
            }
        }
    }
    assert(after.grants_are_sound(bound));
    assert(after.are_free(after.view.idle, bound));
    assert(after.are_free(after.view.parked, bound));
    assert forall|i: int| 0 <= i < run.states.len() implies run.is_settled(i)
        == #[trigger] after.is_settled(i) by {
        if inside(grant, i) {
            assert(run.states[i] != IntervalState::Complete);
        }
    }
    lemma_settled_alike(run, after);
}

/// What an allocation takes: bytes that wait, or the upper half of what a worker without a request
/// holds.
proof fn lemma_allocation(allocator: SegmentAllocator, worker: WorkerId, quiesced: Set<u64>)
    requires
        allocator.wf(),
        allocator.allocate_answer(worker, quiesced) is Ok,
        allocator.allocate_answer(worker, quiesced)->Ok_0 is Some,
    ensures
        !allocator::is_active(allocator.map()@, worker),
        ({
            let allocation = allocator.allocate_answer(worker, quiesced)->Ok_0->0;
            let grant = allocation.grant;
            let states = allocator.map()@;
            &&& states.len() == allocator.map().length()
            &&& grant.worker == worker
            &&& grant.range.start < grant.range.end <= states.len()
            &&& match allocation.shortened {
                None => intervals::wholly(
                    states,
                    grant.range.start as int,
                    grant.range.end as int,
                    IntervalState::Pending,
                ),
                Some(kept) => {
                    &&& kept.range.start < kept.range.end == grant.range.start
                    &&& kept.worker != worker
                    &&& quiesced.contains(kept.worker.0)
                    &&& intervals::wholly(
                        states,
                        kept.range.start as int,
                        grant.range.end as int,
                        IntervalState::InProgress { worker: kept.worker },
                    )
                },
            }
        }),
{
    let allocation = allocator.allocate_answer(worker, quiesced)->Ok_0->0;
    let runs = allocator.map().runs();
    let eligible = if allocator::preferred(runs, allocator::Eligible::Pending) is Some {
        allocator::Eligible::Pending
    } else {
        allocator::Eligible::OwnedBy(quiesced)
    };
    allocator::law_preferred_is_widest_then_lowest(runs, eligible);
    let found = allocator::preferred(runs, eligible)->0;
    assert(runs.contains(found));
    allocator.lemma_bytes_of(found);
    if let Some(kept) = allocation.shortened {
        allocator::law_neither_half_falls_below_the_floor(allocator, worker, quiesced);
        assert(allocator.map()@[found.start as int] == found.state);
    }
}

/// Nobody is fetching a byte that waits, or that belongs to a worker without a request.
proof fn lemma_unclaimed(run: PoolRun, offset: int, earlier: nat, bound: int)
    requires
        run.is_sound(earlier, bound),
        0 <= offset < run.states.len(),
        match run.states[offset] {
            IntervalState::Pending => true,
            IntervalState::InProgress { worker } => !run.view.is_running(worker.0),
            IntervalState::Complete => false,
        },
    ensures
        !claimed(run.view.running, None, offset),
{
    if claimed(run.view.running, None, offset) {
        let worker = choose|worker: u64| #[trigger] holds(run.view.running, worker, offset);
        let held = scheduler::grant_of(run.view.running, worker)->0;
        assert(run.is_owned(held, bound));
        assert(inside(held, offset));
    }
}

proof fn lemma_served(
    run: PoolRun,
    allocator: SegmentAllocator,
    quiesced: Set<u64>,
    earlier: nat,
    bound: int,
)
    requires
        run.is_sound(earlier, bound),
        follows(
            run,
            PoolEvent::Served { allocator, quiesced },
            PoolRun {
                view: run.view.served(
                    allocator.allocate_answer(WorkerId(run.view.idle[0]), quiesced)->Ok_0->0,
                ),
                states: writer_service::granted_states(
                    run.states,
                    allocator.allocate_answer(WorkerId(run.view.idle[0]), quiesced),
                ),
                ..run
            },
        ),
    ensures
        (PoolRun {
            view: run.view.served(
                allocator.allocate_answer(WorkerId(run.view.idle[0]), quiesced)->Ok_0->0,
            ),
            states: writer_service::granted_states(
                run.states,
                allocator.allocate_answer(WorkerId(run.view.idle[0]), quiesced),
            ),
            ..run
        }).is_sound(earlier, bound),
{
    let worker = WorkerId(run.view.idle[0]);
    let allocation = allocator.allocate_answer(worker, quiesced)->Ok_0->0;
    lemma_allocation(allocator, worker, quiesced);
    let grant = allocation.grant;
    assert forall|i: int| inside(grant, i) implies #[trigger] run.states[i]
        != IntervalState::Complete && !claimed(run.view.running, None, i) by {
        lemma_unclaimed(run, i, earlier, bound);
    }
    lemma_grant(run, grant, earlier, bound);
    let granted = PoolRun {
        states: intervals::overwritten(
            run.states,
            grant.range.start as int,
            grant.range.end as int,
            IntervalState::InProgress { worker },
        ),
        ..run
    };
    lemma_spawn(granted, grant, earlier, bound);
    if let Some(kept) = allocation.shortened {
        let spawned = PoolRun { view: run.view.spawned(grant), ..granted };
        lemma_placed_of(run.view.running, grant, kept.worker.0);
        lemma_spawn(spawned, kept, earlier, bound);
    }
}

proof fn lemma_assigned(
    run: PoolRun,
    allocator: SegmentAllocator,
    worker: WorkerId,
    everyone: Set<u64>,
    after: PoolRun,
    earlier: nat,
    bound: int,
)
    requires
        run.is_sound(earlier, bound),
        follows(run, PoolEvent::Assigned { allocator, worker, everyone }, after),
    ensures
        after.is_sound(earlier, bound),
{
    let allocation = allocator.allocate_answer(worker, everyone)->Ok_0->0;
    lemma_allocation(allocator, worker, everyone);
    let grant = allocation.grant;
    assert(run.closing is None);
    if run.view.is_running(worker.0) {
        let held = scheduler::grant_of(run.view.running, worker.0)->0;
        assert(run.is_owned(held, bound));
        assert(inside(held, held.range.start as int));
        assert(run.states[held.range.start as int] == (IntervalState::InProgress { worker }));
    }
    let kept_view = match allocation.shortened {
        Some(kept) => SchedulerView {
            running: scheduler::placed(run.view.running, kept),
            ..run.view
        },
        None => run.view,
    };
    let settled = PoolRun { view: kept_view, ..run };
    if let Some(kept) = allocation.shortened {
        lemma_place(run, kept, earlier, bound);
        lemma_placed_of(run.view.running, kept, worker.0);
        lemma_placed_of(run.view.running, kept, kept.worker.0);
    }
    assert(settled.is_sound(earlier, bound));
    assert forall|i: int| inside(grant, i) implies #[trigger] settled.states[i]
        != IntervalState::Complete && !claimed(settled.view.running, None, i) by {
        if claimed(settled.view.running, None, i) {
            let holder = choose|holder: u64| #[trigger] holds(settled.view.running, holder, i);
            let held = scheduler::grant_of(settled.view.running, holder)->0;
            assert(settled.is_owned(held, bound));
            assert(inside(held, i));
        }
    }
    lemma_grant(settled, grant, earlier, bound);
    let granted = PoolRun {
        states: intervals::overwritten(
            run.states,
            grant.range.start as int,
            grant.range.end as int,
            IntervalState::InProgress { worker },
        ),
        ..settled
    };
    lemma_place(granted, grant, earlier, bound);
}

proof fn lemma_unassigned(running: Seq<Grant>, bound: u64)
    ensures
        forall|k: int|
            0 <= k < scheduler::unassigned(running, bound).len() ==> (
            #[trigger] scheduler::unassigned(running, bound)[k]) < bound && scheduler::grant_of(
                running,
                scheduler::unassigned(running, bound)[k],
            ) is None,
        scheduler::ascending(scheduler::unassigned(running, bound)),
    decreases bound,
{
    if bound > 0 {
        lemma_unassigned(running, (bound - 1) as u64);
    }
}

proof fn lemma_started(run: PoolRun, after: PoolRun, earlier: nat, bound: int)
    requires
        run.is_sound(earlier, bound),
        follows(run, PoolEvent::Started, after),
    ensures
        after.is_sound(earlier, bound),
{
    lemma_unassigned(run.view.running, run.view.workers);
    assert forall|worker: u64|
        (#[trigger] scheduler::grant_of(run.view.running, worker)) matches Some(
            held,
        ) implies after.is_owned(scheduler::grant_of(run.view.running, worker)->0, bound)
        && scheduler::grant_of(run.view.running, worker)->0.worker == WorkerId(worker) by {
        assert(run.is_owned(scheduler::grant_of(run.view.running, worker)->0, bound));
    }
    assert(after.grants_are_sound(bound));
    lemma_settled_alike(run, after);
}

proof fn lemma_enrolled_members(numbers: Seq<u64>, new: u64)
    ensures
        forall|k: int|
            0 <= k < scheduler::enrolled(numbers, new).len() ==> (
            #[trigger] scheduler::enrolled(numbers, new)[k]) == new || numbers.contains(
                scheduler::enrolled(numbers, new)[k],
            ),
    decreases numbers.len(),
{
    let after = scheduler::enrolled(numbers, new);
    if numbers.len() > 0 && numbers.last() > new {
        lemma_enrolled_members(numbers.drop_last(), new);
        let inner = scheduler::enrolled(numbers.drop_last(), new);
        assert forall|k: int| 0 <= k < after.len() implies (#[trigger] after[k]) == new
            || numbers.contains(after[k]) by {
            if k < inner.len() {
                assert(after[k] == inner[k]);
                if inner[k] != new {
                    let m = choose|m: int|
                        0 <= m < numbers.drop_last().len() && numbers.drop_last()[m] == inner[k];
                    assert(numbers[m] == after[k]);
                }
            } else {
                assert(numbers[numbers.len() - 1] == after[k]);
            }
        }
    } else {
        assert forall|k: int| 0 <= k < after.len() implies (#[trigger] after[k]) == new
            || numbers.contains(after[k]) by {
            if k < numbers.len() {
                assert(numbers[k] == after[k]);
            }
        }
    }
}

proof fn lemma_enrolled_ordered(numbers: Seq<u64>, new: u64)
    requires
        scheduler::ascending(numbers),
    ensures
        scheduler::ascending(scheduler::enrolled(numbers, new)),
    decreases numbers.len(),
{
    let after = scheduler::enrolled(numbers, new);
    if numbers.len() > 0 && numbers.last() > new {
        let front = numbers.drop_last();
        assert(scheduler::ascending(front)) by {
            assert forall|i: int, j: int|
                #![trigger front[i], front[j]]
                0 <= i < j < front.len() implies front[i] < front[j] by {
                assert(numbers[i] < numbers[j]);
            }
        }
        lemma_enrolled_ordered(front, new);
        lemma_enrolled_members(front, new);
        let inner = scheduler::enrolled(front, new);
        assert forall|i: int, j: int|
            #![trigger after[i], after[j]]
            0 <= i < j < after.len() implies after[i] < after[j] by {
            if j < inner.len() {
                assert(inner[i] < inner[j]);
            } else {
                assert(after[i] == inner[i]);
                if inner[i] != new {
                    let m = choose|m: int| 0 <= m < front.len() && front[m] == inner[i];
                    assert(numbers[m] < numbers[numbers.len() - 1]);
                }
            }
        }
    } else if numbers.len() == 0 || numbers.last() < new {
        assert forall|i: int, j: int|
            #![trigger after[i], after[j]]
            0 <= i < j < after.len() implies after[i] < after[j] by {
            if j < numbers.len() {
                assert(numbers[i] < numbers[j]);
            } else if i < numbers.len() - 1 {
                assert(numbers[i] < numbers[numbers.len() - 1]);
            }
        }
    }
}

proof fn lemma_unserved(
    run: PoolRun,
    candidate: Option<WorkerId>,
    after: PoolRun,
    earlier: nat,
    bound: int,
)
    requires
        run.is_sound(earlier, bound),
        follows(run, PoolEvent::Unserved { candidate }, after),
    ensures
        after.is_sound(earlier, bound),
{
    lemma_same_grants(run, after, bound);
    let first = run.view.idle[0];
    lemma_enrolled_ordered(run.view.parked, first);
    lemma_enrolled_members(run.view.parked, first);
    let enrolled = scheduler::enrolled(run.view.parked, first);
    assert(run.are_free(run.view.idle.skip(1), bound)) by {
        assert forall|k: int| 0 <= k < run.view.idle.skip(1).len() implies (
        #[trigger] run.view.idle.skip(1)[k]) < bound && scheduler::grant_of(
            run.view.running,
            run.view.idle.skip(1)[k],
        ) is None by {
            assert(run.view.idle[k + 1] < bound);
        }
    }
    assert(run.are_free(enrolled, bound)) by {
        assert forall|k: int| 0 <= k < enrolled.len() implies (#[trigger] enrolled[k])
            < bound && scheduler::grant_of(run.view.running, enrolled[k]) is None by {
            if enrolled[k] == first {
                assert(run.view.idle[0] < bound);
            } else {
                let m = choose|m: int|
                    0 <= m < run.view.parked.len() && run.view.parked[m] == enrolled[k];
                assert(run.view.parked[m] < bound);
            }
        }
    }
    assert(after.are_free(after.view.idle, bound) && after.are_free(after.view.parked, bound));
}

/// An attempt ends: it is not in flight any more, and waits to be credited.
proof fn lemma_close(run: PoolRun, worker: u64, earlier: nat, bound: int)
    requires
        run.is_sound(earlier, bound),
        run.started,
        run.closing is None,
        run.view.is_running(worker),
    ensures
        (PoolRun {
            view: run.view.ended(worker),
            closing: scheduler::grant_of(run.view.running, worker),
            ..run
        }).is_sound(earlier, bound),
{
    let before = run.view.running;
    let running = scheduler::released(before, worker);
    let attempt = scheduler::grant_of(before, worker)->0;
    let after = PoolRun { view: run.view.ended(worker), closing: Some(attempt), ..run };
    scheduler::lemma_released_ordered(before, worker);
    assert(run.is_owned(attempt, bound) && attempt.worker == WorkerId(worker));
    assert forall|other: u64| true implies #[trigger] scheduler::grant_of(running, other) == (
    if other == worker {
        None
    } else {
        scheduler::grant_of(before, other)
    }) by {
        lemma_released_of(before, worker, other);
    }
    assert forall|other: u64|
        (#[trigger] scheduler::grant_of(running, other)) matches Some(held) implies after.is_owned(
        scheduler::grant_of(running, other)->0,
        bound,
    ) && scheduler::grant_of(running, other)->0.worker == WorkerId(other) by {
        assert(run.is_owned(scheduler::grant_of(before, other)->0, bound));
    }
    assert forall|one: u64, other: u64|
        #![trigger scheduler::grant_of(running, one), scheduler::grant_of(running, other)]
        one != other && scheduler::grant_of(running, one) is Some && scheduler::grant_of(
            running,
            other,
        ) is Some implies apart(
        scheduler::grant_of(running, one)->0,
        scheduler::grant_of(running, other)->0,
    ) by {
        assert(scheduler::grant_of(before, one) is Some && scheduler::grant_of(before, other)
            is Some);
    }
    assert(after.grants_are_sound(bound));
    assert forall|other: u64|
        (#[trigger] scheduler::grant_of(running, other)) matches Some(held) implies apart(
        scheduler::grant_of(running, other)->0,
        attempt,
    ) by {
        assert(scheduler::grant_of(before, other) is Some && scheduler::grant_of(before, worker)
            is Some);
    }
    assert(after.closing_is_sound(bound));
    assert(after.are_free(after.view.idle, bound)) by {
        assert forall|k: int| 0 <= k < run.view.idle.len() implies (#[trigger] run.view.idle[k])
            < bound && scheduler::grant_of(running, run.view.idle[k]) is None by {}
    }
    assert(after.are_free(after.view.parked, bound)) by {
        assert forall|k: int|
            0 <= k < run.view.parked.len() implies (#[trigger] run.view.parked[k])
            < bound && scheduler::grant_of(running, run.view.parked[k]) is None by {}
    }
    assert forall|i: int| 0 <= i < run.states.len() implies run.is_settled(i)
        == #[trigger] after.is_settled(i) by {
        if claimed(before, None, i) {
            let holder = choose|holder: u64| #[trigger] holds(before, holder, i);
            if holder != worker {
                assert(holds(running, holder, i));
            }
        }
        if claimed(running, Some(attempt), i) {
            if inside(attempt, i) {
                assert(holds(before, worker, i));
            } else {
                let holder = choose|holder: u64| #[trigger] holds(running, holder, i);
                assert(holds(before, holder, i));
            }
        }
    }
    lemma_settled_alike(run, after);
}

/// The ended attempt is credited with the bytes of its grant that are complete.
proof fn lemma_credit(run: PoolRun, report: WorkerReport, earlier: nat, bound: int)
    requires
        run.is_sound(earlier, bound),
        run.closing is Some,
        report.worker == run.closing->0.worker,
        report.bytes == scheduler::complete_within(
            run.states,
            run.closing->0.range.start as int,
            run.closing->0.range.end as int,
        ),
    ensures
        report.bytes > 0 ==> (PoolRun {
            view: SchedulerView { reports: run.view.reports.push(report), ..run.view },
            closing: None,
            ..run
        }).is_sound(earlier, bound),
        report.bytes == 0 ==> (PoolRun { closing: None, ..run }).is_sound(earlier, bound),
{
    let attempt = run.closing->0;
    let start = attempt.range.start as int;
    let end = attempt.range.end as int;
    let bare = PoolRun { closing: None, ..run };
    let after = PoolRun {
        view: SchedulerView { reports: run.view.reports.push(report), ..run.view },
        ..bare
    };
    let credited = Seq::new(
        run.states.len(),
        |i: int| start <= i < end && run.states[i] == IntervalState::Complete,
    );
    assert forall|i: int| 0 <= i < run.states.len() implies #[trigger] bare.settled()[i] == (
    run.settled()[i] || credited[i]) && !(run.settled()[i] && credited[i]) by {
        assert(bare.settled()[i] == bare.is_settled(i));
        assert(run.settled()[i] == run.is_settled(i));
        if inside(attempt, i) && claimed(run.view.running, None, i) {
            let holder = choose|holder: u64| #[trigger] holds(run.view.running, holder, i);
            assert(apart(scheduler::grant_of(run.view.running, holder)->0, attempt));
        }
    }
    lemma_tally_adds(bare.settled(), run.settled(), credited);
    lemma_tally_within(run.states, start, end);
    assert forall|grant: Grant|
        run.is_owned(grant, bound) == #[trigger] bare.is_owned(grant, bound) by {}
    assert(bare.grants_are_sound(bound));
    assert(bare.are_free(run.view.idle, bound) && bare.are_free(run.view.parked, bound));
    lemma_same_grants(bare, after, bound);
    assert(run.view.reports.push(report).drop_last() =~= run.view.reports);
    assert(after.are_free(run.view.idle, bound) && after.are_free(run.view.parked, bound));
    if report.bytes > 0 {
        assert(after.records_are_sound(bound));
    }
}

/// A worker of the pool without a request waits for work.
proof fn lemma_idle(run: PoolRun, worker: u64, earlier: nat, bound: int)
    requires
        run.is_sound(earlier, bound),
        run.started,
        worker < bound,
        !run.view.is_running(worker),
    ensures
        (PoolRun { view: run.view.idled(worker), ..run }).is_sound(earlier, bound),
{
    let after = PoolRun { view: run.view.idled(worker), ..run };
    lemma_same_grants(run, after, bound);
    lemma_without(run.view.parked, worker);
    scheduler::lemma_without_ordered(run.view.parked, worker);
    lemma_free_subset(run, run.view.parked, scheduler::without(run.view.parked, worker), bound);
    assert(run.are_free(scheduler::queued(run.view.idle, worker), bound));
    assert(after.are_free(after.view.idle, bound) && after.are_free(after.view.parked, bound));
}

proof fn lemma_all_queued(run: PoolRun, queue: Seq<u64>, new: Seq<u64>, bound: int)
    requires
        run.are_free(queue, bound),
        run.are_free(new, bound),
    ensures
        run.are_free(scheduler::all_queued(queue, new), bound),
    decreases new.len(),
{
    if new.len() > 0 {
        assert(run.are_free(new.drop_last(), bound)) by {
            assert forall|k: int| 0 <= k < new.drop_last().len() implies (
            #[trigger] new.drop_last()[k]) < bound && scheduler::grant_of(
                run.view.running,
                new.drop_last()[k],
            ) is None by {
                assert(new[k] < bound);
            }
        }
        lemma_all_queued(run, queue, new.drop_last(), bound);
        assert(new[new.len() - 1] < bound);
    }
}

/// Whoever rests waits for work again.
proof fn lemma_unpark(run: PoolRun, earlier: nat, bound: int)
    requires
        run.is_sound(earlier, bound),
        run.started,
    ensures
        (PoolRun { view: run.view.unparked(), ..run }).is_sound(earlier, bound),
{
    let after = PoolRun { view: run.view.unparked(), ..run };
    lemma_same_grants(run, after, bound);
    lemma_all_queued(run, run.view.idle, run.view.parked, bound);
    assert(after.are_free(after.view.idle, bound));
}

/// What the scheduler puts on record for an attempt that did not deliver its whole grant.
proof fn lemma_credited(run: PoolRun, elapsed: Duration, earlier: nat, bound: int)
    requires
        run.is_sound(earlier, bound),
        run.closing is Some,
    ensures
        (PoolRun {
            view: run.view.credited(run.closing->0, run.states, elapsed),
            closing: None,
            ..run
        }).is_sound(earlier, bound),
{
    let attempt = run.closing->0;
    let bytes = scheduler::complete_within(
        run.states,
        attempt.range.start as int,
        attempt.range.end as int,
    );
    lemma_tally_within(run.states, attempt.range.start as int, attempt.range.end as int);
    lemma_credit(
        run,
        WorkerReport { worker: attempt.worker, bytes: bytes as u64, elapsed },
        earlier,
        bound,
    );
}

proof fn lemma_finished(
    run: PoolRun,
    report: WorkerReport,
    after: PoolRun,
    earlier: nat,
    bound: int,
)
    requires
        run.is_sound(earlier, bound),
        follows(run, PoolEvent::Finished { report }, after),
    ensures
        after.is_sound(earlier, bound),
{
    let worker = report.worker.0;
    let attempt = scheduler::grant_of(run.view.running, worker)->0;
    assert(run.is_owned(attempt, bound) && attempt.worker == WorkerId(worker));
    lemma_wholly_complete(run.states, attempt.range.start as int, attempt.range.end as int);
    lemma_close(run, worker, earlier, bound);
    let closed = PoolRun { view: run.view.ended(worker), closing: Some(attempt), ..run };
    lemma_credit(closed, report, earlier, bound);
    let credited = PoolRun {
        view: SchedulerView { reports: run.view.reports.push(report), ..closed.view },
        closing: None,
        ..run
    };
    assert(credited.is_sound(earlier, bound));
    lemma_released_of(run.view.running, worker, worker);
    lemma_idle(credited, worker, earlier, bound);
}

proof fn lemma_failed(run: PoolRun, worker: u64, after: PoolRun, earlier: nat, bound: int)
    requires
        run.is_sound(earlier, bound),
        follows(run, PoolEvent::Failed { worker }, after),
    ensures
        after.is_sound(earlier, bound),
{
    lemma_close(run, worker, earlier, bound);
    let closed = PoolRun {
        view: run.view.ended(worker),
        closing: scheduler::grant_of(run.view.running, worker),
        ..run
    };
    lemma_same_grants(closed, after, bound);
    assert(after.are_free(after.view.idle, bound) && after.are_free(after.view.parked, bound));
}

proof fn lemma_reclaimed(run: PoolRun, elapsed: Duration, after: PoolRun, earlier: nat, bound: int)
    requires
        run.is_sound(earlier, bound),
        follows(run, PoolEvent::Reclaimed { elapsed }, after),
    ensures
        after.is_sound(earlier, bound),
{
    let attempt = run.closing->0;
    lemma_credited(run, elapsed, earlier, bound);
    let credited = PoolRun {
        view: run.view.credited(attempt, run.states, elapsed),
        closing: None,
        ..run
    };
    lemma_idle(credited, attempt.worker.0, earlier, bound);
    lemma_unpark(
        PoolRun { view: credited.view.idled(attempt.worker.0), ..credited },
        earlier,
        bound,
    );
}

proof fn lemma_halted(run: PoolRun, elapsed: Duration, after: PoolRun, earlier: nat, bound: int)
    requires
        run.is_sound(earlier, bound),
        follows(run, PoolEvent::Halted { elapsed }, after),
    ensures
        after.is_sound(earlier, bound),
{
    lemma_credited(run, elapsed, earlier, bound);
    let credited = PoolRun {
        view: run.view.credited(run.closing->0, run.states, elapsed),
        closing: None,
        ..run
    };
    lemma_same_grants(credited, after, bound);
    assert(after.are_free(after.view.idle, bound) && after.are_free(after.view.parked, bound));
}

proof fn lemma_abandoned(run: PoolRun, after: PoolRun, earlier: nat, bound: int)
    requires
        run.is_sound(earlier, bound),
        follows(run, PoolEvent::Abandoned, after),
    ensures
        after.is_sound(earlier, bound),
{
    let attempt = run.closing->0;
    assert forall|worker: u64|
        (#[trigger] scheduler::grant_of(run.view.running, worker)) matches Some(
            held,
        ) implies after.is_owned(scheduler::grant_of(run.view.running, worker)->0, bound)
        && scheduler::grant_of(run.view.running, worker)->0.worker == WorkerId(worker) by {
        let held = scheduler::grant_of(run.view.running, worker)->0;
        assert(run.is_owned(held, bound));
        assert(worker != attempt.worker.0);
        assert forall|i: int| inside(held, i) implies {
            ||| #[trigger] after.states[i] == (IntervalState::InProgress { worker: held.worker })
            ||| (after.started && after.states[i] == IntervalState::Complete)
        } by {
            assert(run.states[i] == (IntervalState::InProgress { worker: held.worker })
                || run.states[i] == IntervalState::Complete);
        }
    }
    assert(after.grants_are_sound(bound));
    assert(after.closing_is_sound(bound)) by {
        assert forall|i: int| inside(attempt, i) implies {
            ||| #[trigger] after.states[i] == (IntervalState::InProgress {
                worker: attempt.worker,
            })
            ||| after.states[i] == IntervalState::Complete
            ||| after.states[i] == IntervalState::Pending
        } by {
            assert(run.states[i] == (IntervalState::InProgress { worker: attempt.worker })
                || run.states[i] == IntervalState::Complete || run.states[i]
                == IntervalState::Pending);
        }
    }
    assert(after.are_free(after.view.idle, bound) && after.are_free(after.view.parked, bound));
    assert forall|i: int| 0 <= i < run.states.len() implies run.is_settled(i)
        == #[trigger] after.is_settled(i) by {}
    lemma_settled_alike(run, after);
}

/// Recording blocks completes bytes of their workers, and changes nothing else.
proof fn lemma_recorded(states: Seq<IntervalState>, blocks: Seq<DurableBlock>, offset: int)
    requires
        0 <= offset < states.len(),
    ensures
        writer_service::recorded(states, blocks).0.len() == states.len(),
        ({
            let after = writer_service::recorded(states, blocks).0[offset];
            ||| after == states[offset]
            ||| (after == IntervalState::Complete && exists|k: int|
                0 <= k < blocks.len() && (#[trigger] blocks[k]).range.start <= offset
                    < blocks[k].range.end && states[offset] == (IntervalState::InProgress {
                    worker: blocks[k].worker,
                }))
        }),
    decreases blocks.len(),
{
    if blocks.len() > 0 {
        let front = blocks.drop_last();
        lemma_recorded(states, front, offset);
        let (before, refused) = writer_service::recorded(states, front);
        let last = blocks.len() - 1;
        if before[offset] != states[offset] {
            let k = choose|k: int|
                0 <= k < front.len() && (#[trigger] front[k]).range.start <= offset
                    < front[k].range.end && states[offset] == (IntervalState::InProgress {
                    worker: front[k].worker,
                });
            assert(blocks[k] == front[k]);
        } else if writer_service::recorded(states, blocks).0[offset] != states[offset] {
            assert(blocks[last].range.start <= offset < blocks[last].range.end);
            assert(before[offset] == (IntervalState::InProgress { worker: blocks[last].worker }));
        }
    }
}

proof fn lemma_written(
    run: PoolRun,
    blocks: Seq<DurableBlock>,
    after: PoolRun,
    earlier: nat,
    bound: int,
)
    requires
        run.is_sound(earlier, bound),
        follows(run, PoolEvent::Written { blocks }, after),
    ensures
        after.is_sound(earlier, bound),
{
    if run.states.len() > 0 {
        lemma_recorded(run.states, blocks, 0);
    } else {
        lemma_recorded_length(run.states, blocks);
    }
    assert forall|i: int| 0 <= i < run.states.len() implies {
        ||| #[trigger] after.states[i] == run.states[i]
        ||| (after.states[i] == IntervalState::Complete && run.states[i] is InProgress && claimed(
            run.view.running,
            run.closing,
            i,
        ))
    } by {
        lemma_recorded(run.states, blocks, i);
        if after.states[i] != run.states[i] {
            let k = choose|k: int|
                0 <= k < blocks.len() && (#[trigger] blocks[k]).range.start <= i
                    < blocks[k].range.end && run.states[i] == (IntervalState::InProgress {
                    worker: blocks[k].worker,
                });
            assert(is_underway(run, blocks[k]));
            if scheduler::grant_of(run.view.running, blocks[k].worker.0) is Some {
                assert(holds(run.view.running, blocks[k].worker.0, i));
            }
        }
    }
    assert forall|worker: u64|
        (#[trigger] scheduler::grant_of(run.view.running, worker)) matches Some(
            held,
        ) implies after.is_owned(scheduler::grant_of(run.view.running, worker)->0, bound)
        && scheduler::grant_of(run.view.running, worker)->0.worker == WorkerId(worker) by {
        let held = scheduler::grant_of(run.view.running, worker)->0;
        assert(run.is_owned(held, bound));
        assert forall|i: int| inside(held, i) implies {
            ||| #[trigger] after.states[i] == (IntervalState::InProgress { worker: held.worker })
            ||| (after.started && after.states[i] == IntervalState::Complete)
        } by {
            assert(run.states[i] == (IntervalState::InProgress { worker: held.worker })
                || run.states[i] == IntervalState::Complete);
        }
    }
    assert(after.grants_are_sound(bound));
    assert(after.closing_is_sound(bound)) by {
        if let Some(attempt) = run.closing {
            assert forall|i: int| inside(attempt, i) implies {
                ||| #[trigger] after.states[i] == (IntervalState::InProgress {
                    worker: attempt.worker,
                })
                ||| after.states[i] == IntervalState::Complete
                ||| after.states[i] == IntervalState::Pending
            } by {
                assert(run.states[i] == (IntervalState::InProgress { worker: attempt.worker })
                    || run.states[i] == IntervalState::Complete || run.states[i]
                    == IntervalState::Pending);
            }
        }
    }
    assert(after.are_free(after.view.idle, bound) && after.are_free(after.view.parked, bound));
    assert forall|i: int| 0 <= i < run.states.len() implies run.is_settled(i)
        == #[trigger] after.is_settled(i) by {
        assert(after.states[i] == run.states[i] || claimed(run.view.running, run.closing, i));
    }
    lemma_settled_alike(run, after);
}

proof fn lemma_recorded_length(states: Seq<IntervalState>, blocks: Seq<DurableBlock>)
    ensures
        writer_service::recorded(states, blocks).0.len() == states.len(),
    decreases blocks.len(),
{
    if blocks.len() > 0 {
        lemma_recorded_length(states, blocks.drop_last());
    }
}

/// Every listed grant is one of the partition's intervals, all of it its worker's.
proof fn lemma_grants_in(allocator: SegmentAllocator, runs: Seq<Interval>, at: int)
    requires
        allocator.wf(),
        forall|m: int| 0 <= m < runs.len() ==> allocator.map().runs().contains(#[trigger] runs[m]),
        0 <= at < scheduler::grants_in(runs).len(),
    ensures
        ({
            let grant = scheduler::grants_in(runs)[at];
            &&& grant.range.start < grant.range.end <= allocator.map()@.len()
            &&& intervals::wholly(
                allocator.map()@,
                grant.range.start as int,
                grant.range.end as int,
                IntervalState::InProgress { worker: grant.worker },
            )
        }),
    decreases runs.len(),
{
    if runs.len() > 0 {
        let front = runs.drop_last();
        assert forall|m: int| 0 <= m < front.len() implies allocator.map().runs().contains(
            #[trigger] front[m],
        ) by {
            assert(front[m] == runs[m]);
        }
        if at < scheduler::grants_in(front).len() {
            lemma_grants_in(allocator, front, at);
        } else {
            assert(allocator.map().runs().contains(runs[runs.len() - 1]));
            allocator.lemma_bytes_of(runs.last());
        }
    }
}

proof fn lemma_revived(
    run: PoolRun,
    allocator: SegmentAllocator,
    grants: Seq<Grant>,
    earlier: nat,
    bound: int,
)
    requires
        run.is_sound(earlier, bound),
        run.started,
        run.closing is None,
        allocator.map()@ == run.states,
        forall|k: int|
            0 <= k < grants.len() ==> {
                &&& (#[trigger] grants[k]).range.start < grants[k].range.end <= run.states.len()
                &&& intervals::wholly(
                    run.states,
                    grants[k].range.start as int,
                    grants[k].range.end as int,
                    IntervalState::InProgress { worker: grants[k].worker },
                )
            },
    ensures
        (PoolRun { view: run.view.revived(grants), ..run }).is_sound(earlier, bound),
        run.view.revived(grants).workers == run.view.workers,
    decreases grants.len(),
{
    if grants.len() > 0 {
        let front = grants.drop_last();
        assert forall|k: int| 0 <= k < front.len() implies {
            &&& (#[trigger] front[k]).range.start < front[k].range.end <= run.states.len()
            &&& intervals::wholly(
                run.states,
                front[k].range.start as int,
                front[k].range.end as int,
                IntervalState::InProgress { worker: front[k].worker },
            )
        } by {
            assert(front[k] == grants[k]);
        }
        lemma_revived(run, allocator, front, earlier, bound);
        let before = PoolRun { view: run.view.revived(front), ..run };
        let grant = grants[grants.len() - 1];
        assert(grant == grants.last());
        assert(run.states[grant.range.start as int] == (IntervalState::InProgress {
            worker: grant.worker,
        }));
        if !before.view.is_running(grant.worker.0) {
            lemma_spawn(before, grant, earlier, bound);
        }
    }
}

/// Every step of an execution keeps the books sound.
pub proof fn law_every_step_keeps_the_books(
    before: PoolRun,
    event: PoolEvent,
    after: PoolRun,
    earlier: nat,
    bound: int,
)
    requires
        before.is_sound(earlier, bound),
        follows(before, event, after),
    ensures
        after.is_sound(earlier, bound),
        after.view.workers == before.view.workers,
        after.states.len() == before.states.len(),
{
    match event {
        PoolEvent::Assigned { allocator, worker, everyone } => {
            lemma_assigned(before, allocator, worker, everyone, after, earlier, bound);
        },
        PoolEvent::Started => {
            lemma_started(before, after, earlier, bound);
        },
        PoolEvent::Written { blocks } => {
            lemma_written(before, blocks, after, earlier, bound);
            lemma_recorded_length(before.states, blocks);
        },
        PoolEvent::Served { allocator, quiesced } => {
            lemma_served(before, allocator, quiesced, earlier, bound);
        },
        PoolEvent::Unserved { candidate } => {
            lemma_unserved(before, candidate, after, earlier, bound);
        },
        PoolEvent::Finished { report } => {
            lemma_finished(before, report, after, earlier, bound);
        },
        PoolEvent::Failed { worker } => {
            lemma_failed(before, worker, after, earlier, bound);
        },
        PoolEvent::Cancelled { worker } => {
            lemma_close(before, worker, earlier, bound);
        },
        PoolEvent::Abandoned => {
            lemma_abandoned(before, after, earlier, bound);
        },
        PoolEvent::Reclaimed { elapsed } => {
            lemma_reclaimed(before, elapsed, after, earlier, bound);
        },
        PoolEvent::Halted { elapsed } => {
            lemma_halted(before, elapsed, after, earlier, bound);
        },
        PoolEvent::Revived { allocator } => {
            let runs = allocator.map().runs();
            let grants = scheduler::grants_in(runs);
            assert forall|k: int| 0 <= k < grants.len() implies {
                &&& (#[trigger] grants[k]).range.start < grants[k].range.end <= before.states.len()
                &&& intervals::wholly(
                    before.states,
                    grants[k].range.start as int,
                    grants[k].range.end as int,
                    IntervalState::InProgress { worker: grants[k].worker },
                )
            } by {
                lemma_grants_in(allocator, runs, k);
            }
            lemma_revived(before, allocator, grants, earlier, bound);
        },
    }
}

/// The books of an execution that has not begun are sound: nothing is on record, and what is
/// complete was so before.
proof fn lemma_first(workers: u64, states: Seq<IntervalState>, bound: int)
    requires
        states.len() <= u64::MAX,
        workers <= bound,
        held_below(states, bound),
    ensures
        PoolRun::first(workers, states).is_sound(
            intervals::bytes_in(states, IntervalState::Complete),
            bound,
        ),
{
    let run = PoolRun::first(workers, states);
    lemma_tally_complete(states);
    assert forall|i: int| 0 <= i < states.len() implies run.settled()[i] == (states[i]
        == IntervalState::Complete) by {
        assert(run.settled()[i] == run.is_settled(i));
        if claimed(run.view.running, None, i) {
            let worker = choose|worker: u64| #[trigger] holds(run.view.running, worker, i);
        }
    }
    assert(run.settled() =~= Seq::new(
        states.len(),
        |i: int| states[i] == IntervalState::Complete,
    ));
}

proof fn lemma_execution(
    moments: Seq<PoolRun>,
    events: Seq<PoolEvent>,
    at: int,
    earlier: nat,
    bound: int,
)
    requires
        is_execution(moments, events),
        moments[0].is_sound(earlier, bound),
        0 <= at < moments.len(),
    ensures
        moments[at].is_sound(earlier, bound),
        moments[at].view.workers == moments[0].view.workers,
        moments[at].states.len() == moments[0].states.len(),
    decreases at,
{
    if at > 0 {
        lemma_execution(moments, events, at - 1, earlier, bound);
        assert(follows(moments[at - 1], events[at - 1], moments[at - 1 + 1]));
        law_every_step_keeps_the_books(
            moments[at - 1],
            events[at - 1],
            moments[at],
            earlier,
            bound,
        );
    }
}

/// Sorting the records changes neither what is on them nor how much.
proof fn lemma_sorted(reports: Seq<WorkerReport>)
    ensures
        bytes_on(scheduler::sorted(reports)) == bytes_on(reports),
        forall|k: int|
            0 <= k < scheduler::sorted(reports).len() ==> reports.contains(
                #[trigger] scheduler::sorted(reports)[k],
            ),
    decreases reports.len(),
{
    if reports.len() > 0 {
        let front = reports.drop_last();
        let last = reports.last();
        lemma_sorted(front);
        lemma_filed(scheduler::sorted(front), last);
        let after = scheduler::sorted(reports);
        assert forall|k: int| 0 <= k < after.len() implies reports.contains(
            #[trigger] after[k],
        ) by {
            if after[k] == last {
                assert(reports[reports.len() - 1] == after[k]);
            } else {
                let m = choose|m: int|
                    0 <= m < scheduler::sorted(front).len() && scheduler::sorted(front)[m]
                        == after[k];
                assert(front.contains(scheduler::sorted(front)[m]));
                let n = choose|n: int| 0 <= n < front.len() && front[n] == after[k];
                assert(reports[n] == after[k]);
            }
        }
    }
}

proof fn lemma_filed(reports: Seq<WorkerReport>, report: WorkerReport)
    ensures
        bytes_on(scheduler::filed(reports, report)) == bytes_on(reports) + report.bytes,
        forall|k: int|
            0 <= k < scheduler::filed(reports, report).len() ==> (#[trigger] scheduler::filed(
                reports,
                report,
            )[k]) == report || reports.contains(scheduler::filed(reports, report)[k]),
    decreases reports.len(),
{
    let after = scheduler::filed(reports, report);
    if reports.len() == 0 || reports.last().worker.0 <= report.worker.0 {
        assert(after.drop_last() =~= reports);
        assert forall|k: int| 0 <= k < after.len() implies (#[trigger] after[k]) == report
            || reports.contains(after[k]) by {
            if k < reports.len() {
                assert(reports[k] == after[k]);
            }
        }
    } else {
        let front = reports.drop_last();
        lemma_filed(front, report);
        let inner = scheduler::filed(front, report);
        assert(after.drop_last() =~= inner);
        assert forall|k: int| 0 <= k < after.len() implies (#[trigger] after[k]) == report
            || reports.contains(after[k]) by {
            if k < inner.len() {
                assert(after[k] == inner[k]);
                if inner[k] != report {
                    let m = choose|m: int| 0 <= m < front.len() && front[m] == inner[k];
                    assert(reports[m] == after[k]);
                }
            } else {
                assert(reports[reports.len() - 1] == after[k]);
            }
        }
    }
}

/// Every record of an execution has more than zero bytes, whatever happened on the way and whatever
/// was complete or held when it began, and the report lists the records by worker. Where only
/// workers of the pool held bytes when it began, every record names a worker of the pool: a range
/// that a worker beyond it held is fetched in that worker's name.
pub proof fn law_every_record_names_a_worker_and_its_bytes(
    workers: u64,
    states: Seq<IntervalState>,
    moments: Seq<PoolRun>,
    events: Seq<PoolEvent>,
)
    requires
        states.len() <= u64::MAX,
        is_execution(moments, events),
        moments[0] == PoolRun::first(workers, states),
    ensures
        ({
            let records = scheduler::sorted(moments.last().view.reports);
            &&& scheduler::in_order(records)
            &&& forall|k: int| 0 <= k < records.len() ==> (#[trigger] records[k]).bytes > 0
            &&& held_below(states, workers as int) ==> forall|k: int|
                0 <= k < records.len() ==> (#[trigger] records[k]).worker.0 < workers
        }),
{
    let last = moments.last();
    let records = scheduler::sorted(last.view.reports);
    let earlier = intervals::bytes_in(states, IntervalState::Complete);
    let bound = if held_below(states, workers as int) {
        workers as int
    } else {
        u64::MAX + 1
    };
    lemma_first(workers, states, bound);
    lemma_execution(moments, events, moments.len() - 1, earlier, bound);
    lemma_sorted(last.view.reports);
    scheduler::law_reports_come_out_by_worker(last.view.reports, 0);
    assert forall|k: int| 0 <= k < records.len() implies (#[trigger] records[k]).worker.0 < bound
        && records[k].bytes > 0 by {
        assert(last.view.reports.contains(records[k]));
        let m = choose|m: int|
            0 <= m < last.view.reports.len() && last.view.reports[m] == records[k];
        assert(last.view.reports[m].worker.0 < bound);
    }
}

/// Every byte that an execution fetched is credited to exactly one record: when it is over, the
/// records add up to the bytes that were not complete when it began, whoever held them then. Of a
/// partition that was wholly pending that is the length of the representation.
pub proof fn law_every_byte_is_credited_once(
    workers: u64,
    states: Seq<IntervalState>,
    moments: Seq<PoolRun>,
    events: Seq<PoolEvent>,
)
    requires
        states.len() <= u64::MAX,
        is_execution(moments, events),
        moments[0] == PoolRun::first(workers, states),
        moments.last().is_over(),
    ensures
        bytes_on(scheduler::sorted(moments.last().view.reports)) == states.len()
            - intervals::bytes_in(states, IntervalState::Complete),
        (forall|i: int| 0 <= i < states.len() ==> #[trigger] states[i] == IntervalState::Pending)
            ==> bytes_on(scheduler::sorted(moments.last().view.reports)) == states.len(),
{
    let last = moments.last();
    let earlier = intervals::bytes_in(states, IntervalState::Complete);
    let bound = u64::MAX + 1;
    lemma_first(workers, states, bound);
    lemma_execution(moments, events, moments.len() - 1, earlier, bound);
    lemma_sorted(last.view.reports);
    assert forall|i: int| 0 <= i < last.settled().len() implies #[trigger] last.settled()[i] by {
        assert(last.settled()[i] == last.is_settled(i));
        assert(last.states[i] == IntervalState::Complete);
        if claimed(last.view.running, None, i) {
            let worker = choose|worker: u64| #[trigger] holds(last.view.running, worker, i);
        }
    }
    lemma_tally_all(last.settled());
    if forall|i: int| 0 <= i < states.len() ==> #[trigger] states[i] == IntervalState::Pending {
        lemma_none_in(states);
    }
}

proof fn lemma_none_in(states: Seq<IntervalState>)
    requires
        forall|i: int| 0 <= i < states.len() ==> #[trigger] states[i] == IntervalState::Pending,
    ensures
        intervals::bytes_in(states, IntervalState::Complete) == 0,
    decreases states.len(),
{
    if states.len() > 0 {
        assert(states[states.len() - 1] == IntervalState::Pending);
        assert forall|i: int| 0 <= i < states.drop_last().len() implies #[trigger] states.drop_last()[i]
            == IntervalState::Pending by {
            assert(states[i] == IntervalState::Pending);
        }
        lemma_none_in(states.drop_last());
    }
}

} // verus!
