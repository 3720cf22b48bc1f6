//! The fixed worker pool: its plan, and its schedule driven over an in-memory file.

use std::collections::BTreeSet;

use downpour::allocator::{Grant, SegmentAllocator, DEFAULT_MIN_SPLIT_BYTES};
use downpour::error::TransferError;
use downpour::h1h2::{FetchSession, ResponseHead};
use downpour::intervals::{IntervalMap, IntervalState, WorkerId};
use downpour::protocol::RangeOutcome;
use downpour::remote::{
    ByteRangeSpec, ContentRange, NegotiatedProtocol, RangeProof, RangeSupport, RemoteObject,
    Validator,
};
use downpour::retry::RetryPolicy;
use downpour::scheduler::{FailureStep, QuietStep, Scheduler, ServiceStep};
use downpour::segmented::{check_binding, concluded, worker_request, Route, SegmentedDownload};
use downpour::sink::SinkError;
use downpour::time::{Duration, Timestamp};
use downpour::worker_pool::{
    check_cursor, check_ranged_outcome, check_whole_outcome, check_writer_identity,
    content_range_matches, ranged_request, retryable_worker_failure, writer_service_error,
    FixedWorkerPool, PoolError, PoolPlan, PoolReport, SingleStreamReason, WorkerReport,
};
use downpour::writer_service::{DurableBlock, GrantWriter, StateActor, WriterServiceError};

fn proven_remote(total_length: u64, protocol: NegotiatedProtocol) -> RemoteObject {
    let observed = RangeProof::from_observed_response(
        ByteRangeSpec::FromTo { first: 0, last: 0 },
        206,
        Some(&format!("bytes 0-0/{total_length}")),
        None,
        1,
    )
    .unwrap();
    remote(Some(total_length), RangeSupport::Proven(observed), protocol)
}

fn remote(
    total_length: Option<u64>,
    range_support: RangeSupport,
    protocol: NegotiatedProtocol,
) -> RemoteObject {
    let final_url = "https://example.test/file.bin".to_owned();
    RemoteObject {
        final_url: final_url.clone(),
        redirect_chain: vec![final_url],
        total_length,
        range_support,
        validator: Validator::StrongETag("\"v1\"".to_owned()),
        digest: None,
        protocol,
        suggested_filename: Some("file.bin".to_owned()),
        content_type: None,
        probed_at: Timestamp::from_secs(1_800_000_000),
    }
}

#[test]
fn segmentation_is_selected_only_from_proven_addressable_http11_evidence() {
    let valid = proven_remote(64, NegotiatedProtocol::Http11);
    let pool = FixedWorkerPool::new(true, 4).unwrap();
    assert_eq!(
        pool.plan(&valid),
        PoolPlan::Segmented {
            total_length: 64,
            workers: 4,
        }
    );

    let cases = [
        (
            remote(Some(64), RangeSupport::Absent, NegotiatedProtocol::Http11),
            SingleStreamReason::RangeNotProven,
        ),
        (
            remote(Some(64), RangeSupport::Unknown, NegotiatedProtocol::Http11),
            SingleStreamReason::RangeNotProven,
        ),
        (
            {
                let mut value = valid.clone();
                value.total_length = None;
                value
            },
            SingleStreamReason::LengthUnknown,
        ),
        (
            {
                let mut value = valid.clone();
                value.total_length = Some(65);
                value
            },
            SingleStreamReason::InconsistentLength,
        ),
        (
            proven_remote(i64::MAX as u64 + 1, NegotiatedProtocol::Http11),
            SingleStreamReason::LengthUnaddressable,
        ),
        (
            proven_remote(64, NegotiatedProtocol::Http2),
            SingleStreamReason::ProtocolNotHttp11,
        ),
    ];
    for (remote, reason) in cases {
        assert_eq!(pool.plan(&remote), PoolPlan::SingleStream { reason });
    }

    let pool = FixedWorkerPool::new(false, 4).unwrap();
    assert_eq!(
        pool.plan(&valid),
        PoolPlan::SingleStream {
            reason: SingleStreamReason::BackendCannotRange,
        }
    );
    assert!(matches!(
        FixedWorkerPool::new(true, 0),
        Err(PoolError::ZeroWorkers)
    ));
}

/// A pool whose requests are answered from a body, one worker after the other.
struct Pool {
    remote: RemoteObject,
    plan: PoolPlan,
    body: Vec<u8>,
    stored: Vec<u8>,
    actor: StateActor,
    scheduler: Scheduler,
    requests: Vec<(u64, u64)>,
    /// A request that starts here stays open after this many bytes.
    held: Option<(u64, u64)>,
    /// Requests in flight, oldest first, with the bytes staged so far.
    open: Vec<(Grant, u64)>,
    most_open: usize,
}

impl Pool {
    fn new(total: u64, workers: usize, floor: u64, held: Option<(u64, u64)>) -> Self {
        let remote = proven_remote(total, NegotiatedProtocol::Http11);
        let pool = FixedWorkerPool::new(true, workers).unwrap();
        Pool {
            plan: pool.plan(&remote),
            remote,
            body: (0..total).map(|offset| offset as u8).collect(),
            stored: vec![0xFF; usize::try_from(total).unwrap()],
            actor: StateActor::new(SegmentAllocator::new(total, floor).unwrap()),
            scheduler: Scheduler::new(workers),
            requests: Vec::new(),
            held,
            open: Vec::new(),
            most_open: 0,
        }
    }

    fn send(&mut self, grants: Vec<Grant>) {
        for grant in grants {
            match ranged_request(&grant).unwrap() {
                ByteRangeSpec::FromTo { first, last } => self.requests.push((first, last)),
                other => panic!("unexpected range {other:?}"),
            }
            self.open.push((grant, 0));
        }
        self.most_open = self.most_open.max(self.open.len());
    }

    /// Store the next bytes of a request and make them durable.
    fn deliver(&mut self, grant: &Grant, from: u64, to: u64) {
        let range = self
            .actor
            .check_write(grant.worker(), from, usize::try_from(to - from).unwrap())
            .unwrap();
        let (start, end) = (
            usize::try_from(range.start).unwrap(),
            usize::try_from(range.end).unwrap(),
        );
        self.stored[start..end].copy_from_slice(&self.body[start..end]);
        self.actor
            .write(
                range.clone(),
                Ok(vec![DurableBlock {
                    worker: grant.worker(),
                    range,
                }]),
            )
            .unwrap();
    }

    fn run(&mut self) -> PoolReport {
        let workers = match self.plan {
            PoolPlan::Segmented { workers, .. } => workers,
            PoolPlan::SingleStream { .. } => panic!("not segmented"),
        };
        for worker in 0..workers as u64 {
            let everyone: BTreeSet<u64> = (0..workers as u64).collect();
            let receipt = self
                .actor
                .allocate(Ok(Vec::new()), WorkerId::new(worker), &everyone)
                .unwrap();
            if let Some(allocation) = receipt.allocation() {
                self.scheduler.on_initial(allocation);
            }
        }
        let grants = self.scheduler.start().unwrap();
        self.send(grants);
        loop {
            self.serve();
            let ready = (0..self.open.len()).find(|index| {
                self.held.map(|(first, _)| first) != Some(self.open[*index].0.range().start)
            });
            let index = match ready {
                Some(index) => index,
                None => {
                    assert!(self.open.is_empty(), "a held request was never stopped");
                    let snapshot = self.actor.snapshot();
                    match self.scheduler.on_quiet(snapshot.allocator()) {
                        QuietStep::Done => break,
                        QuietStep::Revived(grants) => {
                            self.send(grants);
                            continue;
                        }
                        QuietStep::Incomplete => panic!("bytes are missing"),
                    }
                }
            };
            // The held request is slower, but its first bytes arrive before a peer finishes.
            if let Some((first, prefix)) = self.held {
                if let Some(at) = self
                    .open
                    .iter()
                    .position(|(grant, done)| grant.range().start == first && *done == 0)
                {
                    let grant = self.open[at].0.clone();
                    self.deliver(&grant, first, first + prefix);
                    self.open[at].1 = prefix;
                }
            }
            let (grant, done) = self.open.remove(index);
            let range = grant.range().clone();
            self.deliver(&grant, range.start + done, range.end);
            let delivered = range.end - range.start;
            let outcome = RangeOutcome {
                bytes_delivered: delivered,
                status: 206,
                content_range: Some(ContentRange::Bytes {
                    first: range.start,
                    last: range.end - 1,
                    complete_length: self.remote.total_length,
                }),
                protocol: NegotiatedProtocol::Http11,
                truncated: false,
            };
            let report = check_ranged_outcome(
                &grant,
                self.remote.total_length.unwrap(),
                &outcome,
                delivered,
                Duration::from_millis(1),
            )
            .unwrap();
            self.scheduler.on_finished(report);
        }
        let snapshot = self.actor.snapshot();
        self.scheduler
            .finish(self.plan, snapshot.allocator())
            .unwrap()
    }

    /// Serve waiting workers until none can be served.
    fn serve(&mut self) {
        while let Some(worker) = self.scheduler.next_idle() {
            let quiesced = self.scheduler.quiesced();
            let receipt = self
                .actor
                .allocate(Ok(Vec::new()), worker, &quiesced)
                .unwrap();
            if let Some(allocation) = receipt.allocation() {
                let grants = self.scheduler.on_allocated(allocation);
                self.held = None;
                self.send(grants);
                continue;
            }
            match self.scheduler.on_unserved(self.actor.split_candidate()) {
                ServiceStep::NextWorker => {}
                ServiceStep::Wait => return,
                ServiceStep::Stop(peer) => {
                    let at = self
                        .open
                        .iter()
                        .position(|(grant, _)| grant.worker() == peer)
                        .expect("the peer has a request in flight");
                    self.open.remove(at);
                    let attempt = self.scheduler.on_cancelled(peer).expect("a known attempt");
                    let snapshot = self.actor.snapshot();
                    self.scheduler
                        .on_stopped(&attempt, snapshot.allocator(), Duration::zero());
                }
            }
        }
    }
}

#[test]
fn proven_ranges_run_concurrently_inside_disjoint_allocator_grants() {
    let mut pool = Pool::new(64, 4, 16, None);
    let report = pool.run();
    assert_eq!(report.plan(), pool.plan);
    assert_eq!(report.workers().len(), 4);
    assert_eq!(
        report
            .workers()
            .iter()
            .map(|worker| worker.bytes())
            .sum::<u64>(),
        64
    );

    pool.requests.sort();
    assert_eq!(pool.most_open, 4);
    assert_eq!(pool.requests, vec![(0, 15), (16, 31), (32, 47), (48, 63)]);
    assert_eq!(pool.stored, pool.body);

    let snapshot = pool.actor.shutdown(Ok(Vec::new())).unwrap();
    assert_eq!(snapshot.allocator().intervals().len(), 1);
    assert_eq!(
        snapshot.allocator().intervals()[0].state(),
        &IntervalState::Complete
    );
}

#[test]
fn a_split_fences_partial_source_bytes_before_reassigning_its_remainder() {
    let mut pool = Pool::new(64, 2, 8, Some((32, 8)));
    let report = pool.run();
    pool.requests.sort();
    assert_eq!(pool.most_open, 2);
    assert_eq!(
        pool.requests,
        vec![(0, 31), (32, 63), (40, 51), (52, 63)]
    );
    assert_eq!(
        report
            .workers()
            .iter()
            .filter(|record| record.worker() == WorkerId::new(0))
            .map(|record| record.bytes())
            .sum::<u64>(),
        44
    );
    assert_eq!(
        report
            .workers()
            .iter()
            .filter(|record| record.worker() == WorkerId::new(1))
            .map(|record| record.bytes())
            .sum::<u64>(),
        20
    );
    assert_eq!(pool.stored, pool.body);
    let snapshot = pool.actor.shutdown(Ok(Vec::new())).unwrap();
    assert_eq!(snapshot.allocator().intervals().len(), 1);
    assert_eq!(
        snapshot.allocator().intervals()[0].state(),
        &IntervalState::Complete
    );
}

#[test]
fn absent_range_support_executes_one_whole_request_and_one_sync() {
    let body = b"one honest stream".to_vec();
    let length = u64::try_from(body.len()).unwrap();
    let remote = remote(Some(length), RangeSupport::Absent, NegotiatedProtocol::Http11);
    let pool = FixedWorkerPool::new(true, 8).unwrap();
    let plan = pool.plan(&remote);
    assert_eq!(
        plan,
        PoolPlan::SingleStream {
            reason: SingleStreamReason::RangeNotProven,
        }
    );
    let outcome = RangeOutcome {
        bytes_delivered: length,
        status: 200,
        content_range: None,
        protocol: NegotiatedProtocol::Http11,
        truncated: false,
    };
    let report =
        check_whole_outcome(plan, Some(length), &outcome, length, Duration::zero()).unwrap();
    assert_eq!(report.plan(), plan);
    assert_eq!(report.workers().len(), 1);
    assert_eq!(report.workers()[0].bytes(), length);
    assert_eq!(report.workers()[0].elapsed(), Duration::zero());
    assert!(matches!(
        check_whole_outcome(plan, Some(length + 1), &outcome, length, Duration::zero()),
        Err(PoolError::InvalidOutcome { .. })
    ));
    let segmented = PoolPlan::Segmented {
        total_length: length,
        workers: 2,
    };
    assert_eq!(
        check_whole_outcome(segmented, Some(length), &outcome, length, Duration::zero()),
        Err(PoolError::WrongPlan { plan: segmented })
    );
}

#[test]
fn a_failed_worker_is_retried_within_the_budget_and_its_bytes_are_reclaimed() {
    let mut actor = StateActor::new(SegmentAllocator::new(64, 8).unwrap());
    let mut scheduler = Scheduler::new(2);
    let everyone: BTreeSet<u64> = (0..2).collect();
    for worker in 0..2 {
        let receipt = actor
            .allocate(Ok(Vec::new()), WorkerId::new(worker), &everyone)
            .unwrap();
        scheduler.on_initial(receipt.allocation().unwrap());
    }
    let grants = scheduler.start().unwrap();
    assert_eq!(grants.len(), 2);
    let reset = PoolError::Transfer(TransferError::Transport {
        url: "https://example.test/file.bin".to_owned(),
        source: "connection reset".to_owned(),
    });
    let policy = RetryPolicy::default();
    let step = scheduler.on_failed(WorkerId::new(1), &reset, &policy, 0);
    assert_eq!(
        step,
        FailureStep::Retry {
            attempt: grants[1].clone(),
            delay: Duration::from_millis(250),
        }
    );
    let abandoned = actor.abandon(Ok(Vec::new()), WorkerId::new(1)).unwrap();
    assert_eq!(abandoned.released(), 32);
    let snapshot = actor.snapshot();
    scheduler.on_reclaimed(&grants[1], snapshot.allocator(), Duration::zero());
    assert_eq!(scheduler.next_idle(), Some(WorkerId::new(1)));
    assert_eq!(
        scheduler.on_failed(WorkerId::new(1), &reset, &policy, 0),
        FailureStep::Unknown
    );
    assert_eq!(
        scheduler.on_failed(
            WorkerId::new(0),
            &PoolError::IncompleteCoverage,
            &policy,
            0
        ),
        FailureStep::Fatal
    );
    assert_eq!(
        scheduler.reclaim(),
        vec![WorkerId::new(0), WorkerId::new(1)]
    );
    assert_eq!(
        scheduler.finish(
            PoolPlan::Segmented {
                total_length: 64,
                workers: 2
            },
            snapshot.allocator()
        ),
        Err(PoolError::IncompleteCoverage)
    );
}

#[test]
fn every_byte_of_a_run_is_credited_to_one_record() {
    for (total, workers, floor, held) in [
        (64, 4, 16, None),
        (64, 2, 8, Some((32, 8))),
        (1000, 3, 10, Some((500, 7))),
        (7, 5, 4, None),
    ] {
        let mut pool = Pool::new(total, workers, floor, held);
        let report = pool.run();
        let records = report.workers();
        assert_eq!(records.iter().map(|record| record.bytes()).sum::<u64>(), total);
        assert!(records.iter().all(|record| record.bytes() > 0));
        assert!(records
            .iter()
            .all(|record| record.worker() < WorkerId::new(workers as u64)));
        assert!(records
            .windows(2)
            .all(|pair| pair[0].worker() <= pair[1].worker()));
    }
}

#[test]
fn a_failed_attempt_is_credited_with_what_it_delivered() {
    let mut actor = StateActor::new(SegmentAllocator::new(64, 64).unwrap());
    let mut scheduler = Scheduler::new(1);
    let everyone: BTreeSet<u64> = (0..1).collect();
    let worker = WorkerId::new(0);
    let receipt = actor.allocate(Ok(Vec::new()), worker, &everyone).unwrap();
    scheduler.on_initial(receipt.allocation().unwrap());
    let grants = scheduler.start().unwrap();
    let reset = PoolError::Transfer(TransferError::Transport {
        url: "https://example.test/file.bin".to_owned(),
        source: "connection reset".to_owned(),
    });
    let policy = RetryPolicy::default();
    assert!(matches!(
        scheduler.on_failed(worker, &reset, &policy, 0),
        FailureStep::Retry { .. }
    ));
    let flushed = vec![DurableBlock {
        worker,
        range: 0..24,
    }];
    let abandoned = actor.abandon(Ok(flushed), worker).unwrap();
    assert_eq!(abandoned.released(), 40);
    let snapshot = actor.snapshot();
    scheduler.on_reclaimed(&grants[0], snapshot.allocator(), Duration::zero());

    let quiesced = scheduler.quiesced();
    let receipt = actor.allocate(Ok(Vec::new()), worker, &quiesced).unwrap();
    let grants = scheduler.on_allocated(receipt.allocation().unwrap());
    assert_eq!(grants[0].range(), &(24..64));
    actor
        .flush(Ok(vec![DurableBlock {
            worker,
            range: 24..64,
        }]))
        .unwrap();
    scheduler.on_finished(WorkerReport {
        worker,
        bytes: 40,
        elapsed: Duration::zero(),
    });
    let plan = PoolPlan::Segmented {
        total_length: 64,
        workers: 1,
    };
    let report = scheduler
        .finish(plan, actor.snapshot().allocator())
        .unwrap();
    let bytes: Vec<u64> = report.workers().iter().map(|record| record.bytes()).collect();
    assert_eq!(bytes, vec![24, 40]);
    assert_eq!(actor.snapshot().allocator().min_split_bytes(), 64);
}

#[test]
fn a_range_held_when_a_run_begins_is_fetched_and_credited() {
    let mut map = IntervalMap::new(64);
    map.grant(32..64, WorkerId::new(2)).unwrap();
    let mut actor = StateActor::new(SegmentAllocator::resume(map, 64).unwrap());
    let mut scheduler = Scheduler::new(3);
    let everyone: BTreeSet<u64> = (0..3).collect();
    let report = |worker: u64, bytes: u64| WorkerReport {
        worker: WorkerId::new(worker),
        bytes,
        elapsed: Duration::zero(),
    };
    let durable = |worker: u64, range: std::ops::Range<u64>| {
        Ok(vec![DurableBlock {
            worker: WorkerId::new(worker),
            range,
        }])
    };
    let receipt = actor
        .allocate(Ok(Vec::new()), WorkerId::new(0), &everyone)
        .unwrap();
    scheduler.on_initial(receipt.allocation().unwrap());
    let receipt = actor
        .allocate(Ok(Vec::new()), WorkerId::new(1), &everyone)
        .unwrap();
    assert!(receipt.allocation().is_none(), "nothing is left to give or to split");
    let grants = scheduler.start().unwrap();
    assert_eq!(grants[0].range(), &(0..32));
    actor.flush(durable(0, 0..32)).unwrap();
    scheduler.on_finished(report(0, 32));
    assert_eq!(scheduler.on_unserved(None), ServiceStep::NextWorker);

    let step = scheduler.on_quiet(actor.snapshot().allocator());
    let QuietStep::Revived(grants) = step else {
        panic!("the held range has no request yet: {step:?}");
    };
    assert_eq!(grants.len(), 1);
    assert_eq!(grants[0].worker(), WorkerId::new(2));
    assert_eq!(grants[0].range(), &(32..64));
    actor.flush(durable(2, 32..64)).unwrap();
    scheduler.on_finished(report(2, 32));
    assert_eq!(
        scheduler.on_quiet(actor.snapshot().allocator()),
        QuietStep::Done
    );
    let plan = PoolPlan::Segmented {
        total_length: 64,
        workers: 3,
    };
    let finished = scheduler.finish(plan, actor.snapshot().allocator()).unwrap();
    assert_eq!(finished.workers(), &[report(0, 32), report(2, 32)]);
}

#[test]
fn an_empty_schedule_cannot_start() {
    let mut scheduler = Scheduler::new(3);
    assert_eq!(scheduler.start(), Err(PoolError::IncompleteCoverage));
}

#[test]
fn a_ranged_answer_must_match_its_grant_exactly() {
    let grant = Grant {
        worker: WorkerId::new(2),
        range: 16..32,
    };
    assert_eq!(
        ranged_request(&grant),
        Ok(ByteRangeSpec::FromTo {
            first: 16,
            last: 31
        })
    );
    assert!(matches!(
        ranged_request(&Grant {
            worker: WorkerId::new(2),
            range: 0..0
        }),
        Err(PoolError::InvalidOutcome {
            reason: "allocator issued an empty range",
            ..
        })
    ));
    let part = Some(ContentRange::Bytes {
        first: 16,
        last: 31,
        complete_length: Some(64),
    });
    assert!(content_range_matches(part, &(16..32), 64));
    assert!(!content_range_matches(part, &(16..33), 64));
    assert!(!content_range_matches(part, &(16..32), 65));
    assert!(!content_range_matches(None, &(16..32), 64));
    let outcome = RangeOutcome {
        bytes_delivered: 16,
        status: 206,
        content_range: part,
        protocol: NegotiatedProtocol::Http11,
        truncated: false,
    };
    assert_eq!(
        check_ranged_outcome(&grant, 64, &outcome, 16, Duration::zero()),
        Ok(WorkerReport {
            worker: WorkerId::new(2),
            bytes: 16,
            elapsed: Duration::zero(),
        })
    );
    let other_protocol = RangeOutcome {
        protocol: NegotiatedProtocol::Http2,
        ..outcome
    };
    assert!(check_ranged_outcome(&grant, 64, &other_protocol, 16, Duration::zero()).is_err());
    assert!(check_ranged_outcome(&grant, 64, &outcome, 15, Duration::zero()).is_err());
}

#[test]
fn the_writer_must_describe_the_probed_representation() {
    let allocator = SegmentAllocator::new(64, 8).unwrap();
    assert_eq!(check_writer_identity(&allocator, 64), Ok(()));
    assert_eq!(
        check_writer_identity(&allocator, 65),
        Err(PoolError::WriterLengthMismatch {
            writer_length: 64,
            remote_length: 65,
        })
    );
}

#[test]
fn storage_refusals_reach_a_worker_in_the_sinks_vocabulary() {
    assert_eq!(check_cursor(8, 8), Ok(()));
    assert!(check_cursor(8, 9).is_err());
    let mapped = writer_service_error(
        4,
        &WriterServiceError::BeyondGrant {
            start: 4,
            end: 20,
            grant_start: 0,
            grant_end: 16,
        },
        "beyond".to_owned(),
    );
    assert!(matches!(mapped, SinkError::BeyondGrant { .. }));
    assert_eq!(
        retryable_worker_failure(&PoolError::IncompleteCoverage),
        None
    );
}

#[test]
fn one_connection_is_a_single_stream_and_more_need_evidence() {
    let proven = proven_remote(64, NegotiatedProtocol::Http11);
    assert!(!SegmentedDownload::new(1).plans_from_a_probe());
    assert_eq!(
        SegmentedDownload::new(1).route(&proven, true),
        Route::SingleStream
    );
    assert!(SegmentedDownload::new(4).plans_from_a_probe());
    assert_eq!(
        SegmentedDownload::new(4).route(&proven, true),
        Route::Segmented { total_length: 64 }
    );
    assert_eq!(
        SegmentedDownload::new(4).route(&proven, false),
        Route::SingleStream
    );
    let outcome = concluded(
        "/d/file.bin".to_owned(),
        Err(PoolError::IncompleteCoverage),
        Ok(()),
    );
    assert_eq!(outcome.map_err(|error| error.kind()), Err("segmented_transfer"));
    let outcome = concluded(
        "/d/file.bin".to_owned(),
        Ok(PoolReport {
            plan: PoolPlan::Segmented {
                total_length: 64,
                workers: 4,
            },
            workers: Vec::new(),
        }),
        Ok(()),
    );
    assert_eq!(outcome, Ok("/d/file.bin".to_owned()));
}

#[test]
fn a_resumed_segmented_transfer_never_refetches_a_byte_the_journal_proved() {
    const LENGTH: u64 = 8 * 1024 * 1024;
    let durable: &[(u64, u64)] = &[(0, 2 * 1024 * 1024), (4 * 1024 * 1024, 6 * 1024 * 1024)];
    let mut remote = proven_remote(LENGTH, NegotiatedProtocol::Http11);
    remote.validator = Validator::StrongETag("\"resume-v1\"".to_owned());
    let recovery = WorkerId::new(u64::MAX);
    let mut intervals = IntervalMap::new(LENGTH);
    for (start, end) in durable {
        intervals.grant(*start..*end, recovery).unwrap();
        intervals.complete(*start..*end, recovery).unwrap();
    }

    let download = SegmentedDownload::new(4);
    let mut actor = download
        .prepare_resume(&remote, LENGTH, intervals)
        .unwrap();
    let quiesced: BTreeSet<u64> = (0..4).collect();
    let mut asked = 0;
    for worker in 0..4 {
        let receipt = actor
            .allocate(Ok(Vec::new()), WorkerId::new(worker), &quiesced)
            .unwrap();
        let grant = receipt.allocation().expect("work is left").grant().clone();
        let request = worker_request(&remote, &grant).unwrap();
        assert_eq!(request.if_range.as_deref(), Some("\"resume-v1\""));
        let (start, end) = match request.range {
            Some(ByteRangeSpec::FromTo { first, last }) => (first, last + 1),
            other => panic!("unexpected range {other:?}"),
        };
        asked += 1;
        for (done_start, done_end) in durable {
            assert!(
                start >= *done_end || *done_start >= end,
                "resume requested {start}-{end}, overlapping {done_start}-{done_end}"
            );
        }
        let mut writer = GrantWriter::writer_for(&grant);
        assert_eq!(writer.next_offset(), start);
        assert!(writer.write(1, Err(WriterServiceError::ReplyDropped)).is_err());
    }
    assert_eq!(asked, 4);
}

#[test]
fn a_resume_of_another_length_or_without_a_validator_is_refused() {
    let mut remote = proven_remote(64, NegotiatedProtocol::Http11);
    let download = SegmentedDownload::new(4);
    let refused = download.prepare_resume(&remote, 63, IntervalMap::new(63));
    assert_eq!(
        refused.map(|_| ()).map_err(|error| error.kind()),
        Err("resume_length_mismatch")
    );
    assert!(download
        .prepare_resume(&remote, 64, IntervalMap::new(64))
        .is_ok());
    let durable = IntervalMap::new(64);
    assert!(check_binding(&remote, &durable, "/d/f.dppart").is_ok());
    remote.validator = Validator::Absent;
    assert_eq!(
        check_binding(&remote, &durable, "/d/f.dppart").map_err(|error| error.kind()),
        Err("incomplete")
    );
    let fresh = download.prepare(64).unwrap();
    assert_eq!(fresh.snapshot().allocator().intervals().len(), 1);
}

#[test]
fn a_segmented_transfer_refuses_a_representation_that_changes_underneath_it() {
    let remote = proven_remote(64, NegotiatedProtocol::Http11);
    let grant = Grant {
        worker: WorkerId::new(1),
        range: 16..32,
    };
    let request = worker_request(&remote, &grant).unwrap();
    assert_eq!(
        request.if_range.as_deref(),
        Some("\"v1\""),
        "every ranged request must be conditional on the recorded validator"
    );
    // The server answers a stale condition with the whole of the new representation.
    let whole = ResponseHead {
        status: 200,
        protocol: NegotiatedProtocol::Http11,
        location: None,
        retry_after: None,
        content_type: None,
        content_range: None,
        content_encoding: None,
        content_length: Some("64".to_owned()),
        etag: Some("\"v2\"".to_owned()),
        last_modified: None,
        repr_digest: None,
        content_digest: None,
        content_disposition: None,
    };
    let refused = FetchSession::open(&request, &whole).map(|_| ()).unwrap_err();
    assert_eq!(
        refused,
        TransferError::ValidatorMismatch {
            url: remote.final_url.clone(),
            resume_offset: 16,
            status: 200,
            validator: "\"v1\"".to_owned(),
        }
    );
    assert_eq!(
        retryable_worker_failure(&PoolError::Transfer(refused)),
        None,
        "a changed representation ends the transfer"
    );
}

#[test]
fn dp_add_below_the_split_floor_uses_one_connection_however_many_are_asked_for() {
    const SIZE: u64 = 256 * 1024;
    let mut pool = Pool::new(SIZE, 8, DEFAULT_MIN_SPLIT_BYTES, None);
    let report = pool.run();
    assert_eq!(pool.requests, vec![(0, SIZE - 1)]);
    assert_eq!(report.workers().len(), 1);
    assert_eq!(pool.stored, pool.body);
}

#[test]
fn dp_add_with_four_connections_segments_the_transfer_and_lands_byte_exact() {
    const SIZE: u64 = 8 * 1024 * 1024;
    let mut pool = Pool::new(SIZE, 4, DEFAULT_MIN_SPLIT_BYTES, None);
    pool.run();
    assert!(pool.requests.len() >= 4, "{:?}", pool.requests);
    assert_eq!(pool.most_open, 4);
    assert_eq!(pool.stored, pool.body);
}
