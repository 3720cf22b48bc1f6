//! The single owner of a download's allocation state, driven over a recording storage.

use std::collections::BTreeSet;

use downpour::allocator::{AllocatorError, Grant, SegmentAllocator};
use downpour::intervals::{IntervalMapError, IntervalState, WorkerId};
use downpour::writer_service::{
    check_capacity, AbandonReceipt, AllocationReceipt, DurableBlock, GrantWriter, StateActor,
    WriteReceipt, WriterError, WriterServiceError, WriterSnapshot, MAX_WRITE_BLOCK_BYTES,
};

#[derive(Clone, Debug, Eq, PartialEq)]
enum Event {
    Write { offset: u64, bytes: Vec<u8> },
    DataSync,
    JournalAppend { sequence: u64 },
    JournalSync,
}

/// A state owner and a storage that stages writes and reports them once flushed.
struct Service {
    actor: StateActor,
    staged: Vec<(WorkerId, u64, u64)>,
    events: Vec<Event>,
    sequence: u64,
    fail_write: bool,
}

impl Service {
    fn new(total_length: u64, minimum_split: u64) -> Self {
        let allocator = SegmentAllocator::new(total_length, minimum_split).unwrap();
        Service {
            actor: StateActor::new(allocator),
            staged: Vec::new(),
            events: Vec::new(),
            sequence: 0,
            fail_write: false,
        }
    }

    fn flush_storage(&mut self) -> Vec<DurableBlock> {
        if self.staged.is_empty() {
            return Vec::new();
        }
        self.events.push(Event::DataSync);
        let mut blocks = Vec::new();
        for (worker, start, end) in self.staged.drain(..) {
            self.events.push(Event::JournalAppend {
                sequence: self.sequence,
            });
            self.sequence += 1;
            blocks.push(DurableBlock {
                worker,
                range: start..end,
            });
        }
        self.events.push(Event::JournalSync);
        blocks
    }

    fn flush(&mut self) -> Result<Vec<DurableBlock>, WriterServiceError> {
        let blocks = self.flush_storage();
        self.actor.flush(Ok(blocks))
    }

    fn allocate(&mut self, worker: WorkerId) -> Result<AllocationReceipt, WriterServiceError> {
        let everyone: BTreeSet<u64> = (0..100).collect();
        let blocks = self.flush_storage();
        self.actor.allocate(Ok(blocks), worker, &everyone)
    }

    fn abandon(&mut self, worker: WorkerId) -> Result<AbandonReceipt, WriterServiceError> {
        let blocks = self.flush_storage();
        self.actor.abandon(Ok(blocks), worker)
    }

    fn shutdown(&mut self) -> Result<WriterSnapshot, WriterServiceError> {
        let blocks = self.flush_storage();
        self.actor.shutdown(Ok(blocks))
    }

    fn write(
        &mut self,
        writer: &mut GrantWriter,
        bytes: &[u8],
    ) -> Result<WriteReceipt, WriterServiceError> {
        if writer.plan(bytes.len()).is_err() {
            return writer.write(bytes.len(), Err(WriterServiceError::ActorStopped));
        }
        let offset = writer.next_offset();
        let checked = self.actor.check_write(writer.worker(), offset, bytes.len());
        let reply = match checked {
            Ok(range) => {
                self.events.push(Event::Write {
                    offset,
                    bytes: bytes.to_vec(),
                });
                if self.fail_write {
                    self.actor.write(
                        range,
                        Err(WriterError::Io {
                            operation: "write fake part file".to_owned(),
                            code: None,
                            source: "injected writer-service failure".to_owned(),
                        }),
                    )
                } else {
                    self.staged.push((writer.worker(), range.start, range.end));
                    self.actor.write(range, Ok(Vec::new()))
                }
            }
            Err(error) => Err(error),
        };
        writer.write(bytes.len(), reply)
    }
}

fn grant(receipt: &AllocationReceipt) -> Grant {
    receipt
        .allocation()
        .expect("worker should receive a grant")
        .grant()
        .clone()
}

fn assert_interval(
    snapshot: &WriterSnapshot,
    index: usize,
    start: u64,
    end: u64,
    expected: &IntervalState,
) {
    let interval = &snapshot.allocator().intervals()[index];
    assert_eq!((interval.start(), interval.end()), (start, end));
    assert_eq!(interval.state(), expected);
}

#[test]
fn receipts_claim_completion_only_after_the_journal_sync_boundary() {
    let worker = WorkerId::new(1);
    let mut service = Service::new(8, 1);
    let assigned = service.allocate(worker).unwrap();
    assert!(assigned.durable().is_empty());
    let mut writer = GrantWriter::writer_for(&grant(&assigned));

    let staged = service.write(&mut writer, b"safe").unwrap();
    assert_eq!(staged.range(), &(0..4));
    assert!(staged.durable().is_empty());
    assert_eq!(
        service.events,
        vec![Event::Write {
            offset: 0,
            bytes: b"safe".to_vec(),
        }]
    );

    let durable = service.flush().unwrap();
    assert_eq!(durable.len(), 1);
    assert_eq!(durable[0].range(), &(0..4));
    assert_eq!(
        service.events,
        vec![
            Event::Write {
                offset: 0,
                bytes: b"safe".to_vec(),
            },
            Event::DataSync,
            Event::JournalAppend { sequence: 0 },
            Event::JournalSync,
        ]
    );
    let snapshot = service.actor.snapshot();
    assert_interval(&snapshot, 0, 0, 4, &IntervalState::Complete);
    assert_interval(&snapshot, 1, 4, 8, &IntervalState::InProgress { worker });
    service.shutdown().unwrap();
}

#[test]
fn split_is_a_durability_fence_and_stale_bytes_never_reach_storage() {
    let first = WorkerId::new(11);
    let second = WorkerId::new(12);
    let mut service = Service::new(64, 16);
    let first_assignment = service.allocate(first).unwrap();
    let mut stale_writer = GrantWriter::writer_for(&grant(&first_assignment));
    service.write(&mut stale_writer, &[0xA1; 8]).unwrap();

    let second_assignment = service.allocate(second).unwrap();
    assert_eq!(second_assignment.durable().len(), 1);
    assert_eq!(second_assignment.durable()[0].range(), &(0..8));
    let allocation = second_assignment.allocation().expect("a grant");
    assert_eq!(allocation.grant().range(), &(36..64));
    assert_eq!(
        allocation
            .shortened()
            .expect("split must report the shortened source")
            .range(),
        &(8..36)
    );
    assert_eq!(
        service.events,
        vec![
            Event::Write {
                offset: 0,
                bytes: vec![0xA1; 8],
            },
            Event::DataSync,
            Event::JournalAppend { sequence: 0 },
            Event::JournalSync,
        ]
    );

    let error = service.write(&mut stale_writer, &[0xB2; 32]).unwrap_err();
    assert!(matches!(
        error,
        WriterServiceError::Writer(WriterError::Interval(_))
    ));
    assert_eq!(service.events.len(), 4);

    let snapshot = service.actor.snapshot();
    assert_interval(&snapshot, 0, 0, 8, &IntervalState::Complete);
    assert_interval(
        &snapshot,
        1,
        8,
        36,
        &IntervalState::InProgress { worker: first },
    );
    assert_interval(
        &snapshot,
        2,
        36,
        64,
        &IntervalState::InProgress { worker: second },
    );
    service.shutdown().unwrap();
}

#[test]
fn abandon_flushes_staged_bytes_before_reclaiming_only_the_remainder() {
    let worker = WorkerId::new(21);
    let mut service = Service::new(16, 1);
    let assigned = service.allocate(worker).unwrap();
    let mut writer = GrantWriter::writer_for(&grant(&assigned));
    service.write(&mut writer, b"kept").unwrap();

    let abandoned = service.abandon(worker).unwrap();
    assert_eq!(abandoned.released(), 12);
    assert_eq!(abandoned.durable().len(), 1);
    assert_eq!(abandoned.durable()[0].range(), &(0..4));
    assert_eq!(
        service.events,
        vec![
            Event::Write {
                offset: 0,
                bytes: b"kept".to_vec(),
            },
            Event::DataSync,
            Event::JournalAppend { sequence: 0 },
            Event::JournalSync,
        ]
    );

    let stale_error = service.write(&mut writer, b"lost").unwrap_err();
    assert!(matches!(
        stale_error,
        WriterServiceError::Writer(WriterError::Interval(_))
    ));
    assert_eq!(service.events.len(), 4);
    let snapshot = service.actor.snapshot();
    assert_interval(&snapshot, 0, 0, 4, &IntervalState::Complete);
    assert_interval(&snapshot, 1, 4, 16, &IntervalState::Pending);
    service.shutdown().unwrap();
}

#[test]
fn worker_handles_advance_sequentially_and_payload_limits_fail_before_io() {
    let worker = WorkerId::new(41);
    let mut service = Service::new(16, 1);
    let assigned = service.allocate(worker).unwrap();
    let mut writer = GrantWriter::writer_for(&grant(&assigned));
    assert_eq!(writer.next_offset(), 0);

    assert_eq!(
        service.write(&mut writer, b"abc").unwrap().range(),
        &(0..3)
    );
    assert_eq!(writer.next_offset(), 3);
    assert_eq!(service.write(&mut writer, b"de").unwrap().range(), &(3..5));
    assert_eq!(writer.next_offset(), 5);
    let events_before_rejection = service.events.clone();

    let error = service
        .write(&mut writer, &vec![0; MAX_WRITE_BLOCK_BYTES + 1])
        .unwrap_err();
    assert!(matches!(
        error,
        WriterServiceError::BlockTooLarge {
            actual,
            maximum: MAX_WRITE_BLOCK_BYTES,
        } if actual == MAX_WRITE_BLOCK_BYTES + 1
    ));
    assert_eq!(service.events, events_before_rejection);
    assert_eq!(
        service.write(&mut writer, &[0; 12]),
        Err(WriterServiceError::BeyondGrant {
            start: 5,
            end: 17,
            grant_start: 0,
            grant_end: 16,
        })
    );
    service.shutdown().unwrap();
}

#[test]
fn shutdown_flushes_before_exit_and_cloned_worker_handles_observe_the_stop() {
    let worker = WorkerId::new(51);
    let mut service = Service::new(8, 1);
    let assigned = service.allocate(worker).unwrap();
    let mut writer = GrantWriter::writer_for(&grant(&assigned));
    service.write(&mut writer, b"done").unwrap();

    let snapshot = service.shutdown().unwrap();
    assert_interval(&snapshot, 0, 0, 4, &IntervalState::Complete);
    let error = writer
        .write(4, Err(WriterServiceError::ActorStopped))
        .unwrap_err();
    assert!(matches!(error, WriterServiceError::ActorStopped));
    assert_eq!(writer.next_offset(), 4);
}

#[test]
fn backend_failures_are_returned_and_zero_capacity_is_refused() {
    let mut service = Service::new(4, 1);
    service.fail_write = true;
    let worker = WorkerId::new(61);
    let assigned = service.allocate(worker).unwrap();
    let mut writer = GrantWriter::writer_for(&grant(&assigned));

    let error = service.write(&mut writer, b"fail").unwrap_err();
    assert!(matches!(
        error,
        WriterServiceError::Writer(WriterError::Io { ref operation, .. })
            if operation == "write fake part file"
    ));
    assert_eq!(
        service.events,
        vec![Event::Write {
            offset: 0,
            bytes: b"fail".to_vec(),
        }]
    );

    assert!(matches!(
        check_capacity(0),
        Err(WriterServiceError::ZeroQueueCapacity)
    ));
    assert_eq!(check_capacity(1), Ok(()));
}

#[test]
fn a_worker_that_holds_a_grant_is_refused_another() {
    let worker = WorkerId::new(5);
    let mut service = Service::new(32, 8);
    service.allocate(worker).unwrap();
    assert_eq!(
        service.allocate(worker),
        Err(WriterServiceError::Allocator(
            AllocatorError::WorkerAlreadyActive { worker }
        ))
    );
    assert_eq!(service.actor.split_candidate(), Some(worker));
}

#[test]
fn a_report_about_bytes_of_nobody_is_refused() {
    let mut service = Service::new(32, 8);
    let refused = service.actor.flush(Ok(vec![DurableBlock {
        worker: WorkerId::new(1),
        range: 0..4,
    }]));
    assert_eq!(
        refused,
        Err(WriterServiceError::Writer(WriterError::Interval(
            IntervalMapError::RangeNotOwned {
                start: 0,
                end: 4,
                worker: WorkerId::new(1)
            }
        )))
    );
    assert_eq!(
        service.actor.check_write(WorkerId::new(1), u64::MAX, 1),
        Err(WriterServiceError::CursorOverflow)
    );
}
