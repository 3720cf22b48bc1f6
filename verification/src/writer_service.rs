//! The single owner of one download's state.
//!
//! One actor owns the allocator; workers hold [`GrantWriter`] cursors that append inside an
//! allocator-issued grant and offer no absolute-offset operation. Storage is reached from outside:
//! each command says what storage must do first and takes its report as an argument. Blocks are
//! recorded as complete only from such a report, and ownership only changes after one.

use crate::allocator::{Allocation, AllocatorError, Grant, SegmentAllocator};
use crate::intervals;
use crate::intervals::{IntervalMapError, IntervalState, WorkerId};
use std::collections::BTreeSet;
use std::ops::Range;
use vstd::prelude::*;

verus! {

/// Default number of writer commands allowed to wait behind the actor.
pub const DEFAULT_WRITER_QUEUE_CAPACITY: usize = 32;

/// Largest owned payload one write command may place in the bounded queue.
pub const MAX_WRITE_BLOCK_BYTES: usize = 262_144;

/// A part-file failure.
#[derive(Debug, PartialEq, Eq)]
pub enum PartFileError {
    /// The operating system refused an operation.
    Io {
        /// The system's error number, when it gave one.
        code: Option<i32>,
        /// What the system reported.
        source: String,
    },
    /// The write lies outside the file.
    OutOfBounds {
        /// Where the write starts.
        offset: u64,
        /// How long it is.
        length: u64,
        /// How long the file is.
        total_length: u64,
    },
    /// Anything else that the part file reports.
    Other {
        /// What was reported.
        source: String,
    },
}

/// A durable-writer failure.
#[derive(Debug, PartialEq, Eq)]
pub enum WriterError {
    /// The part file failed.
    PartFile(PartFileError),
    /// The operating system refused an operation.
    Io {
        /// The operation that failed.
        operation: String,
        /// The system's error number, when it gave one.
        code: Option<i32>,
        /// What the system reported.
        source: String,
    },
    /// The device is full.
    NoSpace {
        /// Where the write was attempted.
        offset: u64,
    },
    /// The interval map refused a block.
    Interval(IntervalMapError),
    /// A journal is already there.
    JournalAlreadyExists {
        /// Where it is.
        path: String,
    },
    /// Anything else that storage reports.
    Other {
        /// What was reported.
        source: String,
    },
}

/// A writer-service command that could not be completed safely.
#[derive(Debug, PartialEq, Eq)]
pub enum WriterServiceError {
    /// A zero-capacity channel cannot provide a bounded queue.
    ZeroQueueCapacity,
    /// A single queued payload exceeded the documented byte bound.
    BlockTooLarge {
        /// Submitted payload length.
        actual: usize,
        /// Maximum accepted payload length.
        maximum: usize,
    },
    /// Sequential cursor arithmetic left the file-offset domain.
    CursorOverflow,
    /// The sequential write would cross the grant originally issued to this handle.
    BeyondGrant {
        /// Attempted inclusive start.
        start: u64,
        /// Attempted exclusive end.
        end: u64,
        /// Grant inclusive start.
        grant_start: u64,
        /// Grant exclusive end.
        grant_end: u64,
    },
    /// The actor stopped before accepting the command.
    ActorStopped,
    /// The actor accepted the command but stopped before replying.
    ReplyDropped,
    /// The operating system refused to create the state-owner thread.
    ActorStart {
        /// What the system reported.
        source: String,
    },
    /// The thread could not be joined.
    ActorJoin {
        /// What was reported.
        source: String,
    },
    /// The actor thread panicked instead of shutting down cleanly.
    ActorPanicked,
    /// The canonical allocator rejected a control mutation.
    Allocator(AllocatorError),
    /// The durable writer rejected or failed a storage operation.
    Writer(WriterError),
    /// Verification refused to give the file its final name.
    Unverified {
        /// Which check refused.
        source: String,
    },
}

/// One block that crossed the journal sync boundary.
#[derive(Debug, PartialEq, Eq)]
pub struct DurableBlock {
    /// Worker that wrote the block.
    pub worker: WorkerId,
    /// Exact half-open range of the block.
    pub range: Range<u64>,
}

impl DurableBlock {
    /// Exact half-open range of the block.
    pub fn range(&self) -> (range: &Range<u64>)
        ensures
            *range == self.range,
    {
        &self.range
    }
}

/// One allocation decision together with blocks committed by its ownership fence.
#[derive(Debug, PartialEq, Eq)]
pub struct AllocationReceipt {
    /// Work granted to the requesting worker, or `None` at the unsplittable tail.
    pub allocation: Option<Allocation>,
    /// Blocks made durable before the allocation changed ownership.
    pub durable: Vec<DurableBlock>,
}

impl AllocationReceipt {
    /// Work granted to the requesting worker, or `None` at the unsplittable tail.
    pub fn allocation(&self) -> (allocation: Option<&Allocation>)
        ensures
            allocation == (match self.allocation {
                Some(allocation) => Some(&allocation),
                None => None,
            }),
    {
        match &self.allocation {
            Some(allocation) => Some(allocation),
            None => None,
        }
    }

    /// Blocks made durable before the allocation changed ownership.
    pub fn durable(&self) -> (blocks: &[DurableBlock])
        ensures
            blocks@ == self.durable@,
    {
        self.durable.as_slice()
    }
}

/// One accepted sequential write and any blocks it made durable.
#[derive(Debug, PartialEq, Eq)]
pub struct WriteReceipt {
    /// Exact range accepted under the grant.
    pub range: Range<u64>,
    /// Blocks that crossed the journal sync boundary during this command.
    pub durable: Vec<DurableBlock>,
}

impl WriteReceipt {
    /// Exact range accepted under the grant.
    pub fn range(&self) -> (range: &Range<u64>)
        ensures
            *range == self.range,
    {
        &self.range
    }

    /// Blocks that crossed the journal sync boundary during this command.
    pub fn durable(&self) -> (blocks: &[DurableBlock])
        ensures
            blocks@ == self.durable@,
    {
        self.durable.as_slice()
    }
}

/// Reclaimed ownership together with blocks committed by the abandon fence.
#[derive(Debug, PartialEq, Eq)]
pub struct AbandonReceipt {
    /// Bytes returned from this worker to pending state.
    pub released: u64,
    /// Blocks made durable before ownership was reclaimed.
    pub durable: Vec<DurableBlock>,
}

impl AbandonReceipt {
    /// Bytes returned from this worker to pending state.
    pub fn released(&self) -> (bytes: u64)
        ensures
            bytes == self.released,
    {
        self.released
    }

    /// Blocks made durable before ownership was reclaimed.
    pub fn durable(&self) -> (blocks: &[DurableBlock])
        ensures
            blocks@ == self.durable@,
    {
        self.durable.as_slice()
    }
}

/// Canonical state returned by a snapshot or clean shutdown.
#[derive(Debug)]
pub struct WriterSnapshot {
    /// Sole allocator state at the actor's serialisation point.
    pub allocator: SegmentAllocator,
}

impl WriterSnapshot {
    /// Sole allocator state at the actor's serialisation point.
    pub fn allocator(&self) -> (allocator: &SegmentAllocator)
        ensures
            *allocator == self.allocator,
    {
        &self.allocator
    }
}

/// The byte states after storage reported blocks durable, in order, and the refusal that stopped
/// the record, if one did. A block is recorded only while its bytes belong to its worker.
pub open spec fn recorded(states: Seq<IntervalState>, blocks: Seq<DurableBlock>) -> (
    Seq<IntervalState>,
    Option<IntervalMapError>,
)
    decreases blocks.len(),
{
    if blocks.len() == 0 {
        (states, None)
    } else {
        let (before, refused) = recorded(states, blocks.drop_last());
        let block = blocks.last();
        if refused is Some {
            (before, refused)
        } else {
            match completion(before, block.range, block.worker) {
                Some(refusal) => (before, Some(refusal)),
                None => (
                    intervals::overwritten(
                        before,
                        block.range.start as int,
                        block.range.end as int,
                        IntervalState::Complete,
                    ),
                    None,
                ),
            }
        }
    }
}

/// Why a block cannot be recorded, judged from the byte states.
pub open spec fn completion(
    states: Seq<IntervalState>,
    range: Range<u64>,
    worker: WorkerId,
) -> Option<IntervalMapError> {
    if !intervals::valid_range(range.start, range.end, states.len() as int) {
        Some(
            IntervalMapError::InvalidRange {
                start: range.start,
                end: range.end,
                total_length: states.len() as u64,
            },
        )
    } else if intervals::wholly(
        states,
        range.start as int,
        range.end as int,
        IntervalState::InProgress { worker },
    ) {
        None
    } else {
        Some(IntervalMapError::RangeNotOwned { start: range.start, end: range.end, worker })
    }
}

/// Owner of one download's allocator.
#[derive(Debug)]
pub struct StateActor {
    allocator: SegmentAllocator,
}

impl StateActor {
    /// The allocator in its current state.
    pub closed spec fn held(&self) -> SegmentAllocator {
        self.allocator
    }

    /// The allocator is well formed.
    pub open spec fn wf(&self) -> bool {
        self.held().wf()
    }

    /// The state of every byte.
    pub open spec fn view(&self) -> Seq<IntervalState> {
        self.held().map()@
    }

    /// The allocator as it stands once the reported blocks are recorded.
    pub open spec fn fenced(&self, blocks: Seq<DurableBlock>, fenced: SegmentAllocator) -> bool {
        &&& fenced.wf()
        &&& fenced.floor() == self.held().floor()
        &&& fenced.map().length() == self.held().map().length()
        &&& fenced.map()@ == recorded(self@, blocks).0
    }

    /// Take ownership of an allocator.
    pub fn new(allocator: SegmentAllocator) -> (actor: Self)
        requires
            allocator.wf(),
        ensures
            actor.wf(),
            actor.held() == allocator,
    {
        StateActor { allocator }
    }

    /// Record reported blocks as complete.
    fn record(&mut self, blocks: &Vec<DurableBlock>) -> (done: Result<(), IntervalMapError>)
        requires
            old(self).wf(),
        ensures
            final(self).wf(),
            old(self).fenced(blocks@, final(self).held()),
            done == (match recorded(old(self)@, blocks@).1 {
                Some(refusal) => Err::<(), IntervalMapError>(refusal),
                None => Ok(()),
            }),
    {
        let mut index: usize = 0;
        proof {
            assert(blocks@.take(0) =~= Seq::<DurableBlock>::empty());
        }
        while index < blocks.len()
            invariant
                index <= blocks.len(),
                self.wf(),
                old(self).fenced(blocks@.take(index as int), self.held()),
                recorded(old(self)@, blocks@.take(index as int)).1 is None,
            decreases blocks.len() - index,
        {
            let block = &blocks[index];
            let ghost taken = blocks@.take(index as int);
            proof {
                assert(blocks@.take(index + 1).drop_last() =~= taken);
                assert(blocks@.take(index + 1).last() == *block);
                intervals::lemma_flatten(self.held().map().runs());
            }
            let range = Range { start: block.range.start, end: block.range.end };
            match self.allocator.complete_durable(block.worker, range) {
                Ok(()) => {},
                Err(AllocatorError::Interval(error)) => {
                    proof {
                        lemma_recorded_stops(old(self)@, blocks@, index + 1);
                    }
                    return Err(error);
                },
                Err(_) => {},
            }
            index = index + 1;
        }
        proof {
            assert(blocks@.take(blocks@.len() as int) =~= blocks@);
        }
        Ok(())
    }

    /// Force all staged blocks through the durability boundary: `flushed` is storage's report.
    pub fn flush(&mut self, flushed: Result<Vec<DurableBlock>, WriterError>) -> (done: Result<
        Vec<DurableBlock>,
        WriterServiceError,
    >)
        requires
            old(self).wf(),
        ensures
            final(self).wf(),
            match flushed {
                Err(error) => {
                    &&& done == Err::<Vec<DurableBlock>, WriterServiceError>(
                        WriterServiceError::Writer(error),
                    )
                    &&& *final(self) == *old(self)
                },
                Ok(blocks) => {
                    &&& old(self).fenced(blocks@, final(self).held())
                    &&& done == (match recorded(old(self)@, blocks@).1 {
                        Some(refusal) => Err(
                            WriterServiceError::Writer(WriterError::Interval(refusal)),
                        ),
                        None => Ok(blocks),
                    })
                },
            },
    {
        match flushed {
            Err(error) => Err(WriterServiceError::Writer(error)),
            Ok(blocks) => match self.record(&blocks) {
                Ok(()) => Ok(blocks),
                Err(error) => Err(WriterServiceError::Writer(WriterError::Interval(error))),
            },
        }
    }

    /// Give work to an idle worker, after everything staged was flushed.
    ///
    /// The flush is a fence: no byte that was written before it can change its owner, because it
    /// is complete by then.
    pub fn allocate(
        &mut self,
        flushed: Result<Vec<DurableBlock>, WriterError>,
        worker: WorkerId,
        quiesced: &BTreeSet<u64>,
    ) -> (receipt: Result<AllocationReceipt, WriterServiceError>)
        requires
            old(self).wf(),
        ensures
            final(self).wf(),
            final(self).held().floor() == old(self).held().floor(),
            final(self).held().map().length() == old(self).held().map().length(),
            match flushed {
                Err(error) => {
                    &&& receipt == Err::<AllocationReceipt, WriterServiceError>(
                        WriterServiceError::Writer(error),
                    )
                    &&& *final(self) == *old(self)
                },
                Ok(blocks) => match recorded(old(self)@, blocks@).1 {
                    Some(refusal) => {
                        &&& receipt == Err::<AllocationReceipt, WriterServiceError>(
                            WriterServiceError::Writer(WriterError::Interval(refusal)),
                        )
                        &&& old(self).fenced(blocks@, final(self).held())
                    },
                    None => exists|fence: SegmentAllocator|
                        {
                            &&& old(self).fenced(blocks@, fence)
                            &&& receipt == (match #[trigger] fence.allocate_answer(
                                worker,
                                quiesced@,
                            ) {
                                Ok(allocation) => Ok(
                                    AllocationReceipt { allocation, durable: blocks },
                                ),
                                Err(error) => Err(WriterServiceError::Allocator(error)),
                            })
                            &&& final(self)@ == granted_states(
                                fence.map()@,
                                fence.allocate_answer(worker, quiesced@),
                            )
                        },
                },
            },
    {
        let durable = self.flush(flushed)?;
        let ghost fence = self.allocator;
        match self.allocator.allocate(worker, quiesced) {
            Ok(allocation) => {
                proof {
                    assert(self@ =~= granted_states(
                        fence.map()@,
                        fence.allocate_answer(worker, quiesced@),
                    ));
                }
                Ok(AllocationReceipt { allocation, durable })
            },
            Err(error) => Err(WriterServiceError::Allocator(error)),
        }
    }

    /// Check a write before any input or output: its range must be wholly owned by the worker
    /// now. A cursor that outlived a split or an abandon is refused here.
    pub fn check_write(&self, worker: WorkerId, offset: u64, length: usize) -> (range: Result<
        Range<u64>,
        WriterServiceError,
    >)
        requires
            self.wf(),
        ensures
            range == (if offset + length > u64::MAX {
                Err::<Range<u64>, WriterServiceError>(WriterServiceError::CursorOverflow)
            } else {
                let attempt = Range { start: offset, end: (offset + length) as u64 };
                match completion(self@, attempt, worker) {
                    Some(refusal) => Err(
                        WriterServiceError::Writer(WriterError::Interval(refusal)),
                    ),
                    None => Ok(attempt),
                }
            }),
    {
        let end: u64 = match offset.checked_add(length as u64) {
            Some(end) => end,
            None => {
                return Err(WriterServiceError::CursorOverflow);
            },
        };
        let range = Range { start: offset, end };
        proof {
            intervals::lemma_flatten(self.held().map().runs());
        }
        match self.allocator.check_durable(worker, &range) {
            Ok(()) => Ok(range),
            Err(error) => Err(WriterServiceError::Writer(WriterError::Interval(error))),
        }
    }

    /// Conclude a checked write: `staged` is what storage reports of staging it.
    pub fn write(
        &mut self,
        range: Range<u64>,
        staged: Result<Vec<DurableBlock>, WriterError>,
    ) -> (receipt: Result<WriteReceipt, WriterServiceError>)
        requires
            old(self).wf(),
        ensures
            final(self).wf(),
            match staged {
                Err(error) => {
                    &&& receipt == Err::<WriteReceipt, WriterServiceError>(
                        WriterServiceError::Writer(error),
                    )
                    &&& *final(self) == *old(self)
                },
                Ok(blocks) => {
                    &&& old(self).fenced(blocks@, final(self).held())
                    &&& receipt == (match recorded(old(self)@, blocks@).1 {
                        Some(refusal) => Err(
                            WriterServiceError::Writer(WriterError::Interval(refusal)),
                        ),
                        None => Ok(WriteReceipt { range, durable: blocks }),
                    })
                },
            },
    {
        let durable = self.flush(staged)?;
        Ok(WriteReceipt { range, durable })
    }

    /// Reclaim every grant owned by `worker`, after everything staged was flushed.
    pub fn abandon(
        &mut self,
        flushed: Result<Vec<DurableBlock>, WriterError>,
        worker: WorkerId,
    ) -> (receipt: Result<AbandonReceipt, WriterServiceError>)
        requires
            old(self).wf(),
        ensures
            final(self).wf(),
            final(self).held().floor() == old(self).held().floor(),
            final(self).held().map().length() == old(self).held().map().length(),
            match flushed {
                Err(error) => {
                    &&& receipt == Err::<AbandonReceipt, WriterServiceError>(
                        WriterServiceError::Writer(error),
                    )
                    &&& *final(self) == *old(self)
                },
                Ok(blocks) => match recorded(old(self)@, blocks@) {
                    (fence, Some(refusal)) => {
                        &&& receipt == Err::<AbandonReceipt, WriterServiceError>(
                            WriterServiceError::Writer(WriterError::Interval(refusal)),
                        )
                        &&& final(self)@ == fence
                    },
                    (fence, None) => {
                        &&& receipt is Ok
                        &&& receipt->Ok_0.durable == blocks
                        &&& receipt->Ok_0.released == intervals::bytes_in(
                            fence,
                            IntervalState::InProgress { worker },
                        )
                        &&& final(self)@ == intervals::restated(
                            fence,
                            IntervalState::InProgress { worker },
                            IntervalState::Pending,
                        )
                    },
                },
            },
    {
        let durable = self.flush(flushed)?;
        let released: u64 = self.allocator.abandon(worker);
        Ok(AbandonReceipt { released, durable })
    }

    /// The worker whose grant the next split would target.
    pub fn split_candidate(&self) -> (candidate: Option<WorkerId>)
        requires
            self.wf(),
        ensures
            candidate == (match self.held().divisible(crate::allocator::Eligible::Owned) {
                Some(interval) => Some(interval.state->worker),
                None => None::<WorkerId>,
            }),
    {
        self.allocator.split_candidate()
    }

    /// Read the sole canonical allocator state.
    pub fn snapshot(&self) -> (snapshot: WriterSnapshot)
        ensures
            snapshot.allocator.map().runs() == self.held().map().runs(),
            snapshot.allocator.map().length() == self.held().map().length(),
            snapshot.allocator.floor() == self.held().floor(),
    {
        WriterSnapshot { allocator: self.allocator.clone() }
    }

    /// Flush and read the state a last time.
    pub fn shutdown(&mut self, flushed: Result<Vec<DurableBlock>, WriterError>) -> (last: Result<
        WriterSnapshot,
        WriterServiceError,
    >)
        requires
            old(self).wf(),
        ensures
            final(self).wf(),
            match flushed {
                Err(error) => {
                    &&& last == Err::<WriterSnapshot, WriterServiceError>(
                        WriterServiceError::Writer(error),
                    )
                    &&& *final(self) == *old(self)
                },
                Ok(blocks) => match recorded(old(self)@, blocks@).1 {
                    Some(refusal) => {
                        &&& last == Err::<WriterSnapshot, WriterServiceError>(
                            WriterServiceError::Writer(WriterError::Interval(refusal)),
                        )
                        &&& old(self).fenced(blocks@, final(self).held())
                    },
                    None => {
                        &&& last is Ok
                        &&& old(self).fenced(blocks@, final(self).held())
                        &&& old(self).fenced(blocks@, last->Ok_0.allocator)
                    },
                },
            },
    {
        self.flush(flushed)?;
        Ok(self.snapshot())
    }
}

/// The byte states after an allocation was answered.
pub open spec fn granted_states(
    states: Seq<IntervalState>,
    answer: Result<Option<Allocation>, AllocatorError>,
) -> Seq<IntervalState> {
    match answer {
        Ok(Some(allocation)) => intervals::overwritten(
            states,
            allocation.grant.range.start as int,
            allocation.grant.range.end as int,
            IntervalState::InProgress { worker: allocation.grant.worker },
        ),
        _ => states,
    }
}

/// Once a record stops, later blocks change nothing.
proof fn lemma_recorded_stops(states: Seq<IntervalState>, blocks: Seq<DurableBlock>, at: int)
    requires
        0 <= at <= blocks.len(),
        recorded(states, blocks.take(at)).1 is Some,
    ensures
        recorded(states, blocks) == recorded(states, blocks.take(at)),
    decreases blocks.len() - at,
{
    if at < blocks.len() {
        assert(blocks.take(at + 1).drop_last() =~= blocks.take(at));
        lemma_recorded_stops(states, blocks, at + 1);
    } else {
        assert(blocks.take(at) =~= blocks);
    }
}

/// Check a queue capacity: an empty queue would accept nothing.
pub fn check_capacity(capacity: usize) -> (checked: Result<(), WriterServiceError>)
    ensures
        checked == (if capacity == 0 {
            Err::<(), WriterServiceError>(WriterServiceError::ZeroQueueCapacity)
        } else {
            Ok(())
        }),
{
    if capacity == 0 {
        return Err(WriterServiceError::ZeroQueueCapacity);
    }
    Ok(())
}

/// Worker-facing sequential cursor over one allocator-issued grant.
///
/// There is no absolute-offset method. A worker supplies bytes; this type decides where they land
/// and the actor revalidates that range against current ownership before anything is stored.
#[derive(Debug)]
pub struct GrantWriter {
    grant: Grant,
    next_offset: u64,
}

/// Where the cursor would stand after `length` more bytes, or why they are refused.
pub open spec fn advance(grant: Grant, cursor: u64, length: usize) -> Result<
    u64,
    WriterServiceError,
> {
    if length > MAX_WRITE_BLOCK_BYTES {
        Err(
            WriterServiceError::BlockTooLarge { actual: length, maximum: MAX_WRITE_BLOCK_BYTES },
        )
    } else if cursor + length > u64::MAX {
        Err(WriterServiceError::CursorOverflow)
    } else if cursor + length > grant.range.end {
        Err(
            WriterServiceError::BeyondGrant {
                start: cursor,
                end: (cursor + length) as u64,
                grant_start: grant.range.start,
                grant_end: grant.range.end,
            },
        )
    } else {
        Ok((cursor + length) as u64)
    }
}

impl GrantWriter {
    /// The grant that the cursor moves in.
    pub closed spec fn within(&self) -> Grant {
        self.grant
    }

    /// Where the next byte lands.
    pub closed spec fn cursor(&self) -> u64 {
        self.next_offset
    }

    /// A cursor at the start of an allocator-issued grant.
    pub fn writer_for(grant: &Grant) -> (writer: Self)
        ensures
            writer.within() == *grant,
            writer.cursor() == grant.range.start,
    {
        GrantWriter { grant: grant.clone(), next_offset: grant.range.start }
    }

    /// Worker that owns the grant.
    pub fn worker(&self) -> (worker: WorkerId)
        ensures
            worker == self.within().worker,
    {
        self.grant.worker
    }

    /// Offset at which the next accepted byte will land.
    pub fn next_offset(&self) -> (offset: u64)
        ensures
            offset == self.cursor(),
    {
        self.next_offset
    }

    /// Check the next payload before it is queued.
    pub fn plan(&self, length: usize) -> (end: Result<u64, WriterServiceError>)
        ensures
            end == advance(self.within(), self.cursor(), length),
    {
        if length > MAX_WRITE_BLOCK_BYTES {
            return Err(
                WriterServiceError::BlockTooLarge {
                    actual: length,
                    maximum: MAX_WRITE_BLOCK_BYTES,
                },
            );
        }
        let end: u64 = match self.next_offset.checked_add(length as u64) {
            Some(end) => end,
            None => {
                return Err(WriterServiceError::CursorOverflow);
            },
        };
        if end > self.grant.range.end {
            return Err(
                WriterServiceError::BeyondGrant {
                    start: self.next_offset,
                    end,
                    grant_start: self.grant.range.start,
                    grant_end: self.grant.range.end,
                },
            );
        }
        Ok(end)
    }

    /// Conclude a payload: `reply` is what the actor answered. The cursor only moves past bytes
    /// that the actor accepted.
    pub fn write(&mut self, length: usize, reply: Result<WriteReceipt, WriterServiceError>) -> (
        receipt: Result<WriteReceipt, WriterServiceError>)
        ensures
            final(self).within() == old(self).within(),
            match advance(old(self).within(), old(self).cursor(), length) {
                Err(refusal) => {
                    &&& receipt == Err::<WriteReceipt, WriterServiceError>(refusal)
                    &&& final(self).cursor() == old(self).cursor()
                },
                Ok(end) => {
                    &&& receipt == reply
                    &&& final(self).cursor() == (if reply is Ok {
                        end
                    } else {
                        old(self).cursor()
                    })
                },
            },
    {
        let end: u64 = self.plan(length)?;
        let receipt = reply?;
        self.next_offset = end;
        Ok(receipt)
    }
}

/// What was complete, and what storage reported, is complete afterwards.
proof fn lemma_recorded_is_complete(
    states: Seq<IntervalState>,
    blocks: Seq<DurableBlock>,
    offset: int,
)
    requires
        0 <= offset < states.len(),
    ensures
        recorded(states, blocks).0.len() == states.len(),
        states[offset] == IntervalState::Complete ==> recorded(states, blocks).0[offset]
            == IntervalState::Complete,
        recorded(states, blocks).1 is None ==> forall|k: int|
            0 <= k < blocks.len() && (#[trigger] blocks[k]).range.start <= offset
                < blocks[k].range.end ==> recorded(states, blocks).0[offset]
                == IntervalState::Complete,
    decreases blocks.len(),
{
    if blocks.len() > 0 {
        lemma_recorded_is_complete(states, blocks.drop_last(), offset);
        if recorded(states, blocks).1 is None {
            assert forall|k: int|
                0 <= k < blocks.len() && (#[trigger] blocks[k]).range.start <= offset
                    < blocks[k].range.end implies recorded(states, blocks).0[offset]
                == IntervalState::Complete by {
                if k < blocks.len() - 1 {
                    assert(blocks.drop_last()[k] == blocks[k]);
                }
            }
        }
    }
}

/// A split is a durability fence: a byte that storage reported before the split is complete, the
/// new grant does not hold it, and it stays complete.
pub proof fn law_a_split_is_a_durability_fence(
    actor: StateActor,
    fence: SegmentAllocator,
    blocks: Seq<DurableBlock>,
    worker: WorkerId,
    quiesced: Set<u64>,
    k: int,
    offset: int,
)
    requires
        actor.wf(),
        actor.fenced(blocks, fence),
        recorded(actor@, blocks).1 is None,
        0 <= k < blocks.len(),
        blocks[k].range.start <= offset < blocks[k].range.end,
        0 <= offset < actor@.len(),
    ensures
        fence.map()@[offset] == IntervalState::Complete,
        granted_states(fence.map()@, fence.allocate_answer(worker, quiesced))[offset]
            == IntervalState::Complete,
{
    lemma_recorded_is_complete(actor@, blocks, offset);
    crate::allocator::law_a_live_grant_is_never_shortened(fence, worker, quiesced, offset);
}

/// Reclaiming a worker's grants keeps every reported byte complete and takes nothing from another
/// worker.
pub proof fn law_abandon_reclaims_only_the_remainder(
    actor: StateActor,
    blocks: Seq<DurableBlock>,
    worker: WorkerId,
    offset: int,
)
    requires
        actor.wf(),
        recorded(actor@, blocks).1 is None,
        0 <= offset < actor@.len(),
    ensures
        ({
            let fence = recorded(actor@, blocks).0;
            let after = intervals::restated(
                fence,
                IntervalState::InProgress { worker },
                IntervalState::Pending,
            );
            &&& fence[offset] != (IntervalState::InProgress { worker }) ==> after[offset]
                == fence[offset]
            &&& forall|k: int|
                0 <= k < blocks.len() && (#[trigger] blocks[k]).range.start <= offset
                    < blocks[k].range.end ==> after[offset] == IntervalState::Complete
        }),
{
    lemma_recorded_is_complete(actor@, blocks, offset);
}

/// A write whose bytes are not all owned by its worker any more is refused before it is stored.
pub proof fn law_a_stale_write_never_reaches_storage(
    states: Seq<IntervalState>,
    range: Range<u64>,
    worker: WorkerId,
    offset: int,
)
    requires
        range.start <= offset < range.end,
        0 <= offset < states.len(),
        states[offset] != (IntervalState::InProgress { worker }),
    ensures
        completion(states, range, worker) is Some,
{
}

/// A block is recorded exactly if it lies in the file and every byte of it belongs to its worker.
pub proof fn law_a_block_is_recorded_while_it_is_owned(
    states: Seq<IntervalState>,
    range: Range<u64>,
    worker: WorkerId,
)
    ensures
        completion(states, range, worker) is None <==> range.start < range.end && range.end
            <= states.len() && forall|i: int|
            range.start <= i < range.end ==> #[trigger] states[i] == (IntervalState::InProgress {
                worker,
            }),
        completion(states, range, worker) is Some && (range.start >= range.end || range.end
            > states.len()) ==> completion(states, range, worker)->0 is InvalidRange,
        completion(states, range, worker) is Some && range.start < range.end && range.end
            <= states.len() ==> completion(states, range, worker)->0 == (
        IntervalMapError::RangeNotOwned { start: range.start, end: range.end, worker }),
{
}

/// No block takes part in another's bytes, and each lies in the file and belongs to its worker.
pub open spec fn all_owned(states: Seq<IntervalState>, blocks: Seq<DurableBlock>) -> bool {
    &&& forall|k: int|
        0 <= k < blocks.len() ==> (#[trigger] blocks[k]).range.start < blocks[k].range.end
            && blocks[k].range.end <= states.len() && intervals::wholly(
            states,
            blocks[k].range.start as int,
            blocks[k].range.end as int,
            IntervalState::InProgress { worker: blocks[k].worker },
        )
    &&& forall|k: int, l: int|
        0 <= k < l < blocks.len() ==> (#[trigger] blocks[k]).range.end <= (
        #[trigger] blocks[l]).range.start || blocks[l].range.end <= blocks[k].range.start
}

/// Whatever storage reported is recorded: of disjoint blocks that belong to their workers none is
/// refused, every byte of every block is complete afterwards, and every other byte is as it was.
/// So the order of the reports does not matter.
pub proof fn law_everything_reported_is_recorded(
    states: Seq<IntervalState>,
    blocks: Seq<DurableBlock>,
    offset: int,
)
    requires
        all_owned(states, blocks),
        0 <= offset < states.len(),
    ensures
        recorded(states, blocks).1 is None,
        recorded(states, blocks).0.len() == states.len(),
        recorded(states, blocks).0[offset] == (if exists|k: int|
            0 <= k < blocks.len() && (#[trigger] blocks[k]).range.start <= offset
                < blocks[k].range.end {
            IntervalState::Complete
        } else {
            states[offset]
        }),
    decreases blocks.len(),
{
    if blocks.len() > 0 {
        let front = blocks.drop_last();
        let last = blocks.last();
        lemma_front_owned(states, blocks);
        law_everything_reported_is_recorded(states, front, offset);
        let before = recorded(states, front).0;
        assert forall|i: int| last.range.start <= i < last.range.end implies #[trigger] before[i]
            == (IntervalState::InProgress { worker: last.worker }) by {
            assert(blocks[blocks.len() - 1] == last);
            law_everything_reported_is_recorded(states, front, i);
            assert(states[i] == (IntervalState::InProgress { worker: last.worker }));
            if exists|k: int|
                0 <= k < front.len() && (#[trigger] front[k]).range.start <= i < front[k].range.end {
                let k = choose|k: int|
                    0 <= k < front.len() && (#[trigger] front[k]).range.start <= i
                        < front[k].range.end;
                assert(blocks[k] == front[k]);
                assert(blocks[k].range.end <= blocks[blocks.len() - 1].range.start
                    || blocks[blocks.len() - 1].range.end <= blocks[k].range.start);
            }
        }
        assert(blocks[blocks.len() - 1] == last);
        assert(completion(before, last.range, last.worker) is None);
        if exists|k: int|
            0 <= k < blocks.len() && (#[trigger] blocks[k]).range.start <= offset
                < blocks[k].range.end {
            let k = choose|k: int|
                0 <= k < blocks.len() && (#[trigger] blocks[k]).range.start <= offset
                    < blocks[k].range.end;
            if k < front.len() {
                assert(front[k] == blocks[k]);
            }
        }
        if exists|k: int|
            0 <= k < front.len() && (#[trigger] front[k]).range.start <= offset
                < front[k].range.end {
            let k = choose|k: int|
                0 <= k < front.len() && (#[trigger] front[k]).range.start <= offset
                    < front[k].range.end;
            assert(blocks[k] == front[k]);
        }
    }
}

proof fn lemma_front_owned(states: Seq<IntervalState>, blocks: Seq<DurableBlock>)
    requires
        blocks.len() > 0,
        all_owned(states, blocks),
    ensures
        all_owned(states, blocks.drop_last()),
{
    let front = blocks.drop_last();
    assert(forall|k: int| 0 <= k < front.len() ==> #[trigger] front[k] == blocks[k]);
}

/// A record never invents anything: a byte that changed lies in a reported block, belonged to that
/// block's worker, and is complete.
pub proof fn law_a_record_invents_nothing(
    states: Seq<IntervalState>,
    blocks: Seq<DurableBlock>,
    offset: int,
)
    requires
        0 <= offset < states.len(),
    ensures
        recorded(states, blocks).0.len() == states.len(),
        recorded(states, blocks).0[offset] != states[offset] ==> recorded(
            states,
            blocks,
        ).0[offset] == IntervalState::Complete && exists|k: int|
            0 <= k < blocks.len() && (#[trigger] blocks[k]).range.start <= offset
                < blocks[k].range.end && states[offset] == (IntervalState::InProgress {
                worker: blocks[k].worker,
            }),
    decreases blocks.len(),
{
    if blocks.len() > 0 {
        let front = blocks.drop_last();
        law_a_record_invents_nothing(states, front, offset);
        let before = recorded(states, front).0;
        if before[offset] != states[offset] {
            let k = choose|k: int|
                0 <= k < front.len() && (#[trigger] front[k]).range.start <= offset
                    < front[k].range.end && states[offset] == (IntervalState::InProgress {
                    worker: front[k].worker,
                });
            assert(blocks[k] == front[k]);
        } else if recorded(states, blocks).0[offset] != states[offset] {
            assert(blocks[blocks.len() - 1].range.start <= offset < blocks[blocks.len()
                - 1].range.end);
        }
    }
}

/// A grant's bytes are written one behind the other and never beyond its end; a block above the
/// bound, a cursor that 64 bits do not hold and a write beyond the grant are told apart.
pub proof fn law_a_cursor_stays_in_its_grant(grant: Grant, cursor: u64, length: usize)
    ensures
        ({
            let moved = advance(grant, cursor, length);
            &&& moved is Ok <==> length <= MAX_WRITE_BLOCK_BYTES && cursor + length <= grant.range.end
            &&& moved matches Ok(end) ==> end == cursor + length && end <= grant.range.end
            &&& length > MAX_WRITE_BLOCK_BYTES ==> moved == Err::<u64, WriterServiceError>(
                WriterServiceError::BlockTooLarge {
                    actual: length,
                    maximum: MAX_WRITE_BLOCK_BYTES,
                },
            )
            &&& length <= MAX_WRITE_BLOCK_BYTES && cursor + length > u64::MAX ==> moved == Err::<
                u64,
                WriterServiceError,
            >(WriterServiceError::CursorOverflow)
            &&& length <= MAX_WRITE_BLOCK_BYTES && grant.range.end < cursor + length <= u64::MAX
                ==> moved == Err::<u64, WriterServiceError>(
                WriterServiceError::BeyondGrant {
                    start: cursor,
                    end: (cursor + length) as u64,
                    grant_start: grant.range.start,
                    grant_end: grant.range.end,
                },
            )
        }),
{
}

/// Handing out work gives the new grant's bytes to its worker and leaves every other byte alone;
/// where none was handed out, nothing changes.
pub proof fn law_handing_out_work_changes_the_grant_alone(
    states: Seq<IntervalState>,
    answer: Result<Option<Allocation>, AllocatorError>,
    offset: int,
)
    requires
        0 <= offset < states.len(),
    ensures
        granted_states(states, answer).len() == states.len(),
        answer matches Ok(Some(given)) ==> granted_states(states, answer)[offset] == (
        if given.grant.range.start <= offset < given.grant.range.end {
            IntervalState::InProgress { worker: given.grant.worker }
        } else {
            states[offset]
        }),
        answer is Err || answer->Ok_0 is None ==> granted_states(states, answer) == states,
{
}

/// A fence records what was reported and changes nothing else: the file is as long as before, the
/// floor of a split stays, and the byte states are those of the record.
pub proof fn law_a_fence_records_and_nothing_else(
    actor: StateActor,
    blocks: Seq<DurableBlock>,
    fence: SegmentAllocator,
)
    requires
        actor.wf(),
        actor.fenced(blocks, fence),
    ensures
        fence.wf(),
        fence.floor() == actor.held().floor(),
        fence.map().length() == actor.held().map().length(),
        fence.map()@ == recorded(actor@, blocks).0,
        blocks.len() == 0 ==> fence.map().runs() == actor.held().map().runs(),
{
    if blocks.len() == 0 {
        intervals::law_partition_is_canonical(fence.map(), actor.held().map());
    }
}

} // verus!
