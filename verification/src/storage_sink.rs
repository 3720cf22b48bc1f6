//! What a single-stream download keeps on disk, and how storage failures are told apart.
//!
//! A representation of stated length gets a preallocated part file, a recovery journal and an
//! interval map; one without gets a growing part file and nothing a replay could use. Files are
//! created, written and synced by the caller; this module decides what.

use crate::intervals;
use crate::intervals::{IntervalMap, IntervalMapError, IntervalState, WorkerId};
use crate::sink::SinkError;
use crate::text;
use crate::writer_service::{PartFileError, WriterError};
use std::ops::Range;
use vstd::prelude::*;
use vstd::string::StringExecFns;

verus! {

/// The number of the single worker that a single-stream transfer uses.
pub const SINGLE_STREAM_WORKER: u64 = 1;

/// The durable artifacts one download owns.
#[derive(Debug, PartialEq, Eq)]
pub struct Artifacts {
    /// The part file receiving bytes.
    pub part_path: String,
    /// The recovery journal, absent when the representation length is unknown.
    pub journal_path: Option<String>,
}

impl Clone for Artifacts {
    /// Copies the paths.
    fn clone(&self) -> (copy: Self)
        ensures
            copy == *self,
    {
        Artifacts {
            part_path: self.part_path.clone(),
            journal_path: text::copied(&self.journal_path),
        }
    }
}

/// What a journal file says of its download.
#[derive(Clone, Copy, Debug, PartialEq, Eq)]
pub struct FileHeader {
    /// Identity of the transfer.
    pub transfer_id: [u8; 16],
    /// Length of the representation.
    pub total_length: u64,
    /// Block granularity; zero where there is none.
    pub block_size: u32,
    /// Binding to the remote validator.
    pub validator_hash: [u8; 32],
}

/// The part file beside a final path.
pub fn part_path_of(final_path: &str) -> (path: String)
    ensures
        path@ == final_path@ + ".dppart"@,
{
    String::from_str(final_path).concat(".dppart")
}

/// The file name of a transfer's recovery journal.
pub fn journal_name_for(transfer_id: &[u8; 16]) -> (name: String)
    ensures
        name@ == text::hex(transfer_id@) + ".dpj"@,
{
    text::to_hex(transfer_id.as_slice()).concat(".dpj")
}

/// The end of the contiguous durable prefix: the first byte that is not complete.
pub open spec fn durable_prefix(states: Seq<IntervalState>) -> nat
    decreases states.len(),
{
    if states.len() > 0 && states[0] == IntervalState::Complete {
        1 + durable_prefix(states.skip(1))
    } else {
        0
    }
}

proof fn lemma_durable_prefix(states: Seq<IntervalState>, end: nat)
    requires
        end <= states.len(),
        intervals::wholly(states, 0, end as int, IntervalState::Complete),
        end < states.len() ==> states[end as int] != IntervalState::Complete,
    ensures
        durable_prefix(states) == end,
    decreases states.len(),
{
    if end > 0 {
        assert(states[0] == IntervalState::Complete);
        let rest = states.skip(1);
        assert forall|i: int| 0 <= i < end - 1 implies #[trigger] rest[i]
            == IntervalState::Complete by {
            assert(states[i + 1] == IntervalState::Complete);
        }
        lemma_durable_prefix(rest, (end - 1) as nat);
    }
}

/// The state of every byte that a journal's blocks prove, in the order of their record. A block
/// that does not fit the representation, or overlaps one that counts already, is passed over.
pub open spec fn replayed(total_length: u64, blocks: Seq<Range<u64>>) -> Seq<IntervalState>
    decreases blocks.len(),
{
    if blocks.len() == 0 {
        intervals::repeated(total_length as int, IntervalState::Pending)
    } else {
        let before = replayed(total_length, blocks.drop_last());
        let block = blocks.last();
        if intervals::valid_range(block.start, block.end, total_length as int)
            && intervals::wholly(
            before,
            block.start as int,
            block.end as int,
            IntervalState::Pending,
        ) {
            intervals::overwritten(
                before,
                block.start as int,
                block.end as int,
                IntervalState::Complete,
            )
        } else {
            before
        }
    }
}

/// The partition that a journal proves: its durable blocks are complete, and the rest is pending.
pub fn replay(total_length: u64, blocks: &Vec<Range<u64>>) -> (map: IntervalMap)
    ensures
        map.wf(),
        map.length() == total_length,
        map@ == replayed(total_length, blocks@),
{
    let mut map = IntervalMap::new(total_length);
    let worker = WorkerId::new(SINGLE_STREAM_WORKER);
    let mut index: usize = 0;
    proof {
        assert(blocks@.take(0) =~= Seq::<Range<u64>>::empty());
    }
    while index < blocks.len()
        invariant
            index <= blocks@.len(),
            map.wf(),
            map.length() == total_length,
            map@ == replayed(total_length, blocks@.take(index as int)),
        decreases blocks@.len() - index,
    {
        let start: u64 = blocks[index].start;
        let end: u64 = blocks[index].end;
        let ghost before = map@;
        proof {
            assert(blocks@.take(index + 1).drop_last() =~= blocks@.take(index as int));
            assert(blocks@.take(index + 1).last() == blocks@[index as int]);
            intervals::lemma_flatten(map.runs());
        }
        if map.grant(Range { start, end }, worker).is_ok() {
            let _ = map.complete(Range { start, end }, worker);
            proof {
                assert(map@ =~= intervals::overwritten(
                    before,
                    start as int,
                    end as int,
                    IntervalState::Complete,
                ));
            }
        }
        index = index + 1;
    }
    proof {
        assert(blocks@.take(blocks@.len() as int) =~= blocks@);
    }
    map
}

/// A journal proves what stands in it and nothing else: a byte counts as durable only if a
/// recorded block holds it, and every other byte is pending.
pub proof fn law_a_journal_proves_its_blocks_alone(
    total_length: u64,
    blocks: Seq<Range<u64>>,
    offset: int,
)
    requires
        0 <= offset < total_length,
    ensures
        replayed(total_length, blocks).len() == total_length,
        ({
            ||| replayed(total_length, blocks)[offset] == IntervalState::Pending
            ||| (replayed(total_length, blocks)[offset] == IntervalState::Complete && exists|k: int|
                0 <= k < blocks.len() && (#[trigger] blocks[k]).start <= offset < blocks[k].end)
        }),
    decreases blocks.len(),
{
    if blocks.len() > 0 {
        let front = blocks.drop_last();
        law_a_journal_proves_its_blocks_alone(total_length, front, offset);
        if replayed(total_length, front)[offset] == IntervalState::Complete {
            let k = choose|k: int|
                0 <= k < front.len() && (#[trigger] front[k]).start <= offset < front[k].end;
            assert(blocks[k] == front[k]);
        } else if replayed(total_length, blocks)[offset] == IntervalState::Complete {
            assert(blocks[blocks.len() - 1].start <= offset < blocks[blocks.len() - 1].end);
        }
    }
}

/// Where a resume may continue from: past the commit point, never merely past what was written.
pub fn durable_prefix_end(intervals: &IntervalMap) -> (end: u64)
    requires
        intervals.wf(),
    ensures
        end == durable_prefix(intervals@),
{
    let runs = intervals.intervals();
    proof {
        intervals::lemma_flatten(runs@);
    }
    let mut index: usize = 0;
    while index < runs.len()
        invariant
            intervals.wf(),
            runs@ == intervals.runs(),
            intervals@.len() == intervals.length(),
            index <= runs.len(),
            forall|k: int| 0 <= k < index ==> (#[trigger] runs@[k]).state == IntervalState::Complete,
        decreases runs.len() - index,
    {
        let interval = runs[index];
        if interval.state != IntervalState::Complete {
            proof {
                intervals.lemma_run_of(index as int, interval.start as int);
                lemma_complete_below(intervals, index as int, interval.start as int);
                lemma_durable_prefix(intervals@, interval.start as nat);
            }
            return interval.start;
        }
        index = index + 1;
    }
    proof {
        lemma_complete_below(intervals, runs@.len() as int, intervals.length() as int);
        lemma_durable_prefix(intervals@, intervals.length() as nat);
    }
    intervals.total_length()
}

/// Complete intervals in front of an offset make every byte below it complete.
proof fn lemma_complete_below(map: &IntervalMap, count: int, offset: int)
    requires
        map.wf(),
        0 <= count <= map.runs().len(),
        count < map.runs().len() ==> offset == map.runs()[count].start,
        count == map.runs().len() ==> offset == map.length(),
        forall|k: int|
            0 <= k < count ==> (#[trigger] map.runs()[k]).state == IntervalState::Complete,
    ensures
        intervals::wholly(map@, 0, offset, IntervalState::Complete),
{
    let runs = map.runs();
    intervals::lemma_flatten(runs);
    if count < runs.len() {
        map.lemma_run_of(count, runs[count].start as int);
    }
    assert forall|i: int| 0 <= i < offset implies #[trigger] map@[i]
        == IntervalState::Complete by {
        let k = intervals::lemma_interval_of(runs, i);
        if k >= count {
            intervals::lemma_ordered(runs, count, k);
        }
        assert(intervals::flatten(runs)[i] == runs[k].state);
    }
}

/// Which system's error numbers apply.
#[derive(Clone, Copy, Debug, PartialEq, Eq, Structural)]
pub enum Platform {
    /// Unix numbers.
    Unix,
    /// Windows numbers.
    Windows,
    /// Neither.
    Other,
}

/// The number means that the device is full.
pub open spec fn means_full(platform: Platform, code: Option<i32>) -> bool {
    match platform {
        Platform::Unix => code == Some(28i32),
        Platform::Windows => code == Some(39i32) || code == Some(112i32),
        Platform::Other => false,
    }
}

/// Separate a full device from other failures, because it pauses a download instead of truncating
/// it.
pub fn classify_io(platform: Platform, offset: u64, code: Option<i32>, source: String) -> (error:
    SinkError)
    ensures
        error == (if means_full(platform, code) {
            SinkError::NoSpace { offset }
        } else {
            SinkError::Io { offset, source }
        }),
{
    let full: bool = match (platform, code) {
        (Platform::Unix, Some(code)) => code == 28,
        (Platform::Windows, Some(code)) => code == 39 || code == 112,
        _ => false,
    };
    if full {
        SinkError::NoSpace { offset }
    } else {
        SinkError::Io { offset, source }
    }
}

/// A part-file failure in the sink's vocabulary.
pub open spec fn part_failure(platform: Platform, offset: u64, error: PartFileError) -> SinkError {
    match error {
        PartFileError::Io { code, source } => if means_full(platform, code) {
            SinkError::NoSpace { offset }
        } else {
            SinkError::Io { offset, source }
        },
        PartFileError::OutOfBounds { offset: start, length, total_length } =>
            SinkError::BeyondGrant {
            grant: total_length,
            already_written: start,
            attempted: length,
        },
        PartFileError::Other { source } => SinkError::Io { offset, source },
    }
}

/// Map a part-file failure onto the sink's vocabulary.
pub fn part_error(platform: Platform, offset: u64, error: PartFileError) -> (mapped: SinkError)
    ensures
        mapped == part_failure(platform, offset, error),
{
    match error {
        PartFileError::Io { code, source } => classify_io(platform, offset, code, source),
        PartFileError::OutOfBounds { offset: start, length, total_length } =>
            SinkError::BeyondGrant {
            grant: total_length,
            already_written: start,
            attempted: length,
        },
        PartFileError::Other { source } => SinkError::Io { offset, source },
    }
}

/// A writer failure in the sink's vocabulary.
pub open spec fn writer_failure(
    platform: Platform,
    offset: u64,
    error: WriterError,
    rendered: String,
) -> SinkError {
    match error {
        WriterError::PartFile(inner) => part_failure(platform, offset, inner),
        WriterError::Io { operation, code, source } => if means_full(platform, code) {
            SinkError::NoSpace { offset }
        } else {
            SinkError::Io { offset, source }
        },
        _ => SinkError::Io { offset, source: rendered },
    }
}

/// Map a writer failure onto the sink's vocabulary; `rendered` is the failure's own text, used
/// where nothing more precise is known.
pub fn writer_error(platform: Platform, offset: u64, error: WriterError, rendered: String) -> (
    mapped: SinkError)
    ensures
        mapped == writer_failure(platform, offset, error, rendered),
{
    match error {
        WriterError::PartFile(inner) => part_error(platform, offset, inner),
        WriterError::Io { operation: _, code, source } => classify_io(
            platform,
            offset,
            code,
            source,
        ),
        _ => SinkError::Io { offset, source: rendered },
    }
}

/// A verification failure in the sink's vocabulary: every one is a refusal to name the file.
pub fn completion_error(reason: String) -> (mapped: SinkError)
    ensures
        mapped == (SinkError::Io { offset: 0, source: reason }),
{
    SinkError::Io { offset: 0, source: reason }
}

/// What to do about a journal that could not be created.
#[derive(Debug, PartialEq, Eq)]
pub enum JournalStep {
    /// The journal in the way has no part file left; remove it and create it again.
    Replace,
    /// The download fails.
    Fail(SinkError),
}

/// The part file was just created exclusively, so no other owner holds this target and a journal
/// already there is orphaned: it is replaced rather than allowed to block.
pub fn on_journal_refused(platform: Platform, error: WriterError, rendered: String) -> (step:
    JournalStep)
    ensures
        step == (match error {
            WriterError::JournalAlreadyExists { path } => JournalStep::Replace,
            _ => JournalStep::Fail(writer_failure(platform, 0, error, rendered)),
        }),
{
    match error {
        WriterError::JournalAlreadyExists { .. } => JournalStep::Replace,
        other => JournalStep::Fail(writer_error(platform, 0, other, rendered)),
    }
}

/// Either the full storage stack, or the reduced form that a lengthless representation allows.
#[derive(Debug)]
pub enum Backing {
    /// The server stated a length: preallocated extent, journal, interval map.
    Journalled {
        /// Which bytes are granted and which are durable.
        intervals: IntervalMap,
    },
    /// The server stated no length: there is nothing to preallocate and nothing to resume from.
    Lengthless,
}

/// How one write is stored.
#[derive(Clone, Copy, Debug, PartialEq, Eq, Structural)]
pub enum WritePlan {
    /// Stage it under the single worker's grant.
    Stage,
    /// Let the part file grow to this length, then write.
    ExtendTo(u64),
}

/// A single-stream download's durable state.
#[derive(Debug)]
pub struct StorageSink {
    backing: Backing,
    artifacts: Artifacts,
}

impl StorageSink {
    /// Which bytes are granted and durable; nothing is tracked without a length.
    pub closed spec fn map(&self) -> Option<IntervalMap> {
        match self.backing {
            Backing::Journalled { intervals } => Some(intervals),
            Backing::Lengthless => None,
        }
    }

    /// The paths in use.
    pub closed spec fn paths(&self) -> Artifacts {
        self.artifacts
    }

    /// The interval map, where there is one, is well formed.
    pub open spec fn wf(&self) -> bool {
        self.map() matches Some(map) ==> map.wf()
    }

    /// Plan the durable artifacts for one download.
    ///
    /// `target` is the final path; the part file stands beside it, so that the eventual rename
    /// stays on one file system. With a stated length the whole representation is granted to the
    /// one worker that a single stream has, and the journal's header is returned; an empty
    /// representation has no range to grant.
    pub fn create(
        target: &str,
        journal_path: String,
        total_length: Option<u64>,
        transfer_id: [u8; 16],
        validator_hash: [u8; 32],
    ) -> (created: (Self, Option<FileHeader>))
        ensures
            created.0.wf(),
            created.0.paths().part_path@ == target@ + ".dppart"@,
            match total_length {
                Some(length) => {
                    &&& created.0.paths().journal_path == Some(journal_path)
                    &&& created.1 == Some(
                        FileHeader {
                            transfer_id,
                            total_length: length,
                            block_size: 0,
                            validator_hash,
                        },
                    )
                    &&& created.0.map() is Some
                    &&& created.0.map()->0.length() == length
                    &&& created.0.map()->0@ == intervals::repeated(
                        length as int,
                        IntervalState::InProgress { worker: WorkerId(SINGLE_STREAM_WORKER) },
                    )
                },
                None => {
                    &&& created.0.paths().journal_path is None
                    &&& created.1 is None
                    &&& created.0.map() is None
                },
            },
    {
        let part_path = part_path_of(target);
        match total_length {
            Some(total_length) => {
                let mut map = IntervalMap::new(total_length);
                if total_length > 0 {
                    let _ = map.grant(
                        Range { start: 0, end: total_length },
                        WorkerId(SINGLE_STREAM_WORKER),
                    );
                }
                proof {
                    assert(map@ =~= intervals::repeated(
                        total_length as int,
                        IntervalState::InProgress { worker: WorkerId(SINGLE_STREAM_WORKER) },
                    ));
                }
                (
                    StorageSink {
                        backing: Backing::Journalled { intervals: map },
                        artifacts: Artifacts { part_path, journal_path: Some(journal_path) },
                    },
                    Some(
                        FileHeader { transfer_id, total_length, block_size: 0, validator_hash },
                    ),
                )
            },
            None => (
                StorageSink {
                    backing: Backing::Lengthless,
                    artifacts: Artifacts { part_path, journal_path: None },
                },
                None,
            ),
        }
    }

    /// The durable artifacts of this download.
    pub fn artifacts(&self) -> (artifacts: &Artifacts)
        ensures
            *artifacts == self.paths(),
    {
        &self.artifacts
    }

    /// How `length` bytes at `offset` are stored. Staged bytes must lie in the single worker's
    /// grant and be not yet complete.
    pub fn plan_write(&self, offset: u64, length: usize) -> (plan: Result<WritePlan, SinkError>)
        ensures
            self.map() is Some ==> plan == Ok::<WritePlan, SinkError>(WritePlan::Stage),
            self.map() is None && offset + length <= u64::MAX ==> plan == Ok::<
                WritePlan,
                SinkError,
            >(WritePlan::ExtendTo((offset + length) as u64)),
            self.map() is None && offset + length > u64::MAX ==> plan == Err::<
                WritePlan,
                SinkError,
            >(SinkError::LengthOverflow),
    {
        match &self.backing {
            Backing::Journalled { .. } => Ok(WritePlan::Stage),
            Backing::Lengthless => match offset.checked_add(length as u64) {
                Some(end) => Ok(WritePlan::ExtendTo(end)),
                None => Err(SinkError::LengthOverflow),
            },
        }
    }

    /// Take note of a block that crossed the journal sync boundary.
    pub fn on_durable(&mut self, range: Range<u64>) -> (noted: Result<(), IntervalMapError>)
        requires
            old(self).wf(),
        ensures
            final(self).wf(),
            final(self).paths() == old(self).paths(),
            match old(self).map() {
                Some(map) => {
                    &&& noted == map.complete_answer(range, WorkerId(SINGLE_STREAM_WORKER))
                    &&& final(self).map() is Some
                    &&& final(self).map()->0.length() == map.length()
                    &&& noted is Ok ==> final(self).map()->0@ == intervals::overwritten(
                        map@,
                        range.start as int,
                        range.end as int,
                        IntervalState::Complete,
                    )
                    &&& noted is Err ==> final(self).map()->0@ == map@
                },
                None => noted is Ok && final(self).map() is None,
            },
    {
        match &mut self.backing {
            Backing::Journalled { intervals } => intervals.complete(
                range,
                WorkerId(SINGLE_STREAM_WORKER),
            ),
            Backing::Lengthless => Ok(()),
        }
    }

    /// Where a resume may continue from. A representation without a stated length cannot be
    /// resumed, so its prefix is empty.
    pub fn durable_prefix_end(&self) -> (end: u64)
        requires
            self.wf(),
        ensures
            end == (match self.map() {
                Some(map) => durable_prefix(map@),
                None => 0nat,
            }),
    {
        match &self.backing {
            Backing::Journalled { intervals } => durable_prefix_end(intervals),
            Backing::Lengthless => 0,
        }
    }

    /// Whether the download may be sealed and named now: never with work still staged.
    pub fn check_seal(&self, has_staged_work: bool) -> (checked: Result<(), SinkError>)
        ensures
            checked is Err <==> self.map() is Some && has_staged_work,
            checked matches Err(error) ==> error@ == (SinkError::Io {
                offset: 0,
                source: "cannot seal a journal with work still staged; flush first"@,
            }),
    {
        match &self.backing {
            Backing::Journalled { .. } => if has_staged_work {
                Err(
                    SinkError::Io {
                        offset: 0,
                        source: "cannot seal a journal with work still staged; flush first".to_owned(),
                    },
                )
            } else {
                Ok(())
            },
            Backing::Lengthless => Ok(()),
        }
    }

    /// The verified download has its final name: returns the journal to remove.
    pub fn on_named(&mut self) -> (journal: Option<String>)
        ensures
            journal == old(self).paths().journal_path,
            final(self).paths() == (Artifacts {
                part_path: old(self).paths().part_path,
                journal_path: None,
            }),
            final(self).map() == old(self).map(),
    {
        self.artifacts.journal_path.take()
    }
}

/// The durable prefix holds complete bytes only, and stops at the first that is not.
pub proof fn law_a_resume_never_starts_past_an_undurable_byte(states: Seq<IntervalState>)
    ensures
        durable_prefix(states) <= states.len(),
        forall|i: int|
            0 <= i < durable_prefix(states) ==> #[trigger] states[i] == IntervalState::Complete,
        durable_prefix(states) < states.len() ==> states[durable_prefix(states) as int]
            != IntervalState::Complete,
    decreases states.len(),
{
    if states.len() > 0 && states[0] == IntervalState::Complete {
        let rest = states.skip(1);
        law_a_resume_never_starts_past_an_undurable_byte(rest);
        assert forall|i: int| 0 <= i < durable_prefix(states) implies #[trigger] states[i]
            == IntervalState::Complete by {
            if i > 0 {
                assert(rest[i - 1] == IntervalState::Complete);
            }
        }
    }
}

/// No byte lies in both ranges.
pub open spec fn apart(one: Range<u64>, other: Range<u64>) -> bool {
    forall|offset: int|
        !(one.start <= offset < one.end && #[trigger] in_block(other, offset))
}

/// The byte lies in the block.
pub open spec fn in_block(block: Range<u64>, offset: int) -> bool {
    block.start <= offset < block.end
}

/// Some recorded block holds the byte.
pub open spec fn recorded_at(blocks: Seq<Range<u64>>, offset: int) -> bool {
    exists|k: int| 0 <= k < blocks.len() && in_block(#[trigger] blocks[k], offset)
}

/// Every block is a range of the representation, and no two of them share a byte.
pub open spec fn proper(total_length: u64, blocks: Seq<Range<u64>>) -> bool {
    &&& forall|k: int|
        0 <= k < blocks.len() ==> (#[trigger] blocks[k]).start < blocks[k].end <= total_length
    &&& forall|k: int, l: int|
        0 <= k < l < blocks.len() ==> apart(#[trigger] blocks[k], #[trigger] blocks[l])
}

/// Every block that fits the representation and shares no byte with an earlier one is recovered to
/// its last byte, whatever else stands in the journal.
pub proof fn law_a_recorded_block_is_recovered(
    total_length: u64,
    blocks: Seq<Range<u64>>,
    block: int,
    offset: int,
)
    requires
        0 <= block < blocks.len(),
        blocks[block].start < blocks[block].end <= total_length,
        forall|k: int| 0 <= k < block ==> apart(#[trigger] blocks[k], blocks[block]),
        in_block(blocks[block], offset),
    ensures
        replayed(total_length, blocks)[offset] == IntervalState::Complete,
    decreases blocks.len(),
{
    let front = blocks.drop_last();
    law_a_journal_proves_its_blocks_alone(total_length, front, offset);
    if block < blocks.len() - 1 {
        assert(front[block] == blocks[block]);
        assert forall|k: int| 0 <= k < block implies apart(#[trigger] front[k], front[block]) by {
            assert(front[k] == blocks[k]);
        }
        law_a_recorded_block_is_recovered(total_length, front, block, offset);
    } else {
        let before = replayed(total_length, front);
        assert forall|i: int| blocks[block].start <= i < blocks[block].end implies #[trigger]
        before[i] == IntervalState::Pending by {
            law_a_journal_proves_its_blocks_alone(total_length, front, i);
            if before[i] == IntervalState::Complete {
                let k = choose|k: int|
                    0 <= k < front.len() && (#[trigger] front[k]).start <= i < front[k].end;
                assert(front[k] == blocks[k]);
                assert(apart(blocks[k], blocks[block]));
                assert(in_block(blocks[block], i));
            }
        }
    }
}

/// Recovery is complete and exact: of blocks that fit the representation and share no byte, every
/// byte of every block is durable, and no other byte is.
pub proof fn law_recovery_is_complete(total_length: u64, blocks: Seq<Range<u64>>, offset: int)
    requires
        proper(total_length, blocks),
        0 <= offset < total_length,
    ensures
        replayed(total_length, blocks)[offset] == (if recorded_at(blocks, offset) {
            IntervalState::Complete
        } else {
            IntervalState::Pending
        }),
{
    law_a_journal_proves_its_blocks_alone(total_length, blocks, offset);
    if recorded_at(blocks, offset) {
        let k = choose|k: int| 0 <= k < blocks.len() && in_block(#[trigger] blocks[k], offset);
        law_a_recorded_block_is_recovered(total_length, blocks, k, offset);
    } else if replayed(total_length, blocks)[offset] == IntervalState::Complete {
        let k = choose|k: int|
            0 <= k < blocks.len() && (#[trigger] blocks[k]).start <= offset < blocks[k].end;
        assert(in_block(blocks[k], offset));
    }
}

/// The order in which blocks were recorded does not matter.
pub proof fn law_the_order_of_blocks_does_not_matter(
    total_length: u64,
    one: Seq<Range<u64>>,
    other: Seq<Range<u64>>,
)
    requires
        proper(total_length, one),
        proper(total_length, other),
        forall|block: Range<u64>| #[trigger] one.contains(block) <==> other.contains(block),
    ensures
        replayed(total_length, one) == replayed(total_length, other),
{
    if total_length > 0 {
        law_a_journal_proves_its_blocks_alone(total_length, one, 0);
        law_a_journal_proves_its_blocks_alone(total_length, other, 0);
    } else {
        lemma_replayed_length(total_length, one);
        lemma_replayed_length(total_length, other);
    }
    assert forall|offset: int| 0 <= offset < total_length implies replayed(total_length, one)[offset]
        == #[trigger] replayed(total_length, other)[offset] by {
        law_recovery_is_complete(total_length, one, offset);
        law_recovery_is_complete(total_length, other, offset);
        if recorded_at(one, offset) {
            let k = choose|k: int| 0 <= k < one.len() && in_block(#[trigger] one[k], offset);
            assert(one.contains(one[k]));
            let l = choose|l: int| 0 <= l < other.len() && other[l] == one[k];
            assert(in_block(other[l], offset));
        }
        if recorded_at(other, offset) {
            let k = choose|k: int| 0 <= k < other.len() && in_block(#[trigger] other[k], offset);
            assert(other.contains(other[k]));
            assert(one.contains(other[k]));
            let l = choose|l: int| 0 <= l < one.len() && one[l] == other[k];
            assert(in_block(one[l], offset));
        }
    }
    assert(replayed(total_length, one) =~= replayed(total_length, other));
}

proof fn lemma_replayed_length(total_length: u64, blocks: Seq<Range<u64>>)
    ensures
        replayed(total_length, blocks).len() == total_length,
    decreases blocks.len(),
{
    if blocks.len() > 0 {
        lemma_replayed_length(total_length, blocks.drop_last());
    }
}

/// A resume continues where the recorded blocks stop being gapless: right behind a block that
/// starts the representation, unless another one is recorded there.
pub proof fn law_a_resume_continues_behind_the_first_gap(
    total_length: u64,
    blocks: Seq<Range<u64>>,
    offset: int,
)
    requires
        proper(total_length, blocks),
        0 <= offset <= total_length,
    ensures
        offset < durable_prefix(replayed(total_length, blocks)) ==> recorded_at(blocks, offset),
        (forall|i: int| 0 <= i < offset ==> #[trigger] recorded_at(blocks, i)) ==> offset
            <= durable_prefix(replayed(total_length, blocks)),
{
    let states = replayed(total_length, blocks);
    lemma_replayed_length(total_length, blocks);
    law_a_resume_never_starts_past_an_undurable_byte(states);
    let end = durable_prefix(states) as int;
    if offset < end {
        law_recovery_is_complete(total_length, blocks, offset);
    }
    if end < offset {
        law_recovery_is_complete(total_length, blocks, end);
        assert(!recorded_at(blocks, end));
    }
}

/// Only a full device is told as one, under each system's own numbers, and always at the offset of
/// the write that met it.
pub proof fn law_only_a_full_device_is_told_as_one(
    platform: Platform,
    offset: u64,
    code: Option<i32>,
    source: String,
    rendered: String,
    operation: String,
)
    ensures
        means_full(platform, code) <==> ((platform == Platform::Unix && code == Some(28i32)) || (
        platform == Platform::Windows && (code == Some(39i32) || code == Some(112i32)))),
        part_failure(platform, offset, PartFileError::Io { code, source }) == (if means_full(
            platform,
            code,
        ) {
            SinkError::NoSpace { offset }
        } else {
            SinkError::Io { offset, source }
        }),
        writer_failure(platform, offset, WriterError::Io { operation, code, source }, rendered)
            == part_failure(platform, offset, PartFileError::Io { code, source }),
        writer_failure(
            platform,
            offset,
            WriterError::PartFile(PartFileError::Io { code, source }),
            rendered,
        ) == part_failure(platform, offset, PartFileError::Io { code, source }),
        part_failure(platform, offset, PartFileError::Other { source }) == (SinkError::Io {
            offset,
            source,
        }),
{
}

/// A write outside the representation is told with the representation's length, its own start and
/// its own length.
pub proof fn law_a_write_out_of_bounds_is_told_with_its_bounds(
    platform: Platform,
    offset: u64,
    start: u64,
    length: u64,
    total_length: u64,
    rendered: String,
)
    ensures
        writer_failure(
            platform,
            offset,
            WriterError::PartFile(PartFileError::OutOfBounds { offset: start, length, total_length }),
            rendered,
        ) == (SinkError::BeyondGrant::<String> {
            grant: total_length,
            already_written: start,
            attempted: length,
        }),
{
}

/// A block counts whole or not at all: where it fits the representation and every byte of it is
/// still pending it makes each of them durable, and otherwise it changes nothing. No other byte
/// changes either way.
pub proof fn law_a_block_counts_whole_or_not_at_all(
    total_length: u64,
    blocks: Seq<Range<u64>>,
    block: Range<u64>,
    offset: int,
)
    requires
        0 <= offset < total_length,
    ensures
        ({
            let before = replayed(total_length, blocks);
            let after = replayed(total_length, blocks.push(block));
            let fits = block.start < block.end && block.end <= total_length;
            let fresh = forall|i: int|
                block.start <= i < block.end ==> #[trigger] before[i] == IntervalState::Pending;
            &&& fits && fresh && in_block(block, offset) ==> after[offset] == IntervalState::Complete
            &&& !in_block(block, offset) ==> after[offset] == before[offset]
            &&& !fits || !fresh ==> after == before
        }),
        replayed(total_length, Seq::<Range<u64>>::empty())[offset] == IntervalState::Pending,
{
    assert(blocks.push(block).drop_last() =~= blocks);
    lemma_replayed_length(total_length, blocks);
}

} // verus!
