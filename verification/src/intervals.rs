//! The canonical interval map of one download's byte space.
//!
//! The map is a partition of `[0, total_length)`. Its mathematical reading is a sequence with one
//! state per byte offset, so every operation is stated as what it does to single bytes. Mutations
//! are transactional: an invalid grant, split, or completion returns an error and leaves the
//! partition as it was. Scheduling policy lives elsewhere; this module only owns byte-range state
//! and the rule that two workers never own the same byte.

use crate::text;
use std::ops::Range;
use vstd::prelude::*;
use vstd::string::StringExecFns;

verus! {

/// Stable identity of a worker that owns an in-progress interval.
#[derive(Clone, Copy, Debug, PartialEq, Eq, Hash, PartialOrd, Ord, Structural)]
pub struct WorkerId(pub u64);

impl WorkerId {
    /// Creates a worker identity from the allocator's stable numeric id.
    pub fn new(value: u64) -> (id: Self)
        ensures
            id == WorkerId(value),
    {
        WorkerId(value)
    }

    /// Returns the numeric identity assigned by the allocator.
    pub fn get(self) -> (value: u64)
        ensures
            self == WorkerId(value),
    {
        self.0
    }
}

/// The durability state of one byte interval.
#[derive(Clone, Copy, Debug, PartialEq, Eq, Structural)]
pub enum IntervalState {
    /// The bytes have not been assigned to a worker.
    Pending,
    /// The bytes are assigned but are not yet durably committed.
    InProgress {
        /// The only worker permitted to write these bytes.
        worker: WorkerId,
    },
    /// The bytes and their journal record are durable.
    Complete,
}

/// One non-empty half-open interval in the canonical partition.
#[derive(Clone, Copy, Debug, PartialEq, Eq, Structural)]
pub struct Interval {
    /// Inclusive start offset.
    pub start: u64,
    /// Exclusive end offset.
    pub end: u64,
    /// State of every byte in between.
    pub state: IntervalState,
}

impl Interval {
    /// Number of bytes between the two offsets.
    pub open spec fn width(self) -> int {
        self.end - self.start
    }

    /// Returns the inclusive start offset.
    pub fn start(&self) -> (offset: u64)
        ensures
            offset == self.start,
    {
        self.start
    }

    /// Returns the exclusive end offset.
    pub fn end(&self) -> (offset: u64)
        ensures
            offset == self.end,
    {
        self.end
    }

    /// Returns the interval's current state.
    pub fn state(&self) -> (state: &IntervalState)
        ensures
            *state == self.state,
    {
        &self.state
    }

    /// Returns the number of bytes in this interval.
    pub fn len(&self) -> (bytes: u64)
        requires
            self.start <= self.end,
        ensures
            bytes == self.width(),
    {
        self.end - self.start
    }

    /// Reports whether this interval contains no bytes.
    pub fn is_empty(&self) -> (empty: bool)
        ensures
            empty == (self.start == self.end),
    {
        self.start == self.end
    }
}

/// A rejected interval-map mutation.
#[derive(Clone, Copy, Debug, PartialEq, Eq, Structural)]
pub enum IntervalMapError {
    /// The requested half-open range is empty, reversed, or outside the file.
    InvalidRange {
        /// Requested inclusive start.
        start: u64,
        /// Requested exclusive end.
        end: u64,
        /// File length that bounds all valid ranges.
        total_length: u64,
    },
    /// A grant covered bytes that were not all pending.
    RangeNotPending {
        /// Requested inclusive start.
        start: u64,
        /// Requested exclusive end.
        end: u64,
    },
    /// A completion covered bytes not wholly owned by the reporting worker.
    RangeNotOwned {
        /// Requested inclusive start.
        start: u64,
        /// Requested exclusive end.
        end: u64,
        /// Worker that reported the completion.
        worker: WorkerId,
    },
    /// No interval owned by the source worker contains the requested split point.
    SplitPointUnavailable {
        /// Requested split offset.
        at: u64,
        /// Worker expected to own both sides before the split.
        source: WorkerId,
    },
    /// Splitting to the same worker would create no new grant.
    SplitWorkerUnchanged {
        /// Worker supplied as both source and recipient.
        worker: WorkerId,
    },
}

/// How a half-open range reads.
pub open spec fn range_text(start: u64, end: u64) -> Seq<char> {
    "range ["@ + text::decimal(start as nat) + ", "@ + text::decimal(end as nat) + ")"@
}

fn describe_range(start: u64, end: u64) -> (text: String)
    ensures
        text@ == range_text(start, end),
{
    let start: String = text::to_decimal(start);
    let end: String = text::to_decimal(end);
    String::from_str("range [").concat(start.as_str()).concat(", ").concat(end.as_str()).concat(")")
}

impl IntervalMapError {
    /// How the refusal reads.
    pub open spec fn text(self) -> Seq<char> {
        match self {
            IntervalMapError::InvalidRange { start, end, total_length } => range_text(start, end)
                + " is not a non-empty subset of [0, "@ + text::decimal(total_length as nat)
                + ")"@,
            IntervalMapError::RangeNotPending { start, end } => range_text(start, end)
                + " is not wholly pending"@,
            IntervalMapError::RangeNotOwned { start, end, worker } => range_text(start, end)
                + " is not wholly owned by worker "@ + text::decimal(worker.0 as nat),
            IntervalMapError::SplitPointUnavailable { at, source } => "offset "@ + text::decimal(
                at as nat,
            ) + " is not inside a grant owned by worker "@ + text::decimal(source.0 as nat),
            IntervalMapError::SplitWorkerUnchanged { worker } => "worker "@ + text::decimal(
                worker.0 as nat,
            ) + " cannot split a grant to itself"@,
        }
    }

    /// How the refusal reads.
    pub fn describe(&self) -> (text: String)
        ensures
            text@ == self.text(),
    {
        match *self {
            IntervalMapError::InvalidRange { start, end, total_length } => {
                let length: String = text::to_decimal(total_length);
                describe_range(start, end).concat(" is not a non-empty subset of [0, ").concat(
                    length.as_str(),
                ).concat(")")
            },
            IntervalMapError::RangeNotPending { start, end } => describe_range(start, end).concat(
                " is not wholly pending",
            ),
            IntervalMapError::RangeNotOwned { start, end, worker } => {
                let number: String = text::to_decimal(worker.0);
                describe_range(start, end).concat(" is not wholly owned by worker ").concat(
                    number.as_str(),
                )
            },
            IntervalMapError::SplitPointUnavailable { at, source } => {
                let offset: String = text::to_decimal(at);
                let number: String = text::to_decimal(source.0);
                String::from_str("offset ").concat(offset.as_str()).concat(
                    " is not inside a grant owned by worker ",
                ).concat(number.as_str())
            },
            IntervalMapError::SplitWorkerUnchanged { worker } => {
                let number: String = text::to_decimal(worker.0);
                String::from_str("worker ").concat(number.as_str()).concat(
                    " cannot split a grant to itself",
                )
            },
        }
    }
}

/// The same state repeated for `count` bytes.
pub open spec fn repeated(count: int, state: IntervalState) -> Seq<IntervalState> {
    Seq::new(
        if count >= 0 {
            count as nat
        } else {
            0
        },
        |i: int| state,
    )
}

/// The state of every byte, in offset order, that a list of intervals describes.
pub open spec fn flatten(runs: Seq<Interval>) -> Seq<IntervalState>
    decreases runs.len(),
{
    if runs.len() == 0 {
        Seq::empty()
    } else {
        flatten(runs.drop_last()) + repeated(runs.last().width(), runs.last().state)
    }
}

/// The intervals are non-empty, contiguous, and start at offset zero.
pub open spec fn contiguous(runs: Seq<Interval>) -> bool {
    &&& forall|i: int| 0 <= i < runs.len() ==> (#[trigger] runs[i]).start < runs[i].end
    &&& runs.len() > 0 ==> runs[0].start == 0
    &&& forall|i: int, j: int|
        #![trigger runs[i], runs[j]]
        0 <= i && j == i + 1 && j < runs.len() ==> runs[i].end == runs[j].start
}

/// Neighbouring intervals never carry equal states.
pub open spec fn merged(runs: Seq<Interval>) -> bool {
    forall|i: int, j: int|
        #![trigger runs[i], runs[j]]
        0 <= i && j == i + 1 && j < runs.len() ==> runs[i].state != runs[j].state
}

/// Offset one past the last byte that the intervals describe.
pub open spec fn extent(runs: Seq<Interval>) -> int {
    if runs.len() == 0 {
        0
    } else {
        runs.last().end as int
    }
}

/// `states` with every byte of `[start, end)` replaced by `state`.
pub open spec fn overwritten(
    states: Seq<IntervalState>,
    start: int,
    end: int,
    state: IntervalState,
) -> Seq<IntervalState> {
    Seq::new(
        states.len(),
        |i: int|
            if start <= i < end {
                state
            } else {
                states[i]
            },
    )
}

/// `states` with every occurrence of `from` replaced by `to`.
pub open spec fn restated(
    states: Seq<IntervalState>,
    from: IntervalState,
    to: IntervalState,
) -> Seq<IntervalState> {
    Seq::new(
        states.len(),
        |i: int|
            if states[i] == from {
                to
            } else {
                states[i]
            },
    )
}

/// Number of bytes in `state`.
pub open spec fn bytes_in(states: Seq<IntervalState>, state: IntervalState) -> nat
    decreases states.len(),
{
    if states.len() == 0 {
        0
    } else {
        bytes_in(states.drop_last(), state) + (if states.last() == state {
            1nat
        } else {
            0nat
        })
    }
}

/// Every byte of `[start, end)` is in `state`.
pub open spec fn wholly(
    states: Seq<IntervalState>,
    start: int,
    end: int,
    state: IntervalState,
) -> bool {
    forall|i: int| start <= i < end ==> #[trigger] states[i] == state
}

/// The half-open range is a non-empty part of `[0, total)`.
pub open spec fn valid_range(start: u64, end: u64, total: int) -> bool {
    start < end && end <= total
}

/// One past the last byte of the run of equal states that byte `at` belongs to.
pub open spec fn run_end(states: Seq<IntervalState>, at: int) -> int
    decreases states.len() - at,
{
    if 0 <= at && at + 1 < states.len() && states[at + 1] == states[at] {
        run_end(states, at + 1)
    } else {
        at + 1
    }
}

/// Offset `at` lies strictly inside a run of bytes that all belong to `source`.
pub open spec fn splittable(states: Seq<IntervalState>, at: int, source: WorkerId) -> bool {
    &&& 0 < at < states.len()
    &&& states[at - 1] == IntervalState::InProgress { worker: source }
    &&& states[at] == IntervalState::InProgress { worker: source }
}

/// A contiguous list covers exactly its extent, and each interval states its own bytes.
pub proof fn lemma_flatten(runs: Seq<Interval>)
    requires
        contiguous(runs),
    ensures
        flatten(runs).len() == extent(runs),
        forall|k: int, o: int|
            #![trigger runs[k], flatten(runs)[o]]
            0 <= k < runs.len() && runs[k].start <= o < runs[k].end ==> flatten(runs)[o]
                == runs[k].state,
    decreases runs.len(),
{
    if runs.len() > 0 {
        let front = runs.drop_last();
        assert(contiguous(front)) by {
            assert forall|i: int| 0 <= i < front.len() implies (#[trigger] front[i]).start
                < front[i].end by {
                assert(front[i] == runs[i]);
            }
            assert forall|i: int, j: int|
                #![trigger front[i], front[j]]
                0 <= i && j == i + 1 && j < front.len() implies front[i].end == front[j].start by {
                assert(front[i] == runs[i] && front[j] == runs[j]);
            }
            if front.len() > 0 {
                assert(front[0] == runs[0]);
            }
        }
        lemma_flatten(front);
        if front.len() > 0 {
            assert(front.last() == runs[runs.len() - 2]);
            assert(runs[runs.len() - 2].end == runs[runs.len() - 1].start);
        }
        assert(extent(front) == runs.last().start);
        assert forall|k: int, o: int|
            #![trigger runs[k], flatten(runs)[o]]
            0 <= k < runs.len() && runs[k].start <= o < runs[k].end implies flatten(runs)[o]
            == runs[k].state by {
            if k < front.len() {
                assert(front[k] == runs[k]);
                lemma_within_extent(front, k);
                assert(flatten(front)[o] == front[k].state);
            }
        }
    }
}

/// No interval of a contiguous list reaches past the list's extent.
proof fn lemma_within_extent(runs: Seq<Interval>, k: int)
    requires
        contiguous(runs),
        0 <= k < runs.len(),
    ensures
        runs[k].end <= extent(runs),
    decreases runs.len() - k,
{
    if k + 1 < runs.len() {
        lemma_within_extent(runs, k + 1);
        assert(runs[k].end == runs[k + 1].start);
    }
}

/// Every byte below the extent of a contiguous list lies in one of its intervals.
pub proof fn lemma_interval_of(runs: Seq<Interval>, offset: int) -> (k: int)
    requires
        contiguous(runs),
        0 <= offset < extent(runs),
    ensures
        0 <= k < runs.len(),
        runs[k].start <= offset < runs[k].end,
    decreases runs.len(),
{
    let front = runs.drop_last();
    if offset >= runs.last().start {
        runs.len() - 1
    } else {
        assert forall|i: int, j: int|
            #![trigger front[i], front[j]]
            0 <= i && j == i + 1 && j < front.len() implies front[i].end == front[j].start by {
            assert(front[i] == runs[i] && front[j] == runs[j]);
        }
        if front.len() > 0 {
            assert(front[0] == runs[0]);
            assert(front.last() == runs[runs.len() - 2]);
            assert(runs[runs.len() - 2].end == runs[runs.len() - 1].start);
        }
        lemma_interval_of(front, offset)
    }
}

/// A run that ends at `end` is found from any of its bytes.
proof fn lemma_run_end(states: Seq<IntervalState>, at: int, end: int)
    requires
        0 <= at < end <= states.len(),
        wholly(states, at, end, states[at]),
        end < states.len() ==> states[end] != states[at],
    ensures
        run_end(states, at) == end,
    decreases end - at,
{
    if at + 1 < end {
        assert(states[at + 1] == states[at]);
        lemma_run_end(states, at + 1, end);
    }
}

/// Counting distributes over concatenation with a run.
proof fn lemma_bytes_in_run(
    front: Seq<IntervalState>,
    count: int,
    run: IntervalState,
    state: IntervalState,
)
    requires
        count >= 0,
    ensures
        bytes_in(front + repeated(count, run), state) == bytes_in(front, state) + (if run
            == state {
            count
        } else {
            0
        }),
    decreases count,
{
    let whole = front + repeated(count, run);
    if count == 0 {
        assert(whole =~= front);
    } else {
        assert(whole.drop_last() =~= front + repeated(count - 1, run));
        lemma_bytes_in_run(front, count - 1, run, state);
    }
}

/// No more bytes are in a state than there are bytes.
proof fn lemma_bytes_in_bounded(states: Seq<IntervalState>, state: IntervalState)
    ensures
        bytes_in(states, state) <= states.len(),
    decreases states.len(),
{
    if states.len() > 0 {
        lemma_bytes_in_bounded(states.drop_last(), state);
    }
}

/// Canonical partition of a download's complete byte space.
///
/// Adjacent intervals with equal state are merged after every successful mutation. The
/// partition is empty only for a zero-length representation.
#[derive(Debug, PartialEq, Eq)]
pub struct IntervalMap {
    total_length: u64,
    intervals: Vec<Interval>,
}

impl Clone for IntervalMap {
    /// Copies the partition.
    fn clone(&self) -> (copy: Self)
        ensures
            copy.runs() == self.runs(),
            copy.length() == self.length(),
    {
        let intervals = self.intervals.clone();
        proof {
            assert(intervals@ =~= self.intervals@);
        }
        IntervalMap { total_length: self.total_length, intervals }
    }
}

/// Appends an interval, joining it to the previous one when both carry the same state.
fn push_merged(intervals: &mut Vec<Interval>, interval: Interval)
    requires
        contiguous(old(intervals)@),
        merged(old(intervals)@),
        extent(old(intervals)@) == interval.start,
        interval.start < interval.end,
    ensures
        contiguous(final(intervals)@),
        merged(final(intervals)@),
        extent(final(intervals)@) == interval.end,
        flatten(final(intervals)@) == flatten(old(intervals)@) + repeated(
            interval.width(),
            interval.state,
        ),
{
    let ghost before = intervals@;
    let count: usize = intervals.len();
    if count > 0 {
        let previous = intervals[count - 1];
        if previous.end == interval.start && previous.state == interval.state {
            let joined = Interval { start: previous.start, end: interval.end, state: previous.state };
            intervals.set(count - 1, joined);
            proof {
                let after = intervals@;
                assert(after.drop_last() =~= before.drop_last());
                assert(flatten(after) =~= flatten(before) + repeated(
                    interval.width(),
                    interval.state,
                ));
                assert forall|i: int| 0 <= i < after.len() implies (#[trigger] after[i]).start
                    < after[i].end by {
                    assert(before[i].start < before[i].end);
                }
                assert forall|i: int, j: int|
                    #![trigger after[i], after[j]]
                    0 <= i && j == i + 1 && j < after.len() implies after[i].end == after[j].start
                    && after[i].state != after[j].state by {
                    assert(before[i].end == before[j].start);
                    assert(before[i].state != before[j].state);
                }
                assert(before[0].start == 0);
            }
            return ;
        }
    }
    intervals.push(interval);
    proof {
        let after = intervals@;
        assert(after.drop_last() =~= before);
        assert forall|i: int| 0 <= i < after.len() implies (#[trigger] after[i]).start
            < after[i].end by {
            if i < before.len() {
                assert(before[i].start < before[i].end);
            }
        }
        assert forall|i: int, j: int|
            #![trigger after[i], after[j]]
            0 <= i && j == i + 1 && j < after.len() implies after[i].end == after[j].start
            && after[i].state != after[j].state by {
            if j < before.len() {
                assert(before[i].end == before[j].start);
                assert(before[i].state != before[j].state);
            }
        }
        if before.len() > 0 {
            assert(before[0].start == 0);
        }
    }
}

/// Rebuilds a partition with `[start, end)` put into `replacement`.
fn rewritten(
    runs: &Vec<Interval>,
    start: u64,
    end: u64,
    replacement: IntervalState,
) -> (next: Vec<Interval>)
    requires
        contiguous(runs@),
        start < end,
    ensures
        contiguous(next@),
        merged(next@),
        extent(next@) == extent(runs@),
        flatten(next@) == overwritten(flatten(runs@), start as int, end as int, replacement),
{
    let mut next: Vec<Interval> = Vec::with_capacity(runs.len());
    let mut index: usize = 0;
    let ghost target = overwritten(flatten(runs@), start as int, end as int, replacement);
    proof {
        lemma_flatten(runs@);
        assert(flatten(next@) =~= target.take(0));
    }
    while index < runs.len()
        invariant
            contiguous(runs@),
            start < end,
            index <= runs.len(),
            contiguous(next@),
            merged(next@),
            target == overwritten(flatten(runs@), start as int, end as int, replacement),
            flatten(runs@).len() == extent(runs@),
            forall|k: int, o: int|
                #![trigger runs@[k], flatten(runs@)[o]]
                0 <= k < runs@.len() && runs@[k].start <= o < runs@[k].end ==> flatten(runs@)[o]
                    == runs@[k].state,
            extent(next@) == (if index == 0 {
                0int
            } else {
                runs@[index - 1].end as int
            }),
            extent(next@) <= extent(runs@),
            flatten(next@) == target.take(extent(next@)),
        decreases runs.len() - index,
    {
        let interval = runs[index];
        proof {
            if index > 0 {
                assert(runs@[index - 1].end == runs@[index as int].start);
            }
            lemma_within_extent(runs@, index as int);
            assert forall|o: int| interval.start <= o < interval.end implies #[trigger] flatten(
                runs@,
            )[o] == interval.state by {
                assert(runs@[index as int] == interval);
            }
        }
        if interval.end <= start || end <= interval.start {
            push_merged(&mut next, interval);
        } else {
            if interval.start < start {
                push_merged(
                    &mut next,
                    Interval { start: interval.start, end: start, state: interval.state },
                );
                proof {
                    assert(flatten(next@) =~= target.take(start as int));
                }
            }
            let low: u64 = if interval.start < start {
                start
            } else {
                interval.start
            };
            let high: u64 = if end < interval.end {
                end
            } else {
                interval.end
            };
            push_merged(&mut next, Interval { start: low, end: high, state: replacement });
            proof {
                assert(flatten(next@) =~= target.take(high as int));
            }
            if end < interval.end {
                push_merged(
                    &mut next,
                    Interval { start: end, end: interval.end, state: interval.state },
                );
            }
        }
        proof {
            assert(flatten(next@) =~= target.take(interval.end as int));
        }
        index = index + 1;
    }
    proof {
        assert(flatten(next@) =~= target);
    }
    next
}

impl IntervalMap {
    /// The intervals of the partition, in increasing offset order.
    pub closed spec fn runs(&self) -> Seq<Interval> {
        self.intervals@
    }

    /// The represented file length.
    pub closed spec fn length(&self) -> u64 {
        self.total_length
    }

    /// The state of every byte, by offset.
    pub open spec fn view(&self) -> Seq<IntervalState> {
        flatten(self.runs())
    }

    /// The intervals are the canonical partition of `[0, length)`: non-empty, contiguous, merged,
    /// and empty as a list exactly for a zero-length file.
    pub open spec fn wf(&self) -> bool {
        &&& contiguous(self.runs())
        &&& merged(self.runs())
        &&& extent(self.runs()) == self.length()
    }

    /// The answer a grant gets: every requested byte must be pending.
    pub open spec fn grant_answer(
        &self,
        range: Range<u64>,
    ) -> Result<(), IntervalMapError> {
        if !valid_range(range.start, range.end, self.length() as int) {
            Err(
                IntervalMapError::InvalidRange {
                    start: range.start,
                    end: range.end,
                    total_length: self.length(),
                },
            )
        } else if wholly(
            self@,
            range.start as int,
            range.end as int,
            IntervalState::Pending,
        ) {
            Ok(())
        } else {
            Err(IntervalMapError::RangeNotPending { start: range.start, end: range.end })
        }
    }

    /// The answer a completion gets: every completed byte must belong to the worker.
    pub open spec fn complete_answer(
        &self,
        range: Range<u64>,
        worker: WorkerId,
    ) -> Result<(), IntervalMapError> {
        if !valid_range(range.start, range.end, self.length() as int) {
            Err(
                IntervalMapError::InvalidRange {
                    start: range.start,
                    end: range.end,
                    total_length: self.length(),
                },
            )
        } else if wholly(
            self@,
            range.start as int,
            range.end as int,
            IntervalState::InProgress { worker },
        ) {
            Ok(())
        } else {
            Err(IntervalMapError::RangeNotOwned { start: range.start, end: range.end, worker })
        }
    }

    /// The answer a split gets: the point must lie strictly inside a grant of another worker.
    pub open spec fn split_answer(
        &self,
        at: u64,
        source: WorkerId,
        recipient: WorkerId,
    ) -> Result<(), IntervalMapError> {
        if source == recipient {
            Err(IntervalMapError::SplitWorkerUnchanged { worker: source })
        } else if splittable(self@, at as int, source) {
            Ok(())
        } else {
            Err(IntervalMapError::SplitPointUnavailable { at, source })
        }
    }

    /// Creates a map whose entire byte space is pending.
    pub fn new(total_length: u64) -> (map: Self)
        ensures
            map.wf(),
            map.length() == total_length,
            map@ == repeated(total_length as int, IntervalState::Pending),
            total_length > 0 ==> map.runs() == seq![
                Interval { start: 0, end: total_length, state: IntervalState::Pending },
            ],
    {
        let mut intervals: Vec<Interval> = Vec::new();
        if total_length > 0 {
            intervals.push(
                Interval { start: 0, end: total_length, state: IntervalState::Pending },
            );
        }
        let map = IntervalMap { total_length, intervals };
        proof {
            lemma_flatten(map.runs());
            assert(map@ =~= repeated(total_length as int, IntervalState::Pending));
        }
        map
    }

    /// Returns the represented file length.
    pub fn total_length(&self) -> (length: u64)
        ensures
            length == self.length(),
    {
        self.total_length
    }

    /// Returns the canonical intervals in increasing offset order.
    pub fn intervals(&self) -> (intervals: &[Interval])
        ensures
            intervals@ == self.runs(),
    {
        self.intervals.as_slice()
    }

    /// Assigns a pending range to one worker.
    ///
    /// The request may cover part of a pending interval. It is rejected atomically if any
    /// requested byte is already assigned or complete.
    pub fn grant(&mut self, range: Range<u64>, worker: WorkerId) -> (answer: Result<
        (),
        IntervalMapError,
    >)
        requires
            old(self).wf(),
        ensures
            final(self).wf(),
            answer == old(self).grant_answer(range),
            answer is Ok ==> final(self)@ == overwritten(
                old(self)@,
                range.start as int,
                range.end as int,
                IntervalState::InProgress { worker },
            ),
            answer is Err ==> *final(self) == *old(self),
            final(self).length() == old(self).length(),
    {
        self.validate_range(&range)?;
        if !self.range_matches(&range, IntervalState::Pending) {
            return Err(
                IntervalMapError::RangeNotPending { start: range.start, end: range.end },
            );
        }
        self.replace_range(range, IntervalState::InProgress { worker });
        Ok(())
    }

    /// Reassigns the right side of one active grant to a different worker.
    ///
    /// Scheduling policy chooses `at`; this method only accepts a point strictly inside a grant
    /// owned by `source`, so ownership never overlaps.
    pub fn split_in_progress(
        &mut self,
        at: u64,
        source: WorkerId,
        recipient: WorkerId,
    ) -> (answer: Result<(), IntervalMapError>)
        requires
            old(self).wf(),
        ensures
            final(self).wf(),
            answer == old(self).split_answer(at, source, recipient),
            answer is Ok ==> final(self)@ == overwritten(
                old(self)@,
                at as int,
                run_end(old(self)@, at as int),
                IntervalState::InProgress { worker: recipient },
            ),
            answer is Err ==> *final(self) == *old(self),
            final(self).length() == old(self).length(),
    {
        if source == recipient {
            return Err(IntervalMapError::SplitWorkerUnchanged { worker: source });
        }
        proof {
            lemma_flatten(self.runs());
        }
        let mut index: usize = 0;
        while index < self.intervals.len()
            invariant
                *self == *old(self),
                self.wf(),
                source != recipient,
                index <= self.intervals.len(),
                flatten(self.runs()).len() == extent(self.runs()),
                forall|k: int|
                    0 <= k < index ==> !((#[trigger] self.runs()[k]).start < at && at
                        < self.runs()[k].end && self.runs()[k].state == (
                    IntervalState::InProgress { worker: source })),
            decreases self.intervals.len() - index,
        {
            let interval = self.intervals[index];
            if interval.start < at && at < interval.end && interval.state == (
            IntervalState::InProgress { worker: source }) {
                let end: u64 = interval.end;
                proof {
                    self.lemma_run_of(index as int, at as int);
                    assert(splittable(self@, at as int, source));
                }
                self.replace_range(
                    Range { start: at, end },
                    IntervalState::InProgress { worker: recipient },
                );
                return Ok(());
            }
            index = index + 1;
        }
        proof {
            if splittable(self@, at as int, source) {
                let k = lemma_interval_of(self.runs(), at as int);
                lemma_flatten(self.runs());
                if self.runs()[k].start == at {
                    let p = lemma_interval_of(self.runs(), at - 1);
                    self.lemma_neighbours(p, k, at as int);
                }
                assert(self.runs()[k].state == self@[at as int]);
            }
        }
        Err(IntervalMapError::SplitPointUnavailable { at, source })
    }

    /// Two intervals that meet at `at` are neighbours, so their states differ.
    proof fn lemma_neighbours(&self, p: int, k: int, at: int)
        requires
            self.wf(),
            0 <= p < self.runs().len(),
            0 <= k < self.runs().len(),
            self.runs()[k].start == at,
            self.runs()[p].start <= at - 1 < self.runs()[p].end,
        ensures
            k == p + 1,
            self.runs()[p].state != self.runs()[k].state,
    {
        let runs = self.runs();
        if k <= p {
            lemma_ordered(runs, k, p);
        }
        if k > p + 1 {
            lemma_ordered(runs, p + 1, k);
            assert(runs[p].end == runs[p + 1].start);
            assert(runs[p + 1].start < runs[p + 1].end);
        }
        assert(runs[p].state != runs[p + 1].state);
    }

    /// The run of equal states around a byte is the interval that holds it.
    pub proof fn lemma_run_of(&self, k: int, at: int)
        requires
            self.wf(),
            0 <= k < self.runs().len(),
            self.runs()[k].start <= at < self.runs()[k].end,
        ensures
            run_end(self@, at) == self.runs()[k].end,
            self@[at] == self.runs()[k].state,
            at > self.runs()[k].start ==> self@[at - 1] == self.runs()[k].state,
            self.runs()[k].end <= self@.len(),
    {
        let runs = self.runs();
        lemma_flatten(runs);
        lemma_within_extent(runs, k);
        let end = runs[k].end as int;
        assert(self@[at] == runs[k].state);
        assert(wholly(self@, at, end, self@[at])) by {
            assert forall|i: int| at <= i < end implies #[trigger] self@[i] == self@[at] by {
                assert(flatten(runs)[i] == runs[k].state);
            }
        }
        if end < self@.len() {
            assert(k + 1 < runs.len());
            assert(runs[k].end == runs[k + 1].start);
            assert(runs[k + 1].start < runs[k + 1].end);
            assert(flatten(runs)[end] == runs[k + 1].state);
            assert(runs[k].state != runs[k + 1].state);
        }
        lemma_run_end(self@, at, end);
        if at > runs[k].start {
            assert(flatten(runs)[at - 1] == runs[k].state);
        }
    }

    /// Marks a worker-owned range complete after the storage layer confirms durability.
    ///
    /// This type cannot prove durability itself: the caller makes this transition only after
    /// the storage commit point.
    pub fn complete(&mut self, range: Range<u64>, worker: WorkerId) -> (answer: Result<
        (),
        IntervalMapError,
    >)
        requires
            old(self).wf(),
        ensures
            final(self).wf(),
            answer == old(self).complete_answer(range, worker),
            answer is Ok ==> final(self)@ == overwritten(
                old(self)@,
                range.start as int,
                range.end as int,
                IntervalState::Complete,
            ),
            answer is Err ==> *final(self) == *old(self),
            final(self).length() == old(self).length(),
    {
        self.validate_range(&range)?;
        if !self.range_matches(&range, IntervalState::InProgress { worker }) {
            return Err(
                IntervalMapError::RangeNotOwned { start: range.start, end: range.end, worker },
            );
        }
        self.replace_range(range, IntervalState::Complete);
        Ok(())
    }

    /// The answer that a completion would get, without making it.
    pub fn check_completion(&self, range: &Range<u64>, worker: WorkerId) -> (answer: Result<
        (),
        IntervalMapError,
    >)
        requires
            self.wf(),
        ensures
            answer == self.complete_answer(*range, worker),
    {
        self.validate_range(range)?;
        if !self.range_matches(range, IntervalState::InProgress { worker }) {
            return Err(
                IntervalMapError::RangeNotOwned { start: range.start, end: range.end, worker },
            );
        }
        Ok(())
    }

    /// Returns every active grant owned by `worker` to pending state.
    ///
    /// The return value is the number of bytes released. Abandoning an unknown worker changes
    /// nothing, so a repeated worker-death notification is harmless.
    pub fn abandon(&mut self, worker: WorkerId) -> (released: u64)
        requires
            old(self).wf(),
        ensures
            final(self).wf(),
            final(self).length() == old(self).length(),
            final(self)@ == restated(
                old(self)@,
                IntervalState::InProgress { worker },
                IntervalState::Pending,
            ),
            released == bytes_in(old(self)@, IntervalState::InProgress { worker }),
    {
        let ghost owned = IntervalState::InProgress { worker };
        let mut released: u64 = 0;
        let mut next: Vec<Interval> = Vec::with_capacity(self.intervals.len());
        let mut index: usize = 0;
        let ghost target = restated(self@, owned, IntervalState::Pending);
        proof {
            lemma_flatten(self.runs());
            assert(flatten(next@) =~= target.take(0));
        }
        while index < self.intervals.len()
            invariant
                *self == *old(self),
                self.wf(),
                owned == (IntervalState::InProgress { worker }),
                index <= self.intervals.len(),
                contiguous(next@),
                merged(next@),
                target == restated(self@, owned, IntervalState::Pending),
                self@.len() == self.length(),
                extent(next@) == (if index == 0 {
                    0int
                } else {
                    self.runs()[index - 1].end as int
                }),
                extent(next@) <= self.length(),
                flatten(next@) == target.take(extent(next@)),
                released == bytes_in(flatten(self.runs().take(index as int)), owned),
                released <= extent(next@),
            decreases self.intervals.len() - index,
        {
            let interval = self.intervals[index];
            proof {
                lemma_flatten(self.runs());
                if index > 0 {
                    assert(self.runs()[index - 1].end == self.runs()[index as int].start);
                }
                lemma_within_extent(self.runs(), index as int);
                let ahead = self.runs().take(index + 1);
                assert(ahead.drop_last() =~= self.runs().take(index as int));
                lemma_bytes_in_run(
                    flatten(self.runs().take(index as int)),
                    interval.width(),
                    interval.state,
                    owned,
                );
                assert(ahead.last() == interval);
                assert forall|o: int| interval.start <= o < interval.end implies #[trigger] self@[o]
                    == interval.state by {
                    assert(flatten(self.runs())[o] == self.runs()[index as int].state);
                }
            }
            if interval.state == (IntervalState::InProgress { worker }) {
                released = released + interval.len();
                push_merged(
                    &mut next,
                    Interval {
                        start: interval.start,
                        end: interval.end,
                        state: IntervalState::Pending,
                    },
                );
            } else {
                push_merged(&mut next, interval);
            }
            proof {
                assert(flatten(next@) =~= target.take(interval.end as int));
            }
            index = index + 1;
        }
        proof {
            assert(self.runs().take(self.runs().len() as int) =~= self.runs());
            assert(flatten(next@) =~= target);
        }
        self.intervals = next;
        released
    }

    fn validate_range(&self, range: &Range<u64>) -> (answer: Result<(), IntervalMapError>)
        ensures
            answer == (if valid_range(range.start, range.end, self.length() as int) {
                Ok(())
            } else {
                Err::<(), IntervalMapError>(
                    IntervalMapError::InvalidRange {
                        start: range.start,
                        end: range.end,
                        total_length: self.length(),
                    },
                )
            }),
    {
        if range.start >= range.end || range.end > self.total_length {
            return Err(
                IntervalMapError::InvalidRange {
                    start: range.start,
                    end: range.end,
                    total_length: self.total_length,
                },
            );
        }
        Ok(())
    }

    /// Reports whether every byte of a valid range is in `state`.
    fn range_matches(&self, range: &Range<u64>, state: IntervalState) -> (matches: bool)
        requires
            self.wf(),
            valid_range(range.start, range.end, self.length() as int),
        ensures
            matches == wholly(self@, range.start as int, range.end as int, state),
    {
        proof {
            lemma_flatten(self.runs());
        }
        let mut index: usize = 0;
        while index < self.intervals.len()
            invariant
                self.wf(),
                valid_range(range.start, range.end, self.length() as int),
                index <= self.intervals.len(),
                flatten(self.runs()).len() == extent(self.runs()),
                forall|k: int|
                    0 <= k < index && (#[trigger] self.runs()[k]).start < range.end && range.start
                        < self.runs()[k].end ==> self.runs()[k].state == state,
            decreases self.intervals.len() - index,
        {
            let interval = self.intervals[index];
            if interval.start < range.end && range.start < interval.end && interval.state != state {
                proof {
                    let o = if interval.start < range.start {
                        range.start as int
                    } else {
                        interval.start as int
                    };
                    lemma_flatten(self.runs());
                    assert(flatten(self.runs())[o] == self.runs()[index as int].state);
                    assert(self@[o] != state);
                }
                return false;
            }
            index = index + 1;
        }
        proof {
            assert forall|o: int| range.start <= o < range.end implies #[trigger] self@[o]
                == state by {
                let k = lemma_interval_of(self.runs(), o);
                lemma_flatten(self.runs());
                assert(flatten(self.runs())[o] == self.runs()[k].state);
            }
        }
        true
    }

    fn replace_range(&mut self, range: Range<u64>, replacement: IntervalState)
        requires
            old(self).wf(),
            range.start < range.end,
        ensures
            final(self).wf(),
            final(self).length() == old(self).length(),
            final(self)@ == overwritten(
                old(self)@,
                range.start as int,
                range.end as int,
                replacement,
            ),
    {
        let next = rewritten(&self.intervals, range.start, range.end, replacement);
        self.intervals = next;
    }
}

/// Intervals of a contiguous list stand in offset order.
pub proof fn lemma_ordered(runs: Seq<Interval>, i: int, j: int)
    requires
        contiguous(runs),
        0 <= i <= j < runs.len(),
    ensures
        runs[i].start <= runs[j].start,
        i < j ==> runs[i].end <= runs[j].start,
    decreases j - i,
{
    if i < j {
        lemma_ordered(runs, i, j - 1);
        assert(runs[j - 1].end == runs[j].start);
        assert(runs[j - 1].start < runs[j - 1].end);
        if i < j - 1 {
            assert(runs[i].end <= runs[j - 1].start);
        }
    }
}

/// Dropping the last interval of a canonical list keeps it canonical.
proof fn lemma_front(runs: Seq<Interval>)
    requires
        contiguous(runs),
        merged(runs),
        runs.len() > 0,
    ensures
        contiguous(runs.drop_last()),
        merged(runs.drop_last()),
        extent(runs.drop_last()) == runs.last().start,
{
    let front = runs.drop_last();
    assert forall|i: int| 0 <= i < front.len() implies (#[trigger] front[i]).start
        < front[i].end by {
        assert(front[i] == runs[i]);
    }
    assert forall|i: int, j: int|
        #![trigger front[i], front[j]]
        0 <= i && j == i + 1 && j < front.len() implies front[i].end == front[j].start
        && front[i].state != front[j].state by {
        assert(front[i] == runs[i] && front[j] == runs[j]);
    }
    if front.len() > 0 {
        assert(front[0] == runs[0]);
        assert(runs[runs.len() - 2].end == runs[runs.len() - 1].start);
    }
}

/// If the last interval of `a` began before that of `b`, some byte would have two states.
proof fn lemma_last_start(a: Seq<Interval>, b: Seq<Interval>)
    requires
        contiguous(a),
        merged(a),
        contiguous(b),
        merged(b),
        flatten(a) == flatten(b),
        a.len() > 0,
        b.len() > 0,
    ensures
        a.last().start >= b.last().start,
{
    lemma_flatten(a);
    lemma_flatten(b);
    let at = b.last().start as int;
    if a.last().start < at {
        assert(flatten(a)[at] == a[a.len() - 1].state);
        assert(flatten(a)[at - 1] == a[a.len() - 1].state);
        assert(flatten(b)[at] == b[b.len() - 1].state);
        assert(b.len() > 1);
        assert(b[b.len() - 2].end == b[b.len() - 1].start);
        assert(b[b.len() - 2].start < b[b.len() - 2].end);
        assert(flatten(b)[at - 1] == b[b.len() - 2].state);
        assert(b[b.len() - 2].state != b[b.len() - 1].state);
    }
}

proof fn lemma_canonical(a: Seq<Interval>, b: Seq<Interval>)
    requires
        contiguous(a),
        merged(a),
        contiguous(b),
        merged(b),
        flatten(a) == flatten(b),
    ensures
        a == b,
    decreases a.len(),
{
    lemma_flatten(a);
    lemma_flatten(b);
    if a.len() == 0 || b.len() == 0 {
        if a.len() > 0 {
            assert(a[a.len() - 1].start < a[a.len() - 1].end);
        }
        if b.len() > 0 {
            assert(b[b.len() - 1].start < b[b.len() - 1].end);
        }
        assert(a =~= b);
    } else {
        lemma_last_start(a, b);
        lemma_last_start(b, a);
        lemma_front(a);
        lemma_front(b);
        assert(a[a.len() - 1].start < a[a.len() - 1].end);
        assert(flatten(a)[a.last().start as int] == a[a.len() - 1].state);
        assert(flatten(b)[b.last().start as int] == b[b.len() - 1].state);
        lemma_flatten(a.drop_last());
        lemma_flatten(b.drop_last());
        let at = a.last().start as int;
        assert(flatten(a.drop_last()) =~= flatten(a).take(at));
        assert(flatten(b.drop_last()) =~= flatten(b).take(at));
        lemma_canonical(a.drop_last(), b.drop_last());
        assert(a =~= a.drop_last().push(a.last()));
        assert(b =~= b.drop_last().push(b.last()));
    }
}

/// The partition is canonical: maps that give every byte the same state are the same list of
/// intervals, however they were reached.
pub proof fn law_partition_is_canonical(a: IntervalMap, b: IntervalMap)
    requires
        a.wf(),
        b.wf(),
        a@ == b@,
    ensures
        a.runs() == b.runs(),
        a.length() == b.length(),
{
    lemma_canonical(a.runs(), b.runs());
}

/// A well-formed map states exactly the bytes of its file, and is an empty list only for an
/// empty file.
pub proof fn law_partition_is_total(map: IntervalMap)
    requires
        map.wf(),
    ensures
        map@.len() == map.length(),
        map.runs().len() == 0 <==> map.length() == 0,
        forall|k: int, o: int|
            #![trigger map.runs()[k], map@[o]]
            0 <= k < map.runs().len() && map.runs()[k].start <= o < map.runs()[k].end ==> map@[o]
                == map.runs()[k].state,
{
    lemma_flatten(map.runs());
    if map.runs().len() > 0 {
        assert(map.runs()[map.runs().len() - 1].start < map.runs()[map.runs().len() - 1].end);
    }
}

/// Splitting an active grant and completing both halves is accepted step by step and ends in the
/// same list of intervals as completing the whole grant.
pub proof fn law_completing_both_split_halves_equals_completing_the_whole(
    before: IntervalMap,
    split: IntervalMap,
    left: IntervalMap,
    both: IntervalMap,
    whole: IntervalMap,
    range: Range<u64>,
    at: u64,
    first: WorkerId,
    second: WorkerId,
)
    requires
        before.wf(),
        split.wf(),
        left.wf(),
        both.wf(),
        whole.wf(),
        first != second,
        valid_range(range.start, range.end, before.length() as int),
        wholly(
            before@,
            range.start as int,
            range.end as int,
            IntervalState::InProgress { worker: first },
        ),
        range.start < at < range.end,
        run_end(before@, at as int) == range.end,
        split@ == overwritten(
            before@,
            at as int,
            run_end(before@, at as int),
            IntervalState::InProgress { worker: second },
        ),
        left@ == overwritten(split@, range.start as int, at as int, IntervalState::Complete),
        both@ == overwritten(left@, at as int, range.end as int, IntervalState::Complete),
        whole@ == overwritten(
            before@,
            range.start as int,
            range.end as int,
            IntervalState::Complete,
        ),
    ensures
        before.split_answer(at, first, second) is Ok,
        split.complete_answer(Range { start: range.start, end: at }, first) is Ok,
        left.complete_answer(Range { start: at, end: range.end }, second) is Ok,
        before.complete_answer(range, first) is Ok,
        both.runs() == whole.runs(),
{
    lemma_flatten(before.runs());
    lemma_flatten(split.runs());
    lemma_flatten(left.runs());
    assert(before@[at - 1] == (IntervalState::InProgress { worker: first }));
    assert(both@ =~= whole@);
    law_partition_is_canonical(both, whole);
}

/// Completions of disjoint ranges commute: the order in which workers report cannot alter the
/// resulting list of intervals, and each stays acceptable after the other.
pub proof fn law_disjoint_completions_are_order_independent(
    before: IntervalMap,
    one_first: IntervalMap,
    one_then_two: IntervalMap,
    two_first: IntervalMap,
    two_then_one: IntervalMap,
    one: Range<u64>,
    first: WorkerId,
    two: Range<u64>,
    second: WorkerId,
)
    requires
        before.wf(),
        one_first.wf(),
        one_then_two.wf(),
        two_first.wf(),
        two_then_one.wf(),
        one.end <= two.start || two.end <= one.start,
        before.complete_answer(one, first) is Ok,
        before.complete_answer(two, second) is Ok,
        one_first@ == overwritten(
            before@,
            one.start as int,
            one.end as int,
            IntervalState::Complete,
        ),
        one_then_two@ == overwritten(
            one_first@,
            two.start as int,
            two.end as int,
            IntervalState::Complete,
        ),
        two_first@ == overwritten(
            before@,
            two.start as int,
            two.end as int,
            IntervalState::Complete,
        ),
        two_then_one@ == overwritten(
            two_first@,
            one.start as int,
            one.end as int,
            IntervalState::Complete,
        ),
    ensures
        one_first.complete_answer(two, second) is Ok,
        two_first.complete_answer(one, first) is Ok,
        one_then_two.runs() == two_then_one.runs(),
{
    lemma_flatten(before.runs());
    lemma_flatten(one_first.runs());
    lemma_flatten(two_first.runs());
    assert(one_then_two@ =~= two_then_one@);
    law_partition_is_canonical(one_then_two, two_then_one);
}

/// Abandoning a worker twice releases nothing the second time and changes nothing more.
pub proof fn law_abandon_is_idempotent(before: IntervalMap, after: IntervalMap, worker: WorkerId)
    requires
        before.wf(),
        after.wf(),
        after@ == restated(
            before@,
            IntervalState::InProgress { worker },
            IntervalState::Pending,
        ),
    ensures
        bytes_in(after@, IntervalState::InProgress { worker }) == 0,
        restated(after@, IntervalState::InProgress { worker }, IntervalState::Pending) == after@,
{
    let owned = IntervalState::InProgress { worker };
    assert forall|i: int| 0 <= i < after@.len() implies #[trigger] after@[i] != owned by {}
    lemma_bytes_in_none(after@, owned);
    assert(restated(after@, owned, IntervalState::Pending) =~= after@);
}

proof fn lemma_bytes_in_none(states: Seq<IntervalState>, state: IntervalState)
    requires
        forall|i: int| 0 <= i < states.len() ==> #[trigger] states[i] != state,
    ensures
        bytes_in(states, state) == 0,
    decreases states.len(),
{
    if states.len() > 0 {
        assert forall|i: int| 0 <= i < states.drop_last().len() implies #[trigger] states.drop_last()[i]
            != state by {
            assert(states[i] != state);
        }
        lemma_bytes_in_none(states.drop_last(), state);
    }
}

/// A grant is made exactly if the range lies in the file and every byte of it is pending; a
/// completion exactly if every byte belongs to the worker; and a range outside the file is told
/// from one that is merely taken.
pub proof fn law_a_range_is_judged_by_every_byte(map: IntervalMap, range: Range<u64>, worker: WorkerId)
    ensures
        ({
            let fits = range.start < range.end && range.end <= map.length();
            let pending = forall|i: int|
                range.start <= i < range.end ==> #[trigger] map@[i] == IntervalState::Pending;
            let owned = forall|i: int|
                range.start <= i < range.end ==> #[trigger] map@[i] == (IntervalState::InProgress {
                    worker,
                });
            let invalid = Err::<(), IntervalMapError>(
                IntervalMapError::InvalidRange {
                    start: range.start,
                    end: range.end,
                    total_length: map.length(),
                },
            );
            &&& map.grant_answer(range) is Ok <==> fits && pending
            &&& map.complete_answer(range, worker) is Ok <==> fits && owned
            &&& !fits ==> map.grant_answer(range) == invalid && map.complete_answer(range, worker)
                == invalid
            &&& fits && !pending ==> map.grant_answer(range) == Err::<(), IntervalMapError>(
                IntervalMapError::RangeNotPending { start: range.start, end: range.end },
            )
            &&& fits && !owned ==> map.complete_answer(range, worker) == Err::<
                (),
                IntervalMapError,
            >(IntervalMapError::RangeNotOwned { start: range.start, end: range.end, worker })
        }),
{
}

/// A grant can be split exactly at a point with bytes of the same worker on both sides, and only to
/// another worker.
pub proof fn law_a_split_needs_bytes_on_both_sides(
    map: IntervalMap,
    at: u64,
    source: WorkerId,
    recipient: WorkerId,
)
    ensures
        ({
            let own = IntervalState::InProgress { worker: source };
            let inside = 0 < at < map@.len() && map@[at - 1] == own && map@[at as int] == own;
            &&& map.split_answer(at, source, recipient) is Ok <==> source != recipient && inside
            &&& source == recipient ==> map.split_answer(at, source, recipient) == Err::<
                (),
                IntervalMapError,
            >(IntervalMapError::SplitWorkerUnchanged { worker: source })
            &&& source != recipient && !inside ==> map.split_answer(at, source, recipient) == Err::<
                (),
                IntervalMapError,
            >(IntervalMapError::SplitPointUnavailable { at, source })
        }),
{
}

/// Writing a state over a range changes the bytes of that range and no others; restating one state
/// as another changes the bytes in that state and no others.
pub proof fn law_a_change_touches_its_own_bytes_alone(
    states: Seq<IntervalState>,
    start: int,
    end: int,
    state: IntervalState,
    from: IntervalState,
    offset: int,
)
    requires
        0 <= offset < states.len(),
    ensures
        overwritten(states, start, end, state).len() == states.len(),
        start <= offset < end ==> overwritten(states, start, end, state)[offset] == state,
        offset < start || end <= offset ==> overwritten(states, start, end, state)[offset]
            == states[offset],
        restated(states, from, state).len() == states.len(),
        states[offset] == from ==> restated(states, from, state)[offset] == state,
        states[offset] != from ==> restated(states, from, state)[offset] == states[offset],
{
}

/// A byte's life goes one way: what was granted can be completed by its worker and by nobody else,
/// cannot be granted again before it is given back, and what is complete is never granted again.
pub proof fn law_granted_bytes_belong_to_their_worker(
    before: IntervalMap,
    granted: IntervalMap,
    done: IntervalMap,
    range: Range<u64>,
    worker: WorkerId,
    other: WorkerId,
)
    requires
        before.wf(),
        granted.wf(),
        done.wf(),
        before.grant_answer(range) is Ok,
        granted@ == overwritten(
            before@,
            range.start as int,
            range.end as int,
            IntervalState::InProgress { worker },
        ),
        done@ == overwritten(
            granted@,
            range.start as int,
            range.end as int,
            IntervalState::Complete,
        ),
        worker != other,
    ensures
        granted.complete_answer(range, worker) is Ok,
        granted.complete_answer(range, other) is Err,
        granted.grant_answer(range) is Err,
        done.grant_answer(range) is Err,
        done.complete_answer(range, worker) is Err,
{
    lemma_flatten(before.runs());
    lemma_flatten(granted.runs());
    lemma_flatten(done.runs());
    assert(granted@[range.start as int] == (IntervalState::InProgress { worker }));
    assert(done@[range.start as int] == IntervalState::Complete);
}

/// Bytes are counted one by one, whatever their neighbours are.
pub proof fn law_bytes_are_counted_one_by_one(
    front: Seq<IntervalState>,
    back: Seq<IntervalState>,
    state: IntervalState,
    other: IntervalState,
)
    ensures
        bytes_in(front + back, state) == bytes_in(front, state) + bytes_in(back, state),
        bytes_in(seq![state], state) == 1,
        state != other ==> bytes_in(seq![other], state) == 0,
        bytes_in(front, state) <= front.len(),
    decreases back.len(), front.len(),
{
    reveal_with_fuel(bytes_in, 2);
    assert(seq![state].drop_last() =~= Seq::<IntervalState>::empty());
    assert(seq![other].drop_last() =~= Seq::<IntervalState>::empty());
    if back.len() == 0 {
        assert(front + back =~= front);
    } else {
        law_bytes_are_counted_one_by_one(front, back.drop_last(), state, other);
        assert((front + back).drop_last() =~= front + back.drop_last());
        assert((front + back).last() == back.last());
    }
    lemma_bytes_in_bounded(front, state);
}

/// The run around a byte holds equal states up to its end, and a different one, or nothing, behind.
pub proof fn law_a_run_ends_where_the_state_changes(states: Seq<IntervalState>, at: int)
    requires
        0 <= at < states.len(),
    ensures
        at < run_end(states, at) <= states.len(),
        forall|i: int| at <= i < run_end(states, at) ==> #[trigger] states[i] == states[at],
        run_end(states, at) < states.len() ==> states[run_end(states, at)] != states[at],
    decreases states.len() - at,
{
    if at + 1 < states.len() && states[at + 1] == states[at] {
        law_a_run_ends_where_the_state_changes(states, at + 1);
    }
}

/// A refusal tells the range, or the point, and the worker that it is about.
pub proof fn law_a_refusal_tells_its_numbers(
    start: u64,
    end: u64,
    total_length: u64,
    worker: WorkerId,
)
    ensures
        ({
            let first = text::decimal(start as nat);
            let last = text::decimal(end as nat);
            let range = "range ["@ + first + ", "@ + last + ")"@;
            let number = text::decimal(worker.0 as nat);
            &&& (IntervalMapError::InvalidRange { start, end, total_length }).text() == range
                + " is not a non-empty subset of [0, "@ + text::decimal(total_length as nat) + ")"@
            &&& (IntervalMapError::RangeNotPending { start, end }).text() == range
                + " is not wholly pending"@
            &&& (IntervalMapError::RangeNotOwned { start, end, worker }).text() == range
                + " is not wholly owned by worker "@ + number
            &&& (IntervalMapError::SplitPointUnavailable { at: start, source: worker }).text()
                == "offset "@ + first + " is not inside a grant owned by worker "@ + number
            &&& (IntervalMapError::SplitWorkerUnchanged { worker }).text() == "worker "@ + number
                + " cannot split a grant to itself"@
        }),
{
}

} // verus!
