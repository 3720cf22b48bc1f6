//! The fixed HTTP/1.1 worker pool: when to segment, and what each worker must have delivered.
//!
//! The pool segments only when the probe produced validated range evidence for a known, locally
//! addressable representation. Every other input is a one-request whole-stream fallback. A worker's
//! outcome counts only if it is exactly the grant that the worker was given.

use crate::allocator::{Grant, SegmentAllocator};
use crate::error::TransferError;
use crate::intervals;
use crate::intervals::WorkerId;
use crate::protocol::RangeOutcome;
use crate::remote::{ByteRangeSpec, ContentRange, NegotiatedProtocol, RemoteObject};
use crate::retry::TransientKind;
use crate::sink::SinkError;
use crate::time::Duration;
use crate::writer_service::{WriterError, WriterServiceError};
use std::ops::Range;
use vstd::prelude::*;

verus! {

/// Why the scheduler must execute exactly one whole-representation request.
#[derive(Clone, Copy, Debug, PartialEq, Eq, Structural)]
pub enum SingleStreamReason {
    /// The observed protocol is not HTTP/1.1.
    ProtocolNotHttp11,
    /// The selected backend cannot express byte ranges.
    BackendCannotRange,
    /// The probe did not prove byte-range behaviour.
    RangeNotProven,
    /// No total representation length is known.
    LengthUnknown,
    /// The remote object's length disagrees with its range proof.
    InconsistentLength,
    /// The known length cannot be addressed by the local part file.
    LengthUnaddressable,
}

/// Fixed execution shape selected from probe evidence and backend capabilities.
#[derive(Clone, Copy, Debug, PartialEq, Eq, Structural)]
pub enum PoolPlan {
    /// Use up to `workers` independently ranged HTTP/1.1 workers.
    Segmented {
        /// Validated representation length.
        total_length: u64,
        /// Configured fixed concurrency ceiling.
        workers: usize,
    },
    /// Execute one whole-representation request.
    SingleStream {
        /// Evidence that made segmentation unsafe or inapplicable.
        reason: SingleStreamReason,
    },
}

/// One worker's completed byte count and elapsed transfer time.
#[derive(Clone, Copy, Debug, PartialEq, Eq, Structural)]
pub struct WorkerReport {
    /// Stable worker identity used by allocator grants.
    pub worker: WorkerId,
    /// Bytes accepted from the worker's response.
    pub bytes: u64,
    /// Time spent in the protocol fetch.
    pub elapsed: Duration,
}

impl WorkerReport {
    /// Stable worker identity used by allocator grants.
    pub fn worker(&self) -> (worker: WorkerId)
        ensures
            worker == self.worker,
    {
        self.worker
    }

    /// Bytes accepted from the worker's response.
    pub fn bytes(&self) -> (bytes: u64)
        ensures
            bytes == self.bytes,
    {
        self.bytes
    }

    /// Time spent in the protocol fetch.
    pub fn elapsed(&self) -> (elapsed: Duration)
        ensures
            elapsed == self.elapsed,
    {
        self.elapsed
    }
}

/// Observable result of one fixed-pool execution.
#[derive(Debug, PartialEq, Eq)]
pub struct PoolReport {
    /// Execution plan that produced this report.
    pub plan: PoolPlan,
    /// Per-worker transfer records.
    pub workers: Vec<WorkerReport>,
}

impl PoolReport {
    /// Execution plan that produced this report.
    pub fn plan(&self) -> (plan: PoolPlan)
        ensures
            plan == self.plan,
    {
        self.plan
    }

    /// Per-worker transfer records.
    pub fn workers(&self) -> (workers: &[WorkerReport])
        ensures
            workers@ == self.workers@,
    {
        self.workers.as_slice()
    }
}

/// A fixed-pool request that could not be executed safely.
#[allow(inconsistent_fields)]
#[derive(Debug, PartialEq, Eq)]
pub enum PoolError {
    /// A pool without a worker cannot make progress.
    ZeroWorkers,
    /// The caller selected an execution method that contradicts the plan.
    WrongPlan {
        /// Plan selected from probe evidence.
        plan: PoolPlan,
    },
    /// The writer actor could not serialise a storage or allocation operation.
    Writer(WriterServiceError),
    /// The protocol backend rejected or failed one worker request.
    Transfer(TransferError),
    /// A worker-facing range sink could not commit its bytes.
    Sink(SinkError),
    /// A worker task panicked or was cancelled unexpectedly.
    WorkerJoin {
        /// What was reported of the task.
        source: String,
    },
    /// The configured worker index did not fit the allocator's stable identifier.
    WorkerIdOverflow {
        /// Unrepresentable index.
        index: usize,
    },
    /// The writer actor and probe describe different representations.
    WriterLengthMismatch {
        /// Length represented by the actor map.
        writer_length: u64,
        /// Length validated by the probe.
        remote_length: u64,
    },
    /// A backend outcome contradicted the exact request or sink observation.
    InvalidOutcome {
        /// Worker whose response was inconsistent.
        worker: WorkerId,
        /// Stable diagnostic reason.
        reason: &'static str,
    },
    /// All workers stopped but durable coverage was not complete.
    IncompleteCoverage,
}

/// The plan that evidence and capabilities allow. Segmentation needs every piece of evidence; the
/// first that is missing is the reason for a single stream.
pub open spec fn planned(
    workers: usize,
    supports_ranges: bool,
    remote: RemoteObject,
) -> PoolPlan {
    if remote.protocol != NegotiatedProtocol::Http11 {
        PoolPlan::SingleStream { reason: SingleStreamReason::ProtocolNotHttp11 }
    } else if !supports_ranges {
        PoolPlan::SingleStream { reason: SingleStreamReason::BackendCannotRange }
    } else if remote.range_support.proven_length() is None {
        PoolPlan::SingleStream { reason: SingleStreamReason::RangeNotProven }
    } else if remote.total_length is None {
        PoolPlan::SingleStream { reason: SingleStreamReason::LengthUnknown }
    } else if remote.total_length != remote.range_support.proven_length() {
        PoolPlan::SingleStream { reason: SingleStreamReason::InconsistentLength }
    } else if remote.total_length->0 > i64::MAX {
        PoolPlan::SingleStream { reason: SingleStreamReason::LengthUnaddressable }
    } else {
        PoolPlan::Segmented { total_length: remote.total_length->0, workers }
    }
}

/// A configured, non-adaptive HTTP/1.1 worker pool.
#[derive(Debug)]
pub struct FixedWorkerPool {
    workers: usize,
    supports_ranges: bool,
}

impl FixedWorkerPool {
    /// The fixed concurrency ceiling.
    pub closed spec fn ceiling(&self) -> usize {
        self.workers
    }

    /// Whether the backend can express byte ranges.
    pub closed spec fn can_range(&self) -> bool {
        self.supports_ranges
    }

    /// Fix the worker ceiling for a backend that can, or cannot, express byte ranges.
    pub fn new(supports_ranges: bool, workers: usize) -> (pool: Result<Self, PoolError>)
        ensures
            workers == 0 ==> pool == Err::<Self, PoolError>(PoolError::ZeroWorkers),
            workers > 0 ==> pool is Ok,
            pool matches Ok(pool) ==> pool.ceiling() == workers && pool.can_range()
                == supports_ranges,
    {
        if workers == 0 {
            return Err(PoolError::ZeroWorkers);
        }
        Ok(FixedWorkerPool { workers, supports_ranges })
    }

    /// Select segmented or whole-stream execution from validated probe evidence.
    pub fn plan(&self, remote: &RemoteObject) -> (plan: PoolPlan)
        ensures
            plan == planned(self.ceiling(), self.can_range(), *remote),
    {
        if remote.protocol != NegotiatedProtocol::Http11 {
            return single(SingleStreamReason::ProtocolNotHttp11);
        }
        if !self.supports_ranges {
            return single(SingleStreamReason::BackendCannotRange);
        }
        let proven_length: u64 = match remote.range_support.total_length() {
            Some(length) => length,
            None => {
                return single(SingleStreamReason::RangeNotProven);
            },
        };
        let total_length: u64 = match remote.total_length {
            Some(length) => length,
            None => {
                return single(SingleStreamReason::LengthUnknown);
            },
        };
        if total_length != proven_length {
            return single(SingleStreamReason::InconsistentLength);
        }
        if total_length > i64::MAX as u64 {
            return single(SingleStreamReason::LengthUnaddressable);
        }
        PoolPlan::Segmented { total_length, workers: self.workers }
    }
}

fn single(reason: SingleStreamReason) -> (plan: PoolPlan)
    ensures
        plan == (PoolPlan::SingleStream { reason }),
{
    PoolPlan::SingleStream { reason }
}

/// Segmentation is selected only from proven, consistent, addressable HTTP/1.1 evidence.
pub proof fn law_segmentation_needs_every_piece_of_evidence(
    workers: usize,
    supports_ranges: bool,
    remote: RemoteObject,
)
    ensures
        planned(workers, supports_ranges, remote) is Segmented <==> {
            &&& remote.protocol == NegotiatedProtocol::Http11
            &&& supports_ranges
            &&& remote.range_support is Proven
            &&& remote.total_length == Some(remote.range_support->Proven_0.total_length)
            &&& remote.total_length->0 <= i64::MAX
        },
{
}

/// Checks that the writer and the probe describe the same representation.
pub fn check_writer_identity(allocator: &SegmentAllocator, remote_length: u64) -> (checked: Result<
    (),
    PoolError,
>)
    requires
        allocator.wf(),
    ensures
        checked == (if allocator.map().length() == remote_length {
            Ok::<(), PoolError>(())
        } else {
            Err(
                PoolError::WriterLengthMismatch {
                    writer_length: allocator.map().length(),
                    remote_length,
                },
            )
        }),
{
    let runs = allocator.intervals();
    let writer_length: u64 = if runs.len() == 0 {
        0
    } else {
        runs[runs.len() - 1].end
    };
    if writer_length != remote_length {
        return Err(PoolError::WriterLengthMismatch { writer_length, remote_length });
    }
    Ok(())
}

/// The part is exactly a grant's range of a representation of this length.
pub open spec fn is_exact_part(
    part: Option<ContentRange>,
    range: Range<u64>,
    total_length: u64,
) -> bool {
    part matches Some(ContentRange::Bytes { first, last, complete_length: Some(total) }) && first
        == range.start && last + 1 == range.end && total == total_length
}

/// Whether a part is exactly a grant's range.
pub fn content_range_matches(
    content_range: Option<ContentRange>,
    range: &Range<u64>,
    total_length: u64,
) -> (exact: bool)
    ensures
        exact == is_exact_part(content_range, *range, total_length),
{
    match content_range {
        Some(ContentRange::Bytes { first, last, complete_length: Some(total) }) => first
            == range.start && last < u64::MAX && last + 1 == range.end && total == total_length,
        _ => false,
    }
}

/// The error reports an invalid outcome of this worker for this reason.
pub open spec fn is_invalid_outcome(error: PoolError, worker: WorkerId, reason: Seq<char>) -> bool {
    error matches PoolError::InvalidOutcome { worker: named, reason: text } && named == worker
        && text@ == reason
}

/// The request that fetches a grant.
pub fn ranged_request(grant: &Grant) -> (range: Result<ByteRangeSpec, PoolError>)
    ensures
        grant.range.end > 0 ==> range == Ok::<ByteRangeSpec, PoolError>(
            ByteRangeSpec::FromTo {
                first: grant.range.start,
                last: (grant.range.end - 1) as u64,
            },
        ),
        grant.range.end == 0 ==> range is Err && is_invalid_outcome(
            range->Err_0,
            grant.worker,
            "allocator issued an empty range"@,
        ),
{
    if grant.range.end == 0 {
        return Err(
            PoolError::InvalidOutcome {
                worker: grant.worker,
                reason: "allocator issued an empty range",
            },
        );
    }
    Ok(ByteRangeSpec::FromTo { first: grant.range.start, last: grant.range.end - 1 })
}

/// The outcome delivered exactly the grant.
pub open spec fn delivered_exactly(
    grant: Grant,
    total_length: u64,
    outcome: RangeOutcome,
    observed: u64,
) -> bool {
    &&& outcome.status == 206
    &&& outcome.protocol == NegotiatedProtocol::Http11
    &&& !outcome.truncated
    &&& outcome.bytes_delivered == grant.range.end - grant.range.start
    &&& observed == grant.range.end - grant.range.start
    &&& is_exact_part(outcome.content_range, grant.range, total_length)
}

/// Judge a ranged worker's outcome against its grant and against what its sink saw.
pub fn check_ranged_outcome(
    grant: &Grant,
    total_length: u64,
    outcome: &RangeOutcome,
    observed: u64,
    elapsed: Duration,
) -> (report: Result<WorkerReport, PoolError>)
    requires
        grant.range.start <= grant.range.end,
    ensures
        delivered_exactly(*grant, total_length, *outcome, observed) ==> report == Ok::<
            WorkerReport,
            PoolError,
        >(WorkerReport { worker: grant.worker, bytes: observed, elapsed }),
        !delivered_exactly(*grant, total_length, *outcome, observed) ==> report is Err
            && is_invalid_outcome(
            report->Err_0,
            grant.worker,
            "ranged response did not match its exact allocator grant"@,
        ),
{
    let expected: u64 = grant.range.end - grant.range.start;
    if outcome.status != 206 || outcome.protocol != NegotiatedProtocol::Http11 || outcome.truncated
        || outcome.bytes_delivered != expected || observed != expected || !content_range_matches(
        outcome.content_range,
        &grant.range,
        total_length,
    ) {
        return Err(
            PoolError::InvalidOutcome {
                worker: grant.worker,
                reason: "ranged response did not match its exact allocator grant",
            },
        );
    }
    Ok(WorkerReport { worker: grant.worker, bytes: observed, elapsed })
}

/// The outcome delivered the whole representation.
pub open spec fn delivered_whole(
    known_length: Option<u64>,
    outcome: RangeOutcome,
    written: u64,
) -> bool {
    &&& outcome.status == 200
    &&& outcome.content_range is None
    &&& !outcome.truncated
    &&& outcome.bytes_delivered == written
    &&& known_length is Some ==> known_length->0 == written
}

/// Judge a whole-representation fallback against what its sink saw.
pub fn check_whole_outcome(
    plan: PoolPlan,
    known_length: Option<u64>,
    outcome: &RangeOutcome,
    written: u64,
    elapsed: Duration,
) -> (report: Result<PoolReport, PoolError>)
    ensures
        plan is Segmented ==> report == Err::<PoolReport, PoolError>(PoolError::WrongPlan { plan }),
        plan is SingleStream && delivered_whole(known_length, *outcome, written) ==> report is Ok
            && report->Ok_0.plan == plan && report->Ok_0.workers@ == seq![
            WorkerReport { worker: WorkerId(0), bytes: written, elapsed },
        ],
        plan is SingleStream && !delivered_whole(known_length, *outcome, written) ==> report is Err
            && is_invalid_outcome(
            report->Err_0,
            WorkerId(0),
            "whole response did not match its sink or known representation length"@,
        ),
{
    match plan {
        PoolPlan::Segmented { .. } => {
            return Err(PoolError::WrongPlan { plan });
        },
        PoolPlan::SingleStream { .. } => {},
    }
    let wrong_length: bool = match known_length {
        Some(length) => length != written,
        None => false,
    };
    if outcome.status != 200 || outcome.content_range.is_some() || outcome.truncated
        || outcome.bytes_delivered != written || wrong_length {
        return Err(
            PoolError::InvalidOutcome {
                worker: WorkerId(0),
                reason: "whole response did not match its sink or known representation length",
            },
        );
    }
    let mut workers: Vec<WorkerReport> = Vec::new();
    workers.push(WorkerReport { worker: WorkerId(0), bytes: written, elapsed });
    Ok(PoolReport { plan, workers })
}

/// The transient class of a worker failure; only a failure on the wire has one.
pub open spec fn worker_failure(error: PoolError) -> Option<TransientKind> {
    match error {
        PoolError::Transfer(TransferError::Transport { .. }) => Some(
            TransientKind::ConnectionReset,
        ),
        PoolError::Transfer(TransferError::Timeout { .. }) => Some(TransientKind::Timeout),
        PoolError::Transfer(TransferError::TruncatedBody { .. }) => Some(
            TransientKind::TruncatedBody,
        ),
        _ => None,
    }
}

/// The transient class of a worker failure; only a failure on the wire has one.
pub fn retryable_worker_failure(error: &PoolError) -> (kind: Option<TransientKind>)
    ensures
        kind == worker_failure(*error),
{
    match error {
        PoolError::Transfer(TransferError::Transport { .. }) => Some(
            TransientKind::ConnectionReset,
        ),
        PoolError::Transfer(TransferError::Timeout { .. }) => Some(TransientKind::Timeout),
        PoolError::Transfer(TransferError::TruncatedBody { .. }) => Some(
            TransientKind::TruncatedBody,
        ),
        _ => None,
    }
}

/// A writer-service failure in the sink's vocabulary.
pub open spec fn service_failure(
    offset: u64,
    error: WriterServiceError,
    rendered: String,
) -> SinkError {
    match error {
        WriterServiceError::BeyondGrant { start, end, grant_start, grant_end } =>
            SinkError::BeyondGrant {
            grant: (grant_end - grant_start) as u64,
            already_written: difference(start, grant_start),
            attempted: difference(end, start),
        },
        WriterServiceError::Writer(WriterError::NoSpace { offset: at }) => SinkError::NoSpace {
            offset: at,
        },
        _ => SinkError::Io { offset, source: rendered },
    }
}

/// A writer-service failure in the sink's vocabulary; `rendered` is the failure's own text.
pub fn writer_service_error(offset: u64, error: &WriterServiceError, rendered: String) -> (mapped:
    SinkError)
    requires
        *error is BeyondGrant ==> error->grant_start <= error->grant_end,
    ensures
        mapped == service_failure(offset, *error, rendered),
{
    match error {
        WriterServiceError::BeyondGrant { start, end, grant_start, grant_end } =>
            SinkError::BeyondGrant {
            grant: *grant_end - *grant_start,
            already_written: start.saturating_sub(*grant_start),
            attempted: end.saturating_sub(*start),
        },
        WriterServiceError::Writer(WriterError::NoSpace { offset: at }) => SinkError::NoSpace {
            offset: *at,
        },
        _ => SinkError::Io { offset, source: rendered },
    }
}

/// `a - b`, or zero where `b` is larger.
pub open spec fn difference(a: u64, b: u64) -> u64 {
    if a >= b {
        (a - b) as u64
    } else {
        0
    }
}

/// Checks that a sink writes exactly at a grant cursor.
pub fn check_cursor(offset: u64, next_offset: u64) -> (checked: Result<(), SinkError>)
    ensures
        checked is Ok <==> offset == next_offset,
        checked matches Err(error) ==> error@ == (SinkError::Io {
            offset,
            source: "range sink did not append at the grant cursor"@,
        }),
{
    if offset != next_offset {
        return Err(
            SinkError::Io {
                offset,
                source: "range sink did not append at the grant cursor".to_owned(),
            },
        );
    }
    Ok(())
}

/// A worker failure may pass exactly if it happened on the wire: the connection broke, the time ran
/// out, or the body ended early. Each has its own class, and every class is worth another attempt.
pub proof fn law_only_a_failure_on_the_wire_may_pass(error: PoolError)
    ensures
        worker_failure(error) is Some <==> error is Transfer && (error->Transfer_0 is Transport
            || error->Transfer_0 is Timeout || error->Transfer_0 is TruncatedBody),
        error is Transfer && error->Transfer_0 is Transport ==> worker_failure(error) == Some(
            TransientKind::ConnectionReset,
        ),
        error is Transfer && error->Transfer_0 is Timeout ==> worker_failure(error) == Some(
            TransientKind::Timeout,
        ),
        error is Transfer && error->Transfer_0 is TruncatedBody ==> worker_failure(error) == Some(
            TransientKind::TruncatedBody,
        ),
        worker_failure(error) != Some(TransientKind::NotRetryable),
{
}

/// A single stream names the first piece of evidence that is missing: that piece is missing, and
/// every piece before it is there. A segmented plan has the proven length and the whole ceiling.
pub proof fn law_a_plan_names_the_first_missing_evidence(
    workers: usize,
    supports_ranges: bool,
    remote: RemoteObject,
)
    ensures
        ({
            let plan = planned(workers, supports_ranges, remote);
            let missing = |reason: SingleStreamReason| plan == (PoolPlan::SingleStream { reason });
            let http11 = remote.protocol == NegotiatedProtocol::Http11;
            let proven = remote.range_support is Proven;
            let length = remote.range_support->Proven_0.total_length;
            &&& missing(SingleStreamReason::ProtocolNotHttp11) <==> !http11
            &&& missing(SingleStreamReason::BackendCannotRange) <==> http11 && !supports_ranges
            &&& missing(SingleStreamReason::RangeNotProven) <==> http11 && supports_ranges
                && !proven
            &&& missing(SingleStreamReason::LengthUnknown) <==> http11 && supports_ranges && proven
                && remote.total_length is None
            &&& missing(SingleStreamReason::InconsistentLength) <==> http11 && supports_ranges
                && proven && remote.total_length is Some && remote.total_length->0 != length
            &&& missing(SingleStreamReason::LengthUnaddressable) <==> http11 && supports_ranges
                && proven && remote.total_length == Some(length) && length > i64::MAX
            &&& plan is Segmented ==> plan == (PoolPlan::Segmented { total_length: length, workers })
        }),
{
}

/// A worker that asked for its grant, got the part it asked for and stored every byte of it has
/// delivered the grant; one that stored a byte less or more, or was sent another part, has not.
pub proof fn law_a_grant_is_delivered_by_its_own_fetch(
    grant: Grant,
    total_length: u64,
    request: crate::protocol::RangeRequest,
    head: crate::h1h2::ResponseHead,
    session: crate::h1h2::FetchSession,
)
    requires
        grant.range.start < grant.range.end <= total_length,
        request.range == Some(
            ByteRangeSpec::FromTo {
                first: grant.range.start,
                last: (grant.range.end - 1) as u64,
            },
        ),
        crate::h1h2::refusal(request, head) is None,
        session.continues(request, head),
    ensures
        ({
            let stated = crate::remote::stated_range(head.content_range->0@);
            let exact = stated == Some(
                ContentRange::Bytes {
                    first: grant.range.start,
                    last: (grant.range.end - 1) as u64,
                    complete_length: Some(total_length),
                },
            );
            &&& head.protocol == NegotiatedProtocol::Http11 && exact && session.delivered
                == grant.range.end - grant.range.start ==> delivered_exactly(
                grant,
                total_length,
                session.reported(),
                session.delivered,
            )
            &&& delivered_exactly(grant, total_length, session.reported(), session.delivered)
                ==> head.protocol == NegotiatedProtocol::Http11 && exact && session.delivered
                == grant.range.end - grant.range.start
        }),
{
    crate::h1h2::law_what_is_stored_and_what_is_refused(request, head);
    crate::h1h2::law_a_short_body_is_told_from_a_whole_one(
        request,
        head,
        session,
        Seq::<char>::empty(),
    );
}

/// A whole representation is delivered exactly if it came as a `200` without a part, was not cut
/// short, was stored to the last byte, and has the length that was known of it.
pub proof fn law_a_whole_delivery_fits_what_is_known(
    known_length: Option<u64>,
    outcome: RangeOutcome,
    written: u64,
)
    ensures
        delivered_whole(known_length, outcome, written) <==> delivered_whole(
            None,
            outcome,
            written,
        ) && (known_length is None || known_length == Some(written)),
        delivered_whole(None, outcome, written) <==> (outcome.status == 200
            && outcome.content_range is None && !outcome.truncated && outcome.bytes_delivered
            == written),
{
}

/// A full device stays a full device, at the offset where it was found, and a write that leaves its
/// grant is told with the grant's length, the bytes before it and its own length.
pub proof fn law_service_failures_keep_their_meaning(
    offset: u64,
    error: WriterServiceError,
    rendered: String,
)
    ensures
        service_failure(offset, error, rendered) is NoSpace <==> error is Writer
            && error->Writer_0 is NoSpace,
        error is Writer && error->Writer_0 is NoSpace ==> service_failure(offset, error, rendered)
            == (SinkError::NoSpace::<String> { offset: error->Writer_0->NoSpace_offset }),
        service_failure(offset, error, rendered) is BeyondGrant <==> error is BeyondGrant,
        error matches WriterServiceError::BeyondGrant { start, end, grant_start, grant_end }
            ==> grant_start <= start <= end && grant_start <= grant_end ==> {
            &&& service_failure(offset, error, rendered)->grant == grant_end - grant_start
            &&& service_failure(offset, error, rendered)->already_written + grant_start == start
            &&& service_failure(offset, error, rendered)->attempted + start == end
        },
        !(error is BeyondGrant) && !(error is Writer && error->Writer_0 is NoSpace)
            ==> service_failure(offset, error, rendered) == (SinkError::Io {
            offset,
            source: rendered,
        }),
{
}

/// A ranged outcome is the grant exactly if every check passes: the status is `206` over HTTP/1.1,
/// the body was not cut short, the backend and the sink both counted the grant's bytes, and the part
/// has the grant's bounds in a representation of the known length.
pub proof fn law_a_ranged_delivery_needs_every_check(
    grant: Grant,
    total_length: u64,
    outcome: RangeOutcome,
    observed: u64,
    error: PoolError,
    reason: Seq<char>,
)
    requires
        grant.range.start < grant.range.end,
    ensures
        delivered_exactly(grant, total_length, outcome, observed) <==> outcome.status == 206
            && outcome.protocol == NegotiatedProtocol::Http11 && !outcome.truncated
            && outcome.bytes_delivered == observed && observed + grant.range.start
            == grant.range.end && outcome.content_range == Some(
            ContentRange::Bytes {
                first: grant.range.start,
                last: (grant.range.end - 1) as u64,
                complete_length: Some(total_length),
            },
        ),
        is_invalid_outcome(error, grant.worker, reason) <==> error is InvalidOutcome
            && error->InvalidOutcome_worker == grant.worker && error->reason@ == reason,
{
}

} // verus!
