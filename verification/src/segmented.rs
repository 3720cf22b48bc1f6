//! Segmented orchestration: probe, plan, fetch through several workers, verify, name.
//!
//! Segmentation is never assumed: anything short of proven, consistent evidence falls back to one
//! whole-representation stream. A resume plans from the durable partition alone, so that it asks
//! only for what is missing. Every request is conditional on the validator that was recorded with
//! the representation, so that parts of two versions never meet in one file.

use crate::allocator;
use crate::allocator::{Grant, SegmentAllocator};
use crate::download::DownloadError;
use crate::h1h2;
use crate::h1h2::ResponseHead;
use crate::intervals;
use crate::intervals::{IntervalMap, IntervalState, WorkerId};
use crate::protocol::RangeRequest;
use crate::remote::{ByteRangeSpec, ContentRange, RemoteObject};
use crate::storage_sink;
use crate::text;
use crate::time::Duration;
use crate::worker_pool;
use crate::worker_pool::{FixedWorkerPool, PoolError, PoolPlan, PoolReport};
use crate::writer_service::{StateActor, WriterServiceError};
use vstd::prelude::*;

verus! {

/// How many writer commands may wait behind one download's state owner.
pub const WRITER_QUEUE_CAPACITY: usize = 32;

/// How a download runs.
#[derive(Clone, Copy, Debug, PartialEq, Eq, Structural)]
pub enum Route {
    /// As one whole-representation stream.
    SingleStream,
    /// As disjoint parts of a representation of known length.
    Segmented {
        /// Length of the representation.
        total_length: u64,
    },
}

/// Probe, segment, verify and rename, with a single-stream fallback.
#[derive(Clone, Copy, Debug)]
pub struct SegmentedDownload {
    connections: usize,
}

/// How the download of a probed representation runs over at most so many connections.
pub open spec fn routed(ceiling: usize, supports_ranges: bool, remote: RemoteObject) -> Route {
    match worker_pool::planned(ceiling, supports_ranges, remote) {
        PoolPlan::Segmented { total_length, .. } if ceiling > 1 => Route::Segmented {
            total_length,
        },
        _ => Route::SingleStream,
    }
}

impl SegmentedDownload {
    /// The fixed connection ceiling.
    pub closed spec fn ceiling(&self) -> usize {
        self.connections
    }

    /// Bind a fixed connection ceiling.
    pub fn new(connections: usize) -> (download: Self)
        ensures
            download.ceiling() == connections,
    {
        SegmentedDownload { connections }
    }

    /// Whether a probe decides how the download runs. One connection is the single-stream
    /// download, which probes for itself.
    pub fn plans_from_a_probe(&self) -> (yes: bool)
        ensures
            yes == (self.ceiling() > 1),
    {
        self.connections > 1
    }

    /// How the download of a probed representation runs.
    pub fn route(&self, remote: &RemoteObject, supports_ranges: bool) -> (route: Route)
        ensures
            route == routed(self.ceiling(), supports_ranges, *remote),
    {
        if self.connections <= 1 {
            return Route::SingleStream;
        }
        match FixedWorkerPool::new(supports_ranges, self.connections) {
            Ok(pool) => match pool.plan(remote) {
                PoolPlan::Segmented { total_length, .. } => Route::Segmented { total_length },
                PoolPlan::SingleStream { .. } => Route::SingleStream,
            },
            Err(_) => Route::SingleStream,
        }
    }

    /// The state owner of a fresh segmented transfer: nothing is granted and nothing is stored.
    pub fn prepare(&self, total_length: u64) -> (owner: Result<StateActor, DownloadError>)
        ensures
            owner is Ok,
            owner->Ok_0.wf(),
            owner->Ok_0@ == intervals::repeated(total_length as int, IntervalState::Pending),
            owner->Ok_0.held().map().length() == total_length,
            owner->Ok_0.held().floor() == allocator::DEFAULT_MIN_SPLIT_BYTES,
    {
        match SegmentAllocator::new(total_length, allocator::DEFAULT_MIN_SPLIT_BYTES) {
            Ok(allocator) => Ok(StateActor::new(allocator)),
            Err(source) => Err(DownloadError::Allocator { source }),
        }
    }

    /// The state owner of a transfer that continues from what an earlier process left behind.
    ///
    /// `remote` is the recorded identity, `journal_length` the length that the journal covers, and
    /// `durable` the partition that it proves. A journal about another length is refused, because
    /// its offsets mean something else.
    pub fn prepare_resume(
        &self,
        remote: &RemoteObject,
        journal_length: u64,
        durable: IntervalMap,
    ) -> (owner: Result<StateActor, DownloadError>)
        requires
            durable.wf(),
        ensures
            owner is Ok <==> remote.total_length == Some(journal_length),
            match owner {
                Ok(owner) => {
                    &&& owner.wf()
                    &&& owner.held().map() == durable
                    &&& owner.held().floor() == allocator::DEFAULT_MIN_SPLIT_BYTES
                },
                Err(error) => error == (DownloadError::ResumeLengthMismatch {
                    journal: journal_length,
                    recorded: remote.total_length,
                }),
            },
    {
        let same_length: bool = match remote.total_length {
            Some(recorded) => recorded == journal_length,
            None => false,
        };
        if !same_length {
            return Err(
                DownloadError::ResumeLengthMismatch {
                    journal: journal_length,
                    recorded: remote.total_length,
                },
            );
        }
        match SegmentAllocator::resume(durable, allocator::DEFAULT_MIN_SPLIT_BYTES) {
            Ok(allocator) => Ok(StateActor::new(allocator)),
            Err(source) => Err(DownloadError::Allocator { source }),
        }
    }
}

/// Refuse to resume a representation that nothing binds its stored bytes to.
///
/// Where no usable validator was recorded, the journal's header holds the zero hash, and nothing
/// could tell whether the stored bytes still belong to what the server sends now.
pub fn check_binding(remote: &RemoteObject, durable: &IntervalMap, part_path: &str) -> (checked:
    Result<(), DownloadError>)
    requires
        durable.wf(),
    ensures
        match checked {
            Ok(()) => remote.validator@.condition() is Some,
            Err(error) => {
                &&& remote.validator@.condition() is None
                &&& error is Incomplete
                &&& error->Incomplete_path@ == part_path@
                &&& error->Incomplete_expected is None
                &&& error->Incomplete_actual == storage_sink::durable_prefix(durable@)
            },
        },
{
    if remote.validator.if_range_value().is_none() {
        return Err(
            DownloadError::Incomplete {
                path: part_path.to_owned(),
                expected: None,
                actual: storage_sink::durable_prefix_end(durable),
            },
        );
    }
    Ok(())
}

/// The request that fetches a grant: its exact range, conditional on the validator that was
/// recorded with the representation, where there is a usable one.
pub open spec fn is_worker_request(
    remote: RemoteObject,
    grant: Grant,
    request: RangeRequest,
) -> bool {
    &&& request.url@ == remote.final_url@
    &&& request.range == Some(
        ByteRangeSpec::FromTo { first: grant.range.start, last: (grant.range.end - 1) as u64 },
    )
    &&& text::owned(request.if_range) == remote.validator@.condition()
    &&& request.headers@.len() == 0
    &&& request.timeout == Duration::of_secs(300)
}

/// The request that fetches a grant.
///
/// Several requests fetch parts of one file, some of them long after the first, so each is
/// conditional on the recorded validator: parts of two versions must never meet in one file.
pub fn worker_request(remote: &RemoteObject, grant: &Grant) -> (request: Result<
    RangeRequest,
    PoolError,
>)
    ensures
        request is Ok <==> grant.range.end > 0,
        match request {
            Ok(request) => is_worker_request(*remote, *grant, request),
            Err(error) => worker_pool::is_invalid_outcome(
                error,
                grant.worker,
                "allocator issued an empty range"@,
            ),
        },
{
    let range: ByteRangeSpec = match worker_pool::ranged_request(grant) {
        Ok(range) => range,
        Err(error) => {
            return Err(error);
        },
    };
    let url: String = remote.final_url.clone();
    match remote.validator.if_range_value() {
        Some(value) => Ok(RangeRequest::resume(url, range, value.to_owned())),
        None => Ok(RangeRequest::ranged(url, range)),
    }
}

/// A worker of a representation with a usable validator stores its own part of the recorded version
/// or nothing: an answer with another status, another part or another length than the grant's is
/// refused before a byte of it is stored.
pub proof fn law_a_changed_representation_is_never_spliced(
    remote: RemoteObject,
    grant: Grant,
    request: RangeRequest,
    head: ResponseHead,
)
    requires
        grant.range.end > 0,
        is_worker_request(remote, grant, request),
        remote.validator@.condition() is Some,
        h1h2::refusal(request, head) is None,
    ensures
        head.status == 206,
        h1h2::accepted_part(request, head) matches Some(ContentRange::Bytes {
            first,
            last,
            complete_length: Some(total),
        }) && first == grant.range.start && last == (if grant.range.end as int - 1 < total {
            grant.range.end - 1
        } else {
            total - 1
        }),
{
    h1h2::law_a_resume_is_answered_by_its_own_part_or_refused(request, head);
}

/// The outcome of a transfer and, where it reached full coverage, of verifying and naming its
/// file. Nothing is deleted on failure: the files are what a later resume builds on.
pub fn concluded(
    final_path: String,
    transferred: Result<PoolReport, PoolError>,
    completed: Result<(), WriterServiceError>,
) -> (outcome: Result<String, DownloadError>)
    ensures
        match (transferred, completed) {
            (Err(source), _) => outcome == Err::<String, DownloadError>(
                DownloadError::Segmented { source },
            ),
            (Ok(_), Err(source)) => outcome == Err::<String, DownloadError>(
                DownloadError::Writer { source },
            ),
            (Ok(_), Ok(_)) => outcome == Ok::<String, DownloadError>(final_path),
        },
{
    match transferred {
        Err(source) => Err(DownloadError::Segmented { source }),
        Ok(_) => match completed {
            Err(source) => Err(DownloadError::Writer { source }),
            Ok(_) => Ok(final_path),
        },
    }
}

/// The byte range that a request asks for covers an offset.
pub open spec fn asks_for(range: ByteRangeSpec, offset: int) -> bool {
    match range {
        ByteRangeSpec::FromTo { first, last } => first <= offset <= last,
        ByteRangeSpec::From { first } => first <= offset,
        ByteRangeSpec::Suffix { .. } => true,
    }
}

/// A byte that the journal proved is never asked for again: no grant, and so no request, covers
/// it, and neither handing out work, recording further blocks nor reclaiming a worker's rest
/// changes that it is complete.
pub proof fn law_a_proved_byte_is_never_requested_again(
    allocator: SegmentAllocator,
    worker: WorkerId,
    quiesced: Set<u64>,
    start: int,
    end: int,
    offset: int,
)
    requires
        allocator.wf(),
        0 <= offset < allocator.map()@.len(),
        allocator.map()@[offset] == IntervalState::Complete,
        0 <= start <= end <= allocator.map()@.len(),
    ensures
        allocator.allocate_answer(worker, quiesced) matches Ok(Some(allocation)) ==> {
            let range = allocation.grant.range;
            &&& !asks_for(
                ByteRangeSpec::FromTo { first: range.start, last: (range.end - 1) as u64 },
                offset,
            )
            &&& intervals::overwritten(
                allocator.map()@,
                range.start as int,
                range.end as int,
                IntervalState::InProgress { worker },
            )[offset] == IntervalState::Complete
        },
        intervals::overwritten(allocator.map()@, start, end, IntervalState::Complete)[offset]
            == IntervalState::Complete,
        intervals::restated(
            allocator.map()@,
            IntervalState::InProgress { worker },
            IntervalState::Pending,
        )[offset] == IntervalState::Complete,
{
    allocator::law_a_live_grant_is_never_shortened(allocator, worker, quiesced, offset);
}

/// A download is segmented exactly if it may use more than one connection and its probe proved
/// ranges over HTTP/1.1 of a consistent, addressable length; that length is then the one to cover.
pub proof fn law_segments_need_proof_and_connections(
    ceiling: usize,
    supports_ranges: bool,
    remote: RemoteObject,
)
    ensures
        routed(ceiling, supports_ranges, remote) is Segmented <==> {
            &&& ceiling > 1
            &&& supports_ranges
            &&& remote.protocol == crate::remote::NegotiatedProtocol::Http11
            &&& remote.range_support is Proven
            &&& remote.total_length == Some(remote.range_support->Proven_0.total_length)
            &&& remote.total_length->0 <= i64::MAX
        },
        routed(ceiling, supports_ranges, remote) matches Route::Segmented { total_length }
            ==> remote.total_length == Some(total_length),
{
    worker_pool::law_segmentation_needs_every_piece_of_evidence(ceiling, supports_ranges, remote);
}

/// A grant's request asks for every byte of the grant and for no other.
pub proof fn law_a_worker_asks_for_its_grant_alone(
    remote: RemoteObject,
    grant: Grant,
    request: RangeRequest,
    offset: int,
)
    requires
        grant.range.start < grant.range.end,
        is_worker_request(remote, grant, request),
    ensures
        request.range is Some,
        asks_for(request.range->0, offset) <==> grant.range.start <= offset < grant.range.end,
        request.url@ == remote.final_url@,
        text::owned(request.if_range) == remote.validator@.condition(),
        request.headers@.len() == 0,
        request.timeout.nanos == 300 * 1_000_000_000,
{
}

} // verus!
