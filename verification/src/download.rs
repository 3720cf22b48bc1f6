//! Single-stream orchestration: probe, fetch, verify, name.
//!
//! A completed download is verified before it is named, a retry continues from durable bytes only
//! behind a validator recorded when those bytes were fetched, and everything else starts over.
//! Probing, fetching, syncing and waiting happen outside; this module decides what happens next.

use crate::allocator::AllocatorError;
use crate::error::{ProbeError, TransferError};
use crate::probe;
use crate::probe::{ReprobePolicy, ReprobeTrigger, ResumePlan};
use crate::protocol::{RangeOutcome, RangeRequest};
use crate::remote::{ByteRangeSpec, RemoteObject, Validator};
use crate::retry;
use crate::retry::{RetryDecision, RetryPolicy, RetryState, TransientKind};
use crate::sink;
use crate::sink::{RangeSink, SinkError};
use crate::storage_sink::Artifacts;
use crate::text;
use crate::time;
use crate::time::{Duration, Timestamp};
use crate::worker_pool::PoolError;
use crate::writer_service::WriterServiceError;
use vstd::prelude::*;
use vstd::string::StringExecFns;

verus! {

/// Why a download did not produce a verified file.
#[allow(inconsistent_fields)]
#[derive(Debug, PartialEq, Eq)]
pub enum DownloadError {
    /// The probe rejected the URL or the response.
    Probe(ProbeError),
    /// The segmented worker pool could not run this transfer to full coverage.
    Segmented {
        /// Scheduling or worker failure.
        source: PoolError,
    },
    /// The byte space could not be prepared for segmentation.
    Allocator {
        /// Allocator configuration failure.
        source: AllocatorError,
    },
    /// The state owner failed to start, store, or complete this transfer.
    Writer {
        /// Actor, storage or verification failure.
        source: WriterServiceError,
    },
    /// The transfer failed.
    Transfer(TransferError),
    /// Fewer bytes arrived than the probe established. The final name is not created.
    Incomplete {
        /// The part file, kept so that a later resume can use what did arrive.
        path: String,
        /// What the probe established, when it established anything.
        expected: Option<u64>,
        /// What actually arrived.
        actual: u64,
    },
    /// Something already exists at the final path.
    TargetExists {
        /// The path that is occupied.
        path: String,
    },
    /// A write or a sync failed.
    Sink {
        /// The file being written.
        path: String,
        /// The underlying sink error.
        source: SinkError,
    },
    /// Verification refused to give the file its final name.
    Unverified {
        /// The part file, kept as evidence.
        path: String,
        /// Which check refused.
        source: SinkError,
    },
    /// The durable state of an earlier process could not be read.
    Recovery {
        /// What recovery reported.
        source: String,
    },
    /// The journal and the recorded identity disagree about the representation's length.
    ResumeLengthMismatch {
        /// Length that the journal covers.
        journal: u64,
        /// Length that was recorded.
        recorded: Option<u64>,
    },
    /// The artifacts of an earlier process could not be opened.
    Resume {
        /// What storage reported.
        source: String,
    },
    /// A file-system operation around the transfer failed.
    Io {
        /// The path involved.
        path: String,
        /// What the system reported.
        source: String,
    },
}

impl DownloadError {
    /// The stable identifier clients switch on. Probe and transfer failures, and a refused
    /// verification, go by the same name wherever they were noticed.
    pub open spec fn name(self) -> Seq<char> {
        match self {
            DownloadError::Probe(error) => error.name(),
            DownloadError::Transfer(error) => error.name(),
            DownloadError::Incomplete { .. } => "incomplete"@,
            DownloadError::TargetExists { .. } => "target_exists"@,
            DownloadError::Sink { .. } => "sink"@,
            DownloadError::Unverified { .. } => "unverified"@,
            DownloadError::Writer { source } => if source is Unverified {
                "unverified"@
            } else {
                "download_state"@
            },
            DownloadError::Segmented { .. } => "segmented_transfer"@,
            DownloadError::Allocator { .. } => "allocator"@,
            DownloadError::Recovery { .. } => "recovery"@,
            DownloadError::ResumeLengthMismatch { .. } => "resume_length_mismatch"@,
            DownloadError::Resume { .. } => "resume"@,
            DownloadError::Io { .. } => "io"@,
        }
    }

    /// The stable identifier clients switch on.
    pub fn kind(&self) -> (kind: &'static str)
        ensures
            kind@ == self.name(),
    {
        match self {
            DownloadError::Probe(error) => error.kind(),
            DownloadError::Transfer(error) => error.kind(),
            DownloadError::Incomplete { .. } => "incomplete",
            DownloadError::TargetExists { .. } => "target_exists",
            DownloadError::Sink { .. } => "sink",
            DownloadError::Unverified { .. } => "unverified",
            DownloadError::Writer { source } => match source {
                WriterServiceError::Unverified { .. } => "unverified",
                _ => "download_state",
            },
            DownloadError::Segmented { .. } => "segmented_transfer",
            DownloadError::Allocator { .. } => "allocator",
            DownloadError::Recovery { .. } => "recovery",
            DownloadError::ResumeLengthMismatch { .. } => "resume_length_mismatch",
            DownloadError::Resume { .. } => "resume",
            DownloadError::Io { .. } => "io",
        }
    }

    /// Which transient class the error belongs to; none if retrying cannot help. A request for a
    /// fresh URL is not transient: its answer keeps the bytes already fetched.
    pub open spec fn transient_class(self) -> Option<TransientKind> {
        match self {
            DownloadError::Probe(ProbeError::Transport { .. }) => Some(
                TransientKind::ConnectionReset,
            ),
            DownloadError::Transfer(TransferError::Transport { .. }) => Some(
                TransientKind::ConnectionReset,
            ),
            DownloadError::Probe(ProbeError::Timeout { .. }) => Some(TransientKind::Timeout),
            DownloadError::Transfer(TransferError::Timeout { .. }) => Some(TransientKind::Timeout),
            DownloadError::Transfer(TransferError::TruncatedBody { .. }) => Some(
                TransientKind::TruncatedBody,
            ),
            DownloadError::Incomplete { .. } => Some(TransientKind::TruncatedBody),
            DownloadError::Probe(ProbeError::UnexpectedStatus { status, .. }) =>
                TransientKind::of_status(status),
            DownloadError::Transfer(TransferError::UnexpectedStatus { status, .. }) =>
                TransientKind::of_status(status),
            _ => None,
        }
    }

    /// The `Retry-After` the server sent, if the error carries one.
    pub open spec fn requested_wait(self) -> Option<Seq<char>> {
        match self {
            DownloadError::Probe(ProbeError::UnexpectedStatus { retry_after, .. }) => text::owned(
                retry_after,
            ),
            DownloadError::Transfer(TransferError::UnexpectedStatus { retry_after, .. }) =>
                text::owned(retry_after),
            _ => None,
        }
    }
}

/// Which transient class an error belongs to, or `None` if retrying cannot help.
pub fn transient_kind_of(error: &DownloadError) -> (kind: Option<TransientKind>)
    ensures
        kind == error.transient_class(),
{
    match error {
        DownloadError::Probe(ProbeError::Transport { .. }) => Some(TransientKind::ConnectionReset),
        DownloadError::Transfer(TransferError::Transport { .. }) => Some(
            TransientKind::ConnectionReset,
        ),
        DownloadError::Probe(ProbeError::Timeout { .. }) => Some(TransientKind::Timeout),
        DownloadError::Transfer(TransferError::Timeout { .. }) => Some(TransientKind::Timeout),
        DownloadError::Transfer(TransferError::TruncatedBody { .. }) => Some(
            TransientKind::TruncatedBody,
        ),
        DownloadError::Incomplete { .. } => Some(TransientKind::TruncatedBody),
        DownloadError::Probe(ProbeError::UnexpectedStatus { status, .. }) =>
            TransientKind::from_status(*status),
        DownloadError::Transfer(TransferError::UnexpectedStatus { status, .. }) =>
            TransientKind::from_status(*status),
        _ => None,
    }
}

/// The `Retry-After` the server sent, if the error carries one.
pub fn retry_after_of(error: &DownloadError) -> (header: Option<&str>)
    ensures
        text::viewed(header) == error.requested_wait(),
{
    match error {
        DownloadError::Probe(ProbeError::UnexpectedStatus { retry_after, .. }) => text::borrowed(
            retry_after,
        ),
        DownloadError::Transfer(TransferError::UnexpectedStatus { retry_after, .. }) =>
            text::borrowed(retry_after),
        _ => None,
    }
}

/// The status a failed transfer observed, when it reached a response at all.
pub open spec fn observed_status(error: TransferError) -> Option<u16> {
    match error {
        TransferError::UnexpectedStatus { status, .. } => Some(status),
        TransferError::ValidatorMismatch { status, .. } => Some(status),
        _ => None,
    }
}

/// The status a failed transfer observed, when it reached a response at all.
pub fn observed_status_of(error: &TransferError) -> (status: Option<u16>)
    ensures
        status == observed_status(*error),
{
    match error {
        TransferError::UnexpectedStatus { status, .. } => Some(*status),
        TransferError::ValidatorMismatch { status, .. } => Some(*status),
        _ => None,
    }
}

/// The BLAKE3 hash of a byte string.
pub uninterp spec fn blake3_digest(input: Seq<u8>) -> Seq<u8>;

/// Calls `blake3::hash`. The result is the crate's 32-byte digest of exactly these bytes; which
/// digest that is is left to the crate.
#[verifier::external_body]
fn digest(input: &[u8]) -> (hash: [u8; 32])
    ensures
        hash@ == blake3_digest(input@),
{
    *blake3::hash(input).as_bytes()
}

/// The first half of a digest.
pub fn first_half(hash: &[u8; 32]) -> (half: [u8; 16])
    ensures
        half@ == hash@.take(16),
{
    let half: [u8; 16] = [
        hash[0],
        hash[1],
        hash[2],
        hash[3],
        hash[4],
        hash[5],
        hash[6],
        hash[7],
        hash[8],
        hash[9],
        hash[10],
        hash[11],
        hash[12],
        hash[13],
        hash[14],
        hash[15],
    ];
    proof {
        assert(half@ =~= hash@.take(16));
    }
    half
}

/// A stable journal identity for one representation: the same URL names the same journal, so a
/// retry collides with its own predecessor instead of accumulating orphans.
pub fn transfer_id_for(final_url: &str) -> (id: [u8; 16])
    ensures
        id@ == blake3_digest(vstd::utf8::encode_utf8(final_url@)).take(16),
{
    first_half(&digest(final_url.as_bytes()))
}

/// The text that a validator is hashed from; none where there is nothing to compare against.
pub open spec fn validator_text(validator: Validator<Seq<char>>) -> Option<Seq<char>> {
    match validator {
        Validator::StrongETag(value) => Some("etag:"@ + value),
        Validator::LastModified(value) => Some("last-modified:"@ + value),
        Validator::Absent => None,
    }
}

/// The text that a validator is hashed from.
pub fn validator_source(validator: &Validator) -> (source: Option<String>)
    ensures
        text::owned(source) == validator_text(validator@),
{
    match validator {
        Validator::StrongETag(value) => Some(String::from_str("etag:").concat(value.as_str())),
        Validator::LastModified(value) => Some(
            String::from_str("last-modified:").concat(value.as_str()),
        ),
        Validator::Absent => None,
    }
}

/// The journal header's binding to the remote validator. A representation with no usable validator
/// hashes to zero, which is what a resume must refuse on.
pub fn validator_hash_of(validator: &Validator) -> (hash: [u8; 32])
    ensures
        hash@ == (match validator_text(validator@) {
            Some(source) => blake3_digest(vstd::utf8::encode_utf8(source)),
            None => Seq::new(32, |i: int| 0u8),
        }),
{
    match validator_source(validator) {
        Some(source) => digest(source.as_str().as_bytes()),
        None => {
            let zero: [u8; 32] = [0u8;32];
            proof {
                assert(zero@ =~= Seq::new(32, |i: int| 0u8));
            }
            zero
        },
    }
}

/// The name of a finished file, given what the probe suggested.
pub open spec fn final_name(suggested: Option<Seq<char>>) -> Seq<char> {
    match suggested {
        Some(suggested) => suggested,
        None => "download"@,
    }
}

/// The name of a probed representation's finished file.
pub fn final_name_for(remote: &RemoteObject) -> (name: String)
    ensures
        name@ == final_name(text::owned(remote.suggested_filename)),
{
    match &remote.suggested_filename {
        Some(suggested) => suggested.clone(),
        None => "download".to_owned(),
    }
}

/// What a look at the final path found.
#[derive(Debug, PartialEq, Eq)]
pub enum TargetState {
    /// Something is there: a file, a directory or a link, broken or not.
    Occupied,
    /// Nothing is there.
    Free,
    /// The look could not answer.
    Unknown {
        /// What the system reported.
        source: String,
    },
}

/// Refuse a target that already holds anything at all. A look that could not answer is never read
/// as "nothing is there".
pub fn refuse_occupied_target(final_path: &str, state: TargetState) -> (checked: Result<
    (),
    DownloadError,
>)
    ensures
        checked is Ok <==> state is Free,
        state is Occupied ==> checked->Err_0 is TargetExists && checked->Err_0->TargetExists_path@
            == final_path@,
        state matches TargetState::Unknown { source } ==> checked->Err_0 is Io
            && checked->Err_0->Io_path@ == final_path@ && checked->Err_0->Io_source == source,
{
    match state {
        TargetState::Free => Ok(()),
        TargetState::Occupied => Err(DownloadError::TargetExists { path: final_path.to_owned() }),
        TargetState::Unknown { source } => Err(
            DownloadError::Io { path: final_path.to_owned(), source },
        ),
    }
}

/// Extension of a download in progress. Never the final name.
pub const PART_EXTENSION: &'static str = "dppart";

/// Extension of a download's recovery journal.
pub const JOURNAL_EXTENSION: &'static str = "dpj";

/// Where a download's data and its recovery state live.
///
/// Two directories: the part file lies next to the target, so that the final rename stays within
/// one file system, and the journal with application state, so that clearing a downloads folder
/// does not destroy the recovery information of an active transfer.
#[derive(Debug)]
pub struct StorageLayout {
    /// Where the finished file and its part file live.
    pub target_dir: String,
    /// Where recovery journals live.
    pub journal_dir: String,
    /// The identity that names the journal, where one was allocated.
    pub transfer_id: Option<[u8; 16]>,
}

impl StorageLayout {
    /// Data in `target_dir`, recovery journals in `journal_dir`.
    pub fn new(target_dir: String, journal_dir: String) -> (layout: Self)
        ensures
            layout.target_dir == target_dir,
            layout.journal_dir == journal_dir,
            layout.transfer_id is None,
    {
        StorageLayout { target_dir, journal_dir, transfer_id: None }
    }

    /// The same layout with an allocated identity for the journal.
    pub fn with_transfer_id(self, transfer_id: [u8; 16]) -> (layout: Self)
        ensures
            layout.target_dir == self.target_dir,
            layout.journal_dir == self.journal_dir,
            layout.transfer_id == Some(transfer_id),
    {
        StorageLayout {
            target_dir: self.target_dir,
            journal_dir: self.journal_dir,
            transfer_id: Some(transfer_id),
        }
    }

    /// Where the finished file and its part file live.
    pub fn target_dir(&self) -> (dir: &str)
        ensures
            dir@ == self.target_dir@,
    {
        self.target_dir.as_str()
    }

    /// Where recovery journals live.
    pub fn journal_dir(&self) -> (dir: &str)
        ensures
            dir@ == self.journal_dir@,
    {
        self.journal_dir.as_str()
    }

    /// The identity that names a representation's journal: the allocated one, else one derived
    /// from the final URL.
    pub fn transfer_id_for_remote(&self, remote: &RemoteObject) -> (id: [u8; 16])
        ensures
            id@ == (match self.transfer_id {
                Some(allocated) => allocated@,
                None => blake3_digest(vstd::utf8::encode_utf8(remote.final_url@)).take(16),
            }),
    {
        match self.transfer_id {
            Some(allocated) => allocated,
            None => transfer_id_for(remote.final_url.as_str()),
        }
    }
}

/// One download's live state, carried across the retries of one download.
///
/// The validator is the one recorded when the existing bytes were fetched and is never refreshed:
/// one taken from a retry's own response would match whatever the server is serving now.
#[derive(Debug)]
pub struct Session {
    /// The window that the next fetch appends to.
    pub sink: RangeSink,
    /// The validator recorded when the existing bytes were fetched.
    pub validator: Validator,
    /// The capability evidence a resume plans against. A re-probe replaces it.
    pub recorded: RemoteObject,
    /// The URL to fetch.
    pub final_url: String,
    /// Length of the representation, when known.
    pub total_length: Option<u64>,
    /// Where the finished file belongs.
    pub final_path: String,
    /// The files in use.
    pub artifacts: Artifacts,
    /// The status the last attempt observed, when one reached a response at all.
    pub last_observed_status: Option<u16>,
}

impl Session {
    /// Everything but the window and the last status is the same.
    pub open spec fn same_download(&self, other: &Session) -> bool {
        &&& self.validator == other.validator
        &&& self.recorded == other.recorded
        &&& self.final_url == other.final_url
        &&& self.total_length == other.total_length
        &&& self.final_path == other.final_path
        &&& self.artifacts == other.artifacts
    }

    /// The session and its request begin a fresh download of a probed representation.
    pub open spec fn begins(
        &self,
        request: RangeRequest,
        remote: RemoteObject,
        final_path: String,
        artifacts: Artifacts,
    ) -> bool {
        &&& self.sink.base() == 0
        &&& self.sink.count() == 0
        &&& self.sink.bound() == remote.total_length
        &&& self.validator == remote.validator
        &&& self.recorded == remote
        &&& self.final_url == remote.final_url
        &&& self.total_length == remote.total_length
        &&& self.final_path == final_path
        &&& self.artifacts == artifacts
        &&& self.last_observed_status is None
        &&& request.url == remote.final_url
        &&& request.range is None
        &&& request.if_range is None
        &&& request.headers@.len() == 0
        &&& request.timeout == Duration::of_secs(300)
    }

    /// The request continues the download from the durable prefix, conditional on the validator
    /// recorded with the stored bytes.
    pub open spec fn is_continued_by(&self, request: RangeRequest, durable_prefix: u64) -> bool {
        &&& request.url == self.final_url
        &&& request.range == Some(ByteRangeSpec::From { first: durable_prefix })
        &&& text::owned(request.if_range) == self.validator@.condition()
        &&& request.headers@.len() == 0
        &&& request.timeout == Duration::of_secs(300)
    }

    /// The window starts at the durable prefix and ends with the representation.
    pub open spec fn window_from(&self, window: RangeSink, durable_prefix: u64) -> bool {
        &&& window.base() == durable_prefix
        &&& window.count() == 0
        &&& window.bound() == self.remaining(durable_prefix)
    }

    /// The session once its capability evidence was re-established.
    pub open spec fn takes_over(&self, refreshed: Session, fresh: RemoteObject) -> bool {
        &&& refreshed.final_url@ == fresh.final_url@
        &&& refreshed.recorded == fresh
        &&& refreshed.last_observed_status is None
        &&& refreshed.sink == self.sink
        &&& refreshed.validator == self.validator
        &&& refreshed.total_length == self.total_length
        &&& refreshed.final_path == self.final_path
        &&& refreshed.artifacts == self.artifacts
    }

    /// What is left of the representation from an offset on.
    pub open spec fn remaining(&self, from: u64) -> Option<u64> {
        match self.total_length {
            Some(total) => Some(
                if total >= from {
                    (total - from) as u64
                } else {
                    0
                },
            ),
            None => None,
        }
    }
}

/// The validator that a failed attempt left behind, if it got that far.
pub open spec fn validator_held(held: Option<&Session>) -> Option<Validator<Seq<char>>> {
    match held {
        Some(session) => Some(session.validator@),
        None => None,
    }
}

/// The counts after a failure: a transient one counts against its origin, another does not.
pub open spec fn counted(
    error: DownloadError,
    counts: Map<Seq<char>, u32>,
    origin: Seq<char>,
) -> Map<Seq<char>, u32> {
    let held: u32 = if counts.contains_key(origin) {
        counts[origin]
    } else {
        0
    };
    if error.transient_class() is Some {
        counts.insert(origin, retry::one_more(held))
    } else {
        counts
    }
}

/// What a retry does.
#[derive(Clone, Copy, Debug, PartialEq, Eq, Structural)]
pub enum AttemptStep {
    /// Stop with the last error.
    GiveUp,
    /// Wait, then continue from the durable prefix, conditional on the validator.
    Resume {
        /// How long to wait.
        delay: Duration,
    },
    /// Wait, remove what the attempt left behind, then start over.
    Restart {
        /// How long to wait.
        delay: Duration,
    },
}

/// A whole-file, single-connection download.
#[derive(Clone, Copy, Debug)]
pub struct SingleStream {
    /// When a failed attempt is retried.
    pub policy: RetryPolicy,
    /// When a resume needs fresh evidence.
    pub reprobe: ReprobePolicy,
}

impl SingleStream {
    /// The standard retry and freshness policies.
    pub fn new() -> (stream: Self)
        ensures
            stream.policy == (RetryPolicy {
                max_retries: 5,
                base_delay: Duration::of_millis(500),
                max_delay: Duration::of_secs(30),
                max_server_delay: Duration::of_secs(3600),
            }),
            stream.reprobe == (ReprobePolicy {
                freshness: Duration::of_secs(probe::CAPABILITY_FRESHNESS),
            }),
    {
        SingleStream { policy: RetryPolicy::default(), reprobe: ReprobePolicy::default() }
    }

    /// Override the capability freshness policy.
    pub fn with_reprobe_policy(self, reprobe: ReprobePolicy) -> (stream: Self)
        ensures
            stream == (SingleStream { reprobe, ..self }),
    {
        SingleStream { policy: self.policy, reprobe }
    }

    /// Override the retry policy.
    pub fn with_retry_policy(self, policy: RetryPolicy) -> (stream: Self)
        ensures
            stream == (SingleStream { policy, ..self }),
    {
        SingleStream { policy, reprobe: self.reprobe }
    }

    /// What a retry does about an error, given what the failed attempt held.
    ///
    /// Resuming needs two things: a validator usable for a conditional request, and durable bytes
    /// to resume from. Without both, the download starts over.
    pub open spec fn reaction(
        self,
        error: DownloadError,
        failures: u32,
        validator: Option<Validator<Seq<char>>>,
        durable_prefix: u64,
        now: Timestamp,
        variation: u64,
    ) -> AttemptStep {
        match error.transient_class() {
            None => AttemptStep::GiveUp,
            Some(kind) => match self.policy.decision(
                kind,
                (retry::one_more(failures) - 1) as u32,
                error.requested_wait(),
                now,
                variation,
            ) {
                RetryDecision::GiveUp => AttemptStep::GiveUp,
                RetryDecision::RetryAfter(delay) => if validator is Some
                    && validator->0.condition() is Some && durable_prefix > 0 {
                    AttemptStep::Resume { delay }
                } else {
                    AttemptStep::Restart { delay }
                },
            },
        }
    }

    /// Decide what follows a failed attempt, and count it against its origin.
    ///
    /// `held` is the attempt's session if it got that far, and `durable_prefix` how much of it is
    /// durable. An error that is not transient is not counted. The clock only matters for an
    /// HTTP-date `Retry-After`, and varies a computed delay within its window.
    pub fn on_failure(
        &self,
        retries: &mut RetryState,
        origin: &str,
        error: &DownloadError,
        held: Option<&Session>,
        durable_prefix: u64,
    ) -> (step: AttemptStep)
        ensures
            exists|now: Timestamp, variation: u64|
                step == #[trigger] self.reaction(
                    *error,
                    old(retries).consumed(origin@),
                    validator_held(held),
                    durable_prefix,
                    now,
                    variation,
                ) && variation < time::NANOS_PER_SEC,
            final(retries)@ == counted(*error, old(retries)@, origin@),
    {
        let now: Timestamp = match time::wall_clock() {
            Some(now) => now,
            None => Timestamp { nanos: 0 },
        };
        let variation: u64 = retry::jitter_source();
        self.on_failure_at(retries, origin, error, held, durable_prefix, now, variation)
    }

    /// What follows a failed attempt at a given moment and for a given variation.
    pub fn on_failure_at(
        &self,
        retries: &mut RetryState,
        origin: &str,
        error: &DownloadError,
        held: Option<&Session>,
        durable_prefix: u64,
        now: Timestamp,
        variation: u64,
    ) -> (step: AttemptStep)
        ensures
            step == self.reaction(
                *error,
                old(retries).consumed(origin@),
                validator_held(held),
                durable_prefix,
                now,
                variation,
            ),
            final(retries)@ == counted(*error, old(retries)@, origin@),
    {
        let kind = match transient_kind_of(error) {
            Some(kind) => kind,
            None => {
                return AttemptStep::GiveUp;
            },
        };
        let failures: u32 = retries.record_failure(origin);
        let attempt: u32 = failures.saturating_sub(1);
        match self.policy.decide_at(kind, attempt, retry_after_of(error), now, variation) {
            RetryDecision::GiveUp => AttemptStep::GiveUp,
            RetryDecision::RetryAfter(delay) => {
                let usable: bool = match held {
                    Some(session) => session.validator.if_range_value().is_some(),
                    None => false,
                };
                if usable && durable_prefix > 0 {
                    AttemptStep::Resume { delay }
                } else {
                    AttemptStep::Restart { delay }
                }
            },
        }
    }

    /// Begin a fresh download of a probed representation: the session and the request to send.
    pub fn begin(
        remote: RemoteObject,
        final_path: String,
        artifacts: Artifacts,
    ) -> (begun: (Session, RangeRequest))
        ensures
            begun.0.begins(begun.1, remote, final_path, artifacts),
    {
        let request = RangeRequest::whole(remote.final_url.clone());
        let session = Session {
            sink: RangeSink::new(0, remote.total_length),
            validator: remote.validator.clone(),
            final_url: remote.final_url.clone(),
            total_length: remote.total_length,
            final_path,
            artifacts,
            recorded: remote,
            last_observed_status: None,
        };
        (session, request)
    }

    /// Why the held evidence must be re-established before the session is resumed. Nothing supplies
    /// a refreshed URL here.
    pub open spec fn stale(self, held: Session, now: Timestamp) -> Seq<
        ReprobeTrigger<Seq<char>>,
    > {
        self.reprobe.reasons(
            held.recorded,
            now,
            held.final_url@,
            None,
            held.last_observed_status,
        )
    }

    /// Why the held evidence must be re-established before the session is resumed.
    pub fn stale_evidence(&self, held: &Session, now: Timestamp) -> (triggers: Vec<ReprobeTrigger>)
        requires
            self.reprobe.freshness.nanos < u128::MAX,
        ensures
            probe::named(triggers@) == self.stale(*held, now),
    {
        let plan = ResumePlan {
            recorded: &held.recorded,
            now,
            planned_url: held.final_url.as_str(),
            refreshed_url: None,
            last_observed_status: held.last_observed_status,
        };
        self.reprobe.triggers(&plan)
    }
}

/// A fresh probe shows another representation than the one whose bytes are held.
pub open spec fn representation_changed(held: Session, fresh: RemoteObject) -> bool {
    fresh.validator@ != held.validator@ || (fresh.total_length is Some && fresh.total_length
        != held.total_length)
}

impl Session {
    /// Take over re-established capability evidence.
    ///
    /// The URL and the range evidence are refreshed; the validator belongs to the bytes already
    /// stored and stays. A fresh probe with another validator or another length means that the
    /// representation changed, which ends the download.
    pub fn refresh(self, fresh: RemoteObject, durable_prefix: u64) -> (refreshed: Result<
        Session,
        DownloadError,
    >)
        ensures
            refreshed is Err <==> representation_changed(self, fresh),
            match refreshed {
                Ok(session) => self.takes_over(session, fresh),
                Err(error) => {
                    &&& error is Transfer
                    &&& error->Transfer_0@ == (TransferError::ValidatorMismatch {
                        url: fresh.final_url@,
                        resume_offset: durable_prefix,
                        status: 200,
                        validator: match self.validator@.condition() {
                            Some(value) => value,
                            None => "<none recorded>"@,
                        },
                    })
                },
            },
    {
        let other_length: bool = match fresh.total_length {
            Some(length) => match self.total_length {
                Some(held) => length != held,
                None => true,
            },
            None => false,
        };
        if !fresh.validator.same_as(&self.validator) || other_length {
            let validator: String = match self.validator.if_range_value() {
                Some(value) => value.to_owned(),
                None => "<none recorded>".to_owned(),
            };
            return Err(
                DownloadError::Transfer(
                    TransferError::ValidatorMismatch {
                        url: fresh.final_url,
                        resume_offset: durable_prefix,
                        status: 200,
                        validator,
                    },
                ),
            );
        }
        Ok(
            Session {
                sink: self.sink,
                validator: self.validator,
                final_url: fresh.final_url.clone(),
                total_length: self.total_length,
                final_path: self.final_path,
                artifacts: self.artifacts,
                recorded: fresh,
                last_observed_status: None,
            },
        )
    }

    /// Plan the continuation from the durable prefix, conditional on the recorded validator.
    ///
    /// The window moves; the storage does not. Without a usable validator nothing is planned.
    pub fn plan_resume(&mut self, durable_prefix: u64) -> (planned: Result<
        RangeRequest,
        DownloadError,
    >)
        ensures
            final(self).same_download(old(self)),
            final(self).last_observed_status == old(self).last_observed_status,
            planned is Ok <==> old(self).validator@.condition() is Some,
            match planned {
                Ok(request) => {
                    &&& old(self).is_continued_by(request, durable_prefix)
                    &&& old(self).window_from(final(self).sink, durable_prefix)
                },
                Err(error) => {
                    &&& final(self).sink == old(self).sink
                    &&& error == (DownloadError::Incomplete {
                        path: old(self).artifacts.part_path,
                        expected: None,
                        actual: durable_prefix,
                    })
                },
            },
    {
        let validator: String = match self.validator.if_range_value() {
            Some(value) => value.to_owned(),
            None => {
                return Err(
                    DownloadError::Incomplete {
                        path: self.artifacts.part_path.clone(),
                        expected: None,
                        actual: durable_prefix,
                    },
                );
            },
        };
        let remaining: Option<u64> = match self.total_length {
            Some(total) => Some(total.saturating_sub(durable_prefix)),
            None => None,
        };
        self.sink.rebase(durable_prefix, remaining);
        Ok(
            RangeRequest::resume(
                self.final_url.clone(),
                ByteRangeSpec::From { first: durable_prefix },
                validator,
            ),
        )
    }

    /// What a finished fetch delivered is the whole representation, as far as its length is known.
    pub open spec fn is_whole(&self, outcome: RangeOutcome) -> bool {
        let delivered = sink::capped_sum(self.sink.base(), self.sink.count());
        &&& !outcome.truncated
        &&& self.total_length is Some ==> self.total_length->0 == delivered
    }

    /// Why what is stored after a fetch may not be verified and named, if it may not.
    pub open spec fn objection(
        &self,
        synced: Result<(), SinkError>,
        fetched: Result<RangeOutcome, TransferError>,
    ) -> Option<DownloadError> {
        match (synced, fetched) {
            (Err(source), _) => Some(
                DownloadError::Sink { path: self.artifacts.part_path, source },
            ),
            (Ok(_), Err(cause)) => Some(DownloadError::Transfer(cause)),
            (Ok(_), Ok(outcome)) => if self.is_whole(outcome) {
                None
            } else {
                Some(
                    DownloadError::Incomplete {
                        path: self.artifacts.part_path,
                        expected: self.total_length,
                        actual: sink::capped_sum(self.sink.base(), self.sink.count()),
                    },
                )
            },
        }
    }

    /// Judge one fetch: whether what is stored may now be verified and named.
    ///
    /// Whatever arrived was made durable before the fetch's own result is looked at, because a
    /// later resume builds on it; so a failed sync is reported first.
    pub fn judge(
        &mut self,
        synced: Result<(), SinkError>,
        fetched: Result<RangeOutcome, TransferError>,
    ) -> (judged: Result<(), DownloadError>)
        ensures
            final(self).same_download(old(self)),
            final(self).sink == old(self).sink,
            final(self).last_observed_status == (match fetched {
                Err(error) if synced is Ok => observed_status(error),
                _ => old(self).last_observed_status,
            }),
            judged == (match old(self).objection(synced, fetched) {
                Some(error) => Err::<(), DownloadError>(error),
                None => Ok(()),
            }),
    {
        if let Err(source) = synced {
            return Err(DownloadError::Sink { path: self.artifacts.part_path.clone(), source });
        }
        let outcome: RangeOutcome = match fetched {
            Ok(outcome) => outcome,
            Err(error) => {
                self.last_observed_status = observed_status_of(&error);
                return Err(DownloadError::Transfer(error));
            },
        };
        let delivered: u64 = self.sink.next_offset();
        let short: bool = match self.total_length {
            Some(expected) => delivered != expected,
            None => false,
        };
        if short || outcome.truncated {
            return Err(
                DownloadError::Incomplete {
                    path: self.artifacts.part_path.clone(),
                    expected: self.total_length,
                    actual: delivered,
                },
            );
        }
        Ok(())
    }

    /// What came of verifying and naming the file. Nothing is deleted when it is refused.
    pub fn named(&self, renamed: Result<(), SinkError>) -> (finished: Result<
        String,
        DownloadError,
    >)
        ensures
            match renamed {
                Ok(_) => finished == Ok::<String, DownloadError>(self.final_path),
                Err(source) => finished == Err::<String, DownloadError>(
                    DownloadError::Unverified { path: self.artifacts.part_path, source },
                ),
            },
    {
        match renamed {
            Ok(_) => Ok(self.final_path.clone()),
            Err(source) => Err(
                DownloadError::Unverified { path: self.artifacts.part_path.clone(), source },
            ),
        }
    }
}

/// A retry continues from stored bytes only behind a validator that a conditional request can
/// carry, and only where some prefix is durable.
pub proof fn law_a_resume_needs_a_validator_and_durable_bytes(
    stream: SingleStream,
    error: DownloadError,
    failures: u32,
    validator: Option<Validator<Seq<char>>>,
    durable_prefix: u64,
    now: Timestamp,
    variation: u64,
)
    ensures
        stream.reaction(error, failures, validator, durable_prefix, now, variation) is Resume ==> {
            &&& validator is Some
            &&& validator->0.condition() is Some
            &&& durable_prefix > 0
        },
{
}

/// A download whose origin has used up its budget is not tried again, whatever failed and whatever
/// the server asked for.
pub proof fn law_a_spent_budget_ends_the_download(
    stream: SingleStream,
    error: DownloadError,
    failures: u32,
    validator: Option<Validator<Seq<char>>>,
    durable_prefix: u64,
    now: Timestamp,
    variation: u64,
)
    requires
        stream.policy.max_retries <= failures,
        stream.policy.max_retries < u32::MAX,
    ensures
        stream.reaction(error, failures, validator, durable_prefix, now, variation) is GiveUp,
{
}

/// An error may pass exactly if it happened on the wire, if bytes are missing, or if the status it
/// met is one worth retrying or counting; and it does not matter whether the probe or the transfer
/// met it. Everything else is final.
pub proof fn law_what_may_pass_is_the_same_everywhere(error: DownloadError, status: u16)
    ensures
        ({
            let class = error.transient_class();
            let probe = error is Probe;
            let transfer = error is Transfer;
            &&& (probe && error->Probe_0 is Transport) || (transfer && error->Transfer_0 is Transport)
                ==> class == Some(TransientKind::ConnectionReset)
            &&& (probe && error->Probe_0 is Timeout) || (transfer && error->Transfer_0 is Timeout)
                ==> class == Some(TransientKind::Timeout)
            &&& (transfer && error->Transfer_0 is TruncatedBody) || error is Incomplete ==> class
                == Some(TransientKind::TruncatedBody)
            &&& probe && (error->Probe_0 matches ProbeError::UnexpectedStatus { status: met, .. }
                && met == status) ==> class == TransientKind::of_status(status)
            &&& transfer && (error->Transfer_0 matches TransferError::UnexpectedStatus {
                status: met,
                ..
            } && met == status) ==> class == TransientKind::of_status(status)
            &&& class is Some ==> (error is Incomplete || (probe && (error->Probe_0 is Transport
                || error->Probe_0 is Timeout || error->Probe_0 is UnexpectedStatus)) || (transfer && (
            error->Transfer_0 is Transport || error->Transfer_0 is Timeout
                || error->Transfer_0 is TruncatedBody || error->Transfer_0 is UnexpectedStatus)))
        }),
{
}

/// Only a status carries the wait that a server asked for, and it carries it unchanged.
pub proof fn law_a_requested_wait_is_passed_on(error: DownloadError)
    ensures
        error.requested_wait() is Some ==> (error is Probe && error->Probe_0 is UnexpectedStatus)
            || (error is Transfer && error->Transfer_0 is UnexpectedStatus),
        error matches DownloadError::Probe(
            ProbeError::UnexpectedStatus { retry_after, .. },
        ) ==> error.requested_wait() == text::owned(retry_after),
        error matches DownloadError::Transfer(
            TransferError::UnexpectedStatus { retry_after, .. },
        ) ==> error.requested_wait() == text::owned(retry_after),
{
}

/// A transfer observed a status exactly if it failed over one.
pub proof fn law_an_observed_status_is_the_one_met(error: TransferError)
    ensures
        observed_status(error) is Some <==> error is UnexpectedStatus || error is ValidatorMismatch,
        error matches TransferError::UnexpectedStatus { status, .. } ==> observed_status(error)
            == Some(status),
        error matches TransferError::ValidatorMismatch { status, .. } ==> observed_status(error)
            == Some(status),
{
}

/// A transient failure is retried while its origin has budget left: from the durable bytes where a
/// validator protects them, else from the start, and after the wait that the policy decides. Any
/// other failure ends the download.
pub proof fn law_a_transient_failure_is_tried_again(
    stream: SingleStream,
    error: DownloadError,
    failures: u32,
    validator: Option<Validator<Seq<char>>>,
    durable_prefix: u64,
    now: Timestamp,
    variation: u64,
)
    requires
        failures < u32::MAX,
    ensures
        ({
            let step = stream.reaction(
                error,
                failures,
                validator,
                durable_prefix,
                now,
                variation,
            );
            let class = error.transient_class();
            let again = class is Some && class->0 != TransientKind::NotRetryable && failures
                < stream.policy.max_retries;
            let protected = validator is Some && !(validator->0 is Absent) && durable_prefix > 0;
            let decided = stream.policy.decision(
                class->0,
                failures,
                error.requested_wait(),
                now,
                variation,
            );
            &&& step is GiveUp <==> !again
            &&& again && protected ==> step is Resume && decided == RetryDecision::RetryAfter(
                step->Resume_delay,
            )
            &&& again && !protected ==> step is Restart && decided == RetryDecision::RetryAfter(
                step->Restart_delay,
            )
        }),
{
}

/// A transient failure counts once and against its own origin; any other counts against none.
pub proof fn law_failures_count_against_their_origin(
    error: DownloadError,
    counts: Map<Seq<char>, u32>,
    origin: Seq<char>,
    other: Seq<char>,
)
    requires
        origin != other,
    ensures
        ({
            let after = counted(error, counts, origin);
            &&& error.transient_class() is None ==> after == counts
            &&& error.transient_class() is Some ==> after.contains_key(origin)
            &&& error.transient_class() is Some && !counts.contains_key(origin) ==> after[origin]
                == 1
            &&& error.transient_class() is Some && counts.contains_key(origin) && counts[origin]
                < u32::MAX ==> after[origin] == counts[origin] + 1
            &&& after.contains_key(other) == counts.contains_key(other)
            &&& counts.contains_key(other) ==> after[other] == counts[other]
        }),
{
}

/// Two validators are hashed from the same text only if they are the same; without a validator
/// there is no text.
pub proof fn law_different_validators_are_told_apart(
    one: Validator<Seq<char>>,
    other: Validator<Seq<char>>,
)
    ensures
        validator_text(one) is None <==> one is Absent,
        validator_text(one) == validator_text(other) ==> one == other,
        one.condition() is Some <==> validator_text(one) is Some,
{
    reveal_strlit("etag:");
    reveal_strlit("last-modified:");
    assert("etag:"@.len() == 5 && "last-modified:"@.len() == 14);
    if validator_text(one) == validator_text(other) && !(one is Absent) {
        let text = validator_text(one)->0;
        match (one, other) {
            (Validator::StrongETag(a), Validator::StrongETag(b)) => {
                assert(text.skip(5) =~= a);
                assert(text.skip(5) =~= b);
            },
            (Validator::LastModified(a), Validator::LastModified(b)) => {
                assert(text.skip(14) =~= a);
                assert(text.skip(14) =~= b);
            },
            _ => {
                assert("etag:"@[0] == 'e' && "last-modified:"@[0] == 'l');
                assert(text[0] == 'e');
                assert(text[0] == 'l');
            },
        }
    }
}

/// A resume asks for everything behind the durable prefix and for nothing before it, only of the
/// version that the stored bytes belong to; its window takes exactly what is missing; and an answer
/// with the whole, or of another version, is refused before a byte of it is stored.
pub proof fn law_a_resume_asks_for_what_is_missing(
    session: Session,
    request: RangeRequest,
    window: RangeSink,
    durable_prefix: u64,
    head: crate::h1h2::ResponseHead,
    offset: int,
)
    requires
        session.is_continued_by(request, durable_prefix),
        session.window_from(window, durable_prefix),
        session.validator@.condition() is Some,
    ensures
        request.url@ == session.final_url@,
        request.range is Some,
        crate::segmented::asks_for(request.range->0, offset) <==> durable_prefix <= offset,
        text::owned(request.if_range) == session.validator@.condition(),
        request.headers@.len() == 0,
        request.timeout.nanos == 300 * 1_000_000_000,
        window.base() == durable_prefix,
        window.count() == 0,
        session.total_length is Some && durable_prefix <= session.total_length->0 ==> window.bound()
            is Some && window.base() + window.bound()->0 == session.total_length->0,
        session.total_length is None ==> window.bound() is None,
        head.status != 206 ==> crate::h1h2::refusal(request, head) matches Some(
            TransferError::ValidatorMismatch { .. },
        ),
        head.status != 206 ==> (crate::h1h2::refusal(
            request,
            head,
        )->0)->ValidatorMismatch_resume_offset == durable_prefix,
{
    crate::h1h2::law_what_is_stored_and_what_is_refused(request, head);
}

/// What is left of a representation and what is there make up the whole of it.
pub proof fn law_what_is_left_completes_the_whole(session: Session, from: u64)
    ensures
        session.remaining(from) is Some <==> session.total_length is Some,
        session.total_length is Some && from <= session.total_length->0 ==> session.remaining(
            from,
        )->0 + from == session.total_length->0,
        session.total_length is Some && from > session.total_length->0 ==> session.remaining(
            from,
        )->0 == 0,
{
}

/// Refreshed evidence must be of the same version: a probe with another validator, or with a length
/// other than the one known, shows that the representation changed. What is taken over keeps the
/// validator of the stored bytes and where they lie.
pub proof fn law_a_changed_representation_is_noticed(
    held: Session,
    fresh: RemoteObject,
    refreshed: Session,
)
    ensures
        fresh.validator@ != held.validator@ ==> representation_changed(held, fresh),
        fresh.total_length is Some && held.total_length is Some && fresh.total_length->0
            != held.total_length->0 ==> representation_changed(held, fresh),
        fresh.total_length is Some && held.total_length is None ==> representation_changed(
            held,
            fresh,
        ),
        fresh.validator@ == held.validator@ && (fresh.total_length is None || fresh.total_length
            == held.total_length) ==> !representation_changed(held, fresh),
        held.takes_over(refreshed, fresh) ==> refreshed.validator == held.validator
            && refreshed.sink == held.sink && refreshed.total_length == held.total_length
            && refreshed.final_url@ == fresh.final_url@ && refreshed.last_observed_status is None
            && refreshed.artifacts == held.artifacts && refreshed.final_path == held.final_path,
{
}

/// A fetch has brought the whole representation exactly if it was not cut short and, where the
/// length is known, the bytes before the window and those in it make it up.
pub proof fn law_a_whole_representation_has_every_byte(session: Session, outcome: RangeOutcome)
    requires
        session.sink.base() + session.sink.count() <= u64::MAX,
    ensures
        session.is_whole(outcome) <==> !outcome.truncated && (session.total_length is None
            || session.total_length->0 == session.sink.base() + session.sink.count()),
{
}

/// Held evidence is judged as any other: by the URL to fetch, what was observed last, and its age.
pub proof fn law_held_evidence_is_judged_like_any_other(
    stream: SingleStream,
    held: Session,
    now: Timestamp,
)
    requires
        stream.reprobe.freshness.nanos < u128::MAX,
    ensures
        stream.stale(held, now).len() == 0 <==> {
            &&& held.final_url@ == held.recorded.final_url@
            &&& held.last_observed_status is Some ==> probe::contradicts(
                held.last_observed_status->0,
                held.recorded.range_support,
            ) is None
            &&& held.recorded.probed_at.nanos <= now.nanos
            &&& now.nanos - held.recorded.probed_at.nanos <= stream.reprobe.freshness.nanos
        },
{
}

/// A download's failure goes by the name of what failed: a probe's or a transfer's own name, and
/// otherwise a name of its own; a refused verification has one name wherever it was noticed.
pub proof fn law_a_failed_download_is_named_after_its_cause(error: DownloadError)
    ensures
        error matches DownloadError::Probe(cause) ==> error.name() == cause.name(),
        error matches DownloadError::Transfer(cause) ==> error.name() == cause.name(),
        error is Unverified || (error is Writer && error->Writer_source is Unverified)
            ==> error.name() == "unverified"@,
        error is Writer && !(error->Writer_source is Unverified) ==> error.name()
            == "download_state"@,
        error is Incomplete ==> error.name() == "incomplete"@,
        error is TargetExists ==> error.name() == "target_exists"@,
        error is Sink ==> error.name() == "sink"@,
        error is Segmented ==> error.name() == "segmented_transfer"@,
        error is Allocator ==> error.name() == "allocator"@,
        error is Recovery ==> error.name() == "recovery"@,
        error is ResumeLengthMismatch ==> error.name() == "resume_length_mismatch"@,
        error is Resume ==> error.name() == "resume"@,
        error is Io ==> error.name() == "io"@,
{
}

/// The same download goes to the same place from the same URL, of the same version and length, by
/// the same evidence; and whatever is the same as a third is the same.
pub proof fn law_the_same_download_agrees_in_everything(one: Session, other: Session, third: Session)
    ensures
        one.same_download(&other) <==> one.validator == other.validator && one.recorded
            == other.recorded && one.final_url == other.final_url && one.total_length
            == other.total_length && one.final_path == other.final_path && one.artifacts
            == other.artifacts,
        one.same_download(&other) ==> other.same_download(&one),
        one.same_download(&other) && other.same_download(&third) ==> one.same_download(&third),
        one.same_download(&other) ==> one.remaining(0) == other.remaining(0),
{
}

/// A fresh download asks for the whole representation, unconditionally and from the beginning, into
/// a window that is as long as the representation; and it keeps the version that the probe saw.
pub proof fn law_a_fresh_download_asks_for_the_whole(
    session: Session,
    request: RangeRequest,
    remote: RemoteObject,
    final_path: String,
    artifacts: Artifacts,
    outcome: RangeOutcome,
)
    requires
        session.begins(request, remote, final_path, artifacts),
    ensures
        request.url@ == remote.final_url@ && session.final_url@ == remote.final_url@,
        request.range is None && request.if_range is None && request.headers@.len() == 0,
        request.timeout.nanos == 300 * 1_000_000_000,
        session.sink.base() == 0 && session.sink.count() == 0,
        session.sink.bound() == remote.total_length && session.total_length == remote.total_length,
        session.validator == remote.validator && session.recorded == remote,
        session.final_path == final_path && session.artifacts == artifacts,
        session.last_observed_status is None,
        remote.total_length is Some && remote.total_length->0 > 0 ==> !session.is_whole(outcome),
{
}

/// Nothing is named before it is whole: a failed sync is reported first, then a failed transfer, and
/// then missing bytes, with what was expected and what is there; and nothing else is objected to.
pub proof fn law_only_a_whole_synced_fetch_is_named(
    session: Session,
    synced: Result<(), SinkError>,
    fetched: Result<RangeOutcome, TransferError>,
)
    requires
        session.sink.base() + session.sink.count() <= u64::MAX,
    ensures
        ({
            let objection = session.objection(synced, fetched);
            let stored = session.sink.base() + session.sink.count();
            &&& objection is None <==> synced is Ok && fetched is Ok && !fetched->Ok_0.truncated && (
            session.total_length is None || session.total_length->0 == stored)
            &&& synced is Err ==> objection == Some(
                DownloadError::Sink {
                    path: session.artifacts.part_path,
                    source: synced->Err_0,
                },
            )
            &&& synced is Ok && fetched is Err ==> objection == Some(
                DownloadError::Transfer(fetched->Err_0),
            )
            &&& synced is Ok && fetched is Ok && objection is Some ==> objection->0 is Incomplete
                && objection->0->Incomplete_expected == session.total_length
                && objection->0->Incomplete_actual == stored && objection->0->Incomplete_path
                == session.artifacts.part_path
        }),
{
}

/// A file goes by the name that was suggested, and by the fixed name only where none was.
pub proof fn law_a_suggested_name_is_used(suggested: Option<Seq<char>>)
    ensures
        suggested is Some ==> final_name(suggested) == suggested->0,
        suggested is None ==> final_name(suggested) == "download"@,
{
}

} // verus!
