//! The daemon's transfer registry and its answers to authenticated commands.
//!
//! A client connection may submit and observe a transfer, but it never owns one: a command only
//! changes the registry and leaves a job behind, and the jobs outlive every connection.

use crate::address;
use crate::address::Address;
use crate::codec::CodecError;
use crate::download::DownloadError;
use crate::h1h2::TransportMode;
use crate::messages;
use crate::messages::{
    AddParams, DownloadId, DownloadView, ErrorData, Request, Response, RpcError, StateResult,
    SystemStatus, WireState,
};
use crate::records;
use crate::records::{DownloadMetadata, DownloadState};
use crate::registry;
use crate::registry::{DownloadRecord, Phase, RecordView, Registry};
use crate::schema::{RequestView, ResponseView};
use crate::session;
use crate::session::{CommandHandler, SessionError};
use crate::startup;
use crate::startup::RecoverySummary;
use crate::text;
use crate::time;
use crate::time::{Duration, Timestamp};
use crate::token::{SessionToken, TokenError};
use crate::transport::TransportError;
use std::time::Instant;
use vstd::prelude::*;

verus! {

/// Connections used when a client does not ask for a number.
pub const DEFAULT_CONNECTIONS: usize = 1;

/// Hard ceiling on a client-requested connection count.
pub const MAX_CONNECTIONS: usize = 16;

/// Application error code of every failure.
pub const ERROR_CODE: i32 = -32_000;

/// How many connections a request turns into. Zero is refused rather than read as one.
pub open spec fn granted_connections(requested: Option<u16>) -> Option<usize> {
    match requested {
        None => Some(DEFAULT_CONNECTIONS),
        Some(count) => if count == 0 {
            None
        } else if count <= MAX_CONNECTIONS {
            Some(count as usize)
        } else {
            Some(MAX_CONNECTIONS)
        },
    }
}

/// How many connections a client's request actually turns into.
///
/// A ceiling, never a target. Without a preference the default applies; zero is a request for a
/// pool that cannot make progress, and is refused.
pub fn effective_connections(requested: Option<u16>) -> (connections: Option<usize>)
    ensures
        connections == granted_connections(requested),
{
    match requested {
        Some(count) => {
            if count == 0 {
                None
            } else if count as usize <= MAX_CONNECTIONS {
                Some(count as usize)
            } else {
                Some(MAX_CONNECTIONS)
            }
        },
        None => Some(DEFAULT_CONNECTIONS),
    }
}

/// The bytes of an identity minted at a moment from random bytes: 48 bits of milliseconds, most
/// significant first, then the version, the variant, and random bits.
pub open spec fn minted_bytes(millis: u64, random: Seq<u8>) -> Seq<u8> {
    seq![
        (millis / 0x100_0000_0000 % 256) as u8,
        (millis / 0x1_0000_0000 % 256) as u8,
        (millis / 0x100_0000 % 256) as u8,
        (millis / 0x1_0000 % 256) as u8,
        (millis / 0x100 % 256) as u8,
        (millis % 256) as u8,
        (112 + random[0] % 16) as u8,
        random[1],
        (128 + random[2] % 64) as u8,
        random[3],
        random[4],
        random[5],
        random[6],
        random[7],
        random[8],
        random[9],
    ]
}

/// Mint the identity of a moment and a token.
pub fn mint_download_id(now: Option<Timestamp>, token: Result<SessionToken, TokenError>) -> (id:
    Result<DownloadId, &'static str>)
    ensures
        match (now, token) {
            (None, _) => id is Err && id->Err_0@ == "system clock is before the Unix epoch"@,
            (Some(now), Err(_)) => id is Err && (if now.nanos / time::NANOS_PER_MILLI > u64::MAX {
                id->Err_0@ == "system clock is beyond a 48-bit epoch"@
            } else {
                id->Err_0@ == "OS random source refused an ID"@
            }),
            (Some(now), Ok(token)) => if now.nanos / time::NANOS_PER_MILLI > u64::MAX {
                id is Err && id->Err_0@ == "system clock is beyond a 48-bit epoch"@
            } else {
                id is Ok && id->Ok_0@ == text::hex(
                    minted_bytes((now.nanos / time::NANOS_PER_MILLI) as u64, token@),
                )
            },
        },
{
    let now: Timestamp = match now {
        Some(now) => now,
        None => {
            return Err("system clock is before the Unix epoch");
        },
    };
    let millis: u128 = now.nanos / time::NANOS_PER_MILLI;
    if millis > u64::MAX as u128 {
        return Err("system clock is beyond a 48-bit epoch");
    }
    let millis: u64 = millis as u64;
    let token: SessionToken = match token {
        Ok(token) => token,
        Err(_) => {
            return Err("OS random source refused an ID");
        },
    };
    let random: &[u8; 32] = token.bytes();
    let bytes: [u8; 16] = [
        (millis / 0x100_0000_0000 % 256) as u8,
        (millis / 0x1_0000_0000 % 256) as u8,
        (millis / 0x100_0000 % 256) as u8,
        (millis / 0x1_0000 % 256) as u8,
        (millis / 0x100 % 256) as u8,
        (millis % 256) as u8,
        112 + random[0] % 16,
        random[1],
        128 + random[2] % 64,
        random[3],
        random[4],
        random[5],
        random[6],
        random[7],
        random[8],
        random[9],
    ];
    proof {
        assert(bytes@ =~= minted_bytes(millis, token@));
        text::law_hex_round_trips(bytes@);
    }
    let digits: String = text::to_hex(bytes.as_slice());
    DownloadId::new(digits.as_str())
}

/// Some clock and some random source give this identity, or this refusal.
pub open spec fn mintable(minted: Result<Seq<char>, Seq<char>>) -> bool {
    match minted {
        Ok(id) => exists|millis: u64, random: Seq<u8>|
            random.len() == 32 && id == text::hex(#[trigger] minted_bytes(millis, random)),
        Err(message) => {
            ||| message == "system clock is before the Unix epoch"@
            ||| message == "system clock is beyond a 48-bit epoch"@
            ||| message == "OS random source refused an ID"@
        },
    }
}

/// Mint a fresh download identity from the clock and the operating system's random source. Which
/// identity it is, and whether both sources answer, is up to the system.
///
/// The bytes also name the record and the journal, so they form a UUIDv7: identities sort by
/// creation.
pub fn fresh_download_id() -> (id: Result<DownloadId, &'static str>)
    ensures
        mintable(minted_view(id)),
{
    let now: Option<Timestamp> = time::wall_clock();
    let token: Result<SessionToken, TokenError> = SessionToken::generate();
    mint_download_id(now, token)
}

/// Identities sort by creation: of two moments that 48 bits of milliseconds hold, the earlier one
/// gives the identity that comes first, whatever the random bits are.
pub proof fn law_identities_sort_by_creation(
    earlier: u64,
    later: u64,
    one: Seq<u8>,
    other: Seq<u8>,
)
    requires
        earlier < later < 0x1_0000_0000_0000,
        one.len() == 32,
        other.len() == 32,
    ensures
        text::precedes(
            text::hex(minted_bytes(earlier, one)),
            text::hex(minted_bytes(later, other)),
        ),
{
    let at = lemma_first_difference(earlier, later);
    let a = minted_bytes(earlier, one);
    let b = minted_bytes(later, other);
    assert(a[at] == time_byte(earlier, at) && b[at] == time_byte(later, at));
    assert forall|i: int| 0 <= i < at implies #[trigger] a[i] == b[i] by {
        assert(a[i] == time_byte(earlier, i) && b[i] == time_byte(later, i));
    }
    text::lemma_hex_keeps_the_order(a, b, at);
}

/// A moment without its lowest `5 - at` bytes.
spec fn shortened(millis: u64, at: int) -> u64 {
    if at == 0 {
        millis / 0x100_0000_0000
    } else if at == 1 {
        millis / 0x1_0000_0000
    } else if at == 2 {
        millis / 0x100_0000
    } else if at == 3 {
        millis / 0x1_0000
    } else if at == 4 {
        millis / 0x100
    } else {
        millis
    }
}

/// One of the six bytes that write a moment.
spec fn time_byte(millis: u64, at: int) -> u8 {
    (shortened(millis, at) % 256) as u8
}

/// The first byte in which two moments differ is the lower one of the earlier moment.
proof fn lemma_first_difference(earlier: u64, later: u64) -> (at: int)
    requires
        earlier < later < 0x1_0000_0000_0000,
    ensures
        0 <= at < 6,
        time_byte(earlier, at) < time_byte(later, at),
        forall|i: int| 0 <= i < at ==> #[trigger] time_byte(earlier, i) == time_byte(later, i),
{
    let at = if shortened(earlier, 0) != shortened(later, 0) {
        0int
    } else if shortened(earlier, 1) != shortened(later, 1) {
        1
    } else if shortened(earlier, 2) != shortened(later, 2) {
        2
    } else if shortened(earlier, 3) != shortened(later, 3) {
        3
    } else if shortened(earlier, 4) != shortened(later, 4) {
        4
    } else {
        5
    };
    assert(shortened(earlier, at) < shortened(later, at));
    if at > 0 {
        assert(shortened(earlier, at) / 256 == shortened(earlier, at - 1));
        assert(shortened(later, at) / 256 == shortened(later, at - 1));
    }
    lemma_last_byte(shortened(earlier, at), shortened(later, at));
    at
}

proof fn lemma_last_byte(low: u64, high: u64)
    requires
        low < high,
        low / 256 == high / 256,
    ensures
        low % 256 < high % 256,
{
}

/// Every identity that the daemon mints is one that its own store accepts, and the wire form names
/// the same bytes.
pub proof fn law_every_minted_identity_is_storable(millis: u64, random: Seq<u8>)
    requires
        random.len() == 32,
    ensures
        records::is_uuid_v7(minted_bytes(millis, random)),
        messages::valid_id(text::hex(minted_bytes(millis, random))),
        records::id_bytes(text::hex(minted_bytes(millis, random))) == minted_bytes(millis, random),
{
    text::law_hex_round_trips(minted_bytes(millis, random));
}

/// File-system and transport settings of one daemon.
#[derive(Clone, Debug)]
pub struct TransferConfig {
    /// Target directory when an add request supplies none.
    pub target_dir: String,
    /// Directory of the recovery journals.
    pub journal_dir: String,
    /// Where the records of all downloads are kept.
    pub database_path: String,
    /// Protocol selection.
    pub transport_mode: TransportMode,
}

/// One authenticated connection could not be served.
#[derive(Debug, PartialEq, Eq)]
pub enum ServerError {
    /// The byte stream failed or carried an invalid frame.
    Transport(TransportError),
    /// Authentication, version negotiation, or dispatch failed.
    Session(SessionError),
    /// A response could not be encoded.
    Codec(CodecError),
}

/// A failure of a given name.
pub open spec fn failure(
    kind: Seq<char>,
    message: Seq<char>,
    recoverable: bool,
    download_id: Option<Seq<char>>,
) -> ResponseView {
    Response::Error(
        RpcError {
            code: ERROR_CODE,
            message,
            data: ErrorData {
                protocol_version: messages::PROTOCOL_VERSION,
                kind,
                download_id,
                recoverable,
                suggestion: if recoverable {
                    Some("retry"@)
                } else {
                    None
                },
            },
        },
    )
}

/// A failure of a given name. One that may pass suggests to retry.
pub fn rpc_error(
    kind: &str,
    message: &str,
    recoverable: bool,
    download_id: Option<DownloadId>,
) -> (response: Response)
    ensures
        response@ == failure(
            kind@,
            message@,
            recoverable,
            messages::optional_id(download_id),
        ),
{
    let suggestion: Option<String> = if recoverable {
        Some("retry".to_owned())
    } else {
        None
    };
    Response::Error(
        RpcError {
            code: ERROR_CODE,
            message: message.to_owned(),
            data: ErrorData {
                protocol_version: messages::PROTOCOL_VERSION,
                kind: kind.to_owned(),
                download_id,
                recoverable,
                suggestion,
            },
        },
    )
}

/// The failure of a daemon whose state another task left unusable.
pub fn state_unavailable(download_id: Option<DownloadId>) -> (response: Response)
    ensures
        response@ == failure(
            "state_unavailable"@,
            "daemon transfer state is unavailable"@,
            true,
            messages::optional_id(download_id),
        ),
{
    rpc_error(
        "state_unavailable",
        "daemon transfer state is unavailable",
        true,
        download_id,
    )
}

/// Work that a command leaves behind.
#[derive(PartialEq, Eq)]
pub enum Job<T = String, I = DownloadId> {
    /// Fetch a submitted download.
    Fetch {
        /// Its identity.
        id: I,
        /// The URL as it serialises.
        url: T,
        /// Directory of the finished file.
        target_dir: T,
        /// How many connections it may use.
        connections: usize,
    },
    /// Continue a paused download.
    Resume {
        /// Its identity.
        id: I,
    },
}

/// A job, over sequences of characters.
pub type JobView = Job<Seq<char>, Seq<char>>;

impl View for Job {
    type V = Job<Seq<char>, Seq<char>>;

    open spec fn view(&self) -> Job<Seq<char>, Seq<char>> {
        match *self {
            Job::Fetch { id, url, target_dir, connections } => Job::Fetch {
                id: id@,
                url: url@,
                target_dir: target_dir@,
                connections,
            },
            Job::Resume { id } => Job::Resume { id: id@ },
        }
    }
}

/// What every job of a list says.
pub open spec fn job_list(jobs: Seq<Job>) -> Seq<JobView> {
    jobs.map_values(|job: Job| job@)
}

/// What the daemon holds, as commands see it.
pub struct DaemonView {
    /// Target directory when an add request supplies none.
    pub target_dir: Seq<char>,
    /// Every download by identity.
    pub records: Map<Seq<char>, RecordView>,
    /// Work that commands left behind, oldest first.
    pub jobs: Seq<JobView>,
}

/// A record of a state alone.
pub open spec fn bare_record(state: WireState) -> RecordView {
    DownloadRecord { state, covered: 0, total: None, error_kind: None }
}

/// What an add request comes to: the answer, and what the daemon holds then. `minted` is the
/// identity that was minted for it.
pub open spec fn added(
    daemon: DaemonView,
    params: AddParams<Seq<char>, Seq<char>>,
    minted: Result<Seq<char>, Seq<char>>,
) -> (ResponseView, DaemonView) {
    let url = address::parsed_url(params.url);
    let connections = granted_connections(params.options.connections);
    if url is None || !url->0.is_web() {
        (failure("invalid_url"@, "download URL is not HTTP(S)"@, false, None), daemon)
    } else if connections is None {
        (
            failure(
                "invalid_connections"@,
                "connection count must be greater than zero"@,
                false,
                None,
            ),
            daemon,
        )
    } else {
        match minted {
            Err(message) => (failure("id_generation_failed"@, message, true, None), daemon),
            Ok(id) => if !records::is_uuid_v7(records::id_bytes(id)) {
                (
                    failure("invalid_id"@, "minted download id is not storable"@, true, None),
                    daemon,
                )
            } else {
                (
                    Response::Added(
                        StateResult {
                            protocol_version: messages::PROTOCOL_VERSION,
                            id,
                            state: WireState::Submitted,
                        },
                    ),
                    DaemonView {
                        records: daemon.records.insert(id, bare_record(WireState::Submitted)),
                        jobs: daemon.jobs.push(
                            Job::Fetch {
                                id,
                                url: url->0.text,
                                target_dir: match params.target {
                                    Some(target) => target,
                                    None => daemon.target_dir,
                                },
                                connections: connections->0,
                            },
                        ),
                        ..daemon
                    },
                )
            },
        }
    }
}

/// What is told of a download.
pub open spec fn told(daemon: DaemonView, id: Seq<char>) -> ResponseView {
    if daemon.records.contains_key(id) {
        let record = daemon.records[id];
        Response::Download(
            DownloadView {
                protocol_version: messages::PROTOCOL_VERSION,
                id,
                state: record.state,
                covered: record.covered,
                total: record.total,
                error_kind: record.error_kind,
            },
        )
    } else {
        failure("not_found"@, "download was not found"@, false, Some(id))
    }
}

/// What a resume request comes to: only a paused download is continued.
pub open spec fn resumed(daemon: DaemonView, id: Seq<char>) -> (ResponseView, DaemonView) {
    if !daemon.records.contains_key(id) || daemon.records[id].state != WireState::Paused {
        (
            failure(
                "resume_not_ready"@,
                "cross-process resume is not available until S3-T9"@,
                true,
                Some(id),
            ),
            daemon,
        )
    } else {
        (
            Response::Resumed(
                StateResult {
                    protocol_version: messages::PROTOCOL_VERSION,
                    id,
                    state: WireState::Transferring,
                },
            ),
            DaemonView {
                records: daemon.records.insert(
                    id,
                    DownloadRecord {
                        state: WireState::Transferring,
                        error_kind: None,
                        ..daemon.records[id]
                    },
                ),
                jobs: daemon.jobs.push(Job::Resume { id }),
                ..daemon
            },
        )
    }
}

/// At most what 32 bits hold.
pub open spec fn capped(count: nat) -> u32 {
    if count <= u32::MAX {
        count as u32
    } else {
        u32::MAX
    }
}

/// The daemon's status after so many seconds.
pub open spec fn status_of(daemon: DaemonView, uptime_seconds: u64) -> ResponseView {
    Response::Status(
        SystemStatus {
            protocol_version: messages::PROTOCOL_VERSION,
            version: session::DAEMON_VERSION@,
            uptime_seconds,
            active: capped(registry::in_phase(daemon.records, Phase::Active).len()),
            queued: capped(registry::in_phase(daemon.records, Phase::Queued).len()),
            throughput: 0,
        },
    )
}

/// What a command comes to: the answer, and what the daemon holds then.
pub open spec fn dispatched(
    daemon: DaemonView,
    request: RequestView,
    minted: Result<Seq<char>, Seq<char>>,
    uptime_seconds: u64,
) -> (ResponseView, DaemonView) {
    match request {
        Request::DownloadAdd(params) => added(daemon, params, minted),
        Request::DownloadGet(params) => (told(daemon, params.id), daemon),
        Request::DownloadResume(params) => resumed(daemon, params.id),
        Request::SystemStatus(_) => (status_of(daemon, uptime_seconds), daemon),
        Request::Hello(_) => (
            failure(
                "invalid_dispatch"@,
                "hello must be handled by the authenticated session"@,
                false,
                None,
            ),
            daemon,
        ),
    }
}

/// The registry once it has learnt of a stored download.
pub open spec fn learnt(
    records: Map<Seq<char>, RecordView>,
    id: Seq<char>,
    state: DownloadState,
    covered: u64,
    total: Option<u64>,
    error_kind: Option<Seq<char>>,
) -> Map<Seq<char>, RecordView> {
    records.insert(
        id,
        DownloadRecord { state: records::presented(state), covered, total, error_kind },
    )
}

/// The registry once it has taken note of a transfer's progress; what is not known stays unknown.
pub open spec fn noted(
    records: Map<Seq<char>, RecordView>,
    id: Seq<char>,
    record: RecordView,
) -> Map<Seq<char>, RecordView> {
    if records.contains_key(id) {
        records.insert(id, record)
    } else {
        records
    }
}

/// The registry once it has learnt of stored downloads, one after the other.
pub open spec fn seeded(
    records: Map<Seq<char>, RecordView>,
    stored: Seq<DownloadMetadata>,
) -> Map<Seq<char>, RecordView>
    decreases stored.len(),
{
    if stored.len() == 0 {
        records
    } else {
        let last = stored.last();
        learnt(
            seeded(records, stored.drop_last()),
            text::hex(last.id@),
            last.state,
            last.covered_bytes,
            last.total_length,
            text::owned(last.error_kind),
        )
    }
}

/// Command endpoint whose transfers outlive client sessions.
pub struct TransferDaemon {
    config: TransferConfig,
    registry: Registry,
    jobs: Vec<Job>,
    started: Instant,
}

impl View for TransferDaemon {
    type V = DaemonView;

    closed spec fn view(&self) -> DaemonView {
        DaemonView {
            target_dir: self.config.target_dir@,
            records: self.registry@,
            jobs: job_list(self.jobs@),
        }
    }
}

/// A minted identity, over sequences of characters.
pub open spec fn minted_view(minted: Result<DownloadId, &'static str>) -> Result<
    Seq<char>,
    Seq<char>,
> {
    match minted {
        Ok(id) => Ok(id@),
        Err(message) => Err(message@),
    }
}

impl TransferDaemon {
    /// The settings of this daemon.
    pub closed spec fn settings(&self) -> TransferConfig {
        self.config
    }

    /// Create a command endpoint that knows of nothing. No transfer starts until one is added.
    pub fn new(config: TransferConfig) -> (daemon: Self)
        ensures
            daemon.settings() == config,
            daemon@.target_dir == config.target_dir@,
            daemon@.records == Map::<Seq<char>, RecordView>::empty(),
            daemon@.jobs == Seq::<JobView>::empty(),
    {
        let jobs: Vec<Job> = Vec::new();
        proof {
            assert(job_list(jobs@) =~= Seq::<JobView>::empty());
        }
        TransferDaemon { config, registry: Registry::new(), jobs, started: time::steady_clock() }
    }

    /// The settings of this daemon.
    pub fn config(&self) -> (config: &TransferConfig)
        ensures
            *config == self.settings(),
            config.target_dir@ == self@.target_dir,
    {
        &self.config
    }

    /// Learn of a download that an earlier process recorded.
    pub fn seed(
        &mut self,
        id: DownloadId,
        state: DownloadState,
        covered: u64,
        total: Option<u64>,
        error_kind: Option<String>,
    )
        ensures
            final(self)@.records == learnt(
                old(self)@.records,
                id@,
                state,
                covered,
                total,
                text::owned(error_kind),
            ),
            final(self)@.jobs == old(self)@.jobs,
            final(self)@.target_dir == old(self)@.target_dir,
            final(self).settings() == old(self).settings(),
    {
        let record = DownloadRecord {
            state: records::wire_state(state),
            covered,
            total,
            error_kind,
        };
        self.registry.insert(id, record);
    }

    /// Learn of every download that an earlier process recorded, whatever its state, and report
    /// how many of them recovery made usable. Nothing is resumed.
    pub fn recover(&mut self, stored: &Vec<DownloadMetadata>, summary: &RecoverySummary) -> (
        resumable: usize)
        ensures
            resumable == startup::usable_count(summary.attempted()),
            final(self)@.records == seeded(old(self)@.records, stored@),
            final(self)@.jobs == old(self)@.jobs,
            final(self)@.target_dir == old(self)@.target_dir,
            final(self).settings() == old(self).settings(),
    {
        let ghost before = self@;
        let mut index: usize = 0;
        proof {
            assert(stored@.take(0) =~= Seq::<DownloadMetadata>::empty());
        }
        while index < stored.len()
            invariant
                index <= stored@.len(),
                self@.records == seeded(before.records, stored@.take(index as int)),
                self@.jobs == before.jobs,
                self@.target_dir == before.target_dir,
                self.settings() == old(self).settings(),
            decreases stored@.len() - index,
        {
            proof {
                assert(stored@.take(index + 1).drop_last() =~= stored@.take(index as int));
            }
            let metadata = &stored[index];
            if let Ok(id) = records::wire_id(&metadata.id) {
                self.seed(
                    id,
                    metadata.state,
                    metadata.covered_bytes,
                    metadata.total_length,
                    text::copied(&metadata.error_kind),
                );
            }
            index = index + 1;
        }
        proof {
            assert(stored@.take(stored@.len() as int) =~= stored@);
        }
        summary.recovered()
    }

    /// Take note of a transfer's progress. A download that is not known stays unknown.
    pub fn update_state(
        &mut self,
        id: &DownloadId,
        state: WireState,
        covered: u64,
        total: Option<u64>,
        error_kind: Option<String>,
    )
        ensures
            final(self)@.records == noted(
                old(self)@.records,
                id@,
                DownloadRecord { state, covered, total, error_kind: text::owned(error_kind) },
            ),
            final(self)@.jobs == old(self)@.jobs,
            final(self)@.target_dir == old(self)@.target_dir,
            final(self).settings() == old(self).settings(),
    {
        let record = DownloadRecord { state, covered, total, error_kind };
        self.registry.update(id, record);
    }

    /// Take the jobs that commands left behind, oldest first.
    pub fn take_jobs(&mut self) -> (jobs: Vec<Job>)
        ensures
            job_list(jobs@) == old(self)@.jobs,
            final(self)@.jobs == Seq::<JobView>::empty(),
            final(self)@.records == old(self)@.records,
            final(self)@.target_dir == old(self)@.target_dir,
            final(self).settings() == old(self).settings(),
    {
        let mut jobs: Vec<Job> = Vec::new();
        std::mem::swap(&mut jobs, &mut self.jobs);
        proof {
            assert(job_list(self.jobs@) =~= Seq::<JobView>::empty());
        }
        jobs
    }

    /// Accept or refuse a new download.
    pub fn add(&mut self, params: AddParams, minted: Result<DownloadId, &'static str>) -> (response:
        Response)
        ensures
            final(self).settings() == old(self).settings(),
            (response@, final(self)@) == added(
                old(self)@,
                AddParams {
                    protocol_version: params.protocol_version,
                    url: params.url@,
                    target: text::owned(params.target),
                    options: params.options,
                },
                minted_view(minted),
            ),
    {
        let url: Address = match Address::parse(params.url.expose()) {
            Some(url) => url,
            None => {
                return rpc_error("invalid_url", "download URL is not HTTP(S)", false, None);
            },
        };
        if !url.is_http() {
            return rpc_error("invalid_url", "download URL is not HTTP(S)", false, None);
        }
        let connections: usize = match effective_connections(params.options.connections) {
            Some(connections) => connections,
            None => {
                return rpc_error(
                    "invalid_connections",
                    "connection count must be greater than zero",
                    false,
                    None,
                );
            },
        };
        let id: DownloadId = match minted {
            Ok(id) => id,
            Err(message) => {
                return rpc_error("id_generation_failed", message, true, None);
            },
        };
        if records::stored_id(&id).is_none() {
            return rpc_error("invalid_id", "minted download id is not storable", true, None);
        }
        let target_dir: String = match params.target {
            Some(target) => target,
            None => self.config.target_dir.clone(),
        };
        let record = DownloadRecord {
            state: WireState::Submitted,
            covered: 0,
            total: None,
            error_kind: None,
        };
        self.registry.insert(id.clone(), record);
        let ghost before = self.jobs@;
        let job = Job::Fetch { id: id.clone(), url: url.text, target_dir, connections };
        let ghost pushed = job@;
        self.jobs.push(job);
        proof {
            assert(job_list(self.jobs@) =~= job_list(before).push(pushed));
        }
        Response::Added(
            StateResult {
                protocol_version: messages::PROTOCOL_VERSION,
                id,
                state: WireState::Submitted,
            },
        )
    }

    /// Tell what is known of a download.
    pub fn get(&self, id: DownloadId) -> (response: Response)
        ensures
            response@ == told(self@, id@),
    {
        match self.registry.get(&id) {
            Some(record) => Response::Download(
                DownloadView {
                    protocol_version: messages::PROTOCOL_VERSION,
                    id,
                    state: record.state,
                    covered: record.covered,
                    total: record.total,
                    error_kind: text::copied(&record.error_kind),
                },
            ),
            None => rpc_error("not_found", "download was not found", false, Some(id)),
        }
    }

    /// Continue a paused download. Any other is not ready to be resumed, and may be asked for
    /// again.
    pub fn resume(&mut self, id: DownloadId) -> (response: Response)
        ensures
            final(self).settings() == old(self).settings(),
            (response@, final(self)@) == resumed(old(self)@, id@),
    {
        let paused: Option<(u64, Option<u64>)> = match self.registry.get(&id) {
            Some(record) => if record.state == WireState::Paused {
                Some((record.covered, record.total))
            } else {
                None
            },
            None => None,
        };
        let (covered, total) = match paused {
            Some(paused) => paused,
            None => {
                return rpc_error(
                    "resume_not_ready",
                    "cross-process resume is not available until S3-T9",
                    true,
                    Some(id),
                );
            },
        };
        let record = DownloadRecord {
            state: WireState::Transferring,
            covered,
            total,
            error_kind: None,
        };
        self.registry.insert(id.clone(), record);
        let ghost before = self.jobs@;
        let job = Job::Resume { id: id.clone() };
        let ghost pushed = job@;
        self.jobs.push(job);
        proof {
            assert(job_list(self.jobs@) =~= job_list(before).push(pushed));
        }
        Response::Resumed(
            StateResult {
                protocol_version: messages::PROTOCOL_VERSION,
                id,
                state: WireState::Transferring,
            },
        )
    }

    /// Tell the daemon's status.
    pub fn status(&self, uptime_seconds: u64) -> (response: Response)
        ensures
            response@ == status_of(self@, uptime_seconds),
    {
        let active: usize = self.registry.count(Phase::Active);
        let queued: usize = self.registry.count(Phase::Queued);
        Response::Status(
            SystemStatus {
                protocol_version: messages::PROTOCOL_VERSION,
                version: session::DAEMON_VERSION.to_owned(),
                uptime_seconds,
                active: if active <= u32::MAX as usize {
                    active as u32
                } else {
                    u32::MAX
                },
                queued: if queued <= u32::MAX as usize {
                    queued as u32
                } else {
                    u32::MAX
                },
                throughput: 0,
            },
        )
    }

    /// Execute one command, given the identity minted for it and the daemon's age.
    pub fn dispatch(
        &mut self,
        request: Request,
        minted: Result<DownloadId, &'static str>,
        uptime_seconds: u64,
    ) -> (response: Response)
        ensures
            final(self).settings() == old(self).settings(),
            (response@, final(self)@) == dispatched(
                old(self)@,
                request@,
                minted_view(minted),
                uptime_seconds,
            ),
    {
        match request {
            Request::DownloadAdd(params) => self.add(params, minted),
            Request::DownloadGet(params) => self.get(params.id),
            Request::DownloadResume(params) => self.resume(params.id),
            Request::SystemStatus(_) => self.status(uptime_seconds),
            Request::Hello(_) => rpc_error(
                "invalid_dispatch",
                "hello must be handled by the authenticated session",
                false,
                None,
            ),
        }
    }

    /// Whole seconds since the daemon was created. A change of the wall clock does not alter them;
    /// how many have passed is up to the machine.
    fn uptime_seconds(&self) -> (seconds: u64)
        ensures
            exists|age: Duration| seconds == #[trigger] age.whole_secs(),
    {
        time::elapsed(&self.started).as_secs()
    }
}

impl CommandHandler for TransferDaemon {
    /// The command comes to what it comes to for some identity that may be minted and some age,
    /// and leaves the settings alone.
    open spec fn may(
        before: Self,
        request: RequestView,
        after: Self,
        response: Response,
    ) -> bool {
        &&& after.settings() == before.settings()
        &&& exists|minted: Result<Seq<char>, Seq<char>>, age: Duration|
            (response@, after@) == #[trigger] dispatched(
                before@,
                request,
                minted,
                age.whole_secs(),
            ) && (request is DownloadAdd ==> mintable(minted))
    }

    /// Execute one command: an identity is minted where one may be needed.
    fn handle(&mut self, request: Request) -> (response: Response) {
        let uptime_seconds: u64 = self.uptime_seconds();
        let minted: Result<DownloadId, &'static str> = match &request {
            Request::DownloadAdd(_) => fresh_download_id(),
            _ => Err("no identity was needed"),
        };
        self.dispatch(request, minted, uptime_seconds)
    }
}

/// How a transfer ended: the registry's state, the bytes covered, the length, and the failure's
/// name.
pub open spec fn ending(outcome: Result<Option<u64>, Seq<char>>) -> RecordView {
    match outcome {
        Ok(length) => DownloadRecord {
            state: WireState::Completed,
            covered: match length {
                Some(length) => length,
                None => 0,
            },
            total: length,
            error_kind: None,
        },
        Err(kind) => DownloadRecord {
            state: WireState::Failed,
            covered: 0,
            total: None,
            error_kind: Some(kind),
        },
    }
}

/// What a finished or failed transfer leaves in the registry. A finished file's length is known
/// where it could be looked at.
pub fn ended(outcome: &Result<Option<u64>, DownloadError>) -> (record: DownloadRecord)
    ensures
        record@ == ending(
            match *outcome {
                Ok(length) => Ok(length),
                Err(error) => Err(error.name()),
            },
        ),
{
    match outcome {
        Ok(length) => DownloadRecord {
            state: WireState::Completed,
            covered: match length {
                Some(length) => *length,
                None => 0,
            },
            total: *length,
            error_kind: None,
        },
        Err(error) => DownloadRecord {
            state: WireState::Failed,
            covered: 0,
            total: None,
            error_kind: Some(error.kind().to_owned()),
        },
    }
}

/// The state that a finished or failed transfer leaves in its durable record.
pub fn ended_state(record: &DownloadRecord) -> (state: DownloadState)
    requires
        record.state == WireState::Completed || record.state == WireState::Failed,
    ensures
        records::presented(state) == record.state,
{
    match record.state {
        WireState::Completed => DownloadState::Completed,
        _ => DownloadState::Failed,
    }
}

/// A command never takes a download away or changes one that it is not about, and never takes a
/// job back: whatever happens to the connection, what was accepted stays accepted.
pub proof fn law_commands_lose_no_transfer(
    daemon: DaemonView,
    request: RequestView,
    minted: Result<Seq<char>, Seq<char>>,
    uptime_seconds: u64,
    id: Seq<char>,
)
    requires
        daemon.records.contains_key(id),
        minted != Ok::<Seq<char>, Seq<char>>(id),
        request matches Request::DownloadResume(params) ==> params.id != id,
    ensures
        ({
            let after = dispatched(daemon, request, minted, uptime_seconds).1;
            &&& after.records.contains_key(id)
            &&& after.records[id] == daemon.records[id]
            &&& after.jobs.len() >= daemon.jobs.len()
            &&& after.jobs.take(daemon.jobs.len() as int) == daemon.jobs
        }),
{
    let after = dispatched(daemon, request, minted, uptime_seconds).1;
    assert(after.jobs.take(daemon.jobs.len() as int) =~= daemon.jobs);
}

/// A download of a web address over at least one connection is accepted, unless the system gives
/// no identity for it: no minted identity is refused by the daemon's own store.
pub proof fn law_a_valid_request_is_accepted(
    daemon: DaemonView,
    params: AddParams<Seq<char>, Seq<char>>,
    minted: Result<Seq<char>, Seq<char>>,
)
    requires
        mintable(minted),
        address::parsed_url(params.url) matches Some(url) && url.is_web(),
        params.options.connections != Some(0u16),
    ensures
        match minted {
            Ok(id) => added(daemon, params, minted).0 is Added,
            Err(message) => added(daemon, params, minted).0 == failure(
                "id_generation_failed"@,
                message,
                true,
                None,
            ),
        },
{
    if let Ok(id) = minted {
        let (millis, random) = choose|millis: u64, random: Seq<u8>|
            random.len() == 32 && id == text::hex(#[trigger] minted_bytes(millis, random));
        law_every_minted_identity_is_storable(millis, random);
    }
}

/// A download that was accepted can be asked about at once, under the identity that was told.
pub proof fn law_an_accepted_download_can_be_found(
    daemon: DaemonView,
    params: AddParams<Seq<char>, Seq<char>>,
    minted: Result<Seq<char>, Seq<char>>,
)
    ensures
        added(daemon, params, minted).0 matches Response::Added(result) ==> {
            &&& told(added(daemon, params, minted).1, result.id) is Download
            &&& told(added(daemon, params, minted).1, result.id)->Download_0.state
                == WireState::Submitted
        },
{
}

/// What is told of a known download is its record: the state, the covered bytes, the length and
/// the failure that were last learnt or noted for it, whatever the state is. So a download is told
/// as completed only where its record is. Nothing is told of one that is not known.
pub proof fn law_what_is_told_is_the_record(
    daemon: DaemonView,
    id: Seq<char>,
    other: Seq<char>,
    record: RecordView,
    state: DownloadState,
)
    requires
        id != other,
    ensures
        ({
            let seeding = DaemonView {
                records: learnt(
                    daemon.records,
                    id,
                    state,
                    record.covered,
                    record.total,
                    record.error_kind,
                ),
                ..daemon
            };
            let noting = DaemonView { records: noted(seeding.records, id, record), ..daemon };
            let first = told(seeding, id);
            let then = told(noting, id);
            &&& first is Download && then is Download
            &&& first->Download_0.id == id && then->Download_0.id == id
            &&& first->Download_0.state == records::presented(state)
            &&& first->Download_0.covered == record.covered
            &&& first->Download_0.total == record.total
            &&& first->Download_0.error_kind == record.error_kind
            &&& then->Download_0.state == record.state
            &&& then->Download_0.covered == record.covered
            &&& then->Download_0.total == record.total
            &&& then->Download_0.error_kind == record.error_kind
            &&& told(seeding, other) == told(daemon, other)
            &&& told(noting, other) == told(daemon, other)
        }),
        daemon.records.contains_key(id) ==> {
            &&& told(daemon, id) is Download
            &&& told(daemon, id)->Download_0.state == daemon.records[id].state
            &&& told(daemon, id)->Download_0.covered == daemon.records[id].covered
            &&& told(daemon, id)->Download_0.total == daemon.records[id].total
            &&& told(daemon, id)->Download_0.error_kind == daemon.records[id].error_kind
        },
        told(daemon, id) is Download && told(daemon, id)->Download_0.state == WireState::Completed
            ==> daemon.records.contains_key(id) && daemon.records[id].state == WireState::Completed,
        !daemon.records.contains_key(id) ==> told(daemon, id) is Error && told(
            daemon,
            id,
        )->Error_0.data.kind == "not_found"@ && told(daemon, id)->Error_0.data.download_id == Some(
            id,
        ) && !told(daemon, id)->Error_0.data.recoverable,
        !daemon.records.contains_key(id) ==> noted(daemon.records, id, record) == daemon.records,
{
}

/// After a restart every stored download is told as its last record says, and nothing that was
/// known before is forgotten.
pub proof fn law_stored_downloads_are_told_as_recorded(
    daemon: DaemonView,
    stored: Seq<DownloadMetadata>,
    at: int,
    id: Seq<char>,
)
    requires
        0 <= at < stored.len(),
        forall|k: int|
            at < k < stored.len() ==> text::hex((#[trigger] stored[k]).id@) != text::hex(
                stored[at].id@,
            ),
    ensures
        ({
            let after = DaemonView { records: seeded(daemon.records, stored), ..daemon };
            let answer = told(after, text::hex(stored[at].id@));
            &&& answer is Download
            &&& answer->Download_0.state == records::presented(stored[at].state)
            &&& answer->Download_0.covered == stored[at].covered_bytes
            &&& answer->Download_0.total == stored[at].total_length
            &&& answer->Download_0.error_kind == text::owned(stored[at].error_kind)
            &&& daemon.records.contains_key(id) ==> after.records.contains_key(id)
            &&& (forall|k: int|
                0 <= k < stored.len() ==> text::hex((#[trigger] stored[k]).id@) != id) ==> told(
                after,
                id,
            ) == told(daemon, id)
        }),
    decreases stored.len(),
{
    let front = stored.drop_last();
    lemma_seeded_keeps(daemon, front, id);
    if at < stored.len() - 1 {
        assert(front[at] == stored[at]);
        assert forall|k: int| at < k < front.len() implies text::hex((#[trigger] front[k]).id@)
            != text::hex(front[at].id@) by {
            assert(front[k] == stored[k]);
        }
        law_stored_downloads_are_told_as_recorded(daemon, front, at, id);
        assert(text::hex(stored[stored.len() - 1].id@) != text::hex(stored[at].id@));
    }
    if forall|k: int| 0 <= k < stored.len() ==> text::hex((#[trigger] stored[k]).id@) != id {
        assert(text::hex(stored[stored.len() - 1].id@) != id);
        assert forall|k: int| 0 <= k < front.len() implies text::hex((#[trigger] front[k]).id@)
            != id by {
            assert(front[k] == stored[k]);
        }
    }
}

proof fn lemma_seeded_keeps(daemon: DaemonView, stored: Seq<DownloadMetadata>, id: Seq<char>)
    ensures
        ({
            let after = DaemonView { records: seeded(daemon.records, stored), ..daemon };
            &&& daemon.records.contains_key(id) ==> after.records.contains_key(id)
            &&& (forall|k: int|
                0 <= k < stored.len() ==> text::hex((#[trigger] stored[k]).id@) != id) ==> told(
                after,
                id,
            ) == told(daemon, id)
        }),
    decreases stored.len(),
{
    if stored.len() > 0 {
        let front = stored.drop_last();
        lemma_seeded_keeps(daemon, front, id);
        if forall|k: int| 0 <= k < stored.len() ==> text::hex((#[trigger] stored[k]).id@) != id {
            assert(text::hex(stored[stored.len() - 1].id@) != id);
            assert forall|k: int| 0 <= k < front.len() implies text::hex((#[trigger] front[k]).id@)
                != id by {
                assert(front[k] == stored[k]);
            }
        }
    }
}

/// A client gets the connections it asks for, up to sixteen; one where it does not ask; and is
/// refused where it asks for none.
pub proof fn law_connections_are_capped_and_never_zero(requested: Option<u16>, other: u16)
    ensures
        granted_connections(requested) is None <==> requested == Some(0u16),
        granted_connections(None) == Some(1usize),
        granted_connections(requested) matches Some(granted) ==> 1 <= granted <= 16,
        1 <= other <= 16 ==> granted_connections(Some(other)) == Some(other as usize),
        other > 16 ==> granted_connections(Some(other)) == Some(16usize),
{
}

/// An accepted download leaves one job that fetches its address, as it serialises, into the asked
/// or the configured directory and over the granted connections; and it is recorded as submitted
/// with nothing covered. A refused one leaves everything as it was.
pub proof fn law_an_accepted_download_leaves_its_job(
    daemon: DaemonView,
    params: AddParams<Seq<char>, Seq<char>>,
    minted: Result<Seq<char>, Seq<char>>,
)
    ensures
        ({
            let (response, after) = added(daemon, params, minted);
            &&& response is Added || response is Error
            &&& response is Error ==> after == daemon
            &&& response is Added ==> {
                let id = minted->Ok_0;
                &&& minted is Ok
                &&& response->Added_0.id == id
                &&& response->Added_0.state == WireState::Submitted
                &&& after.jobs.len() == daemon.jobs.len() + 1
                &&& after.jobs.drop_last() == daemon.jobs
                &&& after.jobs.last() is Fetch
                &&& after.jobs.last()->Fetch_id == id
                &&& after.jobs.last()->url == address::parsed_url(params.url)->0.text
                &&& after.jobs.last()->target_dir == (if params.target is Some {
                    params.target->0
                } else {
                    daemon.target_dir
                })
                &&& granted_connections(params.options.connections) == Some(
                    after.jobs.last()->connections,
                )
                &&& after.records.contains_key(id)
                &&& after.records[id].state == WireState::Submitted
                &&& after.records[id].covered == 0
                &&& after.records[id].total is None
                &&& after.records[id].error_kind is None
                &&& after.target_dir == daemon.target_dir
            }
        }),
{
    let (response, after) = added(daemon, params, minted);
    if response is Added {
        assert(after.jobs.drop_last() =~= daemon.jobs);
    }
}

/// A download is refused for its address before its connections, for its connections before its
/// identity, and each refusal says which.
pub proof fn law_a_refused_download_says_why(
    daemon: DaemonView,
    params: AddParams<Seq<char>, Seq<char>>,
    minted: Result<Seq<char>, Seq<char>>,
)
    ensures
        ({
            let response = added(daemon, params, minted).0;
            let url = address::parsed_url(params.url);
            let web = url is Some && url->0.is_web();
            let none = params.options.connections == Some(0u16);
            &&& !web ==> response is Error && response->Error_0.data.kind == "invalid_url"@
                && !response->Error_0.data.recoverable
            &&& web && none ==> response is Error && response->Error_0.data.kind
                == "invalid_connections"@ && !response->Error_0.data.recoverable
            &&& web && !none && minted is Err ==> response is Error && response->Error_0.data.kind
                == "id_generation_failed"@ && response->Error_0.message == minted->Err_0
                && response->Error_0.data.recoverable
            &&& web && !none && minted is Ok ==> (response is Added <==> records::is_uuid_v7(
                records::id_bytes(minted->Ok_0),
            ))
        }),
{
}

/// Only a paused download is continued. It goes on from what is covered, its failure is forgotten,
/// and one job is left for it; any other request changes nothing and may be made again.
pub proof fn law_only_a_paused_download_is_continued(daemon: DaemonView, id: Seq<char>)
    ensures
        ({
            let (response, after) = resumed(daemon, id);
            let paused = daemon.records.contains_key(id) && daemon.records[id].state
                == WireState::Paused;
            &&& response is Resumed <==> paused
            &&& paused ==> {
                &&& response->Resumed_0.id == id
                &&& response->Resumed_0.state == WireState::Transferring
                &&& told(after, id) is Download
                &&& told(after, id)->Download_0.state == WireState::Transferring
                &&& told(after, id)->Download_0.covered == daemon.records[id].covered
                &&& told(after, id)->Download_0.total == daemon.records[id].total
                &&& told(after, id)->Download_0.error_kind is None
                &&& after.jobs.len() == daemon.jobs.len() + 1
                &&& after.jobs.last() == (Job::Resume::<Seq<char>, Seq<char>> { id })
                &&& resumed(after, id).0 is Error
            }
            &&& !paused ==> after == daemon && response is Error && response->Error_0.data.kind
                == "resume_not_ready"@ && response->Error_0.data.recoverable
                && response->Error_0.data.download_id == Some(id)
        }),
{
}

/// A question changes nothing, a command is answered in its own kind or with an error, and a hello
/// is no command.
pub proof fn law_every_command_is_answered_in_its_kind(
    daemon: DaemonView,
    request: RequestView,
    minted: Result<Seq<char>, Seq<char>>,
    uptime_seconds: u64,
)
    ensures
        ({
            let (response, after) = dispatched(daemon, request, minted, uptime_seconds);
            &&& request is DownloadAdd ==> response is Added || response is Error
            &&& request is DownloadGet ==> after == daemon && response == told(
                daemon,
                request->DownloadGet_0.id,
            )
            &&& request is DownloadResume ==> response is Resumed || response is Error
            &&& request is DownloadResume && response is Resumed ==> response->Resumed_0.id
                == request->DownloadResume_0.id
            &&& request is SystemStatus ==> after == daemon && response is Status
            &&& request is Hello ==> after == daemon && response is Error
                && response->Error_0.data.kind == "invalid_dispatch"@
            &&& response is Error ==> after == daemon
        }),
{
}

/// The status tells how long the daemon has run, and how many downloads it works on and how many
/// wait: an accepted download makes one more wait, and a continued one makes one more active.
pub proof fn law_the_status_counts_the_downloads(
    daemon: DaemonView,
    id: Seq<char>,
    uptime_seconds: u64,
)
    requires
        registry::in_phase(daemon.records, Phase::Active).len() < u32::MAX,
        registry::in_phase(daemon.records, Phase::Queued).len() < u32::MAX,
        registry::in_phase(daemon.records, Phase::Active).finite(),
        registry::in_phase(daemon.records, Phase::Queued).finite(),
    ensures
        ({
            let status = status_of(daemon, uptime_seconds)->Status_0;
            let more = DaemonView {
                records: daemon.records.insert(id, bare_record(WireState::Submitted)),
                ..daemon
            };
            let resumed = resumed(daemon, id).1;
            &&& status.uptime_seconds == uptime_seconds
            &&& status.active == registry::in_phase(daemon.records, Phase::Active).len()
            &&& status.queued == registry::in_phase(daemon.records, Phase::Queued).len()
            &&& !daemon.records.contains_key(id) ==> status_of(
                more,
                uptime_seconds,
            )->Status_0.queued == status.queued + 1 && status_of(
                more,
                uptime_seconds,
            )->Status_0.active == status.active
            &&& daemon.records.contains_key(id) && daemon.records[id].state == WireState::Paused
                ==> status_of(resumed, uptime_seconds)->Status_0.active == status.active + 1
                && status_of(resumed, uptime_seconds)->Status_0.queued == status.queued
        }),
        capped(u32::MAX as nat + 1) == u32::MAX,
{
    let record = bare_record(WireState::Submitted);
    registry::law_a_count_follows_the_states(daemon.records, id, record, Phase::Active);
    registry::law_a_count_follows_the_states(daemon.records, id, record, Phase::Queued);
    let resumed = resumed(daemon, id).1;
    if daemon.records.contains_key(id) && daemon.records[id].state == WireState::Paused {
        let going = resumed.records[id];
        registry::law_a_count_follows_the_states(daemon.records, id, going, Phase::Active);
        registry::law_a_count_follows_the_states(daemon.records, id, going, Phase::Queued);
    }
}

/// A transfer that ended well is told as completed, with the length of its file covered to the last
/// byte; one that did not is told as failed, under the failure's name and with nothing covered.
pub proof fn law_a_transfer_ends_as_it_went(outcome: Result<Option<u64>, Seq<char>>)
    ensures
        ending(outcome).state == WireState::Completed <==> outcome is Ok,
        ending(outcome).state == WireState::Failed <==> outcome is Err,
        outcome matches Ok(length) ==> ending(outcome).total == length && ending(
            outcome,
        ).error_kind is None && (length is Some ==> ending(outcome).covered == length->0) && (
        length is None ==> ending(outcome).covered == 0),
        outcome matches Err(kind) ==> ending(outcome).error_kind == Some(kind) && ending(
            outcome,
        ).covered == 0 && ending(outcome).total is None,
{
}

/// A failure tells its name, its message and the download it is about, and suggests to retry
/// exactly where that may help.
pub proof fn law_a_failure_suggests_what_helps(
    kind: Seq<char>,
    message: Seq<char>,
    recoverable: bool,
    download_id: Option<Seq<char>>,
)
    ensures
        ({
            let told = failure(kind, message, recoverable, download_id);
            &&& told is Error
            &&& told->Error_0.code == -32_000
            &&& told->Error_0.message == message
            &&& told->Error_0.data.kind == kind
            &&& told->Error_0.data.download_id == download_id
            &&& told->Error_0.data.recoverable == recoverable
            &&& told->Error_0.data.suggestion is Some <==> recoverable
            &&& recoverable ==> told->Error_0.data.suggestion == Some("retry"@)
            &&& told->Error_0.data.protocol_version == messages::PROTOCOL_VERSION
        }),
{
}

/// A minted identity tells its moment: the first six bytes, most significant first, are its
/// milliseconds, and the random bits are the source's own.
pub proof fn law_a_minted_identity_tells_its_moment(millis: u64, random: Seq<u8>)
    requires
        millis < 0x1_0000_0000_0000,
        random.len() == 32,
    ensures
        ({
            let bytes = minted_bytes(millis, random);
            &&& bytes.len() == 16
            &&& ((((bytes[0] * 256 + bytes[1]) * 256 + bytes[2]) * 256 + bytes[3]) * 256
                + bytes[4]) * 256 + bytes[5] == millis
            &&& bytes[6] / 16 == 7 && bytes[6] % 16 == random[0] % 16
            &&& bytes[7] == random[1]
            &&& bytes[8] / 64 == 2 && bytes[8] % 64 == random[2] % 64
            &&& forall|i: int| 9 <= i < 16 ==> #[trigger] bytes[i] == random[i - 6]
        }),
{
    let a = millis / 0x100_0000_0000;
    let b = millis / 0x1_0000_0000;
    let c = millis / 0x100_0000;
    let d = millis / 0x1_0000;
    let e = millis / 0x100;
    assert(a < 256);
    assert(b == a * 256 + b % 256 && c == b * 256 + c % 256 && d == c * 256 + d % 256);
    assert(e == d * 256 + e % 256 && millis == e * 256 + millis % 256);
}

/// Whatever identity is minted and however long the daemon has run, a handled command leaves the
/// settings alone and is answered for what the daemon held: a question by the record and without a
/// change, a resume as the record allows, and a valid submission with its identity, unless the
/// system gave none.
pub proof fn law_a_handled_command_is_answered_from_the_records(
    before: TransferDaemon,
    request: RequestView,
    after: TransferDaemon,
    response: Response,
)
    requires
        <TransferDaemon as CommandHandler>::may(before, request, after, response),
    ensures
        after.settings() == before.settings(),
        request is DownloadGet ==> response@ == told(before@, request->DownloadGet_0.id) && after@
            == before@,
        request is DownloadResume ==> (response@, after@) == resumed(
            before@,
            request->DownloadResume_0.id,
        ),
        request is SystemStatus ==> response@ is Status && after@ == before@,
        request is DownloadAdd && response@ is Added ==> records::is_uuid_v7(
            records::id_bytes(response@->Added_0.id),
        ) && told(after@, response@->Added_0.id) is Download,
        request is DownloadAdd && (address::parsed_url(request->DownloadAdd_0.url) matches Some(url)
            && url.is_web()) && request->DownloadAdd_0.options.connections != Some(0u16)
            ==> response@ is Added || (response@ is Error && response@->Error_0.data.kind
            == "id_generation_failed"@),
{
    let (minted, age) = choose|minted: Result<Seq<char>, Seq<char>>, age: Duration|
        (response@, after@) == #[trigger] dispatched(
            before@,
            request,
            minted,
            age.whole_secs(),
        ) && (request is DownloadAdd ==> mintable(minted));
    if let Request::DownloadAdd(params) = request {
        if address::parsed_url(params.url) is Some && address::parsed_url(params.url)->0.is_web()
            && params.options.connections != Some(0u16) {
            law_a_valid_request_is_accepted(before@, params, minted);
        }
        law_an_accepted_download_can_be_found(before@, params, minted);
    }
}

} // verus!
