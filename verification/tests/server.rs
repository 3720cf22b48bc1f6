//! The daemon's answers to commands.

use std::collections::BTreeSet;

use downpour::download::{DownloadError, StorageLayout};
use downpour::h1h2::TransportMode;
use downpour::intervals::{IntervalMap, WorkerId};
use downpour::messages::{
    AddOptions, AddParams, DownloadId, HelloParams, IdParams, Request, Response, SecretString,
    VersionParams, WireState, PROTOCOL_VERSION,
};
use downpour::records::{stored_id, wire_id, DownloadMetadata, DownloadState, StoredId};
use downpour::remote::{
    ByteRangeSpec, NegotiatedProtocol, RangeProof, RangeSupport, RemoteObject, Validator,
};
use downpour::retention::retire_journal_for;
use downpour::segmented::{worker_request, SegmentedDownload};
use downpour::server::{
    effective_connections, ended, ended_state, fresh_download_id, mint_download_id,
    state_unavailable, Job, TransferConfig, TransferDaemon, DEFAULT_CONNECTIONS,
    MAX_CONNECTIONS,
};
use downpour::session::CommandHandler;
use downpour::startup::{plan_recovery, recover_all, StoredDownload};
use downpour::time::{Duration, Timestamp};
use downpour::token::{SessionToken, TokenError};

fn daemon() -> TransferDaemon {
    TransferDaemon::new(TransferConfig {
        target_dir: "/home/user/target".to_owned(),
        journal_dir: "/home/user/journals".to_owned(),
        database_path: "/home/user/downpour.db".to_owned(),
        transport_mode: TransportMode::Http1Only,
    })
}

fn add(url: &str, target: Option<&str>, connections: Option<u16>) -> Request {
    Request::DownloadAdd(AddParams {
        protocol_version: PROTOCOL_VERSION,
        url: SecretString::new(url.to_owned()),
        target: target.map(str::to_owned),
        options: AddOptions { connections },
    })
}

fn get(id: &DownloadId) -> Request {
    Request::DownloadGet(IdParams {
        protocol_version: PROTOCOL_VERSION,
        id: id.clone(),
    })
}

fn resume(id: &DownloadId) -> Request {
    Request::DownloadResume(IdParams {
        protocol_version: PROTOCOL_VERSION,
        id: id.clone(),
    })
}

fn kind_of(response: Response) -> String {
    match response {
        Response::Error(error) => {
            assert_eq!(error.code, -32_000);
            assert_eq!(
                error.data.suggestion,
                error.data.recoverable.then_some("retry".to_owned())
            );
            error.data.kind
        }
        other => panic!("not a refusal: {other:?}"),
    }
}

#[test]
fn a_connection_count_is_refused_at_zero_and_bounded_above() {
    let mut daemon = daemon();
    let response = daemon.handle(add("http://127.0.0.1:9/zero", None, Some(0)));
    let Response::Error(error) = response else {
        panic!("zero connections must be refused rather than silently meaning one");
    };
    assert_eq!(error.data.kind, "invalid_connections");

    // Accepted, not refused, and not taken literally either.
    for requested in [None, Some(1), Some(4), Some(u16::MAX)] {
        let response = daemon.handle(add("http://127.0.0.1:9/file", None, requested));
        assert!(
            matches!(response, Response::Added(_)),
            "a connection count of {requested:?} must be accepted: {response:?}"
        );
    }
    let granted: Vec<usize> = daemon
        .take_jobs()
        .iter()
        .map(|job| match job {
            Job::Fetch { connections, .. } => *connections,
            Job::Resume { .. } => panic!("nothing was resumed"),
        })
        .collect();
    assert_eq!(granted, [1, 1, 4, 16]);
    assert!(daemon.take_jobs().is_empty());
}

#[test]
fn a_requested_connection_count_is_clamped_rather_than_believed() {
    assert_eq!(effective_connections(Some(0)), None);
    assert_eq!(effective_connections(None), Some(DEFAULT_CONNECTIONS));
    assert_eq!(effective_connections(Some(1)), Some(1));
    assert_eq!(effective_connections(Some(4)), Some(4));
    assert_eq!(
        effective_connections(Some(u16::MAX)),
        Some(MAX_CONNECTIONS),
        "a client asking for thousands of connections is asking to be rate-limited by the origin"
    );
}

#[test]
fn every_download_id_the_daemon_mints_is_accepted_by_its_own_metadata_store() {
    let mut minted = BTreeSet::new();
    for _ in 0..256 {
        let id = fresh_download_id().expect("the OS random source works");
        let text = id.as_str();
        assert_eq!(text.len(), 32, "the IPC id is 32 hex characters: {text}");
        assert!(&text[..12] > "018000000000", "an id begins with the present: {text}");

        let mut bytes = [0_u8; 16];
        for (index, byte) in bytes.iter_mut().enumerate() {
            *byte = u8::from_str_radix(&text[index * 2..index * 2 + 2], 16)
                .expect("the IPC id is hexadecimal");
        }
        let stored = StoredId::try_from_bytes(bytes)
            .unwrap_or_else(|| panic!("the daemon minted {text}, which its own store rejects"));
        assert_eq!(stored_id(&id), Some(stored));
        assert_eq!(wire_id(&stored), Ok(id.clone()));
        minted.insert(text.to_owned());
    }
    assert_eq!(minted.len(), 256, "ids must not repeat");
}

#[test]
fn an_identity_spells_its_moment_and_its_random_bits() {
    let token = SessionToken::from_bytes([0xff; 32]);
    let now = Timestamp {
        nanos: 0x0102_0304_0506 * 1_000_000,
    };
    let id = mint_download_id(Some(now), Ok(token)).unwrap();
    assert_eq!(id.as_str(), "0102030405067fffbfffffffffffffff");
    assert_eq!(
        mint_download_id(None, Err(TokenError::Unavailable)),
        Err("system clock is before the Unix epoch")
    );
    assert_eq!(
        mint_download_id(Some(now), Err(TokenError::Unavailable)),
        Err("OS random source refused an ID")
    );
    let beyond = Timestamp { nanos: u128::MAX };
    assert_eq!(
        mint_download_id(Some(beyond), Err(TokenError::Unavailable)),
        Err("system clock is beyond a 48-bit epoch")
    );
}

#[test]
fn only_web_addresses_are_accepted() {
    let mut daemon = daemon();
    for url in ["ftp://example.test/file", "not a url", "file:///etc/passwd"] {
        assert_eq!(kind_of(daemon.handle(add(url, None, None))), "invalid_url");
    }
    let response = daemon.handle(add("HTTPS://Example.test", Some("/elsewhere"), Some(2)));
    assert!(matches!(response, Response::Added(_)));
    match &daemon.take_jobs()[0] {
        Job::Fetch {
            url,
            target_dir,
            connections,
            ..
        } => {
            assert_eq!(url, "https://example.test/");
            assert_eq!(target_dir, "/elsewhere");
            assert_eq!(*connections, 2);
        }
        Job::Resume { .. } => panic!("nothing was resumed"),
    }
}

#[test]
fn a_failed_mint_is_told_and_leaves_nothing_behind() {
    let mut daemon = daemon();
    let refused = daemon.dispatch(
        add("https://example.test/file", None, None),
        Err("OS random source refused an ID"),
        0,
    );
    assert_eq!(kind_of(refused), "id_generation_failed");
    let unstorable = DownloadId::new("00000000000000000000000000000000").unwrap();
    let refused = daemon.dispatch(
        add("https://example.test/file", None, None),
        Ok(unstorable),
        0,
    );
    assert_eq!(kind_of(refused), "invalid_id");
    assert!(daemon.take_jobs().is_empty());
    assert_eq!(kind_of(state_unavailable(None)), "state_unavailable");
}

#[test]
fn hello_and_unknown_downloads_are_refused() {
    let mut daemon = daemon();
    let hello = Request::Hello(HelloParams {
        protocol_version: PROTOCOL_VERSION,
        client: "dp".to_owned(),
        token: SecretString::new("unused".to_owned()),
    });
    assert_eq!(kind_of(daemon.handle(hello)), "invalid_dispatch");
    let unknown = DownloadId::new("018f0f0f0f0f70008000000000000001").unwrap();
    assert_eq!(kind_of(daemon.handle(get(&unknown))), "not_found");
    let Response::Error(error) = daemon.handle(resume(&unknown)) else {
        panic!("an unknown download cannot be resumed");
    };
    assert_eq!(error.data.kind, "resume_not_ready");
    assert_eq!(
        error.message,
        "cross-process resume is not available until S3-T9"
    );
    assert!(error.data.recoverable);
    assert_eq!(error.data.download_id, Some(unknown));
}

#[test]
fn status_counts_what_runs_and_what_waits() {
    let mut daemon = daemon();
    let mut ids = Vec::new();
    for _ in 0..3 {
        match daemon.handle(add("https://example.test/file", None, None)) {
            Response::Added(added) => ids.push(added.id),
            other => panic!("refused: {other:?}"),
        }
    }
    daemon.update_state(&ids[0], WireState::Transferring, 8, Some(32), None);
    daemon.update_state(&ids[1], WireState::Completed, 32, Some(32), None);
    let status = daemon.dispatch(
        Request::SystemStatus(VersionParams {
            protocol_version: PROTOCOL_VERSION,
        }),
        Err("unused"),
        7,
    );
    match status {
        Response::Status(status) => {
            assert_eq!(status.version, "0.1.0");
            assert_eq!(status.uptime_seconds, 7);
            assert_eq!((status.active, status.queued), (1, 1));
            assert_eq!(status.throughput, 0);
        }
        other => panic!("not a status: {other:?}"),
    }
    match daemon.handle(get(&ids[0])) {
        Response::Download(view) => {
            assert_eq!(view.state, WireState::Transferring);
            assert_eq!((view.covered, view.total), (8, Some(32)));
        }
        other => panic!("not found: {other:?}"),
    }
}

fn probed(length: u64, etag: &str) -> RemoteObject {
    let proof = RangeProof::from_observed_response(
        ByteRangeSpec::FromTo { first: 0, last: 0 },
        206,
        Some(&format!("bytes 0-0/{length}")),
        None,
        1,
    )
    .unwrap();
    RemoteObject {
        final_url: "http://127.0.0.1:9/content".to_owned(),
        redirect_chain: vec!["http://127.0.0.1:9/content".to_owned()],
        total_length: Some(length),
        range_support: RangeSupport::Proven(proof),
        validator: Validator::StrongETag(etag.to_owned()),
        digest: None,
        protocol: NegotiatedProtocol::Http11,
        suggested_filename: Some("content".to_owned()),
        content_type: None,
        probed_at: Timestamp::from_secs(1_800_000_000),
    }
}

#[test]
fn a_download_outlives_the_daemon_instance_that_started_it() {
    const LENGTH: u64 = 8 * 1024 * 1024;
    let mut first = daemon();
    let response = first.handle(add("http://127.0.0.1:9/content", None, Some(4)));
    let Response::Added(added) = response else {
        panic!("the add was refused: {response:?}");
    };
    let stored = stored_id(&added.id).expect("a minted id is storable");

    // While the transfer is live, its journal is at the path startup recovery will look for.
    let remote = probed(LENGTH, "\"outlives-v1\"");
    let layout = StorageLayout::new(
        "/home/user/target".to_owned(),
        "/home/user/journals".to_owned(),
    )
    .with_transfer_id(stored.as_bytes());
    assert_eq!(layout.transfer_id_for_remote(&remote), stored.as_bytes());

    let mut record =
        DownloadMetadata::of_probe(stored, &remote, "/home/user/target/content", 5).unwrap();
    assert_eq!(record.state, DownloadState::Transferring);
    assert_eq!(record.part_path, "/home/user/target/content.dppart");
    assert_eq!(record.identity.origin, "http://127.0.0.1:9");
    assert_eq!(record.identity.validator, remote.validator);
    let mut given_back = remote.clone();
    given_back.probed_at = Timestamp { nanos: 5_000_000 };
    assert_eq!(record.remote(), given_back, "a record identifies what was probed");

    let ending = ended(&Ok(Some(LENGTH)));
    record.end(ended_state(&ending), ending.covered, None, 9);
    assert_eq!(record.state, DownloadState::Completed);
    assert_eq!((record.created_at_ms, record.updated_at_ms), (5, 9));
    assert_eq!(record.total_length, Some(LENGTH));
    assert_eq!(
        retire_journal_for(&stored, record.state),
        Some(format!("{}.dpj", added.id.as_str()))
    );

    // Everything the first instance held is now gone.
    drop(first);
    let mut second = daemon();
    let listed = vec![StoredDownload {
        id: record.id,
        state: record.state,
    }];
    let summary = recover_all(&listed, Vec::new()).expect("a finished download is not touched");
    let resumable = second.recover(&vec![record], &summary);
    assert_eq!(resumable, 0, "a completed download is not resumable");

    let view = second.handle(get(&added.id));
    let Response::Download(view) = view else {
        panic!("a download recorded by a previous instance must be reachable: {view:?}");
    };
    assert_eq!(view.id, added.id, "the recorded id must round-trip");
    assert_eq!(view.state, WireState::Completed);
    assert_eq!(view.total, Some(LENGTH));
    assert_eq!(kind_of(second.handle(resume(&added.id))), "resume_not_ready");
}

#[test]
fn an_interrupted_transfer_is_finished_by_the_next_process() {
    const LENGTH: u64 = 8 * 1024 * 1024;
    const DURABLE: &[(u64, u64)] = &[(0, 2 * 1024 * 1024), (4 * 1024 * 1024, 6 * 1024 * 1024)];

    // What a process killed mid-transfer leaves: a record that still says it is transferring, and
    // durable runs with holes.
    let remote = probed(LENGTH, "\"interrupted-v1\"");
    let id = fresh_download_id().unwrap();
    let stored = stored_id(&id).unwrap();
    let mut record =
        DownloadMetadata::of_probe(stored, &remote, "/home/user/target/content", 1).unwrap();
    let mut intervals = IntervalMap::new(LENGTH);
    let worker = WorkerId::new(u64::MAX);
    for (start, end) in DURABLE {
        intervals.grant(*start..*end, worker).unwrap();
        intervals.complete(*start..*end, worker).unwrap();
    }

    let mut daemon = daemon();
    let listed = vec![StoredDownload {
        id: record.id,
        state: record.state,
    }];
    assert_eq!(plan_recovery(&listed), vec![stored]);
    let covered = DURABLE.iter().map(|(s, e)| e - s).sum::<u64>();
    record.end(DownloadState::Paused, covered, None, 2);
    let summary = recover_all(&listed, vec![Ok(DownloadState::Paused)]).unwrap();
    assert_eq!(
        daemon.recover(&vec![record], &summary),
        1,
        "an interrupted download must reconcile to a resumable one"
    );
    let before = daemon.handle(get(&id));
    let Response::Download(before) = before else {
        panic!("the recovered download must be reachable: {before:?}");
    };
    assert_eq!(
        before.state,
        WireState::Paused,
        "recovery establishes what is true and stops; it does not auto-resume"
    );
    assert_eq!(before.covered, covered);
    assert!(daemon.take_jobs().is_empty());

    let response = daemon.handle(resume(&id));
    assert!(matches!(response, Response::Resumed(_)), "{response:?}");
    assert!(daemon.take_jobs() == vec![Job::Resume { id: id.clone() }]);

    // The bytes that the journal already proved are not fetched a second time.
    let mut actor = SegmentedDownload::new(4)
        .prepare_resume(&remote, LENGTH, intervals)
        .unwrap();
    let everyone: BTreeSet<u64> = (0..4).collect();
    for worker in 0..4 {
        let receipt = actor
            .allocate(Ok(Vec::new()), WorkerId::new(worker), &everyone)
            .unwrap();
        let grant = receipt.allocation().expect("work is left").grant().clone();
        let request = worker_request(&remote, &grant).unwrap();
        let (start, end) = match request.range {
            Some(ByteRangeSpec::FromTo { first, last }) => (first, last + 1),
            other => panic!("unexpected range {other:?}"),
        };
        for (done_start, done_end) in DURABLE {
            assert!(start >= *done_end || *done_start >= end);
        }
    }

    let ending = ended(&Ok(Some(LENGTH)));
    daemon.update_state(&id, ending.state, ending.covered, ending.total, None);
    match daemon.handle(get(&id)) {
        Response::Download(view) => assert_eq!(view.state, WireState::Completed),
        other => panic!("lost: {other:?}"),
    }
    assert_eq!(
        retire_journal_for(&stored, ended_state(&ending)),
        Some(format!("{}.dpj", id.as_str()))
    );
}

#[test]
fn a_failed_transfer_is_recorded_by_the_name_of_its_failure() {
    let ending = ended(&Err(DownloadError::TargetExists {
        path: "/home/user/target/content".to_owned(),
    }));
    assert_eq!(ending.state, WireState::Failed);
    assert_eq!((ending.covered, ending.total), (0, None));
    assert_eq!(ending.error_kind.as_deref(), Some("target_exists"));
    assert_eq!(ended_state(&ending), DownloadState::Failed);
}

#[test]
fn an_age_is_counted_in_whole_seconds() {
    assert_eq!(Duration::from_nanos(999_999_999).as_secs(), 0);
    assert_eq!(Duration::from_nanos(1_000_000_000).as_secs(), 1);
    assert_eq!(Duration::from_millis(60_500).as_secs(), 60);
    assert_eq!(Duration::from_nanos(u128::MAX).as_secs(), u64::MAX);
}

#[test]
fn a_daemon_keeps_its_settings() {
    let mut daemon = daemon();
    daemon.handle(add("https://example.com/a", None, None));
    daemon.take_jobs();
    assert_eq!(daemon.config().target_dir, "/home/user/target");
    assert_eq!(daemon.config().journal_dir, "/home/user/journals");
    assert_eq!(daemon.config().database_path, "/home/user/downpour.db");
    assert_eq!(daemon.config().transport_mode, TransportMode::Http1Only);
}

#[test]
fn identities_sort_by_the_moment_they_were_minted_at() {
    let minted = |millis: u128, byte: u8| {
        mint_download_id(
            Some(Timestamp { nanos: millis * 1_000_000 }),
            Ok(SessionToken::from_bytes([byte; 32])),
        )
        .expect("the moment fits")
        .as_str()
        .to_owned()
    };
    assert!(minted(255, 0xff) < minted(256, 0x00));
    assert!(minted(0xffff_ffff, 0xff) < minted(0x1_0000_0000, 0x00));
    assert!(minted(0xffff_ffff_fffe, 0xff) < minted(0xffff_ffff_ffff, 0x00));
}
