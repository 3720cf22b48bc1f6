//! Single-stream orchestration: what follows a failure, and when a file may be named.

use downpour::address::Address;
use downpour::download::{
    final_name_for, first_half, observed_status_of, refuse_occupied_target, retry_after_of,
    transfer_id_for, transient_kind_of, validator_hash_of, validator_source, AttemptStep,
    DownloadError, Session, SingleStream, StorageLayout, TargetState, JOURNAL_EXTENSION,
    PART_EXTENSION,
};
use downpour::error::{ProbeError, TransferError};
use downpour::intervals::IntervalState;
use downpour::protocol::RangeOutcome;
use downpour::remote::{
    ByteRangeSpec, NegotiatedProtocol, RangeSupport, RemoteObject, Validator,
};
use downpour::retry::{RetryPolicy, RetryState, TransientKind};
use downpour::sink::SinkError;
use downpour::storage_sink::{
    classify_io, completion_error, durable_prefix_end, journal_name_for, on_journal_refused,
    part_error, part_path_of, replay, writer_error, Artifacts, FileHeader, JournalStep, Platform,
    StorageSink, WritePlan, SINGLE_STREAM_WORKER,
};
use downpour::time::{Duration, Timestamp};
use downpour::writer_service::{PartFileError, WriterError, WriterServiceError};

const URL: &str = "https://example.test/file.bin";

fn remote(validator: Validator) -> RemoteObject {
    RemoteObject {
        final_url: URL.to_owned(),
        redirect_chain: vec![URL.to_owned()],
        total_length: Some(64),
        range_support: RangeSupport::Absent,
        validator,
        digest: None,
        protocol: NegotiatedProtocol::Http11,
        suggested_filename: Some("file.bin".to_owned()),
        content_type: None,
        probed_at: Timestamp::from_secs(1_800_000_000),
    }
}

fn etag() -> Validator {
    Validator::StrongETag("\"v1\"".to_owned())
}

fn artifacts() -> Artifacts {
    Artifacts {
        part_path: "/d/file.bin.dppart".to_owned(),
        journal_path: Some("/j/00.dpj".to_owned()),
    }
}

fn session(validator: Validator) -> Session {
    SingleStream::begin(remote(validator), "/d/file.bin".to_owned(), artifacts()).0
}

fn reset() -> DownloadError {
    DownloadError::Transfer(TransferError::Transport {
        url: URL.to_owned(),
        source: "connection reset".to_owned(),
    })
}

fn outcome(truncated: bool) -> RangeOutcome {
    RangeOutcome {
        bytes_delivered: 64,
        status: 200,
        content_range: None,
        protocol: NegotiatedProtocol::Http11,
        truncated,
    }
}

#[test]
fn a_download_begins_with_the_whole_representation() {
    let (session, request) =
        SingleStream::begin(remote(etag()), "/d/file.bin".to_owned(), artifacts());
    assert_eq!(request.url, URL);
    assert_eq!((request.range, request.if_range), (None, None));
    assert_eq!(session.sink.next_offset(), 0);
    assert_eq!(session.validator, etag());
}

#[test]
fn a_retry_continues_only_behind_a_validator_and_durable_bytes() {
    let stream = SingleStream::new();
    let now = Timestamp::from_secs(0);
    let delay = Duration::from_millis(250);
    for (validator, durable, resumes) in [
        (etag(), 8, true),
        (etag(), 0, false),
        (Validator::Absent, 8, false),
    ] {
        let mut retries = RetryState::new();
        let held = session(validator);
        let step = stream.on_failure_at(
            &mut retries,
            "https://example.test",
            &reset(),
            Some(&held),
            durable,
            now,
            0,
        );
        let expected = if resumes {
            AttemptStep::Resume { delay }
        } else {
            AttemptStep::Restart { delay }
        };
        assert_eq!(step, expected);
    }
}

#[test]
fn the_budget_is_counted_per_origin_and_then_spent() {
    let stream = SingleStream::new();
    let mut retries = RetryState::new();
    let now = Timestamp::from_secs(0);
    for _ in 0..5 {
        let step = stream.on_failure_at(&mut retries, "a", &reset(), None, 0, now, 0);
        assert!(matches!(step, AttemptStep::Restart { .. }));
    }
    assert_eq!(
        stream.on_failure_at(&mut retries, "a", &reset(), None, 0, now, 0),
        AttemptStep::GiveUp
    );
    assert!(matches!(
        stream.on_failure(&mut retries, "b", &reset(), None, 0),
        AttemptStep::Restart { .. }
    ));
}

#[test]
fn what_cannot_pass_is_not_retried_or_counted() {
    let stream = SingleStream::new().with_retry_policy(RetryPolicy::default());
    let mut retries = RetryState::new();
    let stale = DownloadError::Probe(ProbeError::NeedsRefresh {
        url: URL.to_owned(),
        status: 403,
    });
    assert_eq!(
        stream.on_failure(&mut retries, "a", &stale, None, 0),
        AttemptStep::GiveUp
    );
    assert_eq!(retries.record_failure("a"), 1);
}

#[test]
fn a_server_that_asks_for_a_wait_gets_it() {
    let stream = SingleStream::new();
    let mut retries = RetryState::new();
    let busy = DownloadError::Probe(ProbeError::UnexpectedStatus {
        url: URL.to_owned(),
        status: 503,
        retry_after: Some("7".to_owned()),
    });
    assert_eq!(retry_after_of(&busy), Some("7"));
    assert_eq!(
        stream.on_failure(&mut retries, "a", &busy, None, 0),
        AttemptStep::Restart {
            delay: Duration::from_secs(7)
        }
    );
}

#[test]
fn failures_are_classified_by_what_may_pass() {
    let status = |status| {
        DownloadError::Transfer(TransferError::UnexpectedStatus {
            url: URL.to_owned(),
            status,
            retry_after: None,
        })
    };
    assert_eq!(
        transient_kind_of(&reset()),
        Some(TransientKind::ConnectionReset)
    );
    assert_eq!(
        transient_kind_of(&DownloadError::Transfer(TransferError::Timeout {
            url: URL.to_owned(),
            bytes_delivered: 0
        })),
        Some(TransientKind::Timeout)
    );
    assert_eq!(
        transient_kind_of(&DownloadError::Incomplete {
            path: "/d/f".to_owned(),
            expected: None,
            actual: 0
        }),
        Some(TransientKind::TruncatedBody)
    );
    assert_eq!(
        transient_kind_of(&status(503)),
        TransientKind::from_status(503)
    );
    assert_eq!(
        transient_kind_of(&DownloadError::TargetExists {
            path: "/d/f".to_owned()
        }),
        None
    );
    assert_eq!(
        observed_status_of(&TransferError::UnexpectedStatus {
            url: URL.to_owned(),
            status: 500,
            retry_after: None
        }),
        Some(500)
    );
}

#[test]
fn every_failure_has_its_name() {
    let path = || "/d/f".to_owned();
    let sink = || SinkError::NoSpace { offset: 0 };
    let cases = [
        (reset(), "transport"),
        (
            DownloadError::Incomplete {
                path: path(),
                expected: Some(1),
                actual: 0,
            },
            "incomplete",
        ),
        (DownloadError::TargetExists { path: path() }, "target_exists"),
        (
            DownloadError::Sink {
                path: path(),
                source: sink(),
            },
            "sink",
        ),
        (
            DownloadError::Unverified {
                path: path(),
                source: sink(),
            },
            "unverified",
        ),
        (
            DownloadError::Writer {
                source: WriterServiceError::ActorPanicked,
            },
            "download_state",
        ),
        (
            DownloadError::Recovery {
                source: "gone".to_owned(),
            },
            "recovery",
        ),
        (
            DownloadError::ResumeLengthMismatch {
                journal: 1,
                recorded: None,
            },
            "resume_length_mismatch",
        ),
        (
            DownloadError::Resume {
                source: "gone".to_owned(),
            },
            "resume",
        ),
        (
            DownloadError::Io {
                path: path(),
                source: "denied".to_owned(),
            },
            "io",
        ),
    ];
    for (error, name) in cases {
        assert_eq!(error.kind(), name);
    }
}

#[test]
fn a_resume_is_conditional_on_the_recorded_validator() {
    let mut held = session(etag());
    let request = held.plan_resume(24).unwrap();
    assert_eq!(request.range, Some(ByteRangeSpec::From { first: 24 }));
    assert_eq!(request.if_range.as_deref(), Some("\"v1\""));
    assert_eq!(held.sink.next_offset(), 24);

    let mut bare = session(Validator::Absent);
    assert_eq!(
        bare.plan_resume(24).map(|_| ()),
        Err(DownloadError::Incomplete {
            path: "/d/file.bin.dppart".to_owned(),
            expected: None,
            actual: 24
        })
    );
}

#[test]
fn only_a_whole_body_may_be_named() {
    let mut held = session(etag());
    assert_eq!(
        held.judge(Ok(()), Ok(outcome(false))),
        Err(DownloadError::Incomplete {
            path: "/d/file.bin.dppart".to_owned(),
            expected: Some(64),
            actual: 0
        })
    );
    held.plan_resume(64).unwrap();
    assert_eq!(held.judge(Ok(()), Ok(outcome(false))), Ok(()));
    assert_eq!(
        held.judge(Ok(()), Ok(outcome(true))).unwrap_err().kind(),
        "incomplete"
    );
    assert_eq!(
        held.judge(Err(SinkError::NoSpace { offset: 3 }), Ok(outcome(false)))
            .unwrap_err()
            .kind(),
        "sink"
    );
    let refused = held.judge(
        Ok(()),
        Err(TransferError::UnexpectedStatus {
            url: URL.to_owned(),
            status: 404,
            retry_after: None,
        }),
    );
    assert_eq!(refused.unwrap_err().kind(), "unexpected_status");
    assert_eq!(held.last_observed_status, Some(404));

    assert_eq!(held.named(Ok(())), Ok("/d/file.bin".to_owned()));
    assert_eq!(
        held.named(Err(completion_error("digest disagrees".to_owned())))
            .unwrap_err()
            .kind(),
        "unverified"
    );
}

#[test]
fn an_occupied_target_is_never_overwritten() {
    assert_eq!(refuse_occupied_target("/d/f", TargetState::Free), Ok(()));
    assert_eq!(
        refuse_occupied_target("/d/f", TargetState::Occupied),
        Err(DownloadError::TargetExists {
            path: "/d/f".to_owned()
        })
    );
    assert_eq!(
        refuse_occupied_target(
            "/d/f",
            TargetState::Unknown {
                source: "denied".to_owned()
            }
        ),
        Err(DownloadError::Io {
            path: "/d/f".to_owned(),
            source: "denied".to_owned()
        })
    );
}

#[test]
fn identities_are_hashes_of_exactly_their_text() {
    let hash = *blake3::hash(URL.as_bytes()).as_bytes();
    assert_eq!(transfer_id_for(URL), hash[..16]);
    assert_eq!(first_half(&hash), hash[..16]);
    assert_ne!(transfer_id_for(URL), transfer_id_for("https://example.test/other"));

    assert_eq!(
        validator_hash_of(&etag()),
        *blake3::hash(b"etag:\"v1\"").as_bytes()
    );
    let dated = Validator::LastModified("Sun, 06 Nov 1994 08:49:37 GMT".to_owned());
    assert_eq!(
        validator_source(&dated).as_deref(),
        Some("last-modified:Sun, 06 Nov 1994 08:49:37 GMT")
    );
    assert_eq!(validator_hash_of(&Validator::Absent), [0; 32]);
}

#[test]
fn a_layout_names_the_journal_by_allocation_or_by_url() {
    let layout = StorageLayout::new("/d".to_owned(), "/j".to_owned());
    assert_eq!((layout.target_dir(), layout.journal_dir()), ("/d", "/j"));
    assert_eq!(
        layout.transfer_id_for_remote(&remote(etag())),
        transfer_id_for(URL)
    );
    let layout = layout.with_transfer_id([7; 16]);
    assert_eq!(layout.transfer_id_for_remote(&remote(etag())), [7; 16]);
    assert_eq!(journal_name_for(&[0xab; 16]), format!("{}.dpj", "ab".repeat(16)));
    assert_eq!((PART_EXTENSION, JOURNAL_EXTENSION), ("dppart", "dpj"));

    let mut unnamed = remote(etag());
    assert_eq!(final_name_for(&unnamed), "file.bin");
    unnamed.suggested_filename = None;
    assert_eq!(final_name_for(&unnamed), "download");
}

#[test]
fn a_stated_length_gets_a_journal_and_another_does_not() {
    let (mut sink, header) =
        StorageSink::create("/d/f", "/j/x.dpj".to_owned(), Some(64), [1; 16], [2; 32]);
    assert_eq!(
        header,
        Some(FileHeader {
            transfer_id: [1; 16],
            total_length: 64,
            block_size: 0,
            validator_hash: [2; 32],
        })
    );
    assert_eq!(sink.artifacts().part_path, part_path_of("/d/f"));
    assert_eq!(sink.plan_write(0, 8), Ok(WritePlan::Stage));
    assert_eq!(sink.durable_prefix_end(), 0);
    sink.on_durable(8..16).unwrap();
    assert_eq!(sink.durable_prefix_end(), 0);
    sink.on_durable(0..8).unwrap();
    assert_eq!(sink.durable_prefix_end(), 16);
    assert!(sink.on_durable(60..65).is_err());
    assert!(sink.check_seal(true).is_err());
    assert_eq!(sink.check_seal(false), Ok(()));
    assert_eq!(sink.on_named(), Some("/j/x.dpj".to_owned()));
    assert_eq!(sink.artifacts().journal_path, None);

    let (sink, header) = StorageSink::create("/d/f", "/j/x.dpj".to_owned(), None, [1; 16], [2; 32]);
    assert_eq!(header, None);
    assert_eq!(sink.artifacts().journal_path, None);
    assert_eq!(sink.plan_write(4, 8), Ok(WritePlan::ExtendTo(12)));
    assert_eq!(
        sink.plan_write(u64::MAX, 1),
        Err(SinkError::LengthOverflow)
    );
    assert_eq!(sink.durable_prefix_end(), 0);

    let (sink, _) = StorageSink::create("/d/f", "/j/x.dpj".to_owned(), Some(0), [1; 16], [2; 32]);
    assert_eq!(sink.durable_prefix_end(), 0);
    assert_eq!(SINGLE_STREAM_WORKER, 1);
}

#[test]
fn the_durable_prefix_ends_at_the_first_hole() {
    let mut map = downpour::intervals::IntervalMap::new(32);
    let worker = downpour::intervals::WorkerId::new(1);
    map.grant(0..32, worker).unwrap();
    map.complete(0..8, worker).unwrap();
    map.complete(16..32, worker).unwrap();
    assert_eq!(durable_prefix_end(&map), 8);
    map.complete(8..16, worker).unwrap();
    assert_eq!(durable_prefix_end(&map), 32);
    assert_eq!(map.intervals()[0].state(), &IntervalState::Complete);
}

#[test]
fn a_full_device_is_told_apart_on_every_platform() {
    let text = || "no space".to_owned();
    assert_eq!(
        classify_io(Platform::Unix, 5, Some(28), text()),
        SinkError::NoSpace { offset: 5 }
    );
    for code in [39, 112] {
        assert_eq!(
            classify_io(Platform::Windows, 5, Some(code), text()),
            SinkError::NoSpace { offset: 5 }
        );
    }
    for (platform, code) in [
        (Platform::Unix, Some(112)),
        (Platform::Windows, Some(28)),
        (Platform::Other, Some(28)),
        (Platform::Unix, None),
    ] {
        assert_eq!(
            classify_io(platform, 5, code, text()),
            SinkError::Io {
                offset: 5,
                source: text()
            }
        );
    }
    assert_eq!(
        part_error(
            Platform::Unix,
            0,
            PartFileError::OutOfBounds {
                offset: 60,
                length: 8,
                total_length: 64
            }
        ),
        SinkError::BeyondGrant {
            grant: 64,
            already_written: 60,
            attempted: 8
        }
    );
    assert_eq!(
        writer_error(
            Platform::Unix,
            9,
            WriterError::NoSpace { offset: 1 },
            "full".to_owned()
        ),
        SinkError::Io {
            offset: 9,
            source: "full".to_owned()
        }
    );
}

#[test]
fn an_orphaned_journal_is_replaced_and_nothing_else_is() {
    assert_eq!(
        on_journal_refused(
            Platform::Unix,
            WriterError::JournalAlreadyExists {
                path: "/j/x.dpj".to_owned()
            },
            "exists".to_owned()
        ),
        JournalStep::Replace
    );
    assert_eq!(
        on_journal_refused(
            Platform::Unix,
            WriterError::Io {
                operation: "create".to_owned(),
                code: Some(28),
                source: "full".to_owned()
            },
            "full".to_owned()
        ),
        JournalStep::Fail(SinkError::NoSpace { offset: 0 })
    );
}

#[test]
fn an_address_knows_its_origin() {
    let address = Address::parse("HTTPS://user@Example.test:8443/a/../b?q#f").unwrap();
    assert_eq!(address.text, "https://user@example.test:8443/b?q#f");
    assert_eq!(address.origin(), "https://user@example.test:8443");
    assert!(address.is_http());
    assert!(!Address::parse("ftp://example.test/").unwrap().is_http());
    assert!(Address::parse("no address").is_none());
}

#[test]
fn a_journal_proves_its_blocks_and_nothing_else() {
    // The third overlaps the first, the fourth lies beyond the end, the last is empty.
    let map = replay(64, &vec![0..16, 32..48, 8..24, 60..65, 50..50]);
    let states: Vec<(u64, u64, IntervalState)> = map
        .intervals()
        .iter()
        .map(|interval| (interval.start(), interval.end(), *interval.state()))
        .collect();
    assert_eq!(
        states,
        vec![
            (0, 16, IntervalState::Complete),
            (16, 32, IntervalState::Pending),
            (32, 48, IntervalState::Complete),
            (48, 64, IntervalState::Pending),
        ]
    );
    assert_eq!(durable_prefix_end(&map), 16);
}
