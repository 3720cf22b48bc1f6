//! When cached capability evidence must be re-established, and what a resume does about it.

use downpour::digest::{ContentDigest, DigestAlgorithm};
use downpour::download::{DownloadError, Session, SingleStream};
use downpour::error::TransferError;
use downpour::probe::{ReprobePolicy, ReprobeTrigger, ResumePlan, CAPABILITY_FRESHNESS};
use downpour::remote::{
    ByteRangeSpec, NegotiatedProtocol, RangeProof, RangeSupport, RemoteObject, Validator,
};
use downpour::storage_sink::Artifacts;
use downpour::time::{Duration, Timestamp};

const NOW_SECS: u64 = 1_800_000_000;

fn observed() -> RangeProof {
    RangeProof::from_observed_response(
        ByteRangeSpec::FromTo { first: 0, last: 0 },
        206,
        Some("bytes 0-0/1024"),
        None,
        1,
    )
    .expect("fixture is a valid observed range response")
}

fn probed_object(probed_at: Timestamp) -> RemoteObject {
    RemoteObject {
        final_url: "https://cdn.example.test/file.bin".to_owned(),
        redirect_chain: vec!["https://example.test/file.bin".to_owned()],
        total_length: Some(1024),
        range_support: RangeSupport::Proven(observed()),
        validator: Validator::StrongETag("\"v1\"".to_owned()),
        digest: Some(ContentDigest {
            algorithm: DigestAlgorithm::Sha256,
            encoded: "YWJj".to_owned(),
        }),
        protocol: NegotiatedProtocol::Http2,
        suggested_filename: Some("file.bin".to_owned()),
        content_type: None,
        probed_at,
    }
}

fn one_minute_ago() -> (Timestamp, Timestamp) {
    (Timestamp::from_secs(NOW_SECS), Timestamp::from_secs(NOW_SECS - 60))
}

#[test]
fn each_spec_trigger_forces_a_probe_and_an_unrelated_resume_does_not() {
    let policy = ReprobePolicy::default();
    let (now, probed_at) = one_minute_ago();
    let recorded = probed_object(probed_at);

    let unchanged = ResumePlan {
        recorded: &recorded,
        now,
        planned_url: &recorded.final_url,
        refreshed_url: None,
        last_observed_status: None,
    };
    assert_eq!(
        policy.triggers(&unchanged),
        Vec::new(),
        "an ordinary resume must reuse its recorded evidence"
    );
    assert!(!policy.is_required(&unchanged));

    let moved = "https://other-cdn.example.test/file.bin".to_owned();
    let plan = ResumePlan {
        planned_url: &moved,
        ..unchanged
    };
    assert_eq!(
        policy.triggers(&plan),
        vec![ReprobeTrigger::FinalUrlChanged {
            recorded: recorded.final_url.clone(),
            planned: moved.clone(),
        }],
        "capabilities were proven against the recorded URL, not this one"
    );

    let plan = ResumePlan {
        last_observed_status: Some(200),
        ..unchanged
    };
    assert_eq!(
        policy.triggers(&plan),
        vec![ReprobeTrigger::StatusContradictsCapabilities {
            status: 200,
            reason: "range support was proven but the server answered a ranged request with 200"
                .to_owned(),
        }],
        "a 200 where 206 was proven contradicts the recorded capability"
    );

    let stale = probed_object(Timestamp::from_secs(NOW_SECS - CAPABILITY_FRESHNESS - 1));
    let plan = ResumePlan {
        recorded: &stale,
        planned_url: &stale.final_url,
        ..unchanged
    };
    assert_eq!(
        policy.triggers(&plan),
        vec![ReprobeTrigger::FreshnessWindowElapsed {
            elapsed: Duration::from_secs(CAPABILITY_FRESHNESS + 1),
            window: Duration::from_secs(CAPABILITY_FRESHNESS),
        }],
        "evidence older than the window is not evidence about the representation now"
    );

    let refreshed = "https://cdn.example.test/file.bin?token=fresh".to_owned();
    let plan = ResumePlan {
        refreshed_url: Some(&refreshed),
        ..unchanged
    };
    assert_eq!(
        policy.triggers(&plan),
        vec![ReprobeTrigger::RefreshedUrlSupplied {
            url: refreshed.clone(),
        }],
        "a supplied refresh invalidates cached capability evidence outright"
    );
    assert!(policy.is_required(&plan));
}

#[test]
fn a_transient_status_is_not_a_capability_contradiction() {
    let policy = ReprobePolicy::default();
    let (now, probed_at) = one_minute_ago();
    let recorded = probed_object(probed_at);

    for status in [408, 425, 429, 500, 502, 503, 504] {
        let plan = ResumePlan {
            recorded: &recorded,
            now,
            planned_url: &recorded.final_url,
            refreshed_url: None,
            last_observed_status: Some(status),
        };
        assert_eq!(
            policy.triggers(&plan),
            Vec::new(),
            "status {status} is a transient failure, not a statement about capabilities"
        );
    }
}

#[test]
fn each_contradicting_status_is_recognised_for_its_own_reason() {
    let policy = ReprobePolicy::default();
    let (now, probed_at) = one_minute_ago();
    let proven = probed_object(probed_at);

    for status in [401, 403, 410, 416] {
        let plan = ResumePlan {
            recorded: &proven,
            now,
            planned_url: &proven.final_url,
            refreshed_url: None,
            last_observed_status: Some(status),
        };
        let triggers = policy.triggers(&plan);
        assert!(
            matches!(
                triggers.as_slice(),
                [ReprobeTrigger::StatusContradictsCapabilities { status: seen, .. }] if *seen == status
            ),
            "status {status} must contradict recorded capabilities, got {triggers:?}"
        );
    }

    let mut unproven = probed_object(probed_at);
    unproven.range_support = RangeSupport::Absent;
    let plan = ResumePlan {
        recorded: &unproven,
        now,
        planned_url: &unproven.final_url,
        refreshed_url: None,
        last_observed_status: Some(200),
    };
    assert_eq!(
        policy.triggers(&plan),
        Vec::new(),
        "a 200 contradicts nothing when range support was never claimed"
    );
}

#[test]
fn every_applicable_trigger_is_reported() {
    let policy = ReprobePolicy::default();
    let (now, _) = one_minute_ago();
    let stale = probed_object(Timestamp::from_secs(NOW_SECS - CAPABILITY_FRESHNESS - 30));
    let moved = "https://elsewhere.example.test/file.bin".to_owned();
    let refreshed = "https://cdn.example.test/file.bin?token=fresh".to_owned();

    let triggers = policy.triggers(&ResumePlan {
        recorded: &stale,
        now,
        planned_url: &moved,
        refreshed_url: Some(&refreshed),
        last_observed_status: Some(416),
    });

    assert_eq!(triggers.len(), 4, "got {triggers:?}");
    assert!(matches!(
        triggers[0],
        ReprobeTrigger::RefreshedUrlSupplied { .. }
    ));
    assert!(matches!(
        triggers[1],
        ReprobeTrigger::FinalUrlChanged { .. }
    ));
    assert!(matches!(
        triggers[2],
        ReprobeTrigger::StatusContradictsCapabilities { .. }
    ));
    assert!(matches!(
        triggers[3],
        ReprobeTrigger::FreshnessWindowElapsed { .. }
    ));
}

#[test]
fn a_probe_timestamp_in_the_future_is_treated_as_stale() {
    let policy = ReprobePolicy::default();
    let (now, _) = one_minute_ago();
    let skewed = probed_object(Timestamp::from_secs(NOW_SECS + 3600));

    let triggers = policy.triggers(&ResumePlan {
        recorded: &skewed,
        now,
        planned_url: &skewed.final_url,
        refreshed_url: None,
        last_observed_status: None,
    });

    assert!(
        matches!(
            triggers.as_slice(),
            [ReprobeTrigger::FreshnessWindowElapsed { .. }]
        ),
        "an unknowable age must re-probe rather than reuse, got {triggers:?}"
    );
}

#[test]
fn a_refreshed_url_identical_to_the_recorded_one_still_invalidates_the_evidence() {
    let policy = ReprobePolicy::default();
    let (now, probed_at) = one_minute_ago();
    let recorded = probed_object(probed_at);
    let same = recorded.final_url.clone();

    let triggers = policy.triggers(&ResumePlan {
        recorded: &recorded,
        now,
        planned_url: &recorded.final_url,
        refreshed_url: Some(&same),
        last_observed_status: None,
    });

    assert_eq!(
        triggers,
        vec![ReprobeTrigger::RefreshedUrlSupplied { url: same }],
        "a supplied refresh is a signal from the user, not a string comparison"
    );
}

#[test]
fn the_freshness_window_is_configurable_and_its_boundary_is_exact() {
    let policy = ReprobePolicy::new(Duration::from_secs(120));
    assert_eq!(policy.freshness(), Duration::from_secs(120));
    let (now, _) = one_minute_ago();

    let exactly_at = probed_object(Timestamp::from_secs(NOW_SECS - 120));
    assert_eq!(
        policy.triggers(&ResumePlan {
            recorded: &exactly_at,
            now,
            planned_url: &exactly_at.final_url,
            refreshed_url: None,
            last_observed_status: None,
        }),
        Vec::new(),
        "evidence exactly at the window is still inside it"
    );

    let just_past = probed_object(Timestamp::from_secs(NOW_SECS - 121));
    assert!(
        !policy
            .triggers(&ResumePlan {
                recorded: &just_past,
                now,
                planned_url: &just_past.final_url,
                refreshed_url: None,
                last_observed_status: None,
            })
            .is_empty(),
        "one second past the window is outside it"
    );
}

fn held(probed_at: Timestamp) -> Session {
    SingleStream::begin(
        probed_object(probed_at),
        "/downloads/file.bin".to_owned(),
        Artifacts {
            part_path: "/downloads/file.bin.dppart".to_owned(),
            journal_path: Some("/journals/0.dpj".to_owned()),
        },
    )
    .0
}

#[test]
fn an_elapsed_freshness_window_makes_the_resume_re_probe() {
    let stream = SingleStream::new().with_reprobe_policy(ReprobePolicy::new(Duration::zero()));
    let (now, probed_at) = one_minute_ago();
    let session = held(probed_at);
    assert_eq!(
        stream.stale_evidence(&session, now),
        vec![ReprobeTrigger::FreshnessWindowElapsed {
            elapsed: Duration::from_secs(60),
            window: Duration::zero(),
        }]
    );

    let fresh = probed_object(now);
    let mut session = session.refresh(fresh, 512).expect("nothing changed");
    assert_eq!(session.recorded.probed_at, now);
    assert_eq!(session.validator, Validator::StrongETag("\"v1\"".to_owned()));
    let request = session.plan_resume(512).expect("the validator is usable");
    assert_eq!(request.range, Some(ByteRangeSpec::From { first: 512 }));
    assert_eq!(request.if_range.as_deref(), Some("\"v1\""));
}

#[test]
fn a_fresh_window_makes_the_resume_reuse_its_recorded_evidence() {
    let stream = SingleStream::new();
    let (now, probed_at) = one_minute_ago();
    assert!(stream.stale_evidence(&held(probed_at), now).is_empty());
}

#[test]
fn a_re_probe_that_finds_a_changed_validator_refuses_to_resume() {
    let (now, probed_at) = one_minute_ago();
    let mut fresh = probed_object(now);
    fresh.validator = Validator::StrongETag("\"v2\"".to_owned());
    let error = held(probed_at).refresh(fresh, 512).expect_err("the representation changed");
    assert_eq!(
        error,
        DownloadError::Transfer(TransferError::ValidatorMismatch {
            url: "https://cdn.example.test/file.bin".to_owned(),
            resume_offset: 512,
            status: 200,
            validator: "\"v1\"".to_owned(),
        })
    );

    let mut longer = probed_object(now);
    longer.total_length = Some(1025);
    assert!(held(probed_at).refresh(longer, 512).is_err());
    let mut lengthless = probed_object(now);
    lengthless.total_length = None;
    assert!(held(probed_at).refresh(lengthless, 512).is_ok());
}
