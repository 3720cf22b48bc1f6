//! Startup recovery: every unclean download is reconciled, none is resumed, and one that cannot be
//! recovered does not stop the rest.

use downpour::records::{DownloadState, StoredId};
use downpour::allocator::{SegmentAllocator, DEFAULT_MIN_SPLIT_BYTES};
use downpour::intervals::{IntervalMap, WorkerId};
use downpour::records::DownloadMetadata;
use downpour::remote::{NegotiatedProtocol, RangeSupport, RemoteObject, Validator};
use downpour::startup::{
    is_unclean, plan_recovery, reconcile_download, recover_all, StoredDownload,
};
use downpour::time::Timestamp;

fn id(n: u8) -> StoredId {
    StoredId::try_from_bytes([
        0x01, 0x91, 0x23, 0x45, 0x67, 0x89, 0x7a, 0xbc, 0x8d, 0xef, 0x01, 0x23, 0x45, 0x67, 0x89, n,
    ])
    .expect("fixture is RFC-variant UUIDv7")
}

fn stored(n: u8, state: DownloadState) -> StoredDownload {
    StoredDownload { id: id(n), state }
}

const TOTAL: u64 = 32;

fn record(n: u8) -> DownloadMetadata {
    let remote = RemoteObject {
        final_url: "https://example.test/file".to_owned(),
        redirect_chain: vec!["https://example.test/file".to_owned()],
        total_length: Some(TOTAL),
        range_support: RangeSupport::Absent,
        validator: Validator::StrongETag("\"v1\"".to_owned()),
        digest: None,
        protocol: NegotiatedProtocol::Http11,
        suggested_filename: None,
        content_type: None,
        probed_at: Timestamp::from_secs(3),
    };
    DownloadMetadata::of_probe(id(n), &remote, "/data/payload.bin", 1).unwrap()
}

/// What a journal proves that holds one block at the front.
fn proved(length: u64) -> SegmentAllocator {
    let mut map = IntervalMap::new(TOTAL);
    let worker = WorkerId::new(1);
    map.grant(0..length, worker).unwrap();
    map.complete(0..length, worker).unwrap();
    SegmentAllocator::resume(map, DEFAULT_MIN_SPLIT_BYTES).unwrap()
}

#[test]
fn unclean_downloads_are_reconciled_and_left_paused() {
    let store = vec![
        stored(0x01, DownloadState::Transferring),
        stored(0x02, DownloadState::Stalled),
        stored(0x03, DownloadState::Completed),
    ];
    assert_eq!(plan_recovery(&store), vec![id(0x01), id(0x02)]);

    let summary = recover_all(
        &store,
        vec![Ok(DownloadState::Paused), Ok(DownloadState::Paused)],
    )
    .expect("each planned download was tried");
    assert_eq!(summary.recovered(), 2, "both unclean downloads come back");
    assert_eq!(summary.failed(), 0);
    assert_eq!(
        summary.skipped(),
        1,
        "a completed download has nothing in flight and is not touched"
    );
    for (index, expected) in [(0x01, 8_u64), (0x02, 16_u64)].into_iter().enumerate() {
        let download = &summary.downloads()[index];
        assert_eq!(download.id(), id(expected.0));
        assert_eq!(download.outcome(), &Ok(DownloadState::Paused));

        let mut persisted = record(expected.0);
        let state = reconcile_download(&mut persisted, Some(&proved(expected.1)), 9);
        assert_eq!(state, DownloadState::Paused, "recovery never auto-resumes");
        assert_eq!(persisted.state, DownloadState::Paused);
        assert_eq!(
            persisted.covered_bytes, expected.1,
            "coverage comes from the journal, not from what the record last remembered"
        );
    }
}

#[test]
fn one_unrecoverable_download_does_not_stop_the_rest() {
    let store = vec![
        stored(0x01, DownloadState::Transferring),
        stored(0x02, DownloadState::Transferring),
    ];
    let summary = recover_all(
        &store,
        vec![Ok(DownloadState::Paused), Ok(DownloadState::Failed)],
    )
    .expect("the pass completes");

    assert_eq!(summary.downloads().len(), 2);
    assert_eq!(summary.recovered(), 1, "the healthy download still recovers");
    assert_eq!(summary.failed(), 1);
    assert!(summary.downloads()[0].is_recovered());
    assert!(!summary.downloads()[1].is_recovered());

    let mut broken = record(0x02);
    assert_eq!(
        reconcile_download(&mut broken, None, 9),
        DownloadState::Failed
    );
    assert_eq!(
        broken.state,
        DownloadState::Failed,
        "the record is kept and marked, not deleted"
    );
    assert_eq!(
        broken.error_kind.as_deref(),
        Some("storage.part-file-missing")
    );
}

#[test]
fn a_download_whose_recovery_errors_does_not_stop_the_pass() {
    let store = vec![
        stored(0x01, DownloadState::Transferring),
        stored(0x02, DownloadState::Transferring),
    ];
    let summary = recover_all(
        &store,
        vec![
            Ok(DownloadState::Paused),
            Err("is a directory".to_owned()),
        ],
    )
    .expect("a broken journal is one download's problem, not the daemon's");

    assert_eq!(summary.downloads().len(), 2);
    assert_eq!(summary.recovered(), 1, "the healthy download still recovers");
    assert!(summary
        .downloads()
        .iter()
        .any(|download| download.outcome().is_err()));
}

#[test]
fn a_store_with_nothing_in_it_recovers_nothing_and_succeeds() {
    let summary = recover_all(&Vec::new(), Vec::new()).expect("a first start works");
    assert_eq!(summary.downloads().len(), 0);
    assert_eq!(summary.recovered(), 0);
    assert_eq!(summary.skipped(), 0);
}

#[test]
fn a_pass_that_left_a_download_out_is_none() {
    let store = vec![
        stored(0x01, DownloadState::Transferring),
        stored(0x02, DownloadState::Failed),
    ];
    assert!(recover_all(&store, Vec::new()).is_none());
    assert!(recover_all(&store, vec![Ok(DownloadState::Paused)]).is_some());
}

#[test]
fn only_final_states_are_clean() {
    for state in [
        DownloadState::Submitted,
        DownloadState::Probing,
        DownloadState::Planned,
        DownloadState::Transferring,
        DownloadState::Paused,
        DownloadState::Stalled,
        DownloadState::AwaitingRefresh,
        DownloadState::Verifying,
    ] {
        assert!(is_unclean(state));
    }
    assert!(!is_unclean(DownloadState::Completed));
    assert!(!is_unclean(DownloadState::Failed));
}
