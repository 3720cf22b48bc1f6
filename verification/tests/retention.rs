//! The retention policy, and the line it must not cross: only a journal that can no longer protect
//! anything is removed.

use downpour::records::{DownloadState, StoredId};
use downpour::retention::{
    is_older_than, journal_id_of, judge_entry, retire_completed_journal, retire_journal_for,
    sweep_journals, JournalEntry, RetentionPolicy, RetentionSummary, Verdict,
};
use downpour::startup::StoredDownload;
use downpour::time::{Duration, Timestamp};

const NOW_MS: u64 = 1_780_000_000_000;

/// Comfortably past the policy's floor.
fn long_ago() -> Duration {
    Duration::from_secs(30 * 24 * 60 * 60)
}

fn id(n: u8) -> StoredId {
    StoredId::try_from_bytes([
        0x01, 0x91, 0x23, 0x45, 0x67, 0x89, 0x7a, 0xbc, 0x8d, 0xef, 0x01, 0x23, 0x45, 0x67, 0x89, n,
    ])
    .expect("fixture is RFC-variant UUIDv7")
}

fn journal_name(id: StoredId) -> String {
    let mut name = String::new();
    for byte in id.as_bytes() {
        name.push_str(&format!("{byte:02x}"));
    }
    name.push_str(".dpj");
    name
}

fn before_now(age: Duration) -> Timestamp {
    Timestamp {
        nanos: u128::from(NOW_MS) * 1_000_000 - age.as_nanos(),
    }
}

fn file(name: &str, age: Duration) -> (String, Timestamp) {
    (name.to_owned(), before_now(age))
}

/// Sweep a directory, and remove from it what the sweep decided to remove.
fn sweep(
    owners: &Vec<StoredDownload>,
    files: &mut Vec<(String, Timestamp)>,
    policy: RetentionPolicy,
) -> RetentionSummary {
    let entries: Vec<Option<JournalEntry>> = files
        .iter()
        .map(|(name, modified)| {
            Some(JournalEntry {
                name: name.clone(),
                modified: Some(*modified),
            })
        })
        .collect();
    let verdicts = sweep_journals(owners, &entries, policy, NOW_MS);
    let mut summary = RetentionSummary::default();
    let listed = files.clone();
    for (verdict, (name, _)) in verdicts.into_iter().zip(listed) {
        if verdict == Verdict::Remove {
            files.retain(|(kept, _)| kept != &name);
        }
        summary.record(verdict, name, true);
    }
    summary
}

fn is_there(files: &[(String, Timestamp)], name: &str) -> bool {
    files.iter().any(|(kept, _)| kept == name)
}

#[test]
fn only_journals_that_can_protect_nothing_are_removed() {
    let mut files = Vec::new();
    for n in 0x01..=0x07 {
        files.push(file(&journal_name(id(n)), long_ago()));
    }
    // No row at all, and new: a download being added right now looks exactly like this.
    files.push(file(&journal_name(id(0x08)), Duration::zero()));

    let owners: Vec<StoredDownload> = [
        (0x01, DownloadState::Completed),
        (0x02, DownloadState::Failed),
        (0x03, DownloadState::Paused),
        (0x04, DownloadState::Transferring),
        (0x05, DownloadState::Stalled),
        (0x06, DownloadState::AwaitingRefresh),
    ]
    .into_iter()
    .map(|(n, state)| StoredDownload { id: id(n), state })
    .collect();

    let summary = sweep(&owners, &mut files, RetentionPolicy::default());

    assert!(!is_there(&files, &journal_name(id(0x01))));
    assert!(!is_there(&files, &journal_name(id(0x07))));
    for survivor in [0x02, 0x03, 0x04, 0x05, 0x06, 0x08] {
        assert!(is_there(&files, &journal_name(id(survivor))));
    }
    assert_eq!(summary.removed(), 2, "exactly the two that protect nothing");
    assert_eq!(summary.kept(), 6);
    assert_eq!(
        summary.removed_paths(),
        [journal_name(id(0x01)), journal_name(id(0x07))]
    );
}

#[test]
fn a_sweep_never_removes_a_part_file() {
    let parts = ["a.bin.dppart", "b.bin.dppart", "c.bin.dppart"];
    let mut files: Vec<(String, Timestamp)> =
        parts.iter().map(|name| file(name, long_ago())).collect();
    // The same stem as a journal, and still a part file.
    let twin = journal_name(id(0x01)).replace(".dpj", ".dppart");
    files.push(file(&twin, long_ago()));
    let journal = journal_name(id(0x01));
    files.push(file(&journal, long_ago()));

    let summary = sweep(&Vec::new(), &mut files, RetentionPolicy::default());

    assert!(!is_there(&files, &journal), "the orphaned journal should have gone");
    for part in parts {
        assert!(is_there(&files, part), "{part} was removed");
    }
    assert!(is_there(&files, &twin));
    assert_eq!(summary.removed(), 1);
}

#[test]
fn an_orphan_survives_until_it_is_older_than_the_floor() {
    let policy = RetentionPolicy::default();
    let orphan = journal_name(id(0x01));

    let half = Duration::from_nanos(policy.minimum_age().as_nanos() / 2);
    let mut files = vec![file(&orphan, half)];
    let summary = sweep(&Vec::new(), &mut files, policy);
    assert!(is_there(&files, &orphan));
    assert_eq!(summary.removed(), 0);

    let past = Duration::from_nanos(policy.minimum_age().as_nanos() + 1_000_000_000);
    let mut files = vec![file(&orphan, past)];
    let summary = sweep(&Vec::new(), &mut files, policy);
    assert!(!is_there(&files, &orphan), "an orphan past the floor should have been removed");
    assert_eq!(summary.removed(), 1);

    let exactly = policy.minimum_age();
    assert!(!is_older_than(Some(before_now(exactly)), exactly, NOW_MS));
}

#[test]
fn a_sweep_leaves_alone_what_it_does_not_recognise() {
    let mut files = vec![file("notes.txt", long_ago()), file("not-hex.dpj", long_ago())];
    let summary = sweep(&Vec::new(), &mut files, RetentionPolicy::default());
    assert!(is_there(&files, "notes.txt"));
    assert!(is_there(&files, "not-hex.dpj"));
    assert_eq!(summary.removed(), 0);
    assert_eq!(summary.unreadable(), 2);
}

#[test]
fn an_entry_that_cannot_be_read_or_dated_is_left_alone() {
    let owners = Vec::new();
    let policy = RetentionPolicy::with_minimum_age(Duration::zero());
    assert_eq!(
        judge_entry(&owners, &None, policy, NOW_MS),
        Verdict::Unreadable
    );
    let undated = Some(JournalEntry {
        name: journal_name(id(0x01)),
        modified: None,
    });
    assert_eq!(judge_entry(&owners, &undated, policy, NOW_MS), Verdict::Keep);
    let future = Some(JournalEntry {
        name: journal_name(id(0x01)),
        modified: Some(Timestamp {
            nanos: u128::from(NOW_MS) * 1_000_000 + 1,
        }),
    });
    assert_eq!(judge_entry(&owners, &future, policy, NOW_MS), Verdict::Keep);
}

#[test]
fn a_journal_that_could_not_be_removed_counts_as_kept() {
    let mut summary = RetentionSummary::default();
    summary.record(Verdict::Remove, "a.dpj".to_owned(), false);
    assert_eq!(summary.removed(), 0);
    assert_eq!(summary.kept(), 1);
}

#[test]
fn a_journal_name_is_the_downloads_identity() {
    let name = journal_name(id(0x2a));
    assert_eq!(retire_completed_journal(&id(0x2a)), name);
    assert_eq!(
        retire_journal_for(&id(0x2a), DownloadState::Completed),
        Some(name.clone())
    );
    assert_eq!(retire_journal_for(&id(0x2a), DownloadState::Failed), None);
    assert_eq!(journal_id_of(&name), Some(id(0x2a)));
    assert_eq!(
        journal_id_of(&name.to_uppercase().replace(".DPJ", ".dpj")),
        Some(id(0x2a))
    );
    // Hexadecimal, but no identity that the store would accept.
    assert_eq!(journal_id_of("00000000000000000000000000000000.dpj"), None);
}

#[test]
fn a_name_that_is_not_hexadecimal_is_never_touched() {
    // A sign stands where a digit should: a stranger's file, however old.
    let stranger = "+191234567897abc8def012345678901.dpj";
    assert_eq!(stranger.len(), 36);
    assert_eq!(journal_id_of(stranger), None);
    let mut files = vec![file(stranger, long_ago())];
    let summary = sweep(&Vec::new(), &mut files, RetentionPolicy::default());
    assert_eq!(summary.removed(), 0);
    assert_eq!(summary.unreadable(), 1);
    assert_eq!(files.len(), 1);

    // The digit in its place makes it a journal that nothing owns.
    let mut files = vec![file("0191234567897abc8def012345678901.dpj", long_ago())];
    let summary = sweep(&Vec::new(), &mut files, RetentionPolicy::default());
    assert_eq!(summary.removed(), 1);
    assert!(files.is_empty());
}
