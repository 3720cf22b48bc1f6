//! Which recovery journals may be removed.
//!
//! Nothing here removes user data. A journal goes only when it can no longer protect anything: its
//! download is verified and named, or no download owns it and it is too old to belong to one that
//! is just being set up. Part files are never touched, and what cannot be recognised is left.

use crate::records;
use crate::records::{DownloadState, StoredId};
use crate::startup::StoredDownload;
use crate::storage_sink;
use crate::text;
use crate::time;
use crate::time::{Duration, Timestamp};
use vstd::prelude::*;

verus! {

/// How long a journal without a download must sit untouched before it counts as abandoned, in
/// seconds: a day. A download that is being created has a journal before its record is written.
pub const DEFAULT_MINIMUM_AGE: u64 = 86_400;

/// How aggressive a sweep may be.
#[derive(Clone, Copy, Debug)]
pub struct RetentionPolicy {
    minimum_age: Duration,
}

impl Default for RetentionPolicy {
    /// The standard floor.
    fn default() -> (policy: Self)
        ensures
            policy.floor() == Duration::of_secs(DEFAULT_MINIMUM_AGE),
    {
        RetentionPolicy { minimum_age: Duration::from_secs(DEFAULT_MINIMUM_AGE) }
    }
}

impl RetentionPolicy {
    /// How long an orphaned journal must be untouched.
    pub closed spec fn floor(&self) -> Duration {
        self.minimum_age
    }

    /// A policy with a different floor for an orphaned journal.
    pub fn with_minimum_age(minimum_age: Duration) -> (policy: Self)
        ensures
            policy.floor() == minimum_age,
    {
        RetentionPolicy { minimum_age }
    }

    /// How long an orphaned journal must be untouched before the sweep will remove it.
    pub fn minimum_age(&self) -> (age: Duration)
        ensures
            age == self.floor(),
    {
        self.minimum_age
    }
}

/// The value of a hexadecimal digit of either case.
pub open spec fn digit_value(c: char) -> Option<u8> {
    if 'A' <= c <= 'F' {
        Some((c as u8 - 'A' as u8 + 10) as u8)
    } else {
        text::hex_value(c)
    }
}

/// The value that two hexadecimal digits write, each of either case. No other two characters write
/// one.
pub open spec fn pair_value(high: char, low: char) -> Option<u8> {
    match (digit_value(high), digit_value(low)) {
        (Some(high), Some(low)) => Some((high * 16 + low) as u8),
        _ => None,
    }
}

fn digit_of(c: char) -> (value: Option<u8>)
    ensures
        value == digit_value(c),
{
    if 'A' <= c && c <= 'F' {
        Some((c as u32 - 'A' as u32 + 10) as u8)
    } else {
        text::from_hex_digit(c)
    }
}

fn pair_of(high: char, low: char) -> (value: Option<u8>)
    ensures
        value == pair_value(high, low),
{
    match (digit_of(high), digit_of(low)) {
        (Some(high), Some(low)) => Some(high * 16 + low),
        _ => None,
    }
}

/// The identity that a file name encodes; nothing where it is not the name of a journal.
pub open spec fn named_id(name: Seq<char>) -> Option<Seq<u8>> {
    let bytes = Seq::new(16, |i: int| pair_value(name[2 * i], name[2 * i + 1])->0);
    if name.len() == 36 && name.skip(32) == ".dpj"@ && (forall|i: int|
        0 <= i < 16 ==> pair_value(#[trigger] name[2 * i], name[2 * i + 1]) is Some)
        && records::is_uuid_v7(bytes) {
        Some(bytes)
    } else {
        None
    }
}

/// The identity that a journal's file name encodes, or nothing if this is no journal of ours.
pub fn journal_id_of(name: &str) -> (id: Option<StoredId>)
    ensures
        (match id {
            Some(id) => Some(id@),
            None => None,
        }) == named_id(name@),
{
    if name.unicode_len() != 36 {
        return None;
    }
    if !text::same(name.substring_char(32, 36), ".dpj") {
        proof {
            assert(name@.skip(32) =~= name@.subrange(32, 36));
        }
        return None;
    }
    let mut bytes: [u8; 16] = [0u8;16];
    let mut index: usize = 0;
    while index < 16
        invariant
            name@.len() == 36,
            index <= 16,
            forall|i: int|
                0 <= i < index ==> pair_value(#[trigger] name@[2 * i], name@[2 * i + 1]) == Some(
                    bytes@[i],
                ),
        decreases 16 - index,
    {
        match pair_of(name.get_char(2 * index), name.get_char(2 * index + 1)) {
            Some(byte) => {
                bytes[index] = byte;
            },
            None => {
                proof {
                    assert(pair_value(name@[2 * (index as int)], name@[2 * (index as int) + 1])
                        is None);
                }
                return None;
            },
        }
        index = index + 1;
    }
    proof {
        let meant = Seq::new(16, |i: int| pair_value(name@[2 * i], name@[2 * i + 1])->0);
        assert forall|i: int| 0 <= i < 16 implies #[trigger] bytes@[i] == meant[i] by {
            assert(pair_value(name@[2 * i], name@[2 * i + 1]) == Some(bytes@[i]));
        }
        assert(bytes@ =~= meant);
        assert(name@.skip(32) =~= name@.subrange(32, 36));
    }
    StoredId::try_from_bytes(bytes)
}

/// The state of the first download that has an identity.
pub open spec fn owner_of(owners: Seq<StoredDownload>, id: Seq<u8>) -> Option<DownloadState>
    decreases owners.len(),
{
    if owners.len() == 0 {
        None
    } else if owners[0].id@ == id {
        Some(owners[0].state)
    } else {
        owner_of(owners.drop_first(), id)
    }
}

/// The state of the download that owns a journal, if one does.
pub fn owner_state(owners: &Vec<StoredDownload>, id: &StoredId) -> (state: Option<DownloadState>)
    ensures
        state == owner_of(owners@, id@),
{
    let mut index: usize = 0;
    proof {
        assert(owners@.skip(0) =~= owners@);
    }
    while index < owners.len()
        invariant
            index <= owners@.len(),
            owner_of(owners@, id@) == owner_of(owners@.skip(index as int), id@),
        decreases owners@.len() - index,
    {
        proof {
            assert(owners@.skip(index as int).drop_first() =~= owners@.skip(index + 1));
        }
        if owners[index].id.same_as(id) {
            return Some(owners[index].state);
        }
        index = index + 1;
    }
    None
}

/// The file was last modified longer ago than the floor. A file whose age is not known, or that
/// was modified after now, is too young.
pub open spec fn is_old(modified: Option<Timestamp>, floor: Duration, now_ms: u64) -> bool {
    match modified {
        Some(modified) => match (Timestamp {
            nanos: (now_ms * time::NANOS_PER_MILLI) as u128,
        }).spec_since(modified) {
            Some(age) => age.nanos > floor.nanos,
            None => false,
        },
        None => false,
    }
}

/// Whether a file was last modified longer than `minimum_age` before `now_ms`.
pub fn is_older_than(modified: Option<Timestamp>, minimum_age: Duration, now_ms: u64) -> (yes: bool)
    ensures
        yes == is_old(modified, minimum_age, now_ms),
{
    match modified {
        Some(modified) => {
            let now = Timestamp { nanos: now_ms as u128 * time::NANOS_PER_MILLI };
            match now.since(modified) {
                Some(age) => age.nanos > minimum_age.nanos,
                None => false,
            }
        },
        None => false,
    }
}

/// One entry of the journal directory.
#[derive(Debug)]
pub struct JournalEntry {
    /// The file's name.
    pub name: String,
    /// When the file was last modified, where that can be told.
    pub modified: Option<Timestamp>,
}

/// What a sweep does about one entry.
#[derive(Clone, Copy, Debug, PartialEq, Eq, Structural)]
pub enum Verdict {
    /// It is not recognised, and left alone.
    Unreadable,
    /// It is a journal that may still protect something.
    Keep,
    /// It is a journal that protects nothing.
    Remove,
}

/// What a sweep does about one entry. An entry that could not be read is not recognised.
pub open spec fn verdict(
    owners: Seq<StoredDownload>,
    entry: Option<JournalEntry>,
    floor: Duration,
    now_ms: u64,
) -> Verdict {
    match entry {
        None => Verdict::Unreadable,
        Some(entry) => match named_id(entry.name@) {
            None => Verdict::Unreadable,
            Some(id) => match owner_of(owners, id) {
                Some(state) => if state == DownloadState::Completed {
                    Verdict::Remove
                } else {
                    Verdict::Keep
                },
                None => if is_old(entry.modified, floor, now_ms) {
                    Verdict::Remove
                } else {
                    Verdict::Keep
                },
            },
        },
    }
}

/// Judge one entry of the journal directory.
pub fn judge_entry(
    owners: &Vec<StoredDownload>,
    entry: &Option<JournalEntry>,
    policy: RetentionPolicy,
    now_ms: u64,
) -> (judged: Verdict)
    ensures
        judged == verdict(owners@, *entry, policy.floor(), now_ms),
{
    match entry {
        None => Verdict::Unreadable,
        Some(entry) => match journal_id_of(entry.name.as_str()) {
            None => Verdict::Unreadable,
            Some(id) => match owner_state(owners, &id) {
                Some(DownloadState::Completed) => Verdict::Remove,
                Some(_) => Verdict::Keep,
                None => if is_older_than(entry.modified, policy.minimum_age, now_ms) {
                    Verdict::Remove
                } else {
                    Verdict::Keep
                },
            },
        },
    }
}

/// Decide about every entry of the journal directory, in order.
pub fn sweep_journals(
    owners: &Vec<StoredDownload>,
    entries: &Vec<Option<JournalEntry>>,
    policy: RetentionPolicy,
    now_ms: u64,
) -> (verdicts: Vec<Verdict>)
    ensures
        verdicts@.len() == entries@.len(),
        forall|i: int|
            0 <= i < entries@.len() ==> #[trigger] verdicts@[i] == verdict(
                owners@,
                entries@[i],
                policy.floor(),
                now_ms,
            ),
{
    let mut verdicts: Vec<Verdict> = Vec::new();
    let mut index: usize = 0;
    while index < entries.len()
        invariant
            index <= entries@.len(),
            verdicts@.len() == index,
            forall|i: int|
                0 <= i < index ==> #[trigger] verdicts@[i] == verdict(
                    owners@,
                    entries@[i],
                    policy.floor(),
                    now_ms,
                ),
        decreases entries@.len() - index,
    {
        verdicts.push(judge_entry(owners, &entries[index], policy, now_ms));
        index = index + 1;
    }
    verdicts
}

/// What one sweep did, and what it deliberately did not do.
#[derive(Debug)]
pub struct RetentionSummary {
    removed: Vec<String>,
    kept: usize,
    unreadable: usize,
}

impl Default for RetentionSummary {
    /// Nothing was looked at yet.
    fn default() -> (summary: Self)
        ensures
            summary.gone() == Seq::<String>::empty(),
            summary.kept_count() == 0,
            summary.unreadable_count() == 0,
    {
        RetentionSummary { removed: Vec::new(), kept: 0, unreadable: 0 }
    }
}

impl RetentionSummary {
    /// The journals that were removed.
    pub closed spec fn gone(&self) -> Seq<String> {
        self.removed@
    }

    /// How many journals were examined and kept.
    pub closed spec fn kept_count(&self) -> usize {
        self.kept
    }

    /// How many entries could not be classified.
    pub closed spec fn unreadable_count(&self) -> usize {
        self.unreadable
    }

    /// Take note of what became of one entry. A journal that should go but could not be removed
    /// counts as kept: what is on disk is what was there before.
    pub fn record(&mut self, judged: Verdict, path: String, was_removed: bool)
        requires
            old(self).kept_count() < usize::MAX,
            old(self).unreadable_count() < usize::MAX,
        ensures
            final(self).gone() == (if judged == Verdict::Remove && was_removed {
                old(self).gone().push(path)
            } else {
                old(self).gone()
            }),
            final(self).kept_count() == old(self).kept_count() + (if judged == Verdict::Keep || (
            judged == Verdict::Remove && !was_removed) {
                1int
            } else {
                0
            }),
            final(self).unreadable_count() == old(self).unreadable_count() + (if judged
                == Verdict::Unreadable {
                1int
            } else {
                0
            }),
    {
        match judged {
            Verdict::Unreadable => {
                self.unreadable = self.unreadable + 1;
            },
            Verdict::Keep => {
                self.kept = self.kept + 1;
            },
            Verdict::Remove => {
                if was_removed {
                    self.removed.push(path);
                } else {
                    self.kept = self.kept + 1;
                }
            },
        }
    }

    /// How many journals were removed.
    pub fn removed(&self) -> (count: usize)
        ensures
            count == self.gone().len(),
    {
        self.removed.len()
    }

    /// The journals that were removed.
    pub fn removed_paths(&self) -> (paths: &[String])
        ensures
            paths@ == self.gone(),
    {
        self.removed.as_slice()
    }

    /// How many journals were examined and kept.
    pub fn kept(&self) -> (count: usize)
        ensures
            count == self.kept_count(),
    {
        self.kept
    }

    /// Entries that the sweep could not classify and therefore left alone.
    pub fn unreadable(&self) -> (count: usize)
        ensures
            count == self.unreadable_count(),
    {
        self.unreadable
    }
}

/// The journal to remove when a download reaches a state.
pub open spec fn retired(id: Seq<u8>, state: DownloadState) -> Option<Seq<char>> {
    if state == DownloadState::Completed {
        Some(text::hex(id) + ".dpj"@)
    } else {
        None
    }
}

/// The journal to remove when a download reaches a state: its own when it is verified and named,
/// and none otherwise, because a failed download's journal is what its resume is built from.
pub fn retire_journal_for(id: &StoredId, state: DownloadState) -> (name: Option<String>)
    ensures
        text::owned(name) == retired(id@, state),
{
    match state {
        DownloadState::Completed => Some(retire_completed_journal(id)),
        _ => None,
    }
}

/// The name of a completed download's journal.
pub fn retire_completed_journal(id: &StoredId) -> (name: String)
    ensures
        name@ == text::hex(id@) + ".dpj"@,
{
    let bytes: [u8; 16] = id.as_bytes();
    storage_sink::journal_name_for(&bytes)
}

/// A sweep removes nothing but journals that protect nothing: whatever is removed bears the name
/// of a journal, which is 32 hexadecimal digits and the extension, and its download is either
/// complete, or absent from the store while the file is known to be older than the floor.
pub proof fn law_only_journals_that_protect_nothing_are_removed(
    owners: Seq<StoredDownload>,
    entry: JournalEntry,
    floor: Duration,
    now_ms: u64,
)
    requires
        verdict(owners, Some(entry), floor, now_ms) == Verdict::Remove,
    ensures
        entry.name@.len() == 36,
        entry.name@.skip(32) == ".dpj"@,
        forall|i: int| 0 <= i < 32 ==> digit_value(#[trigger] entry.name@[i]) is Some,
        named_id(entry.name@) is Some,
        ({
            let owner = owner_of(owners, named_id(entry.name@)->0);
            ||| owner == Some(DownloadState::Completed)
            ||| (owner is None && entry.modified is Some && entry.modified->0.nanos + floor.nanos
                < now_ms * time::NANOS_PER_MILLI)
        }),
{
    let name = entry.name@;
    assert forall|i: int| 0 <= i < 32 implies digit_value(#[trigger] name[i]) is Some by {
        let pair = i / 2;
        assert(pair_value(name[2 * pair], name[2 * pair + 1]) is Some);
        assert(i == 2 * pair || i == 2 * pair + 1);
    }
}

/// A part file is never removed.
pub proof fn law_a_part_file_is_never_removed(
    owners: Seq<StoredDownload>,
    entry: JournalEntry,
    stem: Seq<char>,
    floor: Duration,
    now_ms: u64,
)
    requires
        entry.name@ == stem + ".dppart"@,
    ensures
        verdict(owners, Some(entry), floor, now_ms) == Verdict::Unreadable,
{
    reveal_strlit(".dppart");
    reveal_strlit(".dpj");
    let name = entry.name@;
    if name.len() == 36 {
        assert(".dppart"@.len() == 7);
        assert(name[35] == ".dppart"@[6]);
        assert(name.skip(32)[3] == name[35]);
        assert(".dpj"@[3] == 'j');
        assert(".dppart"@[6] == 't');
    }
}

/// A journal goes by the name that its download gave it: the name reads back as the identity.
pub proof fn law_a_journal_name_names_its_download(id: Seq<u8>)
    requires
        records::is_uuid_v7(id),
    ensures
        named_id(text::hex(id) + ".dpj"@) == Some(id),
{
    reveal_strlit(".dpj");
    text::law_hex_round_trips(id);
    let name = text::hex(id) + ".dpj"@;
    assert(name.skip(32) =~= ".dpj"@);
    assert forall|i: int| 0 <= i < 16 implies pair_value(#[trigger] name[2 * i], name[2 * i + 1])
        == Some(id[i]) by {
        text::lemma_hex_at(id, i);
        assert(id[i] / 16 * 16 + id[i] % 16 == id[i]);
    }
    assert(Seq::new(16, |i: int| pair_value(name[2 * i], name[2 * i + 1])->0) =~= id);
}

/// A hexadecimal digit is worth what it writes, in either case.
pub proof fn law_a_digit_is_worth_what_it_writes(value: u8, c: char)
    ensures
        value < 16 ==> digit_value("0123456789abcdef"@[value as int]) == Some(value)
            && digit_value("0123456789ABCDEF"@[value as int]) == Some(value),
        digit_value(c) is Some <==> ('0' <= c <= '9') || ('a' <= c <= 'f') || ('A' <= c <= 'F'),
        pair_value(c, c) is Some <==> digit_value(c) is Some,
        digit_value(c) matches Some(digit) ==> pair_value(c, '0') == Some((16 * digit) as u8)
            && pair_value('0', c) == Some(digit),
{
    reveal_strlit("0123456789abcdef");
    reveal_strlit("0123456789ABCDEF");
}

/// A journal's owner is a download with its identity; of several the first counts, and without any
/// there is none.
pub proof fn law_a_journal_has_the_first_owner(owners: Seq<StoredDownload>, id: Seq<u8>, at: int)
    ensures
        0 <= at < owners.len() && owners[at].id@ == id && (forall|i: int|
            0 <= i < at ==> (#[trigger] owners[i]).id@ != id) ==> owner_of(owners, id) == Some(
            owners[at].state,
        ),
        (forall|i: int| 0 <= i < owners.len() ==> (#[trigger] owners[i]).id@ != id) <==> owner_of(
            owners,
            id,
        ) is None,
    decreases owners.len(),
{
    if owners.len() > 0 {
        let rest = owners.drop_first();
        law_a_journal_has_the_first_owner(rest, id, at - 1);
        assert(forall|i: int| 0 <= i < rest.len() ==> #[trigger] rest[i] == owners[i + 1]);
        if 0 < at < owners.len() && owners[at].id@ == id && (forall|i: int|
            0 <= i < at ==> (#[trigger] owners[i]).id@ != id) {
            assert(owners[0].id@ != id);
            assert(rest[at - 1] == owners[at]);
        }
        if owner_of(owners, id) is None {
            assert forall|i: int| 0 <= i < owners.len() implies (#[trigger] owners[i]).id@ != id by {
                if i > 0 {
                    assert(rest[i - 1].id@ != id);
                }
            }
        }
        if forall|i: int| 0 <= i < owners.len() ==> (#[trigger] owners[i]).id@ != id {
            assert(owners[0].id@ != id);
            assert forall|i: int| 0 <= i < rest.len() implies (#[trigger] rest[i]).id@ != id by {
                assert(rest[i] == owners[i + 1]);
            }
        }
    }
}

/// A file is old exactly if its last change is known and lies further back than the floor.
pub proof fn law_old_means_untouched_for_longer_than_the_floor(
    modified: Option<Timestamp>,
    floor: Duration,
    now_ms: u64,
)
    ensures
        is_old(modified, floor, now_ms) <==> modified is Some && modified->0.nanos + floor.nanos
            < now_ms * 1_000_000,
{
}

/// Every journal has its fate: that of a completed download goes, that of any other download stays
/// however old it is, one without a download goes once it is old and stays until then, and what
/// does not bear a journal's name is left alone.
pub proof fn law_every_journal_has_its_fate(
    owners: Seq<StoredDownload>,
    entry: JournalEntry,
    floor: Duration,
    now_ms: u64,
)
    ensures
        ({
            let judged = verdict(owners, Some(entry), floor, now_ms);
            let id = named_id(entry.name@);
            let owner = owner_of(owners, id->0);
            &&& verdict(owners, None, floor, now_ms) == Verdict::Unreadable
            &&& judged == Verdict::Unreadable <==> id is None
            &&& id is Some && owner == Some(DownloadState::Completed) ==> judged == Verdict::Remove
            &&& id is Some && owner is Some && owner != Some(DownloadState::Completed) ==> judged
                == Verdict::Keep
            &&& id is Some && owner is None && is_old(entry.modified, floor, now_ms) ==> judged
                == Verdict::Remove
            &&& id is Some && owner is None && !is_old(entry.modified, floor, now_ms) ==> judged
                == Verdict::Keep
        }),
{
}

/// A download's journal goes when the download is verified and named and in no other state, and it
/// is that download's own.
pub proof fn law_only_a_completed_download_gives_up_its_journal(id: Seq<u8>, state: DownloadState)
    requires
        records::is_uuid_v7(id),
    ensures
        retired(id, state) is Some <==> state is Completed,
        retired(id, state) matches Some(name) ==> named_id(name) == Some(id),
{
    law_a_journal_name_names_its_download(id);
}

} // verus!
