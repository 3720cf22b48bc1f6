//! Reconciling every unclean download when the daemon starts.
//!
//! Nothing here starts a transfer: recovery establishes what is true and stops. One download that
//! cannot be reconciled is counted, and does not stop the others.

use crate::allocator::SegmentAllocator;
use crate::records::{DownloadMetadata, DownloadState, StoredId};
use crate::scheduler;
use crate::text;
use std::ops::Range;
use vstd::prelude::*;

verus! {

/// A stored download, as far as recovery looks at it.
#[derive(Debug)]
pub struct StoredDownload {
    /// Which download this is.
    pub id: StoredId,
    /// Its stored state.
    pub state: DownloadState,
}

/// Something may have been in flight: the state is not a final one.
pub open spec fn unclean(state: DownloadState) -> bool {
    state != DownloadState::Completed && state != DownloadState::Failed
}

/// Whether a download must be reconciled after an unclean shutdown.
pub fn is_unclean(state: DownloadState) -> (yes: bool)
    ensures
        yes == unclean(state),
{
    match state {
        DownloadState::Completed => false,
        DownloadState::Failed => false,
        _ => true,
    }
}

/// The identities that must be reconciled, in store order.
pub open spec fn to_reconcile(all: Seq<StoredDownload>) -> Seq<StoredId>
    decreases all.len(),
{
    if all.len() == 0 {
        Seq::empty()
    } else if unclean(all.last().state) {
        to_reconcile(all.drop_last()).push(all.last().id)
    } else {
        to_reconcile(all.drop_last())
    }
}

/// Choose the downloads to reconcile, in store order.
pub fn plan_recovery(all: &Vec<StoredDownload>) -> (ids: Vec<StoredId>)
    ensures
        ids@ == to_reconcile(all@),
{
    let mut ids: Vec<StoredId> = Vec::new();
    let mut index: usize = 0;
    proof {
        assert(all@.take(0) =~= Seq::<StoredDownload>::empty());
    }
    while index < all.len()
        invariant
            index <= all@.len(),
            ids@ == to_reconcile(all@.take(index as int)),
        decreases all@.len() - index,
    {
        proof {
            assert(all@.take(index + 1).drop_last() =~= all@.take(index as int));
        }
        if is_unclean(all[index].state) {
            ids.push(all[index].id);
        }
        index = index + 1;
    }
    proof {
        assert(all@.take(all@.len() as int) =~= all@);
    }
    ids
}

/// Stable name of the failure of a download whose part file is gone.
pub const PART_FILE_MISSING: &'static str = "storage.part-file-missing";

/// Bring one record in line with what is on disk: `durable` is the partition that the journal
/// proves, if the part file is still there to hold it.
///
/// The coverage comes from the journal, not from what the record last said. Nothing is resumed: a
/// usable download waits to be asked, and one without its bytes is kept and marked.
pub fn reconcile_download(
    record: &mut DownloadMetadata,
    durable: Option<&SegmentAllocator>,
    now_ms: u64,
) -> (state: DownloadState)
    requires
        durable matches Some(durable) ==> durable.wf(),
    ensures
        final(record).state == state,
        match durable {
            Some(durable) => {
                &&& state == DownloadState::Paused
                &&& final(record).covered_bytes == scheduler::complete_within(
                    durable.map()@,
                    0,
                    durable.map().length() as int,
                )
                &&& final(record).error_kind is None
            },
            None => {
                &&& state == DownloadState::Failed
                &&& final(record).covered_bytes == 0
                &&& text::owned(final(record).error_kind) == Some(PART_FILE_MISSING@)
            },
        },
        final(record).updated_at_ms == now_ms,
        final(record).id == old(record).id,
        final(record).created_at_ms == old(record).created_at_ms,
        final(record).target_path == old(record).target_path,
        final(record).part_path == old(record).part_path,
        final(record).total_length == old(record).total_length,
        final(record).queue_position == old(record).queue_position,
        final(record).priority == old(record).priority,
        final(record).space_reserved == old(record).space_reserved,
        final(record).identity == old(record).identity,
{
    match durable {
        Some(durable) => {
            let whole: Range<u64> = Range { start: 0, end: durable.total_length() };
            let covered: u64 = scheduler::completed_bytes_inside(durable, &whole);
            record.end(DownloadState::Paused, covered, None, now_ms);
            DownloadState::Paused
        },
        None => {
            record.end(DownloadState::Failed, 0, Some(PART_FILE_MISSING), now_ms);
            DownloadState::Failed
        },
    }
}

/// What happened to one download during startup recovery.
#[derive(Debug)]
pub struct RecoveredDownload {
    id: StoredId,
    outcome: Result<DownloadState, String>,
}

impl RecoveredDownload {
    /// Which download this was.
    pub closed spec fn which(&self) -> StoredId {
        self.id
    }

    /// The state it was reconciled to, or why it could not be.
    pub closed spec fn result(&self) -> Result<DownloadState, String> {
        self.outcome
    }

    /// The download is usable after recovery.
    pub open spec fn usable(&self) -> bool {
        self.result() == Ok::<DownloadState, String>(DownloadState::Paused)
    }

    /// Take note of a reconciliation.
    pub fn new(id: StoredId, outcome: Result<DownloadState, String>) -> (recovered: Self)
        ensures
            recovered.which() == id,
            recovered.result() == outcome,
    {
        RecoveredDownload { id, outcome }
    }

    /// Which download this was.
    pub fn id(&self) -> (id: StoredId)
        ensures
            id == self.which(),
    {
        self.id
    }

    /// The state it was reconciled to, or why it could not be.
    pub fn outcome(&self) -> (outcome: &Result<DownloadState, String>)
        ensures
            *outcome == self.result(),
    {
        &self.outcome
    }

    /// Whether this download is usable after recovery.
    pub fn is_recovered(&self) -> (yes: bool)
        ensures
            yes == self.usable(),
    {
        match self.outcome {
            Ok(DownloadState::Paused) => true,
            _ => false,
        }
    }
}

/// How many downloads are usable after recovery.
pub open spec fn usable_count(downloads: Seq<RecoveredDownload>) -> nat
    decreases downloads.len(),
{
    if downloads.len() == 0 {
        0
    } else {
        usable_count(downloads.drop_last()) + if downloads.last().usable() {
            1nat
        } else {
            0
        }
    }
}

proof fn lemma_usable_count(downloads: Seq<RecoveredDownload>)
    ensures
        usable_count(downloads) <= downloads.len(),
    decreases downloads.len(),
{
    if downloads.len() > 0 {
        lemma_usable_count(downloads.drop_last());
    }
}

/// What one startup pass established.
#[derive(Debug)]
pub struct RecoverySummary {
    downloads: Vec<RecoveredDownload>,
    skipped: usize,
}

impl RecoverySummary {
    /// Every download that was reconciled or attempted, in store order.
    pub closed spec fn attempted(&self) -> Seq<RecoveredDownload> {
        self.downloads@
    }

    /// How many downloads were left alone.
    pub closed spec fn left_alone(&self) -> usize {
        self.skipped
    }

    /// Every download that was reconciled or attempted, in store order.
    pub fn downloads(&self) -> (downloads: &[RecoveredDownload])
        ensures
            downloads@ == self.attempted(),
    {
        self.downloads.as_slice()
    }

    /// Downloads in a final state, which recovery does not touch.
    pub fn skipped(&self) -> (count: usize)
        ensures
            count == self.left_alone(),
    {
        self.skipped
    }

    /// How many came back usable and paused.
    pub fn recovered(&self) -> (count: usize)
        ensures
            count == usable_count(self.attempted()),
    {
        let mut count: usize = 0;
        let mut index: usize = 0;
        proof {
            assert(self.downloads@.take(0) =~= Seq::<RecoveredDownload>::empty());
        }
        while index < self.downloads.len()
            invariant
                index <= self.downloads@.len(),
                count <= index,
                count == usable_count(self.downloads@.take(index as int)),
            decreases self.downloads@.len() - index,
        {
            proof {
                assert(self.downloads@.take(index + 1).drop_last() =~= self.downloads@.take(
                    index as int,
                ));
            }
            if self.downloads[index].is_recovered() {
                count = count + 1;
            }
            index = index + 1;
        }
        proof {
            assert(self.downloads@.take(self.downloads@.len() as int) =~= self.downloads@);
        }
        count
    }

    /// How many could not be made usable and were left for the user to decide about.
    pub fn failed(&self) -> (count: usize)
        ensures
            count == self.attempted().len() - usable_count(self.attempted()),
    {
        proof {
            lemma_usable_count(self.downloads@);
        }
        self.downloads.len() - self.recovered()
    }
}

/// Sum up a pass over the store: `outcomes` are those of the planned downloads, in order. A pass
/// that did not try each of them is none.
pub fn recover_all(all: &Vec<StoredDownload>, outcomes: Vec<Result<DownloadState, String>>) -> (
    summary: Option<RecoverySummary>)
    ensures
        summary is Some <==> outcomes@.len() == to_reconcile(all@).len(),
        summary matches Some(summary) ==> {
            &&& summary.attempted().len() == outcomes@.len()
            &&& forall|i: int|
                0 <= i < outcomes@.len() ==> (#[trigger] summary.attempted()[i]).which()
                    == to_reconcile(all@)[i] && summary.attempted()[i].result() == outcomes@[i]
            &&& summary.left_alone() == all@.len() - outcomes@.len()
        },
{
    let ids: Vec<StoredId> = plan_recovery(all);
    proof {
        lemma_fewer_than_all(all@);
    }
    if ids.len() != outcomes.len() {
        return None;
    }
    let skipped: usize = all.len() - ids.len();
    let ghost given = outcomes@;
    let mut outcomes = outcomes;
    let mut downloads: Vec<RecoveredDownload> = Vec::new();
    let mut index: usize = 0;
    while index < ids.len()
        invariant
            index <= ids@.len(),
            given.len() == ids@.len(),
            outcomes@ == given.skip(index as int),
            downloads@.len() == index,
            forall|i: int|
                0 <= i < index ==> (#[trigger] downloads@[i]).which() == ids@[i]
                    && downloads@[i].result() == given[i],
        decreases ids@.len() - index,
    {
        let outcome: Result<DownloadState, String> = outcomes.remove(0);
        proof {
            assert(given.skip(index as int).remove(0) =~= given.skip(index + 1));
        }
        downloads.push(RecoveredDownload::new(ids[index], outcome));
        index = index + 1;
    }
    Some(RecoverySummary { downloads, skipped })
}

proof fn lemma_fewer_than_all(all: Seq<StoredDownload>)
    ensures
        to_reconcile(all).len() <= all.len(),
    decreases all.len(),
{
    if all.len() > 0 {
        lemma_fewer_than_all(all.drop_last());
    }
}

/// A download is reconciled if and only if it is not in a final state.
pub proof fn law_only_unclean_downloads_are_reconciled(all: Seq<StoredDownload>, id: StoredId)
    ensures
        to_reconcile(all).contains(id) <==> exists|i: int|
            0 <= i < all.len() && (#[trigger] all[i]).id == id && unclean(all[i].state),
    decreases all.len(),
{
    if all.len() > 0 {
        let front = all.drop_last();
        law_only_unclean_downloads_are_reconciled(front, id);
        let chosen = to_reconcile(all);
        let before = to_reconcile(front);
        let last = all.len() - 1;
        if chosen.contains(id) {
            let k = choose|k: int| 0 <= k < chosen.len() && chosen[k] == id;
            if k < before.len() {
                assert(before[k] == id);
                assert(before.contains(id));
                let i = choose|i: int|
                    0 <= i < front.len() && (#[trigger] front[i]).id == id && unclean(
                        front[i].state,
                    );
                assert(all[i] == front[i]);
            } else {
                assert(all[last].id == id);
            }
        }
        if exists|i: int|
            0 <= i < all.len() && (#[trigger] all[i]).id == id && unclean(all[i].state) {
            let i = choose|i: int|
                0 <= i < all.len() && (#[trigger] all[i]).id == id && unclean(all[i].state);
            if i < last {
                assert(front[i] == all[i]);
                assert(before.contains(id));
                let k = choose|k: int| 0 <= k < before.len() && before[k] == id;
                assert(chosen[k] == id);
            } else {
                assert(chosen[chosen.len() - 1] == id);
            }
        }
    }
}

/// A download is left alone exactly if it is over; every other state, even one that only waits, is
/// reconciled.
pub proof fn law_whatever_is_not_over_is_reconciled(state: DownloadState)
    ensures
        unclean(state) <==> (state is Submitted || state is Probing || state is Planned
            || state is Transferring || state is Paused || state is Stalled || state is AwaitingRefresh
            || state is Verifying),
{
}

/// What comes earlier in the store is reconciled earlier, and a download that stands there once is
/// reconciled once.
pub proof fn law_reconciling_keeps_the_order(front: Seq<StoredDownload>, back: Seq<StoredDownload>)
    ensures
        to_reconcile(front + back) == to_reconcile(front) + to_reconcile(back),
        front.len() == 1 ==> to_reconcile(front) == (if unclean(front[0].state) {
            seq![front[0].id]
        } else {
            Seq::<StoredId>::empty()
        }),
    decreases back.len(),
{
    reveal_with_fuel(to_reconcile, 2);
    if back.len() == 0 {
        assert(front + back =~= front);
        assert(to_reconcile(front) + to_reconcile(back) =~= to_reconcile(front));
    } else {
        law_reconciling_keeps_the_order(front, back.drop_last());
        assert((front + back).drop_last() =~= front + back.drop_last());
        assert((front + back).last() == back.last());
        assert(to_reconcile(front + back) =~= to_reconcile(front) + to_reconcile(back));
    }
    if front.len() == 1 {
        assert(front.drop_last() =~= Seq::<StoredDownload>::empty());
        assert(to_reconcile(front) =~= (if unclean(front[0].state) {
            seq![front[0].id]
        } else {
            Seq::<StoredId>::empty()
        }));
    }
}

/// A download came back exactly if it was reconciled to a pause; every one that did counts once, and
/// one that did not, or could not be reconciled, counts for nothing.
pub proof fn law_only_paused_downloads_came_back(
    front: Seq<RecoveredDownload>,
    back: Seq<RecoveredDownload>,
)
    ensures
        usable_count(front + back) == usable_count(front) + usable_count(back),
        front.len() == 1 ==> usable_count(front) == (if front[0].result() == Ok::<
            DownloadState,
            String,
        >(DownloadState::Paused) {
            1nat
        } else {
            0nat
        }),
    decreases back.len(),
{
    reveal_with_fuel(usable_count, 2);
    if back.len() == 0 {
        assert(front + back =~= front);
    } else {
        law_only_paused_downloads_came_back(front, back.drop_last());
        assert((front + back).drop_last() =~= front + back.drop_last());
        assert((front + back).last() == back.last());
    }
    if front.len() == 1 {
        assert(front.drop_last() =~= Seq::<RecoveredDownload>::empty());
    }
}

} // verus!
