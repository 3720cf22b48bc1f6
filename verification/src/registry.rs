//! What the daemon knows of every download, by identity.

use crate::messages::{DownloadId, WireState};
use crate::text;
use vstd::prelude::*;

verus! {

/// What is known of one download.
#[derive(Debug, PartialEq, Eq)]
pub struct DownloadRecord<T = String> {
    /// Its state.
    pub state: WireState,
    /// Durably covered bytes.
    pub covered: u64,
    /// Length of the representation, when known.
    pub total: Option<u64>,
    /// Stable name of the failure, after one.
    pub error_kind: Option<T>,
}

/// What is known of one download, over sequences of characters.
pub type RecordView = DownloadRecord<Seq<char>>;

impl View for DownloadRecord<String> {
    type V = DownloadRecord<Seq<char>>;

    open spec fn view(&self) -> DownloadRecord<Seq<char>> {
        DownloadRecord {
            state: self.state,
            covered: self.covered,
            total: self.total,
            error_kind: text::owned(self.error_kind),
        }
    }
}

/// The records of a list, by identity.
pub open spec fn by_identity(entries: Seq<(DownloadId, DownloadRecord)>) -> Map<
    Seq<char>,
    RecordView,
>
    decreases entries.len(),
{
    if entries.len() == 0 {
        Map::empty()
    } else {
        by_identity(entries.drop_last()).insert(entries.last().0@, entries.last().1@)
    }
}

/// No identity stands in a list twice.
pub open spec fn distinct(entries: Seq<(DownloadId, DownloadRecord)>) -> bool {
    forall|i: int, j: int|
        0 <= i < j < entries.len() ==> (#[trigger] entries[i]).0@ != (#[trigger] entries[j]).0@
}

proof fn lemma_by_identity(entries: Seq<(DownloadId, DownloadRecord)>)
    requires
        distinct(entries),
    ensures
        forall|i: int|
            0 <= i < entries.len() ==> by_identity(entries).contains_key(
                (#[trigger] entries[i]).0@,
            ) && by_identity(entries)[entries[i].0@] == entries[i].1@,
        forall|id: Seq<char>| #[trigger]
            by_identity(entries).contains_key(id) ==> exists|i: int|
                0 <= i < entries.len() && (#[trigger] entries[i]).0@ == id,
    decreases entries.len(),
{
    if entries.len() > 0 {
        let front = entries.drop_last();
        assert(distinct(front)) by {
            assert forall|i: int, j: int| 0 <= i < j < front.len() implies (
            #[trigger] front[i]).0@ != (#[trigger] front[j]).0@ by {
                assert(front[i] == entries[i] && front[j] == entries[j]);
            }
        }
        lemma_by_identity(front);
        assert forall|i: int| 0 <= i < entries.len() implies by_identity(entries).contains_key(
            (#[trigger] entries[i]).0@,
        ) && by_identity(entries)[entries[i].0@] == entries[i].1@ by {
            if i < front.len() {
                assert(front[i] == entries[i]);
                assert(entries[i].0@ != entries[entries.len() - 1].0@);
            }
        }
        assert forall|id: Seq<char>| #[trigger] by_identity(entries).contains_key(
            id,
        ) implies exists|i: int| 0 <= i < entries.len() && (#[trigger] entries[i]).0@ == id by {
            if id == entries.last().0@ {
                assert(entries[entries.len() - 1].0@ == id);
            } else {
                assert(by_identity(front).contains_key(id));
                let i = choose|i: int| 0 <= i < front.len() && (#[trigger] front[i]).0@ == id;
                assert(entries[i].0@ == id);
            }
        }
    }
}

/// Which states a count takes in.
#[derive(Clone, Copy, Debug, PartialEq, Eq, Structural)]
pub enum Phase {
    /// Work is being done for the download.
    Active,
    /// The download was accepted and waits.
    Queued,
}

impl Phase {
    /// The phase takes in a state.
    pub open spec fn includes(self, state: WireState) -> bool {
        match self {
            Phase::Active => state == WireState::Probing || state == WireState::Planned || state
                == WireState::Transferring || state == WireState::Verifying,
            Phase::Queued => state == WireState::Submitted,
        }
    }

    /// Whether the phase takes in a state.
    pub fn takes_in(self, state: WireState) -> (yes: bool)
        ensures
            yes == self.includes(state),
    {
        match self {
            Phase::Active => match state {
                WireState::Probing => true,
                WireState::Planned => true,
                WireState::Transferring => true,
                WireState::Verifying => true,
                _ => false,
            },
            Phase::Queued => match state {
                WireState::Submitted => true,
                _ => false,
            },
        }
    }
}

/// The identities of the downloads in a phase.
pub open spec fn in_phase(records: Map<Seq<char>, RecordView>, phase: Phase) -> Set<Seq<char>> {
    records.dom().filter(|id: Seq<char>| phase.includes(records[id].state))
}

/// Every download by identity.
#[derive(Debug)]
pub struct Registry {
    entries: Vec<(DownloadId, DownloadRecord)>,
}

impl View for Registry {
    type V = Map<Seq<char>, RecordView>;

    closed spec fn view(&self) -> Map<Seq<char>, RecordView> {
        by_identity(self.entries@)
    }
}

impl Registry {
    #[verifier::type_invariant]
    spec fn inv(self) -> bool {
        distinct(self.entries@)
    }

    /// Nothing is known yet.
    pub fn new() -> (registry: Self)
        ensures
            registry@ == Map::<Seq<char>, RecordView>::empty(),
    {
        Registry { entries: Vec::new() }
    }

    /// Where an identity stands.
    fn position(&self, id: &DownloadId) -> (at: Option<usize>)
        ensures
            match at {
                Some(at) => at < self.entries@.len() && self.entries@[at as int].0@ == id@,
                None => !self@.contains_key(id@),
            },
    {
        proof {
            use_type_invariant(self);
            lemma_by_identity(self.entries@);
        }
        let mut index: usize = 0;
        while index < self.entries.len()
            invariant
                index <= self.entries@.len(),
                forall|i: int| 0 <= i < index ==> (#[trigger] self.entries@[i]).0@ != id@,
            decreases self.entries@.len() - index,
        {
            if self.entries[index].0.same_as(id) {
                return Some(index);
            }
            index = index + 1;
        }
        None
    }

    /// The record of an identity.
    pub fn get(&self, id: &DownloadId) -> (record: Option<&DownloadRecord>)
        ensures
            match record {
                Some(record) => self@.contains_key(id@) && self@[id@] == record@,
                None => !self@.contains_key(id@),
            },
    {
        match self.position(id) {
            Some(at) => {
                proof {
                    use_type_invariant(self);
                    lemma_by_identity(self.entries@);
                }
                Some(&self.entries[at].1)
            },
            None => None,
        }
    }

    /// Put a record in place of the one that an identity had, if any.
    pub fn insert(&mut self, id: DownloadId, record: DownloadRecord)
        ensures
            final(self)@ == old(self)@.insert(id@, record@),
    {
        let at: Option<usize> = self.position(&id);
        proof {
            use_type_invariant(&*self);
            lemma_by_identity(self.entries@);
        }
        let ghost before = self.entries@;
        let mut entries: Vec<(DownloadId, DownloadRecord)> = Vec::new();
        std::mem::swap(&mut entries, &mut self.entries);
        match at {
            Some(at) => {
                proof {
                    let after = before.update(at as int, (id, record));
                    assert(distinct(after)) by {
                        assert forall|i: int, j: int| 0 <= i < j < after.len() implies (
                        #[trigger] after[i]).0@ != (#[trigger] after[j]).0@ by {
                            assert(before[i].0@ != before[j].0@);
                        }
                    }
                    lemma_by_identity(after);
                    lemma_same_records(before, after, at as int);
                }
                entries.set(at, (id, record));
            },
            None => {
                proof {
                    let after = before.push((id, record));
                    assert(distinct(after)) by {
                        assert forall|i: int, j: int| 0 <= i < j < after.len() implies (
                        #[trigger] after[i]).0@ != (#[trigger] after[j]).0@ by {
                            if j == before.len() {
                                assert(by_identity(before).contains_key(before[i].0@));
                            }
                        }
                    }
                    assert(after.drop_last() =~= before);
                }
                entries.push((id, record));
            },
        }
        self.entries = entries;
    }

    /// Change the record of an identity; one that is not known stays unknown.
    pub fn update(&mut self, id: &DownloadId, record: DownloadRecord)
        ensures
            final(self)@ == (if old(self)@.contains_key(id@) {
                old(self)@.insert(id@, record@)
            } else {
                old(self)@
            }),
    {
        if self.get(id).is_some() {
            self.insert(id.clone(), record);
        }
    }

    /// How many downloads are in a phase.
    pub fn count(&self, phase: Phase) -> (count: usize)
        ensures
            in_phase(self@, phase).finite(),
            count == in_phase(self@, phase).len(),
    {
        proof {
            use_type_invariant(self);
            lemma_by_identity(self.entries@);
        }
        let ghost records = self@;
        let ghost mut seen: Set<Seq<char>> = Set::empty();
        let mut count: usize = 0;
        let mut index: usize = 0;
        while index < self.entries.len()
            invariant
                index <= self.entries@.len(),
                distinct(self.entries@),
                records == by_identity(self.entries@),
                count <= index,
                seen.finite(),
                seen.len() == count,
                forall|id: Seq<char>| #[trigger]
                    seen.contains(id) <==> exists|i: int|
                        0 <= i < index && (#[trigger] self.entries@[i]).0@ == id && phase.includes(
                            self.entries@[i].1.state,
                        ),
            decreases self.entries@.len() - index,
        {
            let ghost id = self.entries@[index as int].0@;
            let ghost before = seen;
            proof {
                assert(!seen.contains(id)) by {
                    if seen.contains(id) {
                        let i = choose|i: int|
                            0 <= i < index && (#[trigger] self.entries@[i]).0@ == id
                                && phase.includes(self.entries@[i].1.state);
                        assert(self.entries@[i].0@ != self.entries@[index as int].0@);
                    }
                }
            }
            if phase.takes_in(self.entries[index].1.state) {
                count = count + 1;
                proof {
                    seen = seen.insert(id);
                }
            }
            proof {
                assert forall|other: Seq<char>| #[trigger] seen.contains(other) <==> exists|i: int|
                    0 <= i < index + 1 && (#[trigger] self.entries@[i]).0@ == other
                        && phase.includes(self.entries@[i].1.state) by {
                    if before.contains(other) {
                        let i = choose|i: int|
                            0 <= i < index && (#[trigger] self.entries@[i]).0@ == other
                                && phase.includes(self.entries@[i].1.state);
                        assert(self.entries@[i].0@ == other);
                    }
                }
            }
            index = index + 1;
        }
        proof {
            lemma_by_identity(self.entries@);
            assert forall|id: Seq<char>| #[trigger] seen.contains(id) <==> in_phase(
                records,
                phase,
            ).contains(id) by {
                if seen.contains(id) {
                    let i = choose|i: int|
                        0 <= i < index && (#[trigger] self.entries@[i]).0@ == id && phase.includes(
                            self.entries@[i].1.state,
                        );
                    assert(records[self.entries@[i].0@] == self.entries@[i].1@);
                }
                if in_phase(records, phase).contains(id) {
                    assert(records.contains_key(id));
                    let i = choose|i: int|
                        0 <= i < self.entries@.len() && (#[trigger] self.entries@[i]).0@ == id;
                    assert(records[self.entries@[i].0@] == self.entries@[i].1@);
                }
            }
            assert(seen =~= in_phase(records, phase));
        }
        count
    }
}

/// Changing one record of a list of distinct identities changes just that record.
proof fn lemma_same_records(
    before: Seq<(DownloadId, DownloadRecord)>,
    after: Seq<(DownloadId, DownloadRecord)>,
    at: int,
)
    requires
        distinct(before),
        distinct(after),
        0 <= at < before.len(),
        after == before.update(at, after[at]),
        before[at].0@ == after[at].0@,
    ensures
        by_identity(after) == by_identity(before).insert(after[at].0@, after[at].1@),
{
    lemma_by_identity(before);
    lemma_by_identity(after);
    let expected = by_identity(before).insert(after[at].0@, after[at].1@);
    assert forall|id: Seq<char>| by_identity(after).contains_key(id) <==> expected.contains_key(
        id,
    ) by {
        if by_identity(after).contains_key(id) {
            let i = choose|i: int| 0 <= i < after.len() && (#[trigger] after[i]).0@ == id;
            assert(before[i].0@ == id);
        }
        if expected.contains_key(id) {
            if id == after[at].0@ {
                assert(by_identity(after).contains_key(after[at].0@));
            } else {
                let i = choose|i: int| 0 <= i < before.len() && (#[trigger] before[i]).0@ == id;
                assert(after[i].0@ == id);
            }
        }
    }
    assert forall|id: Seq<char>| by_identity(after).contains_key(id) implies by_identity(after)[id]
        == expected[id] by {
        let i = choose|i: int| 0 <= i < after.len() && (#[trigger] after[i]).0@ == id;
        assert(by_identity(after)[after[i].0@] == after[i].1@);
        if i != at {
            assert(before[i] == after[i]);
            if i < at {
                assert(after[i].0@ != after[at].0@);
            } else {
                assert(after[at].0@ != after[i].0@);
            }
            assert(by_identity(before)[before[i].0@] == before[i].1@);
        }
    }
    assert(by_identity(after) =~= expected);
}

/// Every state is counted at most once. What works is active and what was accepted is queued; what
/// waits for somebody, waits to be retried or is over is neither.
pub proof fn law_a_download_is_counted_once(state: WireState)
    ensures
        !(Phase::Active.includes(state) && Phase::Queued.includes(state)),
        Phase::Queued.includes(state) <==> state == WireState::Submitted,
        !Phase::Active.includes(state) && !Phase::Queued.includes(state) <==> (state
            == WireState::Paused || state == WireState::Stalled || state == WireState::Completed
            || state == WireState::Failed),
{
}

/// A count goes up by one when a download enters the phase, down by one when one leaves it, and
/// stays as it is otherwise.
pub proof fn law_a_count_follows_the_states(
    records: Map<Seq<char>, RecordView>,
    id: Seq<char>,
    record: RecordView,
    phase: Phase,
)
    requires
        in_phase(records, phase).finite(),
    ensures
        ({
            let before = in_phase(records, phase);
            let after = in_phase(records.insert(id, record), phase);
            let was = records.contains_key(id) && phase.includes(records[id].state);
            let stays = phase.includes(record.state);
            &&& after.finite()
            &&& stays && !was ==> after.len() == before.len() + 1
            &&& was && !stays ==> after.len() + 1 == before.len()
            &&& was == stays ==> after.len() == before.len()
            &&& in_phase(Map::<Seq<char>, RecordView>::empty(), phase).len() == 0
        }),
{
    let before = in_phase(records, phase);
    let next = records.insert(id, record);
    let after = in_phase(next, phase);
    if phase.includes(record.state) {
        assert(after =~= before.insert(id));
    } else {
        assert(after =~= before.remove(id));
    }
    assert(in_phase(Map::<Seq<char>, RecordView>::empty(), phase) =~= Set::<Seq<char>>::empty());
}

/// A list of distinct identities holds each one's own record, and no other identity.
pub proof fn law_a_list_holds_its_own_records(
    entries: Seq<(DownloadId, DownloadRecord)>,
    id: Seq<char>,
    at: int,
)
    requires
        distinct(entries),
    ensures
        0 <= at < entries.len() ==> by_identity(entries).contains_key(entries[at].0@)
            && by_identity(entries)[entries[at].0@] == entries[at].1@,
        (forall|i: int| 0 <= i < entries.len() ==> (#[trigger] entries[i]).0@ != id)
            ==> !by_identity(entries).contains_key(id),
{
    lemma_by_identity(entries);
}

} // verus!
