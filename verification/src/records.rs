//! The durable record of a download, and the identity that names it on disk.
//!
//! The record is what a later process reconciles against the journal, so it is written once the
//! probe has established what is being fetched, and again when the transfer ends.

use crate::address;
use crate::address::Address;
use crate::digest;
use crate::digest::ContentDigest;
use crate::filename;
use crate::messages;
use crate::messages::{DownloadId, WireState};
use crate::remote;
use crate::remote::{
    NegotiatedProtocol, RangeSupport, RemoteObject, RemoteObjectView, Validator,
};
use crate::text;
use crate::time;
use crate::time::Timestamp;
use vstd::prelude::*;

verus! {

/// The bytes are a UUID of version 7 and of the RFC variant.
pub open spec fn is_uuid_v7(bytes: Seq<u8>) -> bool {
    bytes.len() == 16 && bytes[6] / 16 == 7 && bytes[8] / 64 == 2
}

/// A download's identity as it is stored: sixteen bytes that form a UUIDv7.
#[derive(Clone, Copy, Debug, PartialEq, Eq, PartialOrd, Ord, Hash)]
pub struct StoredId([u8; 16]);

impl View for StoredId {
    type V = Seq<u8>;

    closed spec fn view(&self) -> Seq<u8> {
        self.0@
    }
}

impl StoredId {
    #[verifier::type_invariant]
    spec fn inv(self) -> bool {
        is_uuid_v7(self.0@)
    }

    /// Accept sixteen bytes that form a UUIDv7.
    pub fn try_from_bytes(bytes: [u8; 16]) -> (id: Option<Self>)
        ensures
            id is Some <==> is_uuid_v7(bytes@),
            id matches Some(id) ==> id@ == bytes@,
    {
        if bytes[6] / 16 == 7 && bytes[8] / 64 == 2 {
            Some(StoredId(bytes))
        } else {
            None
        }
    }

    /// The sixteen bytes.
    pub fn as_bytes(&self) -> (bytes: [u8; 16])
        ensures
            bytes@ == self@,
            is_uuid_v7(self@),
    {
        proof {
            use_type_invariant(self);
        }
        self.0
    }

    /// Whether two identities are the same.
    pub fn same_as(&self, other: &StoredId) -> (yes: bool)
        ensures
            yes == (self@ == other@),
    {
        let mut index: usize = 0;
        while index < 16
            invariant
                index <= 16,
                forall|i: int| 0 <= i < index ==> self.0@[i] == #[trigger] other.0@[i],
            decreases 16 - index,
        {
            if self.0[index] != other.0[index] {
                return false;
            }
            index = index + 1;
        }
        proof {
            assert(self.0@ =~= other.0@);
        }
        true
    }
}

/// The wire form of a stored identity.
pub fn wire_id(id: &StoredId) -> (wire: Result<DownloadId, &'static str>)
    ensures
        wire is Ok,
        wire->Ok_0@ == text::hex(id@),
{
    let bytes: [u8; 16] = id.as_bytes();
    let digits: String = text::to_hex(bytes.as_slice());
    proof {
        text::law_hex_round_trips(id@);
    }
    DownloadId::new(digits.as_str())
}

/// The sixteen bytes of a wire identity.
pub open spec fn id_bytes(wire: Seq<char>) -> Seq<u8> {
    text::unhex(wire)->0
}

/// The stored form of a wire identity; nothing where its bytes are no UUIDv7.
pub fn stored_id(id: &DownloadId) -> (stored: Option<StoredId>)
    ensures
        text::unhex(id@) is Some,
        id_bytes(id@).len() == 16,
        stored is Some <==> is_uuid_v7(id_bytes(id@)),
        stored matches Some(stored) ==> stored@ == id_bytes(id@),
{
    let digits: &str = id.as_str();
    proof {
        lemma_hex_reads(id@);
    }
    match text::from_hex(digits) {
        Some(read) => {
            let bytes: [u8; 16] = [
                read[0],
                read[1],
                read[2],
                read[3],
                read[4],
                read[5],
                read[6],
                read[7],
                read[8],
                read[9],
                read[10],
                read[11],
                read[12],
                read[13],
                read[14],
                read[15],
            ];
            proof {
                assert(bytes@ =~= read@);
            }
            StoredId::try_from_bytes(bytes)
        },
        None => None,
    }
}

/// An even number of hexadecimal digits reads as half as many bytes.
proof fn lemma_hex_reads(digits: Seq<char>)
    requires
        text::all_hex(digits),
        digits.len() % 2 == 0,
    ensures
        text::unhex(digits) is Some,
        text::unhex(digits)->0.len() == digits.len() / 2,
    decreases digits.len(),
{
    if digits.len() > 0 {
        let front = digits.take(digits.len() - 2);
        assert forall|i: int| 0 <= i < front.len() implies text::hex_value(
            #[trigger] front[i],
        ) is Some by {
            assert(front[i] == digits[i]);
        }
        lemma_hex_reads(front);
        assert(text::hex_value(digits[digits.len() - 2]) is Some);
        assert(text::hex_value(digits[digits.len() - 1]) is Some);
    }
}

/// The two forms of an identity name the same sixteen bytes.
pub proof fn law_identities_round_trip(bytes: Seq<u8>)
    requires
        bytes.len() == 16,
    ensures
        messages::valid_id(text::hex(bytes)),
        id_bytes(text::hex(bytes)) == bytes,
{
    text::law_hex_round_trips(bytes);
}

/// Lifecycle states that are stored.
#[derive(Clone, Copy, Debug, PartialEq, Eq, Structural)]
pub enum DownloadState {
    /// Accepted and queued.
    Submitted,
    /// Capability probe in flight.
    Probing,
    /// Identity established and transfer planned.
    Planned,
    /// One or more workers active.
    Transferring,
    /// Stopped, and waiting to be resumed.
    Paused,
    /// Waiting under retry back-off.
    Stalled,
    /// Waiting for somebody to supply a URL that still works.
    AwaitingRefresh,
    /// All bytes present and verification running.
    Verifying,
    /// Verified and named.
    Completed,
    /// Failed with evidence retained.
    Failed,
}

/// The wire state that a stored state presents as. The wire has no state for waiting on a URL; it
/// presents as paused, because nothing will happen by itself.
pub open spec fn presented(state: DownloadState) -> WireState {
    match state {
        DownloadState::Submitted => WireState::Submitted,
        DownloadState::Probing => WireState::Probing,
        DownloadState::Planned => WireState::Planned,
        DownloadState::Transferring => WireState::Transferring,
        DownloadState::Paused => WireState::Paused,
        DownloadState::Stalled => WireState::Stalled,
        DownloadState::AwaitingRefresh => WireState::Paused,
        DownloadState::Verifying => WireState::Verifying,
        DownloadState::Completed => WireState::Completed,
        DownloadState::Failed => WireState::Failed,
    }
}

/// The wire state that a stored state presents as.
pub fn wire_state(state: DownloadState) -> (wire: WireState)
    ensures
        wire == presented(state),
{
    match state {
        DownloadState::Submitted => WireState::Submitted,
        DownloadState::Probing => WireState::Probing,
        DownloadState::Planned => WireState::Planned,
        DownloadState::Transferring => WireState::Transferring,
        DownloadState::Paused => WireState::Paused,
        DownloadState::Stalled => WireState::Stalled,
        DownloadState::AwaitingRefresh => WireState::Paused,
        DownloadState::Verifying => WireState::Verifying,
        DownloadState::Completed => WireState::Completed,
        DownloadState::Failed => WireState::Failed,
    }
}

/// What identifies the representation that a download fetches.
#[derive(Debug, PartialEq, Eq)]
pub struct IdentityMetadata {
    /// URL that the next request goes to.
    pub current_url: String,
    /// Where the representation was finally found.
    pub final_url: Option<String>,
    /// Every URL on the way there.
    pub redirect_chain: Vec<String>,
    /// Scheme and authority of the final URL.
    pub origin: String,
    /// What identifies this version.
    pub validator: Validator,
    /// The digest that the server sent.
    pub server_digest: Option<ContentDigest>,
    /// The content type that the server sent.
    pub content_type: Option<String>,
    /// File name that the probe suggested.
    pub suggested_filename: Option<String>,
    /// When the probe ran, in milliseconds since the epoch.
    pub probed_at_ms: u64,
    /// Which protocol carried the probe.
    pub protocol: NegotiatedProtocol,
    /// What is known of range support.
    pub range_support: RangeSupport,
}

/// A download's durable record.
#[derive(Debug, PartialEq, Eq)]
pub struct DownloadMetadata {
    /// Which download this is.
    pub id: StoredId,
    /// Its state.
    pub state: DownloadState,
    /// When the record was created, in milliseconds since the epoch.
    pub created_at_ms: u64,
    /// When the record was last written, in milliseconds since the epoch.
    pub updated_at_ms: u64,
    /// Where the finished file belongs.
    pub target_path: String,
    /// The part file.
    pub part_path: String,
    /// Length of the representation, when known.
    pub total_length: Option<u64>,
    /// Bytes known to be durable.
    pub covered_bytes: u64,
    /// Position in the queue, when queued.
    pub queue_position: Option<u64>,
    /// Priority among queued downloads.
    pub priority: i64,
    /// Stable name of the failure, after one.
    pub error_kind: Option<String>,
    /// Whether space was reserved for the whole representation.
    pub space_reserved: bool,
    /// What identifies the representation.
    pub identity: IdentityMetadata,
}

impl DownloadMetadata {
    /// The record that a probe of a representation makes, for a file that belongs at a path.
    pub open spec fn is_of(self, remote: RemoteObject, final_path: Seq<char>, now_ms: u64) -> bool {
        &&& self.state == DownloadState::Transferring
        &&& self.created_at_ms == now_ms
        &&& self.updated_at_ms == now_ms
        &&& self.target_path@ == final_path
        &&& self.part_path@ == final_path + ".dppart"@
        &&& self.total_length == remote.total_length
        &&& self.covered_bytes == 0
        &&& self.queue_position is None
        &&& self.priority == 0
        &&& self.error_kind is None
        &&& !self.space_reserved
        &&& self.identity.current_url@ == remote.final_url@
        &&& text::owned(self.identity.final_url) == Some(remote.final_url@)
        &&& self.identity.redirect_chain@ == remote.redirect_chain@
        &&& self.identity.origin@ == address::parsed_url(
            remote.final_url@,
        )->0.origin_text()
        &&& self.identity.validator@ == remote.validator@
        &&& digest::viewed(self.identity.server_digest) == digest::viewed(
            remote.digest,
        )
        &&& text::owned(self.identity.content_type) == text::owned(remote.content_type)
        &&& text::owned(self.identity.suggested_filename) == text::owned(
            remote.suggested_filename,
        )
        &&& self.identity.probed_at_ms == now_ms
        &&& self.identity.protocol == remote.protocol
        &&& self.identity.range_support == remote.range_support
    }

    /// The representation that the record identifies.
    pub open spec fn identified(self) -> RemoteObjectView {
        RemoteObjectView {
            final_url: match text::owned(self.identity.final_url) {
                Some(url) => url,
                None => self.identity.current_url@,
            },
            redirect_chain: remote::texts(self.identity.redirect_chain@),
            total_length: self.total_length,
            range_support: self.identity.range_support,
            validator: self.identity.validator@,
            digest: digest::viewed(self.identity.server_digest),
            protocol: self.identity.protocol,
            suggested_filename: filename::component(self.target_path@),
            content_type: text::owned(self.identity.content_type),
            probed_at: Timestamp {
                nanos: (self.identity.probed_at_ms * time::NANOS_PER_MILLI) as u128,
            },
        }
    }

    /// The record that makes a probed download recoverable by a later process.
    ///
    /// It says what an unclean shutdown would find: a transfer in flight with nothing proven yet.
    /// `final_path` is where the finished file belongs. A final URL that does not parse has no
    /// origin, and then there is no record.
    pub fn of_probe(id: StoredId, remote: &RemoteObject, final_path: &str, now_ms: u64) -> (record:
        Option<Self>)
        ensures
            record is Some <==> address::parsed_url(remote.final_url@) is Some,
            record matches Some(record) ==> record.id@ == id@ && record.is_of(
                *remote,
                final_path@,
                now_ms,
            ),
    {
        let address: Address = match Address::parse(remote.final_url.as_str()) {
            Some(address) => address,
            None => {
                return None;
            },
        };
        Some(
            DownloadMetadata {
                id,
                state: DownloadState::Transferring,
                created_at_ms: now_ms,
                updated_at_ms: now_ms,
                target_path: final_path.to_owned(),
                part_path: crate::storage_sink::part_path_of(final_path),
                total_length: remote.total_length,
                covered_bytes: 0,
                queue_position: None,
                priority: 0,
                error_kind: None,
                space_reserved: false,
                identity: IdentityMetadata {
                    current_url: remote.final_url.clone(),
                    final_url: Some(remote.final_url.clone()),
                    redirect_chain: remote::copy_texts(&remote.redirect_chain),
                    origin: address.origin(),
                    validator: remote.validator.clone(),
                    server_digest: digest::copied(&remote.digest),
                    content_type: text::copied(&remote.content_type),
                    suggested_filename: text::copied(&remote.suggested_filename),
                    probed_at_ms: now_ms,
                    protocol: remote.protocol,
                    range_support: remote.range_support,
                },
            },
        )
    }

    /// The representation that the record identifies, as its probe established it. The file goes
    /// by the name that the record keeps for it.
    pub fn remote(&self) -> (remote: RemoteObject)
        ensures
            remote@ == self.identified(),
    {
        let final_url: String = match &self.identity.final_url {
            Some(url) => url.clone(),
            None => self.identity.current_url.clone(),
        };
        let suggested_filename: Option<String> = match filename::component_of(
            self.target_path.as_str(),
        ) {
            Some(name) => Some(name.to_owned()),
            None => None,
        };
        RemoteObject {
            final_url,
            redirect_chain: remote::copy_texts(&self.identity.redirect_chain),
            total_length: self.total_length,
            range_support: self.identity.range_support,
            validator: self.identity.validator.clone(),
            digest: digest::copied(&self.identity.server_digest),
            protocol: self.identity.protocol,
            suggested_filename,
            content_type: text::copied(&self.identity.content_type),
            probed_at: Timestamp {
                nanos: self.identity.probed_at_ms as u128 * time::NANOS_PER_MILLI,
            },
        }
    }

    /// Move the record to the state that a transfer ended in. What was probed is kept.
    pub fn end(&mut self, state: DownloadState, covered: u64, error_kind: Option<&str>, now_ms: u64)
        ensures
            final(self).state == state,
            final(self).covered_bytes == covered,
            text::owned(final(self).error_kind) == text::viewed(error_kind),
            final(self).updated_at_ms == now_ms,
            final(self).id == old(self).id,
            final(self).created_at_ms == old(self).created_at_ms,
            final(self).target_path == old(self).target_path,
            final(self).part_path == old(self).part_path,
            final(self).total_length == old(self).total_length,
            final(self).queue_position == old(self).queue_position,
            final(self).priority == old(self).priority,
            final(self).space_reserved == old(self).space_reserved,
            final(self).identity == old(self).identity,
    {
        self.state = state;
        self.covered_bytes = covered;
        self.updated_at_ms = now_ms;
        self.error_kind = match error_kind {
            Some(kind) => Some(kind.to_owned()),
            None => None,
        };
    }
}

/// A record gives back the representation that was probed, validator, digest and all: a later
/// process compares against what the stored bytes belong to. Only the file's name is that of its
/// path, and the probe's moment is known to the millisecond of the record.
pub proof fn law_a_record_gives_back_its_probe(
    record: DownloadMetadata,
    remote: RemoteObject,
    final_path: Seq<char>,
    now_ms: u64,
)
    requires
        record.is_of(remote, final_path, now_ms),
    ensures
        record.identified() == (RemoteObjectView {
            suggested_filename: filename::component(final_path),
            probed_at: Timestamp { nanos: (now_ms * time::NANOS_PER_MILLI) as u128 },
            ..remote@
        }),
{
}

/// A stored state and the wire state it presents as go by the same name, but for waiting on a URL,
/// which presents as paused; so no other two stored states present alike, and a finished download
/// is never presented as anything else.
pub proof fn law_states_present_as_themselves(state: DownloadState, other: DownloadState)
    ensures
        presented(state) == presented(other) ==> state == other || (presented(state)
            == WireState::Paused && (state is Paused || state is AwaitingRefresh) && (other is Paused
            || other is AwaitingRefresh)),
        presented(state) == WireState::Submitted <==> state is Submitted,
        presented(state) == WireState::Probing <==> state is Probing,
        presented(state) == WireState::Planned <==> state is Planned,
        presented(state) == WireState::Transferring <==> state is Transferring,
        presented(state) == WireState::Paused <==> state is Paused || state is AwaitingRefresh,
        presented(state) == WireState::Stalled <==> state is Stalled,
        presented(state) == WireState::Verifying <==> state is Verifying,
        presented(state) == WireState::Completed <==> state is Completed,
        presented(state) == WireState::Failed <==> state is Failed,
{
}

/// The bytes of an identity are storable exactly if their seventh begins with the digit of version
/// seven and their ninth with the two bits of the variant, whatever the other bytes are.
pub proof fn law_an_identity_is_known_by_two_digits(bytes: Seq<u8>, at: int, value: u8)
    requires
        bytes.len() == 16,
        0 <= at < 16,
    ensures
        is_uuid_v7(bytes) <==> text::hex(bytes)[12] == '7' && (text::hex(bytes)[16] == '8'
            || text::hex(bytes)[16] == '9' || text::hex(bytes)[16] == 'a' || text::hex(bytes)[16]
            == 'b'),
        at != 6 && at != 8 ==> is_uuid_v7(bytes.update(at, value)) == is_uuid_v7(bytes),
{
    text::law_hex_digits_are_the_usual_ones(bytes, 6);
    text::law_hex_digits_are_the_usual_ones(bytes, 8);
    let version = bytes[6] / 16;
    let variant = bytes[8] / 16;
    assert(text::hex(bytes)[12] == text::hex_digit(version));
    assert(text::hex(bytes)[16] == text::hex_digit(variant));
    assert(version < 16 && variant < 16);
    assert(text::hex_digit(version) == '7' <==> version == 7);
    assert(bytes[8] / 64 == 2 <==> 8 <= variant <= 11);
}

/// A record made of a probe starts from nothing: no byte is covered, no failure is known, the
/// transfer counts as in flight, and the part file stands beside the file's own path.
pub proof fn law_a_fresh_record_claims_nothing(
    record: DownloadMetadata,
    remote: RemoteObject,
    final_path: Seq<char>,
    now_ms: u64,
)
    requires
        record.is_of(remote, final_path, now_ms),
    ensures
        record.covered_bytes == 0,
        record.error_kind is None,
        presented(record.state) == WireState::Transferring,
        record.target_path@ == final_path,
        record.part_path@ == final_path + ".dppart"@,
        record.total_length == remote.total_length,
        record.created_at_ms == now_ms && record.updated_at_ms == now_ms,
        record.identified().final_url == remote.final_url@,
        record.identified().validator == remote.validator@,
        record.identified().total_length == remote.total_length,
        record.identified().range_support == remote.range_support,
        record.identified().digest == digest::viewed(remote.digest),
        record.identity.origin@ == address::parsed_url(remote.final_url@)->0.origin_text(),
{
}

} // verus!
