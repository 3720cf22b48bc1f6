//! The digest that a server sends along with a representation, and what agrees with it.

use crate::text;
use base64::Engine;
use vstd::prelude::*;
use vstd::string::StrSliceExecFns;

verus! {

/// How many bytes the longest hash has.
pub const MAX_HASH_BYTES: usize = 64;

/// A hash function that a digest field can name.
#[derive(Clone, Copy, Debug, PartialEq, Eq, Structural)]
pub enum DigestAlgorithm {
    /// SHA-256.
    Sha256,
    /// SHA-512.
    Sha512,
}

/// One digest of a representation.
#[derive(Debug, PartialEq, Eq)]
pub struct ContentDigest<T = String> {
    /// Which hash function made it.
    pub algorithm: DigestAlgorithm,
    /// The hash, in base 64.
    pub encoded: T,
}

impl View for ContentDigest<String> {
    type V = ContentDigest<Seq<char>>;

    open spec fn view(&self) -> ContentDigest<Seq<char>> {
        ContentDigest { algorithm: self.algorithm, encoded: self.encoded@ }
    }
}

impl Clone for ContentDigest<String> {
    /// Copies the digest.
    fn clone(&self) -> (copy: Self)
        ensures
            copy@ == self@,
    {
        ContentDigest { algorithm: self.algorithm, encoded: self.encoded.clone() }
    }
}

/// A digest that may be absent, over sequences of characters.
pub open spec fn viewed(digest: Option<ContentDigest>) -> Option<ContentDigest<Seq<char>>> {
    match digest {
        Some(digest) => Some(digest@),
        None => None,
    }
}

/// Copies a digest that may be absent.
pub fn copied(digest: &Option<ContentDigest>) -> (copy: Option<ContentDigest>)
    ensures
        viewed(copy) == viewed(*digest),
{
    match digest {
        Some(digest) => Some(digest.clone()),
        None => None,
    }
}

/// The character occurs in base 64.
pub open spec fn is_base64(c: char) -> bool {
    ('A' <= c <= 'Z') || ('a' <= c <= 'z') || ('0' <= c <= '9') || c == '+' || c == '/' || c == '='
}

/// The hash function that a member of a digest field names. Case makes no difference.
pub open spec fn algorithm_named(name: Seq<char>) -> Option<DigestAlgorithm> {
    if text::same_folded(name, "sha-256"@) {
        Some(DigestAlgorithm::Sha256)
    } else if text::same_folded(name, "sha-512"@) {
        Some(DigestAlgorithm::Sha512)
    } else {
        None
    }
}

/// The digest that one member of a field gives: a known hash function, an equals sign, and base 64
/// between colons.
pub open spec fn member_digest(member: Seq<char>) -> Option<ContentDigest<Seq<char>>> {
    let at = text::place_of(member, '=', 0);
    if at >= member.len() {
        None
    } else {
        let value = member.subrange(at + 1, member.len() as int);
        match algorithm_named(member.subrange(0, at)) {
            Some(algorithm) if value.len() > 2 && value[0] == ':' && value.last() == ':' && (forall|
                i: int,
            |
                1 <= i < value.len() - 1 ==> is_base64(#[trigger] value[i])) => Some(
                ContentDigest { algorithm, encoded: value.subrange(1, value.len() - 1) },
            ),
            _ => None,
        }
    }
}

/// The first digest that the members of a field, from a place on, give.
pub open spec fn field_digest(field: Seq<char>, from: int) -> Option<ContentDigest<Seq<char>>>
    decreases field.len() - from,
{
    if from < 0 || from > field.len() {
        None
    } else {
        let end = text::place_of(field, ',', from);
        match member_digest(text::trimmed(field.subrange(from, end))) {
            Some(digest) => Some(digest),
            None => if from <= end < field.len() {
                field_digest(field, end + 1)
            } else {
                None
            },
        }
    }
}

fn base64_digit(c: char) -> (yes: bool)
    ensures
        yes == is_base64(c),
{
    ('A' <= c && c <= 'Z') || ('a' <= c && c <= 'z') || ('0' <= c && c <= '9') || c == '+' || c
        == '/' || c == '='
}

fn algorithm_of(name: &str) -> (algorithm: Option<DigestAlgorithm>)
    ensures
        algorithm == algorithm_named(name@),
{
    if text::same_ignoring_case(name, "sha-256") {
        Some(DigestAlgorithm::Sha256)
    } else if text::same_ignoring_case(name, "sha-512") {
        Some(DigestAlgorithm::Sha512)
    } else {
        None
    }
}

fn digest_of_member(member: &str) -> (digest: Option<ContentDigest>)
    ensures
        viewed(digest) == member_digest(member@),
{
    let length: usize = member.unicode_len();
    let at: usize = text::find(member, '=', 0);
    if at == length {
        return None;
    }
    let algorithm: DigestAlgorithm = match algorithm_of(member.substring_char(0, at)) {
        Some(algorithm) => algorithm,
        None => {
            return None;
        },
    };
    let value = member.substring_char(at + 1, length);
    let count: usize = value.unicode_len();
    if count <= 2 || value.get_char(0) != ':' || value.get_char(count - 1) != ':' {
        return None;
    }
    let mut index: usize = 1;
    while index < count - 1
        invariant
            value@ == member@.subrange(at + 1, member@.len() as int),
            at == text::place_of(member@, '=', 0),
            count == value@.len(),
            2 < count,
            1 <= index <= count - 1,
            forall|i: int| 1 <= i < index ==> is_base64(#[trigger] value@[i]),
        decreases count - index,
    {
        if !base64_digit(value.get_char(index)) {
            proof {
                let meant = member@.subrange(at + 1, member@.len() as int);
                assert(!is_base64(meant[index as int]));
            }
            return None;
        }
        index = index + 1;
    }
    Some(ContentDigest { algorithm, encoded: value.substring_char(1, count - 1).to_owned() })
}

/// What `base64`'s standard engine writes for bytes.
pub uninterp spec fn base64_text(bytes: Seq<u8>) -> Seq<char>;

/// Calls `encode` of `base64`'s standard engine, with padding. How bytes are written in base 64 is
/// left to the crate.
#[verifier::external_body]
fn to_base64(bytes: &[u8]) -> (text: String)
    requires
        bytes@.len() <= MAX_HASH_BYTES,
    ensures
        text@ == base64_text(bytes@),
{
    base64::engine::general_purpose::STANDARD.encode(bytes)
}

impl ContentDigest<String> {
    /// The first digest in a field that names a hash function known here, if there is one.
    pub fn parse(field: &str) -> (digest: Option<Self>)
        ensures
            viewed(digest) == field_digest(field@, 0),
    {
        let length: usize = field.unicode_len();
        let mut from: usize = 0;
        loop
            invariant
                length == field@.len(),
                from <= length,
                field_digest(field@, 0) == field_digest(field@, from as int),
            decreases length - from,
        {
            let end: usize = text::find(field, ',', from);
            let found = digest_of_member(text::trim(field.substring_char(from, end)));
            if found.is_some() {
                return found;
            }
            if end == length {
                return None;
            }
            from = end + 1;
        }
    }

    /// Whether a hash in base 64 is the one that the digest states.
    pub fn states(&self, encoded: &str) -> (yes: bool)
        ensures
            yes == (encoded@ == self@.encoded),
    {
        text::same(encoded, self.encoded.as_str())
    }

    /// Whether stored bytes with this hash, made by the digest's own hash function, are what the
    /// server meant to send. What is longer than any hash agrees with nothing.
    pub fn agrees(&self, hash: &[u8]) -> (yes: bool)
        ensures
            yes == (hash@.len() <= MAX_HASH_BYTES && base64_text(hash@) == self@.encoded),
    {
        hash.len() <= MAX_HASH_BYTES && self.states(to_base64(hash).as_str())
    }
}

/// Base 64 is written with letters, digits, a plus, a slash, and equals signs as padding.
pub proof fn law_base64_has_its_usual_characters(c: char)
    ensures
        is_base64(c) <==> (0x41 <= c as int <= 0x5a) || (0x61 <= c as int <= 0x7a) || (0x30
            <= c as int <= 0x39) || c as int == 0x2b || c as int == 0x2f || c as int == 0x3d,
{
}

/// A digest that a server writes is read: the name of a known hash function in any case, an equals
/// sign, and base 64 between colons. Whatever is read is base 64 and not empty.
pub proof fn law_a_written_digest_is_read(name: Seq<char>, encoded: Seq<char>, field: Seq<char>)
    ensures
        (text::same_folded(name, "sha-256"@) || text::same_folded(name, "sha-512"@))
            && encoded.len() > 0 && (forall|i: int|
            0 <= i < encoded.len() ==> is_base64(#[trigger] encoded[i])) ==> field_digest(
            name + "=:"@ + encoded + ":"@,
            0,
        ) == Some(
            ContentDigest {
                algorithm: if text::same_folded(name, "sha-256"@) {
                    DigestAlgorithm::Sha256
                } else {
                    DigestAlgorithm::Sha512
                },
                encoded,
            },
        ),
        member_digest(field) matches Some(digest) ==> digest.encoded.len() > 0 && forall|i: int|
            0 <= i < digest.encoded.len() ==> is_base64(#[trigger] digest.encoded[i]),
        algorithm_named(name) is Some <==> text::same_folded(name, "sha-256"@) || text::same_folded(
            name,
            "sha-512"@,
        ),
{
    reveal_strlit("sha-256");
    reveal_strlit("sha-512");
    reveal_strlit("=:");
    reveal_strlit(":");
    assert("sha-256"@.len() == 7 && "sha-512"@.len() == 7 && "=:"@.len() == 2 && ":"@.len() == 1);
    if (text::same_folded(name, "sha-256"@) || text::same_folded(name, "sha-512"@)) && encoded.len()
        > 0 && (forall|i: int| 0 <= i < encoded.len() ==> is_base64(#[trigger] encoded[i])) {
        let whole = name + "=:"@ + encoded + ":"@;
        let known = if text::same_folded(name, "sha-256"@) {
            "sha-256"@
        } else {
            "sha-512"@
        };
        assert(text::same_folded(name, known));
        assert(name.len() == 7);
        assert(whole.len() == 10 + encoded.len());
        assert forall|i: int| 0 <= i < 7 implies #[trigger] whole[i] != '=' && whole[i] != ',' by {
            assert(whole[i] == name[i]);
            assert(text::folded(name[i]) == text::folded(known[i]));
        }
        assert(whole[7] == '=' && whole[8] == ':');
        assert forall|i: int| 9 <= i < 9 + encoded.len() implies #[trigger] whole[i] == encoded[i
            - 9] && whole[i] != ',' by {
            assert(is_base64(encoded[i - 9]));
        }
        let last = 9 + encoded.len() as int;
        assert(whole[last] == ':');
        assert forall|i: int| 0 <= i < whole.len() implies #[trigger] whole[i] != ',' by {
            if i >= 9 && i < last {
                assert(whole[i] == encoded[i - 9]);
            }
        }
        text::lemma_known_place(whole, '=', 0, 7);
        text::lemma_known_place(whole, ',', 0, whole.len() as int);
        assert(whole.subrange(0, whole.len() as int) =~= whole);
        assert(!text::is_white(whole[0])) by {
            assert(text::folded(name[0]) == text::folded(known[0]));
            assert(whole[0] == name[0]);
        }
        assert(!text::is_white(whole.last()));
        text::lemma_bare_ends(whole);
        assert(whole.subrange(0, 7) =~= name);
        let value = whole.subrange(8, whole.len() as int);
        assert(value.len() == encoded.len() + 2);
        assert(value[0] == ':' && value.last() == ':');
        assert forall|i: int| 1 <= i < value.len() - 1 implies is_base64(#[trigger] value[i]) by {
            assert(value[i] == whole[i + 8]);
            assert(value[i] == encoded[i - 1]);
        }
        assert(value.subrange(1, value.len() - 1) =~= encoded);
    }
    if let Some(digest) = member_digest(field) {
        let at = text::place_of(field, '=', 0);
        let value = field.subrange(at + 1, field.len() as int);
        assert forall|i: int| 0 <= i < digest.encoded.len() implies is_base64(
            #[trigger] digest.encoded[i],
        ) by {
            assert(digest.encoded[i] == value[i + 1]);
        }
    }
}

/// A member that states no digest known here is passed over for the next.
pub proof fn law_an_unknown_member_is_passed_over(member: Seq<char>, rest: Seq<char>)
    requires
        forall|i: int| 0 <= i < member.len() ==> #[trigger] member[i] != ',',
    ensures
        ({
            let field = member + seq![','] + rest;
            &&& member_digest(text::trimmed(member)) is None ==> field_digest(field, 0)
                == field_digest(field, member.len() as int + 1)
            &&& member_digest(text::trimmed(member)) is Some ==> field_digest(field, 0)
                == member_digest(text::trimmed(member))
        }),
{
    let field = member + seq![','] + rest;
    assert(field[member.len() as int] == ',');
    assert forall|i: int| 0 <= i < member.len() implies #[trigger] field[i] != ',' by {
        assert(field[i] == member[i]);
    }
    text::lemma_known_place(field, ',', 0, member.len() as int);
    assert(field.subrange(0, member.len() as int) =~= member);
}

} // verus!
