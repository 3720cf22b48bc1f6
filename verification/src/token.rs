//! Per-daemon session token.

use crate::messages::SecretString;
use crate::text;
use vstd::prelude::*;

verus! {

/// How many characters a token has on the wire.
pub const TOKEN_WIRE_LENGTH: usize = 64;

/// Token generation failure.
#[derive(Clone, Copy, Debug, PartialEq, Eq, Structural)]
pub enum TokenError {
    /// The operating system's random source refused.
    Unavailable,
}

/// A 256-bit per-daemon secret. It has no formatting but [`SessionToken::rendered`] and
/// [`SessionToken::rendered_debug`], which never reveal it.
#[derive(PartialEq, Eq)]
pub struct SessionToken([u8; 32]);

impl View for SessionToken {
    type V = Seq<u8>;

    closed spec fn view(&self) -> Seq<u8> {
        self.0@
    }
}

impl Clone for SessionToken {
    /// Copies the token.
    fn clone(&self) -> (copy: Self)
        ensures
            copy@ == self@,
    {
        SessionToken(self.0)
    }
}

/// Calls `getrandom::getrandom` for 32 bytes of the operating system's random source. Nothing is
/// promised of the bytes.
#[verifier::external_body]
fn random_bytes() -> (bytes: Option<[u8; 32]>) {
    let mut bytes = [0u8; 32];
    getrandom::getrandom(&mut bytes).ok()?;
    Some(bytes)
}

/// What comes of a random source's answer: its bytes, or the refusal.
pub open spec fn drawn(answer: Option<[u8; 32]>) -> Result<Seq<u8>, TokenError> {
    match answer {
        Some(bytes) => Ok(bytes@),
        None => Err(TokenError::Unavailable),
    }
}

/// The bytes of a token that was generated, or the refusal.
pub open spec fn token_view(token: Result<SessionToken, TokenError>) -> Result<
    Seq<u8>,
    TokenError,
> {
    match token {
        Ok(token) => Ok(token@),
        Err(error) => Err(error),
    }
}

impl SessionToken {
    /// A token of given bytes.
    pub fn from_bytes(bytes: [u8; 32]) -> (token: Self)
        ensures
            token@ == bytes@,
    {
        SessionToken(bytes)
    }

    /// Generate a fresh token from the operating system's random source. Which token it is, and
    /// whether the source answers, is up to the system.
    pub fn generate() -> (token: Result<Self, TokenError>)
        ensures
            exists|answer: Option<[u8; 32]>| token_view(token) == #[trigger] drawn(answer),
            token matches Ok(token) ==> token@.len() == 32,
    {
        SessionToken::from_random(random_bytes())
    }

    /// The token of the bytes that a random source gave.
    pub fn from_random(bytes: Option<[u8; 32]>) -> (token: Result<Self, TokenError>)
        ensures
            token_view(token) == drawn(bytes),
    {
        match bytes {
            Some(bytes) => Ok(SessionToken(bytes)),
            None => Err(TokenError::Unavailable),
        }
    }

    /// The bytes of the token.
    pub fn bytes(&self) -> (bytes: &[u8; 32])
        ensures
            bytes@ == self@,
    {
        &self.0
    }

    /// The token as it travels: two lowercase hexadecimal digits for every byte.
    pub fn to_wire(&self) -> (wire: SecretString)
        ensures
            wire@ == text::hex(self@),
    {
        SecretString::new(text::to_hex(self.0.as_slice()))
    }

    /// Whether a wire text is this token. Only the lowercase form is. Every character is looked
    /// at, so that a wrong text of the right length is refused no sooner for an early difference.
    pub fn matches_wire(&self, candidate: &str) -> (yes: bool)
        ensures
            yes == (candidate@ == text::hex(self@)),
    {
        let expected: String = text::to_hex(self.0.as_slice());
        let length: usize = candidate.unicode_len();
        if length != expected.as_str().unicode_len() {
            return false;
        }
        let mut differences: usize = 0;
        let mut index: usize = 0;
        while index < length
            invariant
                length == candidate@.len(),
                length == expected@.len(),
                index <= length,
                differences <= index,
                differences == 0 <==> forall|i: int|
                    0 <= i < index ==> candidate@[i] == #[trigger] expected@[i],
            decreases length - index,
        {
            let different: usize = if candidate.get_char(index) != expected.as_str().get_char(
                index,
            ) {
                1
            } else {
                0
            };
            differences = differences + different;
            index = index + 1;
        }
        proof {
            if differences == 0 {
                assert(candidate@ =~= expected@);
            }
        }
        differences == 0
    }

    /// What stands for the token in formatting.
    pub fn rendered(&self) -> (text: String)
        ensures
            text@ == "[redacted]"@,
    {
        "[redacted]".to_owned()
    }

    /// What stands for the token in diagnostic formatting.
    pub fn rendered_debug(&self) -> (text: String)
        ensures
            text@ == "SessionToken([redacted])"@,
    {
        "SessionToken([redacted])".to_owned()
    }
}

/// Answers of the random source that differ give tokens that differ, and neither matches what the
/// other sends: whoever holds one token is not let in under another. That two answers differ is
/// up to the source.
pub proof fn law_different_answers_give_different_tokens(one: [u8; 32], other: [u8; 32])
    requires
        one@ != other@,
    ensures
        drawn(Some(one)) is Ok,
        drawn(Some(other)) is Ok,
        drawn(Some(one))->Ok_0 != drawn(Some(other))->Ok_0,
        text::hex(drawn(Some(one))->Ok_0) != text::hex(drawn(Some(other))->Ok_0),
{
    law_a_token_matches_its_own_wire_text_alone(one@, other@);
}

/// A token is matched by its own wire text and by no other token's.
pub proof fn law_a_token_matches_its_own_wire_text_alone(one: Seq<u8>, other: Seq<u8>)
    ensures
        text::hex(one) == text::hex(other) <==> one == other,
{
    text::law_hex_round_trips(one);
    text::law_hex_round_trips(other);
}

/// A token holds the bytes that the random source gave, and there is none where the source gave
/// nothing.
pub proof fn law_a_token_is_what_was_drawn(answer: Option<[u8; 32]>)
    ensures
        drawn(answer) is Ok <==> answer is Some,
        answer matches Some(bytes) ==> drawn(answer)->Ok_0 == bytes@,
        answer is None ==> drawn(answer) == Err::<Seq<u8>, TokenError>(TokenError::Unavailable),
{
}

} // verus!
