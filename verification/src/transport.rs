//! What the local endpoint accepts: its directory, its token file, its frames.
//!
//! Creating sockets and files happens outside; this module says which of them may be used.

use crate::codec::CodecError;
use crate::messages::SecretString;
use crate::text;
use crate::token;
use vstd::prelude::*;

verus! {

/// Name of the user-private directory below the runtime root.
pub const RUNTIME_DIR_NAME: &'static str = "downpour";

/// Name of the token file in the runtime directory.
pub const TOKEN_FILE_NAME: &'static str = "session.token";

/// Name of the socket in the runtime directory.
pub const SOCKET_FILE_NAME: &'static str = "daemon.sock";

/// Endpoint creation, connection, or byte-stream failure.
#[derive(Debug, PartialEq, Eq)]
pub enum TransportError {
    /// The runtime directory is not a directory of the user's own that nobody else can enter.
    UnsafeRuntimeDirectory,
    /// The token file does not hold a token.
    InvalidTokenFile,
    /// The stream carried an invalid frame.
    Frame(CodecError),
    /// A system operation failed.
    Io {
        /// What the system reported.
        source: String,
    },
}

/// Locations associated with one daemon runtime root.
#[derive(Clone, Debug, PartialEq, Eq)]
pub struct EndpointPaths {
    runtime_dir: String,
    token_file: String,
    socket_path: String,
}

impl EndpointPaths {
    /// The user-private directory, its token file and its socket.
    pub closed spec fn view(&self) -> (Seq<char>, Seq<char>, Seq<char>) {
        (self.runtime_dir@, self.token_file@, self.socket_path@)
    }

    /// Name the locations.
    pub fn new(runtime_dir: String, token_file: String, socket_path: String) -> (paths: Self)
        ensures
            paths@ == (runtime_dir@, token_file@, socket_path@),
    {
        EndpointPaths { runtime_dir, token_file, socket_path }
    }

    /// User-private runtime directory.
    pub fn runtime_dir(&self) -> (path: &str)
        ensures
            path@ == self@.0,
    {
        self.runtime_dir.as_str()
    }

    /// Token file of this daemon session.
    pub fn token_file(&self) -> (path: &str)
        ensures
            path@ == self@.1,
    {
        self.token_file.as_str()
    }

    /// Socket path.
    pub fn socket_path(&self) -> (path: &str)
        ensures
            path@ == self@.2,
    {
        self.socket_path.as_str()
    }
}

/// What a look at the runtime directory found. The look does not follow links.
#[derive(Clone, Copy, Debug, PartialEq, Eq, Structural)]
pub struct DirectoryFacts {
    /// It is a directory, not a link to one.
    pub is_directory: bool,
    /// It belongs to the user.
    pub owned: bool,
    /// Its permission bits.
    pub mode: u32,
}

/// The directory is a real one of the user's own, open to the user and to nobody else.
pub open spec fn is_private(facts: DirectoryFacts) -> bool {
    facts.is_directory && facts.owned && facts.mode % 512 == 448
}

/// Refuse a runtime directory that somebody else could enter or redirect.
pub fn check_runtime_dir(facts: DirectoryFacts) -> (checked: Result<(), TransportError>)
    ensures
        checked is Ok <==> is_private(facts),
        checked matches Err(error) ==> error is UnsafeRuntimeDirectory,
{
    if facts.is_directory && facts.owned && facts.mode % 512 == 448 {
        Ok(())
    } else {
        Err(TransportError::UnsafeRuntimeDirectory)
    }
}

/// The text is a token as it travels.
pub open spec fn is_token_text(text: Seq<char>) -> bool {
    text.len() == token::TOKEN_WIRE_LENGTH && text::all_hex(text)
}

/// Take the token out of a token file's contents. Anything but the canonical text is refused.
pub fn read_client_token(contents: &str) -> (token: Result<SecretString, TransportError>)
    ensures
        match token {
            Ok(token) => is_token_text(contents@) && token@ == contents@,
            Err(error) => !is_token_text(contents@) && error is InvalidTokenFile,
        },
{
    if contents.unicode_len() != token::TOKEN_WIRE_LENGTH || !text::only_hex(contents) {
        return Err(TransportError::InvalidTokenFile);
    }
    Ok(SecretString::new(contents.to_owned()))
}

/// The token file that a daemon writes is accepted by its clients, and gives them the token.
pub proof fn law_a_written_token_is_read_back(token: Seq<u8>)
    requires
        token.len() == 32,
    ensures
        is_token_text(text::hex(token)),
{
    text::law_hex_round_trips(token);
}

/// A runtime directory is private exactly if it is the user's own directory and nobody else may
/// read, write or enter it while the user may do all three; bits above the nine of permission do
/// not matter.
pub proof fn law_a_private_directory_is_the_users_alone(facts: DirectoryFacts, higher: u32)
    requires
        facts.mode < 512,
        higher <= 0x7f_ffff,
    ensures
        is_private(facts) <==> facts.is_directory && facts.owned && facts.mode / 64 == 7
            && facts.mode / 8 % 8 == 0 && facts.mode % 8 == 0,
        is_private(DirectoryFacts { mode: (facts.mode + 512 * higher) as u32, ..facts })
            == is_private(facts),
{
}

/// A token's text is one that some token writes, but for the case of its letters.
pub proof fn law_a_token_text_names_a_token(contents: Seq<char>)
    ensures
        is_token_text(contents) ==> contents.len() == 64,
        is_token_text(contents) ==> forall|i: int|
            0 <= i < contents.len() ==> text::hex_value(#[trigger] contents[i]) is Some,
        contents.len() == 64 && (forall|i: int|
            0 <= i < contents.len() ==> text::hex_value(#[trigger] contents[i]) is Some)
            ==> is_token_text(contents),
{
}

} // verus!
