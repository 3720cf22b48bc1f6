//! The command-line client's decisions: what to ask, what an answer means, how to exit.

use crate::codec::CodecError;
use crate::messages;
use crate::messages::{
    AddOptions, AddParams, DownloadId, HelloParams, IdParams, Request, Response, SecretString,
    WireState,
};
use crate::schema::{RequestView, ResponseView};
use crate::text;
use vstd::prelude::*;
use vstd::string::StringExecFns;

verus! {

/// Client build identifier told to the daemon.
pub const CLIENT_NAME: &'static str = "dp/0.1.0";

/// Why the client stops without a finished download.
#[derive(Debug, PartialEq, Eq)]
pub enum ClientError<T = String> {
    /// Something on this side failed.
    General(T),
    /// The daemon cannot be reached or does not speak the protocol.
    Daemon(T),
    /// The daemon reported a failure of this name.
    DownloadFailed(T),
}

impl View for ClientError<String> {
    type V = ClientError<Seq<char>>;

    open spec fn view(&self) -> ClientError<Seq<char>> {
        match *self {
            ClientError::General(text) => ClientError::General(text@),
            ClientError::Daemon(text) => ClientError::Daemon(text@),
            ClientError::DownloadFailed(text) => ClientError::DownloadFailed(text@),
        }
    }
}

impl ClientError<Seq<char>> {
    /// How the error reads.
    pub open spec fn text(self) -> Seq<char> {
        match self {
            ClientError::General(text) => text,
            ClientError::Daemon(text) => "daemon is unreachable: "@ + text,
            ClientError::DownloadFailed(text) => "download failed: "@ + text,
        }
    }

    /// The process exit code.
    pub open spec fn code(self) -> u8 {
        match self {
            ClientError::General(_) => 1,
            ClientError::Daemon(_) => 3,
            ClientError::DownloadFailed(_) => 4,
        }
    }
}

impl ClientError {
    /// The process exit code.
    pub fn exit_code(&self) -> (code: u8)
        ensures
            code == self@.code(),
    {
        match self {
            ClientError::General(_) => 1,
            ClientError::Daemon(_) => 3,
            ClientError::DownloadFailed(_) => 4,
        }
    }

    /// How the error reads.
    pub fn describe(&self) -> (text: String)
        ensures
            text@ == self@.text(),
    {
        match self {
            ClientError::General(text) => text.clone(),
            ClientError::Daemon(text) => String::from_str("daemon is unreachable: ").concat(
                text.as_str(),
            ),
            ClientError::DownloadFailed(text) => String::from_str("download failed: ").concat(
                text.as_str(),
            ),
        }
    }
}

/// The request that opens a connection.
pub open spec fn hello_request(token: Seq<char>) -> RequestView {
    RequestView::Hello(
        HelloParams {
            protocol_version: messages::PROTOCOL_VERSION,
            client: CLIENT_NAME@,
            token,
        },
    )
}

/// The request that submits a download.
pub open spec fn add_request(
    url: Seq<char>,
    target: Seq<char>,
    connections: Option<u16>,
) -> RequestView {
    RequestView::DownloadAdd(
        AddParams {
            protocol_version: messages::PROTOCOL_VERSION,
            url,
            target: Some(target),
            options: AddOptions { connections },
        },
    )
}

/// The request that asks how a download is doing.
pub open spec fn get_request(id: Seq<char>) -> RequestView {
    RequestView::DownloadGet(IdParams { protocol_version: messages::PROTOCOL_VERSION, id })
}

/// The request that opens a connection.
pub fn hello(token: SecretString) -> (request: Request)
    ensures
        request@ == hello_request(token@),
{
    Request::Hello(
        HelloParams {
            protocol_version: messages::PROTOCOL_VERSION,
            client: CLIENT_NAME.to_owned(),
            token,
        },
    )
}

/// The request that submits a download.
pub fn add(url: String, target: String, connections: Option<u16>) -> (request: Request)
    ensures
        request@ == add_request(url@, target@, connections),
{
    Request::DownloadAdd(
        AddParams {
            protocol_version: messages::PROTOCOL_VERSION,
            url: SecretString::new(url),
            target: Some(target),
            options: AddOptions { connections },
        },
    )
}

/// The request that asks how a download is doing.
pub fn get(id: &DownloadId) -> (request: Request)
    ensures
        request@ == get_request(id@),
{
    Request::DownloadGet(
        IdParams { protocol_version: messages::PROTOCOL_VERSION, id: id.clone() },
    )
}

/// Numbers the requests of one connection.
#[derive(Debug)]
pub struct RequestIds {
    next: u64,
}

impl RequestIds {
    /// The number of the next request.
    pub closed spec fn upcoming(&self) -> u64 {
        self.next
    }

    /// Start at one.
    pub fn new() -> (ids: Self)
        ensures
            ids.upcoming() == 1,
    {
        RequestIds { next: 1 }
    }

    /// Take a number. The last one that 64 bits hold is taken over and over.
    pub fn take(&mut self) -> (id: u64)
        ensures
            id == old(self).upcoming(),
            final(self).upcoming() == (if id < u64::MAX {
                (id + 1) as u64
            } else {
                id
            }),
    {
        let id: u64 = self.next;
        self.next = self.next.saturating_add(1);
        id
    }
}

/// How a reply under another number reads.
pub open spec fn mismatch_text(replied: u64, expected: u64) -> Seq<char> {
    "daemon replied with response id "@ + text::decimal(replied as nat) + ", expected "@
        + text::decimal(expected as nat)
}

/// Check one decoded reply against the number of the request that it should answer.
pub fn check_reply(expected: u64, decoded: Result<(u64, Response), CodecError>) -> (reply: Result<
    Response,
    ClientError,
>)
    ensures
        match decoded {
            Ok((replied, response)) => if replied == expected {
                reply == Ok::<Response, ClientError>(response)
            } else {
                reply is Err && reply->Err_0@ == ClientError::Daemon(
                    mismatch_text(replied, expected),
                )
            },
            Err(_) => reply is Err && reply->Err_0@ == ClientError::Daemon(
                "decoding an IPC response"@,
            ),
        },
{
    match decoded {
        Ok((replied, response)) => {
            if replied != expected {
                let replied: String = text::to_decimal(replied);
                let expected: String = text::to_decimal(expected);
                return Err(
                    ClientError::Daemon(
                        String::from_str("daemon replied with response id ").concat(
                            replied.as_str(),
                        ).concat(", expected ").concat(expected.as_str()),
                    ),
                );
            }
            Ok(response)
        },
        Err(_) => Err(ClientError::Daemon("decoding an IPC response".to_owned())),
    }
}

/// What an answer that is not the expected one means.
pub open spec fn unexpected(response: ResponseView) -> ClientError<Seq<char>> {
    match response {
        Response::Error(error) => ClientError::DownloadFailed(error.data.kind),
        _ => ClientError::Daemon("daemon returned an unexpected response type"@),
    }
}

/// What an answer that is not the expected one means.
pub fn response_error(response: Response) -> (error: ClientError)
    ensures
        error@ == unexpected(response@),
{
    match response {
        Response::Error(error) => ClientError::DownloadFailed(error.data.kind),
        _ => ClientError::Daemon("daemon returned an unexpected response type".to_owned()),
    }
}

/// Check the answer to a hello.
pub fn check_hello(response: Response) -> (checked: Result<(), ClientError>)
    ensures
        checked is Ok <==> response is Hello,
        checked matches Err(error) ==> error@ == unexpected(response@),
{
    match response {
        Response::Hello(_) => Ok(()),
        other => Err(response_error(other)),
    }
}

/// Take the identity out of the answer to an add request.
pub fn added_id(response: Response) -> (id: Result<DownloadId, ClientError>)
    ensures
        match response {
            Response::Added(result) => id == Ok::<DownloadId, ClientError>(result.id),
            _ => id is Err && id->Err_0@ == unexpected(response@),
        },
{
    match response {
        Response::Added(result) => Ok(result.id),
        other => Err(response_error(other)),
    }
}

/// What an answer about the submitted download means: finished, still running, or stopped.
pub open spec fn progress(response: ResponseView) -> Result<bool, ClientError<Seq<char>>> {
    match response {
        Response::Download(view) => if view.state == WireState::Completed {
            Ok(true)
        } else if view.state == WireState::Failed {
            Err(
                ClientError::DownloadFailed(
                    match view.error_kind {
                        Some(kind) => kind,
                        None => "unknown"@,
                    },
                ),
            )
        } else {
            Ok(false)
        },
        _ => Err(unexpected(response)),
    }
}

/// Whether the submitted download has finished. One that failed, or an answer of another kind, is
/// an error.
pub fn is_finished(response: Response) -> (finished: Result<bool, ClientError>)
    ensures
        (match finished {
            Ok(finished) => Ok(finished),
            Err(error) => Err(error@),
        }) == progress(response@),
{
    match response {
        Response::Download(view) => {
            if view.state == WireState::Completed {
                Ok(true)
            } else if view.state == WireState::Failed {
                match view.error_kind {
                    Some(kind) => Err(ClientError::DownloadFailed(kind)),
                    None => Err(ClientError::DownloadFailed("unknown".to_owned())),
                }
            } else {
                Ok(false)
            }
        },
        other => Err(response_error(other)),
    }
}

/// The default log filter for a verbosity.
pub fn log_filter(verbosity: u8) -> (filter: &'static str)
    ensures
        filter@ == (if verbosity == 0 {
            "warn"@
        } else if verbosity == 1 {
            "info"@
        } else if verbosity == 2 {
            "debug"@
        } else {
            "trace"@
        }),
{
    match verbosity {
        0 => "warn",
        1 => "info",
        2 => "debug",
        _ => "trace",
    }
}

/// A client that holds the daemon's token is let in by its hello, and only by that token; then its
/// requests are handed on as commands.
pub proof fn law_a_client_is_let_in_by_its_token(
    token: Seq<u8>,
    other: Seq<u8>,
    url: Seq<char>,
    target: Seq<char>,
    connections: Option<u16>,
    id: Seq<char>,
)
    ensures
        crate::session::admission(token, false, hello_request(text::hex(other))) is Ok <==> token == other,
        crate::session::admission(token, true, add_request(url, target, connections)) == Ok::<
            crate::session::Admission<RequestView>,
            crate::session::SessionError,
        >(crate::session::Admission::Command(add_request(url, target, connections))),
        crate::session::admission(token, true, get_request(id)) == Ok::<
            crate::session::Admission<RequestView>,
            crate::session::SessionError,
        >(crate::session::Admission::Command(get_request(id))),
{
    crate::token::law_a_token_matches_its_own_wire_text_alone(token, other);
}

/// What a client submits is what the daemon fetches: the same address, into the same directory,
/// over as many connections as the daemon grants of those asked for.
pub proof fn law_a_submission_is_fetched_as_submitted(
    daemon: crate::server::DaemonView,
    url: Seq<char>,
    target: Seq<char>,
    connections: Option<u16>,
    minted: Result<Seq<char>, Seq<char>>,
    uptime_seconds: u64,
)
    ensures
        ({
            let (response, after) = crate::server::dispatched(
                daemon,
                add_request(url, target, connections),
                minted,
                uptime_seconds,
            );
            response is Added ==> {
                &&& after.jobs.last() is Fetch
                &&& after.jobs.last()->Fetch_id == response->Added_0.id
                &&& after.jobs.last()->url == crate::address::parsed_url(url)->0.text
                &&& after.jobs.last()->target_dir == target
                &&& crate::server::granted_connections(connections) == Some(
                    after.jobs.last()->connections,
                )
            }
        }),
{
    let params = add_request(url, target, connections)->DownloadAdd_0;
    crate::server::law_an_accepted_download_leaves_its_job(daemon, params, minted);
}

/// A client that asks after its download is told to stop waiting exactly when the download is over:
/// well if it was completed, with the failure's name if it failed, and not before.
pub proof fn law_a_client_waits_until_its_download_is_over(
    daemon: crate::server::DaemonView,
    id: Seq<char>,
    minted: Result<Seq<char>, Seq<char>>,
    uptime_seconds: u64,
)
    ensures
        ({
            let response = crate::server::dispatched(
                daemon,
                get_request(id),
                minted,
                uptime_seconds,
            ).0;
            let heard = progress(response);
            let known = daemon.records.contains_key(id);
            let record = daemon.records[id];
            &&& heard == Ok::<bool, ClientError<Seq<char>>>(true) <==> known && record.state
                == WireState::Completed
            &&& known && record.state == WireState::Failed && record.error_kind is Some ==> heard
                == Err::<bool, ClientError<Seq<char>>>(
                ClientError::DownloadFailed(record.error_kind->0),
            )
            &&& known && record.state == WireState::Failed && record.error_kind is None ==> heard
                == Err::<bool, ClientError<Seq<char>>>(ClientError::DownloadFailed("unknown"@))
            &&& known && record.state != WireState::Completed && record.state != WireState::Failed
                ==> heard == Ok::<bool, ClientError<Seq<char>>>(false)
            &&& !known ==> heard == Err::<bool, ClientError<Seq<char>>>(
                ClientError::DownloadFailed("not_found"@),
            )
        }),
{
}

/// A client tells a daemon's refusal, under its name, from an answer that makes no sense.
pub proof fn law_a_refusal_is_told_from_nonsense(response: ResponseView)
    ensures
        unexpected(response) is DownloadFailed <==> response is Error,
        response is Error ==> unexpected(response) == ClientError::DownloadFailed(
            response->Error_0.data.kind,
        ),
        !(response is Error) ==> unexpected(response) is Daemon,
        !(response is Download) ==> progress(response) == Err::<bool, ClientError<Seq<char>>>(
            unexpected(response),
        ),
{
}

/// Each kind of failure has an exit code of its own, none of them that of success or of a usage
/// error, and reads with its text behind what kind it is.
pub proof fn law_each_failure_has_its_own_exit_code(
    one: ClientError<Seq<char>>,
    other: ClientError<Seq<char>>,
)
    ensures
        one.code() == 1 <==> one is General,
        one.code() == 3 <==> one is Daemon,
        one.code() == 4 <==> one is DownloadFailed,
        one.code() != 0 && one.code() != 2,
        one matches ClientError::General(text) ==> one.text() == text,
        one matches ClientError::Daemon(text) ==> one.text() == "daemon is unreachable: "@ + text,
        one matches ClientError::DownloadFailed(text) ==> one.text() == "download failed: "@ + text,
{
}

/// A reply under another number is told with both numbers, so that they can be read out of it.
pub proof fn law_a_mismatch_tells_both_numbers(replied: u64, expected: u64)
    ensures
        ({
            let before = "daemon replied with response id "@;
            let between = ", expected "@;
            let first = text::decimal(replied as nat);
            let second = text::decimal(expected as nat);
            let told = mismatch_text(replied, expected);
            &&& told == before + first + between + second
            &&& text::parsed_u64(
                told.subrange(before.len() as int, (before.len() + first.len()) as int),
            ) == Some(replied)
            &&& text::parsed_u64(told.skip((before.len() + first.len() + between.len()) as int))
                == Some(expected)
        }),
{
    let before = "daemon replied with response id "@;
    let between = ", expected "@;
    let first = text::decimal(replied as nat);
    let second = text::decimal(expected as nat);
    let told = mismatch_text(replied, expected);
    assert(told.subrange(before.len() as int, (before.len() + first.len()) as int) =~= first);
    assert(told.skip((before.len() + first.len() + between.len()) as int) =~= second);
    text::law_decimal_reads_back(replied, 0);
    text::law_decimal_reads_back(expected, 0);
}

} // verus!
