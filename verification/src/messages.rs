//! Typed version-1 request, result and error payloads.
//!
//! Every type that carries text is generic in how the text is held, so that contracts can speak of
//! the same message over sequences of characters.

use crate::remote;
use crate::text;
use vstd::prelude::*;
use vstd::string::StringExecFns;

verus! {

/// The only protocol version understood by this build.
pub const PROTOCOL_VERSION: u32 = 1;

/// How many characters a download identity has.
pub const DOWNLOAD_ID_LENGTH: usize = 32;

/// Secret-bearing wire text. It has no formatting but [`SecretString::rendered`], which never
/// reveals it.
#[derive(PartialEq, Eq)]
pub struct SecretString(String);

impl View for SecretString {
    type V = Seq<char>;

    closed spec fn view(&self) -> Seq<char> {
        self.0@
    }
}

impl SecretString {
    /// Wrap text that may cross a process boundary but must never appear in formatting or logs.
    pub fn new(raw: String) -> (secret: Self)
        ensures
            secret@ == raw@,
    {
        SecretString(raw)
    }

    /// Expose the value, at an explicit protocol or credential boundary.
    pub fn expose(&self) -> (raw: &str)
        ensures
            raw@ == self@,
    {
        self.0.as_str()
    }

    /// What stands for the value in formatting and logs.
    pub fn rendered(&self) -> (text: String)
        ensures
            text@ == "[redacted]"@,
    {
        "[redacted]".to_owned()
    }
}

impl Clone for SecretString {
    /// Copies the text.
    fn clone(&self) -> (copy: Self)
        ensures
            copy@ == self@,
    {
        SecretString(self.0.clone())
    }
}

/// The text can be a download identity.
pub open spec fn valid_id(text: Seq<char>) -> bool {
    text.len() == DOWNLOAD_ID_LENGTH && text::all_hex(text)
}

/// Validated opaque download identity used on the wire: exactly 32 lowercase hexadecimal
/// characters.
#[derive(Debug, PartialEq, Eq, PartialOrd, Ord, Hash)]
pub struct DownloadId(String);

impl View for DownloadId {
    type V = Seq<char>;

    closed spec fn view(&self) -> Seq<char> {
        self.0@
    }
}

impl DownloadId {
    #[verifier::type_invariant]
    spec fn inv(self) -> bool {
        valid_id(self.0@)
    }

    /// Validate a download identity.
    pub fn new(raw: &str) -> (id: Result<Self, &'static str>)
        ensures
            match id {
                Ok(id) => valid_id(raw@) && id@ == raw@,
                Err(reason) => !valid_id(raw@) && reason@
                    == "download id must be exactly 32 lowercase hexadecimal characters"@,
            },
    {
        if raw.unicode_len() != DOWNLOAD_ID_LENGTH || !text::only_hex(raw) {
            return Err("download id must be exactly 32 lowercase hexadecimal characters");
        }
        Ok(DownloadId(raw.to_owned()))
    }

    /// Borrow the stable wire representation.
    pub fn as_str(&self) -> (text: &str)
        ensures
            text@ == self@,
            valid_id(self@),
    {
        proof {
            use_type_invariant(self);
        }
        self.0.as_str()
    }

    /// Whether two identities are the same.
    pub fn same_as(&self, other: &DownloadId) -> (yes: bool)
        ensures
            yes == (self@ == other@),
    {
        text::same(self.0.as_str(), other.0.as_str())
    }
}

impl Clone for DownloadId {
    /// Copies the identity.
    fn clone(&self) -> (copy: Self)
        ensures
            copy@ == self@,
    {
        proof {
            use_type_invariant(self);
        }
        DownloadId(self.0.clone())
    }
}

/// Version negotiation and authentication parameters.
#[derive(Clone, PartialEq, Eq)]
pub struct HelloParams<T = String, S = SecretString> {
    /// Requested protocol version.
    pub protocol_version: u32,
    /// Human-readable client build identifier.
    pub client: T,
    /// Session token as it travels.
    pub token: S,
}

/// Fixed-worker options of `download.add`.
#[derive(Clone, Copy, Debug, PartialEq, Eq, Structural)]
pub struct AddOptions {
    /// Requested HTTP/1.1 worker ceiling, when explicitly supplied.
    pub connections: Option<u16>,
}

impl Default for AddOptions {
    /// No ceiling was supplied.
    fn default() -> (options: Self)
        ensures
            options == (AddOptions { connections: None }),
    {
        AddOptions { connections: None }
    }
}

/// Parameters of `download.add`.
#[derive(Clone, PartialEq, Eq)]
pub struct AddParams<T = String, S = SecretString> {
    /// Protocol version carried by this message.
    pub protocol_version: u32,
    /// The HTTP(S) URL to fetch. It bears secrets and must never be logged.
    pub url: S,
    /// Target path text supplied by the local client.
    pub target: Option<T>,
    /// Transfer options.
    pub options: AddOptions,
}

/// Parameters of a request about a single download.
#[derive(Clone, Debug, PartialEq, Eq)]
pub struct IdParams<I = DownloadId> {
    /// Protocol version carried by this message.
    pub protocol_version: u32,
    /// Target download.
    pub id: I,
}

/// Parameters of a system request: the version alone.
#[derive(Clone, Copy, Debug, PartialEq, Eq, Structural)]
pub struct VersionParams {
    /// Protocol version carried by this message.
    pub protocol_version: u32,
}

/// One decoded request after method-specific validation.
#[derive(Clone, PartialEq, Eq)]
pub enum Request<T = String, S = SecretString, I = DownloadId> {
    /// Authenticate and negotiate the contract.
    Hello(HelloParams<T, S>),
    /// Submit a new download.
    DownloadAdd(AddParams<T, S>),
    /// Read one download.
    DownloadGet(IdParams<I>),
    /// Resume one paused download.
    DownloadResume(IdParams<I>),
    /// Read daemon status.
    SystemStatus(VersionParams),
}

impl View for Request {
    type V = Request<Seq<char>, Seq<char>, Seq<char>>;

    open spec fn view(&self) -> Request<Seq<char>, Seq<char>, Seq<char>> {
        match *self {
            Request::Hello(params) => Request::Hello(
                HelloParams {
                    protocol_version: params.protocol_version,
                    client: params.client@,
                    token: params.token@,
                },
            ),
            Request::DownloadAdd(params) => Request::DownloadAdd(
                AddParams {
                    protocol_version: params.protocol_version,
                    url: params.url@,
                    target: text::owned(params.target),
                    options: params.options,
                },
            ),
            Request::DownloadGet(params) => Request::DownloadGet(
                IdParams { protocol_version: params.protocol_version, id: params.id@ },
            ),
            Request::DownloadResume(params) => Request::DownloadResume(
                IdParams { protocol_version: params.protocol_version, id: params.id@ },
            ),
            Request::SystemStatus(params) => Request::SystemStatus(params),
        }
    }
}

impl Request<Seq<char>, Seq<char>, Seq<char>> {
    /// The protocol version that the request carries.
    pub open spec fn version(self) -> u32 {
        match self {
            Request::Hello(params) => params.protocol_version,
            Request::DownloadAdd(params) => params.protocol_version,
            Request::DownloadGet(params) => params.protocol_version,
            Request::DownloadResume(params) => params.protocol_version,
            Request::SystemStatus(params) => params.protocol_version,
        }
    }

    /// Every identity in the request is one.
    pub open spec fn wf(self) -> bool {
        match self {
            Request::DownloadGet(params) => valid_id(params.id),
            Request::DownloadResume(params) => valid_id(params.id),
            _ => true,
        }
    }

    /// The same request with nothing secret in it.
    pub open spec fn stripped(self) -> Request<Seq<char>, Seq<char>, Seq<char>> {
        match self {
            Request::Hello(params) => Request::Hello(
                HelloParams { token: Seq::empty(), ..params },
            ),
            Request::DownloadAdd(params) => Request::DownloadAdd(
                AddParams { url: Seq::empty(), ..params },
            ),
            _ => self,
        }
    }

    /// How the request reads in a log.
    pub open spec fn log_text(self) -> Seq<char> {
        match self {
            Request::Hello(params) => "Hello(HelloParams { protocol_version: "@ + text::decimal(
                params.protocol_version as nat,
            ) + ", client: \""@ + params.client + "\", token: [redacted] })"@,
            Request::DownloadAdd(params) => "DownloadAdd(AddParams { protocol_version: "@
                + text::decimal(params.protocol_version as nat) + ", url: [redacted], target: "@ + (
            match params.target {
                Some(target) => "Some(\""@ + target + "\")"@,
                None => "None"@,
            }) + ", options: AddOptions { connections: "@ + (match params.options.connections {
                Some(count) => "Some("@ + text::decimal(count as nat) + ")"@,
                None => "None"@,
            }) + " } })"@,
            Request::DownloadGet(params) => "DownloadGet"@ + id_params_text(params),
            Request::DownloadResume(params) => "DownloadResume"@ + id_params_text(params),
            Request::SystemStatus(params) =>
                "SystemStatus(VersionParams { protocol_version: "@ + text::decimal(
                params.protocol_version as nat,
            ) + " })"@,
        }
    }
}

/// How parameters about a single download read in a log.
pub open spec fn id_params_text(params: IdParams<Seq<char>>) -> Seq<char> {
    "(IdParams { protocol_version: "@ + text::decimal(params.protocol_version as nat)
        + ", id: DownloadId(\""@ + params.id + "\") })"@
}

fn render_id_params(params: &IdParams) -> (text: String)
    ensures
        text@ == id_params_text(
            IdParams { protocol_version: params.protocol_version, id: params.id@ },
        ),
{
    let version: String = text::to_decimal(params.protocol_version as u64);
    String::from_str("(IdParams { protocol_version: ").concat(version.as_str()).concat(
        ", id: DownloadId(\"",
    ).concat(params.id.as_str()).concat("\") })")
}

impl Request {
    /// How the request reads in a log. Session tokens and URLs are redacted.
    pub fn rendered(&self) -> (text: String)
        ensures
            text@ == self@.log_text(),
    {
        match self {
            Request::Hello(params) => {
                let version: String = text::to_decimal(params.protocol_version as u64);
                String::from_str("Hello(HelloParams { protocol_version: ").concat(
                    version.as_str(),
                ).concat(", client: \"").concat(params.client.as_str()).concat(
                    "\", token: [redacted] })",
                )
            },
            Request::DownloadAdd(params) => {
                let version: String = text::to_decimal(params.protocol_version as u64);
                let target: String = match &params.target {
                    Some(target) => String::from_str("Some(\"").concat(target.as_str()).concat(
                        "\")",
                    ),
                    None => "None".to_owned(),
                };
                let connections: String = match params.options.connections {
                    Some(count) => {
                        let digits: String = text::to_decimal(count as u64);
                        String::from_str("Some(").concat(digits.as_str()).concat(")")
                    },
                    None => "None".to_owned(),
                };
                String::from_str("DownloadAdd(AddParams { protocol_version: ").concat(
                    version.as_str(),
                ).concat(", url: [redacted], target: ").concat(target.as_str()).concat(
                    ", options: AddOptions { connections: ",
                ).concat(connections.as_str()).concat(" } })")
            },
            Request::DownloadGet(params) => {
                let rest: String = render_id_params(params);
                String::from_str("DownloadGet").concat(rest.as_str())
            },
            Request::DownloadResume(params) => {
                let rest: String = render_id_params(params);
                String::from_str("DownloadResume").concat(rest.as_str())
            },
            Request::SystemStatus(params) => {
                let version: String = text::to_decimal(params.protocol_version as u64);
                String::from_str("SystemStatus(VersionParams { protocol_version: ").concat(
                    version.as_str(),
                ).concat(" })")
            },
        }
    }

    /// The protocol version that the request carries.
    pub fn protocol_version(&self) -> (version: u32)
        ensures
            version == self@.version(),
    {
        match self {
            Request::Hello(params) => params.protocol_version,
            Request::DownloadAdd(params) => params.protocol_version,
            Request::DownloadGet(params) => params.protocol_version,
            Request::DownloadResume(params) => params.protocol_version,
            Request::SystemStatus(params) => params.protocol_version,
        }
    }
}

/// Formatting reveals nothing secret: requests that agree in everything but their session tokens
/// and URLs read the same in a log.
pub proof fn law_a_log_reveals_no_secret(
    one: Request<Seq<char>, Seq<char>, Seq<char>>,
    other: Request<Seq<char>, Seq<char>, Seq<char>>,
)
    requires
        one.stripped() == other.stripped(),
    ensures
        one.log_text() == other.log_text(),
{
    match one {
        Request::Hello(params) => {
            let stripped = HelloParams { token: Seq::<char>::empty(), ..params };
            assert(one.stripped() == Request::<Seq<char>, Seq<char>, Seq<char>>::Hello(stripped));
        },
        Request::DownloadAdd(params) => {
            let stripped = AddParams { url: Seq::<char>::empty(), ..params };
            assert(one.stripped() == Request::<Seq<char>, Seq<char>, Seq<char>>::DownloadAdd(
                stripped,
            ));
        },
        _ => {},
    }
}

/// Expected result for a request.
#[derive(Clone, Copy, Debug, PartialEq, Eq, Structural)]
pub enum ResponseKind {
    /// Hello result.
    Hello,
    /// Add result.
    Added,
    /// Download view.
    Download,
    /// Resume result.
    Resumed,
    /// System status.
    Status,
}

/// Stable lifecycle states exposed to clients.
#[derive(Clone, Copy, Debug, PartialEq, Eq, Structural)]
pub enum WireState {
    /// Accepted and queued.
    Submitted,
    /// Capability probe in flight.
    Probing,
    /// Identity established and transfer planned.
    Planned,
    /// One or more workers active.
    Transferring,
    /// User-paused, or recovered but not resumed by itself.
    Paused,
    /// Waiting under bounded retry back-off.
    Stalled,
    /// All bytes present and verification running.
    Verifying,
    /// Verified and named.
    Completed,
    /// Unrecoverable failure with evidence retained.
    Failed,
}

/// Successful version negotiation.
#[derive(Clone, Debug, PartialEq, Eq)]
pub struct HelloResult<T = String, L = Vec<String>> {
    /// Negotiated protocol version.
    pub protocol_version: u32,
    /// Daemon build identifier.
    pub daemon_version: T,
    /// Additive feature names available to the client.
    pub capabilities: L,
}

/// Result of a state-changing command.
#[derive(Clone, Debug, PartialEq, Eq)]
pub struct StateResult<I = DownloadId> {
    /// Protocol version carried by this message.
    pub protocol_version: u32,
    /// Affected download.
    pub id: I,
    /// State after the command.
    pub state: WireState,
}

/// What is told of one download.
#[derive(Clone, Debug, PartialEq, Eq)]
pub struct DownloadView<T = String, I = DownloadId> {
    /// Protocol version carried by this message.
    pub protocol_version: u32,
    /// Download identity.
    pub id: I,
    /// Current state.
    pub state: WireState,
    /// Durably covered bytes.
    pub covered: u64,
    /// Known representation length.
    pub total: Option<u64>,
    /// Stable name of the failure, after one.
    pub error_kind: Option<T>,
}

/// Daemon status.
#[derive(Clone, Debug, PartialEq, Eq)]
pub struct SystemStatus<T = String> {
    /// Protocol version carried by this message.
    pub protocol_version: u32,
    /// Daemon build identifier.
    pub version: T,
    /// Whole seconds since this daemon instance started.
    pub uptime_seconds: u64,
    /// Active transfer count.
    pub active: u32,
    /// Queued transfer count.
    pub queued: u32,
    /// Aggregate bytes per second.
    pub throughput: u64,
}

/// Stable failure data.
#[derive(Clone, Debug, PartialEq, Eq)]
pub struct ErrorData<T = String, I = DownloadId> {
    /// Protocol version carried by this message.
    pub protocol_version: u32,
    /// Stable machine-readable error name.
    pub kind: T,
    /// Related download, when any.
    pub download_id: Option<I>,
    /// Whether a later request may recover.
    pub recoverable: bool,
    /// Stable suggested client action.
    pub suggestion: Option<T>,
}

/// Typed failure.
#[derive(Clone, Debug, PartialEq, Eq)]
pub struct RpcError<T = String, I = DownloadId> {
    /// Application error code.
    pub code: i32,
    /// Human-readable text; clients must switch on `data.kind` instead.
    pub message: T,
    /// Stable structured failure data.
    pub data: ErrorData<T, I>,
}

/// One typed result or stable failure.
#[derive(Clone, Debug, PartialEq, Eq)]
pub enum Response<T = String, I = DownloadId, L = Vec<String>> {
    /// Successful hello.
    Hello(HelloResult<T, L>),
    /// Successful add.
    Added(StateResult<I>),
    /// Successful get.
    Download(DownloadView<T, I>),
    /// Successful resume.
    Resumed(StateResult<I>),
    /// Successful status request.
    Status(SystemStatus<T>),
    /// Stable machine-readable failure.
    Error(RpcError<T, I>),
}

/// An optional identity's text.
pub open spec fn optional_id(id: Option<DownloadId>) -> Option<Seq<char>> {
    match id {
        Some(id) => Some(id@),
        None => None,
    }
}

impl View for Response {
    type V = Response<Seq<char>, Seq<char>, Seq<Seq<char>>>;

    open spec fn view(&self) -> Response<Seq<char>, Seq<char>, Seq<Seq<char>>> {
        match *self {
            Response::Hello(result) => Response::Hello(
                HelloResult {
                    protocol_version: result.protocol_version,
                    daemon_version: result.daemon_version@,
                    capabilities: remote::texts(result.capabilities@),
                },
            ),
            Response::Added(result) => Response::Added(
                StateResult {
                    protocol_version: result.protocol_version,
                    id: result.id@,
                    state: result.state,
                },
            ),
            Response::Download(view) => Response::Download(
                DownloadView {
                    protocol_version: view.protocol_version,
                    id: view.id@,
                    state: view.state,
                    covered: view.covered,
                    total: view.total,
                    error_kind: text::owned(view.error_kind),
                },
            ),
            Response::Resumed(result) => Response::Resumed(
                StateResult {
                    protocol_version: result.protocol_version,
                    id: result.id@,
                    state: result.state,
                },
            ),
            Response::Status(status) => Response::Status(
                SystemStatus {
                    protocol_version: status.protocol_version,
                    version: status.version@,
                    uptime_seconds: status.uptime_seconds,
                    active: status.active,
                    queued: status.queued,
                    throughput: status.throughput,
                },
            ),
            Response::Error(error) => Response::Error(
                RpcError {
                    code: error.code,
                    message: error.message@,
                    data: ErrorData {
                        protocol_version: error.data.protocol_version,
                        kind: error.data.kind@,
                        download_id: optional_id(error.data.download_id),
                        recoverable: error.data.recoverable,
                        suggestion: text::owned(error.data.suggestion),
                    },
                },
            ),
        }
    }
}

impl Response<Seq<char>, Seq<char>, Seq<Seq<char>>> {
    /// Every identity in the response is one.
    pub open spec fn wf(self) -> bool {
        match self {
            Response::Added(result) => valid_id(result.id),
            Response::Download(view) => valid_id(view.id),
            Response::Resumed(result) => valid_id(result.id),
            Response::Error(error) => error.data.download_id is Some ==> valid_id(
                error.data.download_id->0,
            ),
            _ => true,
        }
    }

    /// The kind of request that the response answers; any, after a failure.
    pub open spec fn expected(self) -> ResponseKind {
        match self {
            Response::Hello(_) => ResponseKind::Hello,
            Response::Added(_) => ResponseKind::Added,
            Response::Download(_) => ResponseKind::Download,
            Response::Resumed(_) => ResponseKind::Resumed,
            Response::Status(_) => ResponseKind::Status,
            Response::Error(_) => ResponseKind::Hello,
        }
    }

    /// The response answers a request that expects this kind of result. A failure answers any.
    pub open spec fn answers(self, expected: ResponseKind) -> bool {
        self is Error || expected == self.expected()
    }
}

/// An identity is exactly thirty-two digits, each a decimal one or a small letter up to `f`.
pub proof fn law_an_identity_is_thirty_two_digits(text: Seq<char>)
    ensures
        valid_id(text) <==> text.len() == 32 && forall|i: int|
            0 <= i < text.len() ==> ('0' <= #[trigger] text[i] <= '9') || ('a' <= text[i] <= 'f'),
{
    if valid_id(text) {
        assert forall|i: int| 0 <= i < text.len() implies ('0' <= #[trigger] text[i] <= '9') || (
        'a' <= text[i] <= 'f') by {
            assert(text::hex_value(text[i]) is Some);
        }
    }
}

/// A log tells everything of a request but its secrets: what is stripped is a token or a URL, and
/// the rest is kept.
pub proof fn law_only_secrets_are_stripped(request: Request<Seq<char>, Seq<char>, Seq<char>>)
    ensures
        request.stripped().version() == request.version(),
        request matches Request::Hello(params) ==> request.stripped() == Request::<
            Seq<char>,
            Seq<char>,
            Seq<char>,
        >::Hello(HelloParams { token: Seq::empty(), ..params }),
        request matches Request::DownloadAdd(params) ==> request.stripped() == Request::<
            Seq<char>,
            Seq<char>,
            Seq<char>,
        >::DownloadAdd(AddParams { url: Seq::empty(), ..params }),
        !(request is Hello) && !(request is DownloadAdd) ==> request.stripped() == request,
{
}

/// A request's version is the one that stands in its own parameters.
pub proof fn law_a_request_carries_its_version(request: Request<Seq<char>, Seq<char>, Seq<char>>)
    ensures
        request is Hello ==> request.version() == request->Hello_0.protocol_version,
        request is DownloadAdd ==> request.version() == request->DownloadAdd_0.protocol_version,
        request is DownloadGet ==> request.version() == request->DownloadGet_0.protocol_version,
        request is DownloadResume ==> request.version()
            == request->DownloadResume_0.protocol_version,
        request is SystemStatus ==> request.version() == request->SystemStatus_0.protocol_version,
        request is DownloadGet ==> (request.wf() <==> valid_id(request->DownloadGet_0.id)),
        request is DownloadResume ==> (request.wf() <==> valid_id(request->DownloadResume_0.id)),
{
}

/// A result answers the one kind of request that asks for it, and a failure answers any.
pub proof fn law_a_result_answers_one_kind_of_request(
    response: Response<Seq<char>, Seq<char>, Seq<Seq<char>>>,
    one: ResponseKind,
    other: ResponseKind,
)
    ensures
        response is Error ==> response.answers(one),
        !(response is Error) && response.answers(one) && response.answers(other) ==> one == other,
        response is Hello ==> response.answers(ResponseKind::Hello),
        response is Added ==> response.answers(ResponseKind::Added),
        response is Download ==> response.answers(ResponseKind::Download),
        response is Resumed ==> response.answers(ResponseKind::Resumed),
        response is Status ==> response.answers(ResponseKind::Status),
{
}

} // verus!
