//! The JSON shape of every message, and what a JSON value says as a message.
//!
//! Reading is strict: a member that the schema does not name makes the message malformed. An
//! optional member may be missing or `null`.

use crate::json;
use crate::json::JsonTree;
use crate::messages;
use crate::messages::{
    AddOptions, AddParams, DownloadId, DownloadView, ErrorData, HelloParams, HelloResult, IdParams,
    Request, Response, ResponseKind, RpcError, SecretString, StateResult, SystemStatus,
    VersionParams, WireState,
};
use crate::remote;
use crate::text;
use vstd::prelude::*;

verus! {

/// The wire name of a lifecycle state.
pub open spec fn state_name(state: WireState) -> Seq<char> {
    match state {
        WireState::Submitted => "submitted"@,
        WireState::Probing => "probing"@,
        WireState::Planned => "planned"@,
        WireState::Transferring => "transferring"@,
        WireState::Paused => "paused"@,
        WireState::Stalled => "stalled"@,
        WireState::Verifying => "verifying"@,
        WireState::Completed => "completed"@,
        WireState::Failed => "failed"@,
    }
}

/// The lifecycle state of a wire name.
pub open spec fn named_state(name: Seq<char>) -> Option<WireState> {
    if name == "submitted"@ {
        Some(WireState::Submitted)
    } else if name == "probing"@ {
        Some(WireState::Probing)
    } else if name == "planned"@ {
        Some(WireState::Planned)
    } else if name == "transferring"@ {
        Some(WireState::Transferring)
    } else if name == "paused"@ {
        Some(WireState::Paused)
    } else if name == "stalled"@ {
        Some(WireState::Stalled)
    } else if name == "verifying"@ {
        Some(WireState::Verifying)
    } else if name == "completed"@ {
        Some(WireState::Completed)
    } else if name == "failed"@ {
        Some(WireState::Failed)
    } else {
        None
    }
}

fn state_text(state: WireState) -> (name: &'static str)
    ensures
        name@ == state_name(state),
{
    match state {
        WireState::Submitted => "submitted",
        WireState::Probing => "probing",
        WireState::Planned => "planned",
        WireState::Transferring => "transferring",
        WireState::Paused => "paused",
        WireState::Stalled => "stalled",
        WireState::Verifying => "verifying",
        WireState::Completed => "completed",
        WireState::Failed => "failed",
    }
}

fn state_of(name: &str) -> (state: Option<WireState>)
    ensures
        state == named_state(name@),
{
    if text::same(name, "submitted") {
        Some(WireState::Submitted)
    } else if text::same(name, "probing") {
        Some(WireState::Probing)
    } else if text::same(name, "planned") {
        Some(WireState::Planned)
    } else if text::same(name, "transferring") {
        Some(WireState::Transferring)
    } else if text::same(name, "paused") {
        Some(WireState::Paused)
    } else if text::same(name, "stalled") {
        Some(WireState::Stalled)
    } else if text::same(name, "verifying") {
        Some(WireState::Verifying)
    } else if text::same(name, "completed") {
        Some(WireState::Completed)
    } else if text::same(name, "failed") {
        Some(WireState::Failed)
    } else {
        None
    }
}

/// The wire name of a state is read as that state.
pub proof fn law_state_names_round_trip(state: WireState)
    ensures
        named_state(state_name(state)) == Some(state),
{
    reveal_strlit("submitted");
    reveal_strlit("probing");
    reveal_strlit("planned");
    reveal_strlit("transferring");
    reveal_strlit("paused");
    reveal_strlit("stalled");
    reveal_strlit("verifying");
    reveal_strlit("completed");
    reveal_strlit("failed");
    assert("submitted"@.len() == 9);
    assert("probing"@.len() == 7);
    assert("planned"@.len() == 7);
    assert("transferring"@.len() == 12);
    assert("paused"@.len() == 6);
    assert("stalled"@.len() == 7);
    assert("verifying"@.len() == 9);
    assert("completed"@.len() == 9);
    assert("failed"@.len() == 6);
    assert("submitted"@[0] != "verifying"@[0]);
    assert("submitted"@[0] != "completed"@[0]);
    assert("probing"@[1] != "planned"@[1]);
    assert("probing"@[0] != "stalled"@[0]);
    assert("planned"@[0] != "stalled"@[0]);
    assert("paused"@[0] != "failed"@[0]);
    assert("verifying"@[0] != "completed"@[0]);
}

/// What a message holds, over sequences of characters.
pub type RequestView = Request<Seq<char>, Seq<char>, Seq<char>>;

/// What a result holds, over sequences of characters.
pub type ResponseView = Response<Seq<char>, Seq<char>, Seq<Seq<char>>>;

/// A value for an optional text.
pub open spec fn optional_text_tree(text: Option<Seq<char>>) -> JsonTree {
    match text {
        Some(text) => JsonTree::Text(text),
        None => JsonTree::Null,
    }
}

/// A value for an optional number.
pub open spec fn optional_number_tree(number: Option<u64>) -> JsonTree {
    match number {
        Some(number) => JsonTree::Unsigned(number),
        None => JsonTree::Null,
    }
}

/// The members of a hello.
pub open spec fn hello_pairs(params: HelloParams<Seq<char>, Seq<char>>) -> Seq<
    (Seq<char>, JsonTree),
> {
    seq![
        ("protocol_version"@, JsonTree::Unsigned(params.protocol_version as u64)),
        ("client"@, JsonTree::Text(params.client)),
        ("token"@, JsonTree::Text(params.token)),
    ]
}

/// The members of transfer options.
pub open spec fn options_pairs(options: AddOptions) -> Seq<(Seq<char>, JsonTree)> {
    seq![
        (
            "connections"@,
            optional_number_tree(
                match options.connections {
                    Some(count) => Some(count as u64),
                    None => None,
                },
            ),
        ),
    ]
}

/// The members of an add request.
pub open spec fn add_pairs(params: AddParams<Seq<char>, Seq<char>>) -> Seq<(Seq<char>, JsonTree)> {
    seq![
        ("protocol_version"@, JsonTree::Unsigned(params.protocol_version as u64)),
        ("url"@, JsonTree::Text(params.url)),
        ("target"@, optional_text_tree(params.target)),
        ("options"@, json::object(options_pairs(params.options))),
    ]
}

/// The members of a request about one download.
pub open spec fn id_pairs(params: IdParams<Seq<char>>) -> Seq<(Seq<char>, JsonTree)> {
    seq![
        ("protocol_version"@, JsonTree::Unsigned(params.protocol_version as u64)),
        ("id"@, JsonTree::Text(params.id)),
    ]
}

/// The members of a system request.
pub open spec fn version_pairs(params: VersionParams) -> Seq<(Seq<char>, JsonTree)> {
    seq![("protocol_version"@, JsonTree::Unsigned(params.protocol_version as u64))]
}

/// The method that a request calls.
pub open spec fn method_name(request: RequestView) -> Seq<char> {
    match request {
        Request::Hello(_) => "hello"@,
        Request::DownloadAdd(_) => "download.add"@,
        Request::DownloadGet(_) => "download.get"@,
        Request::DownloadResume(_) => "download.resume"@,
        Request::SystemStatus(_) => "system.status"@,
    }
}

/// The members of a request's parameters.
pub open spec fn params_pairs(request: RequestView) -> Seq<(Seq<char>, JsonTree)> {
    match request {
        Request::Hello(params) => hello_pairs(params),
        Request::DownloadAdd(params) => add_pairs(params),
        Request::DownloadGet(params) => id_pairs(params),
        Request::DownloadResume(params) => id_pairs(params),
        Request::SystemStatus(params) => version_pairs(params),
    }
}

/// The members of a request's envelope.
pub open spec fn request_pairs(id: u64, request: RequestView) -> Seq<(Seq<char>, JsonTree)> {
    seq![
        ("jsonrpc"@, JsonTree::Text("2.0"@)),
        ("id"@, JsonTree::Unsigned(id)),
        ("method"@, JsonTree::Text(method_name(request))),
        ("params"@, json::object(params_pairs(request))),
    ]
}

/// The payload that carries a request.
pub open spec fn request_tree(id: u64, request: RequestView) -> JsonTree {
    json::object(request_pairs(id, request))
}

/// Reads the parameters of a hello.
pub open spec fn read_hello(params: JsonTree) -> Option<RequestView> {
    match (
        params.number_of("protocol_version"@, u32::MAX as u64),
        params.text_of("client"@),
        params.text_of("token"@),
    ) {
        (Some(version), Some(client), Some(token)) if params.only_has(
            seq!["protocol_version"@, "client"@, "token"@],
        ) => Some(
            Request::Hello(HelloParams { protocol_version: version as u32, client, token }),
        ),
        _ => None,
    }
}

/// Reads transfer options.
pub open spec fn read_options(options: JsonTree) -> Option<AddOptions> {
    match options.optional_number("connections"@, u16::MAX as u64) {
        Some(count) if options.only_has(seq!["connections"@]) => Some(
            AddOptions {
                connections: match count {
                    Some(count) => Some(count as u16),
                    None => None,
                },
            },
        ),
        _ => None,
    }
}

/// Reads the parameters of an add request.
pub open spec fn read_add(params: JsonTree) -> Option<RequestView> {
    let options = match params.member("options"@) {
        Some(options) => read_options(options),
        None => None,
    };
    match (
        params.number_of("protocol_version"@, u32::MAX as u64),
        params.text_of("url"@),
        params.optional_text("target"@),
        options,
    ) {
        (Some(version), Some(url), Some(target), Some(options)) if params.only_has(
            seq!["protocol_version"@, "url"@, "target"@, "options"@],
        ) => Some(
            Request::DownloadAdd(
                AddParams { protocol_version: version as u32, url, target, options },
            ),
        ),
        _ => None,
    }
}

/// Reads a download identity.
pub open spec fn read_id(parent: JsonTree, name: Seq<char>) -> Option<Seq<char>> {
    match parent.text_of(name) {
        Some(id) if messages::valid_id(id) => Some(id),
        _ => None,
    }
}

/// Reads the parameters of a request about one download.
pub open spec fn read_id_params(params: JsonTree) -> Option<IdParams<Seq<char>>> {
    match (params.number_of("protocol_version"@, u32::MAX as u64), read_id(params, "id"@)) {
        (Some(version), Some(id)) if params.only_has(seq!["protocol_version"@, "id"@]) => Some(
            IdParams { protocol_version: version as u32, id },
        ),
        _ => None,
    }
}

/// Reads the parameters of a system request.
pub open spec fn read_version(params: JsonTree) -> Option<RequestView> {
    match params.number_of("protocol_version"@, u32::MAX as u64) {
        Some(version) if params.only_has(seq!["protocol_version"@]) => Some(
            Request::SystemStatus(VersionParams { protocol_version: version as u32 }),
        ),
        _ => None,
    }
}

/// Reads the parameters that a method takes.
pub open spec fn read_params(method: Seq<char>, params: JsonTree) -> Option<RequestView> {
    if method == "hello"@ {
        read_hello(params)
    } else if method == "download.add"@ {
        read_add(params)
    } else if method == "download.get"@ {
        match read_id_params(params) {
            Some(params) => Some(Request::DownloadGet(params)),
            None => None,
        }
    } else if method == "download.resume"@ {
        match read_id_params(params) {
            Some(params) => Some(Request::DownloadResume(params)),
            None => None,
        }
    } else if method == "system.status"@ {
        read_version(params)
    } else {
        None
    }
}

/// Reads a request's envelope and parameters.
pub open spec fn read_request(payload: JsonTree) -> Option<(u64, RequestView)> {
    match (
        payload.number_of("id"@, u64::MAX),
        payload.text_of("method"@),
        payload.member("params"@),
    ) {
        (Some(id), Some(method), Some(params)) if payload.text_of("jsonrpc"@) == Some("2.0"@)
            && payload.only_has(seq!["jsonrpc"@, "id"@, "method"@, "params"@]) =>
            match read_params(method, params) {
            Some(request) => Some((id, request)),
            None => None,
        },
        _ => None,
    }
}

/// A decoded request, over sequences of characters.
pub open spec fn request_seen(decoded: Option<(u64, Request)>) -> Option<(u64, RequestView)> {
    match decoded {
        Some((id, request)) => Some((id, request@)),
        None => None,
    }
}

/// The text of an optional parameter set.
pub open spec fn params_seen(request: Option<Request>) -> Option<RequestView> {
    match request {
        Some(request) => Some(request@),
        None => None,
    }
}

fn hello_from(params: &serde_json::Value) -> (request: Option<Request>)
    ensures
        params_seen(request) == read_hello(json::json_tree(*params)),
{
    let known: [&str; 3] = ["protocol_version", "client", "token"];
    proof {
        assert(json::literals(known@) =~= seq!["protocol_version"@, "client"@, "token"@]);
    }
    if !json::has_only(params, known.as_slice()) {
        return None;
    }
    match (
        json::number_of(params, "protocol_version", u32::MAX as u64),
        json::text_of(params, "client"),
        json::text_of(params, "token"),
    ) {
        (Some(version), Some(client), Some(token)) => Some(
            Request::Hello(
                HelloParams {
                    protocol_version: version as u32,
                    client: client.to_owned(),
                    token: SecretString::new(token.to_owned()),
                },
            ),
        ),
        _ => None,
    }
}

fn options_from(options: &serde_json::Value) -> (read: Option<AddOptions>)
    ensures
        read == read_options(json::json_tree(*options)),
{
    let known: [&str; 1] = ["connections"];
    proof {
        assert(json::literals(known@) =~= seq!["connections"@]);
    }
    if !json::has_only(options, known.as_slice()) {
        return None;
    }
    match json::optional_number(options, "connections", u16::MAX as u64) {
        Some(count) => {
            let connections: Option<u16> = match count {
                Some(count) => Some(count as u16),
                None => None,
            };
            Some(AddOptions { connections })
        },
        None => None,
    }
}

fn add_from(params: &serde_json::Value) -> (request: Option<Request>)
    ensures
        params_seen(request) == read_add(json::json_tree(*params)),
{
    let known: [&str; 4] = ["protocol_version", "url", "target", "options"];
    proof {
        assert(json::literals(known@) =~= seq![
            "protocol_version"@,
            "url"@,
            "target"@,
            "options"@,
        ]);
    }
    if !json::has_only(params, known.as_slice()) {
        return None;
    }
    let options: Option<AddOptions> = match json::member(params, "options") {
        Some(options) => options_from(options),
        None => None,
    };
    match (
        json::number_of(params, "protocol_version", u32::MAX as u64),
        json::text_of(params, "url"),
        json::optional_text(params, "target"),
        options,
    ) {
        (Some(version), Some(url), Some(target), Some(options)) => Some(
            Request::DownloadAdd(
                AddParams {
                    protocol_version: version as u32,
                    url: SecretString::new(url.to_owned()),
                    target,
                    options,
                },
            ),
        ),
        _ => None,
    }
}

fn id_from(parent: &serde_json::Value, name: &str) -> (id: Option<DownloadId>)
    ensures
        messages::optional_id(id) == read_id(json::json_tree(*parent), name@),
{
    match json::text_of(parent, name) {
        Some(raw) => match DownloadId::new(raw) {
            Ok(id) => Some(id),
            Err(_) => None,
        },
        None => None,
    }
}

fn id_params_from(params: &serde_json::Value) -> (read: Option<IdParams>)
    ensures
        (match read {
            Some(read) => Some(
                IdParams { protocol_version: read.protocol_version, id: read.id@ },
            ),
            None => None,
        }) == read_id_params(json::json_tree(*params)),
{
    let known: [&str; 2] = ["protocol_version", "id"];
    proof {
        assert(json::literals(known@) =~= seq!["protocol_version"@, "id"@]);
    }
    if !json::has_only(params, known.as_slice()) {
        return None;
    }
    match (json::number_of(params, "protocol_version", u32::MAX as u64), id_from(params, "id")) {
        (Some(version), Some(id)) => Some(IdParams { protocol_version: version as u32, id }),
        _ => None,
    }
}

fn version_from(params: &serde_json::Value) -> (request: Option<Request>)
    ensures
        params_seen(request) == read_version(json::json_tree(*params)),
{
    let known: [&str; 1] = ["protocol_version"];
    proof {
        assert(json::literals(known@) =~= seq!["protocol_version"@]);
    }
    if !json::has_only(params, known.as_slice()) {
        return None;
    }
    match json::number_of(params, "protocol_version", u32::MAX as u64) {
        Some(version) => Some(
            Request::SystemStatus(VersionParams { protocol_version: version as u32 }),
        ),
        None => None,
    }
}

fn params_from(method: &str, params: &serde_json::Value) -> (request: Option<Request>)
    ensures
        params_seen(request) == read_params(method@, json::json_tree(*params)),
{
    if text::same(method, "hello") {
        hello_from(params)
    } else if text::same(method, "download.add") {
        add_from(params)
    } else if text::same(method, "download.get") {
        match id_params_from(params) {
            Some(params) => Some(Request::DownloadGet(params)),
            None => None,
        }
    } else if text::same(method, "download.resume") {
        match id_params_from(params) {
            Some(params) => Some(Request::DownloadResume(params)),
            None => None,
        }
    } else if text::same(method, "system.status") {
        version_from(params)
    } else {
        None
    }
}

/// Read a request out of a parsed payload.
pub fn request_from(payload: &serde_json::Value) -> (decoded: Option<(u64, Request)>)
    ensures
        request_seen(decoded) == read_request(json::json_tree(*payload)),
{
    let known: [&str; 4] = ["jsonrpc", "id", "method", "params"];
    proof {
        assert(json::literals(known@) =~= seq!["jsonrpc"@, "id"@, "method"@, "params"@]);
    }
    if !json::has_only(payload, known.as_slice()) {
        return None;
    }
    match json::text_of(payload, "jsonrpc") {
        Some(version) => if !text::same(version, "2.0") {
            return None;
        },
        None => {
            return None;
        },
    }
    match (
        json::number_of(payload, "id", u64::MAX),
        json::text_of(payload, "method"),
        json::member(payload, "params"),
    ) {
        (Some(id), Some(method), Some(params)) => match params_from(method, params) {
            Some(request) => Some((id, request)),
            None => None,
        },
        _ => None,
    }
}

/// The members of a hello result.
pub open spec fn hello_result_pairs(result: HelloResult<Seq<char>, Seq<Seq<char>>>) -> Seq<
    (Seq<char>, JsonTree),
> {
    seq![
        ("protocol_version"@, JsonTree::Unsigned(result.protocol_version as u64)),
        ("daemon_version"@, JsonTree::Text(result.daemon_version)),
        ("capabilities"@, json::text_list(result.capabilities)),
    ]
}

/// The members of the result of a state-changing command.
pub open spec fn state_result_pairs(result: StateResult<Seq<char>>) -> Seq<(Seq<char>, JsonTree)> {
    seq![
        ("protocol_version"@, JsonTree::Unsigned(result.protocol_version as u64)),
        ("id"@, JsonTree::Text(result.id)),
        ("state"@, JsonTree::Text(state_name(result.state))),
    ]
}

/// The members of what is told of a download.
pub open spec fn view_pairs(view: DownloadView<Seq<char>, Seq<char>>) -> Seq<
    (Seq<char>, JsonTree),
> {
    seq![
        ("protocol_version"@, JsonTree::Unsigned(view.protocol_version as u64)),
        ("id"@, JsonTree::Text(view.id)),
        ("state"@, JsonTree::Text(state_name(view.state))),
        ("covered"@, JsonTree::Unsigned(view.covered)),
        ("total"@, optional_number_tree(view.total)),
        ("error_kind"@, optional_text_tree(view.error_kind)),
    ]
}

/// The members of a daemon status.
pub open spec fn status_pairs(status: SystemStatus<Seq<char>>) -> Seq<(Seq<char>, JsonTree)> {
    seq![
        ("protocol_version"@, JsonTree::Unsigned(status.protocol_version as u64)),
        ("version"@, JsonTree::Text(status.version)),
        ("uptime_seconds"@, JsonTree::Unsigned(status.uptime_seconds)),
        ("active"@, JsonTree::Unsigned(status.active as u64)),
        ("queued"@, JsonTree::Unsigned(status.queued as u64)),
        ("throughput"@, JsonTree::Unsigned(status.throughput)),
    ]
}

/// The members of failure data.
pub open spec fn data_pairs(data: ErrorData<Seq<char>, Seq<char>>) -> Seq<(Seq<char>, JsonTree)> {
    seq![
        ("protocol_version"@, JsonTree::Unsigned(data.protocol_version as u64)),
        ("kind"@, JsonTree::Text(data.kind)),
        ("download_id"@, optional_text_tree(data.download_id)),
        ("recoverable"@, JsonTree::Truth(data.recoverable)),
        ("suggestion"@, optional_text_tree(data.suggestion)),
    ]
}

/// The members of a failure.
pub open spec fn error_pairs(error: RpcError<Seq<char>, Seq<char>>) -> Seq<(Seq<char>, JsonTree)> {
    seq![
        ("code"@, json::whole(error.code as i64)),
        ("message"@, JsonTree::Text(error.message)),
        ("data"@, json::object(data_pairs(error.data))),
    ]
}

/// The members of a result or a failure.
pub open spec fn outcome_pairs(response: ResponseView) -> Seq<(Seq<char>, JsonTree)> {
    match response {
        Response::Hello(result) => hello_result_pairs(result),
        Response::Added(result) => state_result_pairs(result),
        Response::Download(view) => view_pairs(view),
        Response::Resumed(result) => state_result_pairs(result),
        Response::Status(status) => status_pairs(status),
        Response::Error(error) => error_pairs(error),
    }
}

/// The members of a response's envelope.
pub open spec fn response_pairs(id: u64, response: ResponseView) -> Seq<(Seq<char>, JsonTree)> {
    seq![
        ("jsonrpc"@, JsonTree::Text("2.0"@)),
        ("id"@, JsonTree::Unsigned(id)),
        (
            if response is Error {
                "error"@
            } else {
                "result"@
            },
            json::object(outcome_pairs(response)),
        ),
    ]
}

/// The payload that carries a response.
pub open spec fn response_tree(id: u64, response: ResponseView) -> JsonTree {
    json::object(response_pairs(id, response))
}

/// Reads a hello result.
pub open spec fn read_hello_result(result: JsonTree) -> Option<ResponseView> {
    let capabilities = match result.member("capabilities"@) {
        Some(member) => match member.items() {
            Some(items) => json::all_texts(items),
            None => None,
        },
        None => None,
    };
    match (
        result.number_of("protocol_version"@, u32::MAX as u64),
        result.text_of("daemon_version"@),
        capabilities,
    ) {
        (Some(version), Some(daemon_version), Some(capabilities)) if result.only_has(
            seq!["protocol_version"@, "daemon_version"@, "capabilities"@],
        ) => Some(
            Response::Hello(
                HelloResult { protocol_version: version as u32, daemon_version, capabilities },
            ),
        ),
        _ => None,
    }
}

/// Reads a lifecycle state.
pub open spec fn read_state(parent: JsonTree) -> Option<WireState> {
    match parent.text_of("state"@) {
        Some(name) => named_state(name),
        None => None,
    }
}

/// Reads the result of a state-changing command.
pub open spec fn read_state_result(result: JsonTree) -> Option<StateResult<Seq<char>>> {
    match (
        result.number_of("protocol_version"@, u32::MAX as u64),
        read_id(result, "id"@),
        read_state(result),
    ) {
        (Some(version), Some(id), Some(state)) if result.only_has(
            seq!["protocol_version"@, "id"@, "state"@],
        ) => Some(StateResult { protocol_version: version as u32, id, state }),
        _ => None,
    }
}

/// Reads what is told of a download.
pub open spec fn read_view(result: JsonTree) -> Option<ResponseView> {
    match (
        result.number_of("protocol_version"@, u32::MAX as u64),
        read_id(result, "id"@),
        read_state(result),
        result.number_of("covered"@, u64::MAX),
        result.optional_number("total"@, u64::MAX),
        result.optional_text("error_kind"@),
    ) {
        (
            Some(version),
            Some(id),
            Some(state),
            Some(covered),
            Some(total),
            Some(error_kind),
        ) if result.only_has(
            seq!["protocol_version"@, "id"@, "state"@, "covered"@, "total"@, "error_kind"@],
        ) => Some(
            Response::Download(
                DownloadView {
                    protocol_version: version as u32,
                    id,
                    state,
                    covered,
                    total,
                    error_kind,
                },
            ),
        ),
        _ => None,
    }
}

/// Reads a daemon status.
pub open spec fn read_status(result: JsonTree) -> Option<ResponseView> {
    match (
        result.number_of("protocol_version"@, u32::MAX as u64),
        result.text_of("version"@),
        result.number_of("uptime_seconds"@, u64::MAX),
        result.number_of("active"@, u32::MAX as u64),
        result.number_of("queued"@, u32::MAX as u64),
        result.number_of("throughput"@, u64::MAX),
    ) {
        (
            Some(protocol_version),
            Some(version),
            Some(uptime_seconds),
            Some(active),
            Some(queued),
            Some(throughput),
        ) if result.only_has(
            seq![
                "protocol_version"@,
                "version"@,
                "uptime_seconds"@,
                "active"@,
                "queued"@,
                "throughput"@,
            ],
        ) => Some(
            Response::Status(
                SystemStatus {
                    protocol_version: protocol_version as u32,
                    version,
                    uptime_seconds,
                    active: active as u32,
                    queued: queued as u32,
                    throughput,
                },
            ),
        ),
        _ => None,
    }
}

/// Reads an optional identity: absent and `null` both say that there is none.
pub open spec fn read_optional_id(parent: JsonTree, name: Seq<char>) -> Option<
    Option<Seq<char>>,
> {
    match parent.optional_text(name) {
        Some(Some(id)) => if messages::valid_id(id) {
            Some(Some(id))
        } else {
            None
        },
        Some(None) => Some(None),
        None => None,
    }
}

/// Reads failure data.
pub open spec fn read_data(data: JsonTree) -> Option<ErrorData<Seq<char>, Seq<char>>> {
    let recoverable = match data.member("recoverable"@) {
        Some(member) => member.truth(),
        None => None,
    };
    match (
        data.number_of("protocol_version"@, u32::MAX as u64),
        data.text_of("kind"@),
        read_optional_id(data, "download_id"@),
        recoverable,
        data.optional_text("suggestion"@),
    ) {
        (
            Some(version),
            Some(kind),
            Some(download_id),
            Some(recoverable),
            Some(suggestion),
        ) if data.only_has(
            seq!["protocol_version"@, "kind"@, "download_id"@, "recoverable"@, "suggestion"@],
        ) => Some(
            ErrorData {
                protocol_version: version as u32,
                kind,
                download_id,
                recoverable,
                suggestion,
            },
        ),
        _ => None,
    }
}

/// Reads an application error code.
pub open spec fn read_code(error: JsonTree) -> Option<i32> {
    match error.member("code"@) {
        Some(member) => match member.signed() {
            Some(code) if i32::MIN <= code <= i32::MAX => Some(code as i32),
            _ => None,
        },
        None => None,
    }
}

/// Reads a failure.
pub open spec fn read_error(error: JsonTree) -> Option<ResponseView> {
    let data = match error.member("data"@) {
        Some(data) => read_data(data),
        None => None,
    };
    match (read_code(error), error.text_of("message"@), data) {
        (Some(code), Some(message), Some(data)) if error.only_has(
            seq!["code"@, "message"@, "data"@],
        ) => Some(Response::Error(RpcError { code, message, data })),
        _ => None,
    }
}

/// Reads the result that a request expects.
pub open spec fn read_result(expected: ResponseKind, result: JsonTree) -> Option<ResponseView> {
    match expected {
        ResponseKind::Hello => read_hello_result(result),
        ResponseKind::Added => match read_state_result(result) {
            Some(result) => Some(Response::Added(result)),
            None => None,
        },
        ResponseKind::Download => read_view(result),
        ResponseKind::Resumed => match read_state_result(result) {
            Some(result) => Some(Response::Resumed(result)),
            None => None,
        },
        ResponseKind::Status => read_status(result),
    }
}

/// Reads a response's envelope and its result or failure. A response has one or the other.
pub open spec fn read_response(payload: JsonTree, expected: ResponseKind) -> Option<
    (u64, ResponseView),
> {
    let outcome = match (payload.member("result"@), payload.member("error"@)) {
        (Some(result), None) => read_result(expected, result),
        (None, Some(error)) => read_error(error),
        _ => None,
    };
    match (payload.number_of("id"@, u64::MAX), outcome) {
        (Some(id), Some(response)) if payload.text_of("jsonrpc"@) == Some("2.0"@)
            && payload.only_has(seq!["jsonrpc"@, "id"@, "result"@, "error"@]) => Some(
            (id, response),
        ),
        _ => None,
    }
}

/// A read result, over sequences of characters.
pub open spec fn response_seen(response: Option<Response>) -> Option<ResponseView> {
    match response {
        Some(response) => Some(response@),
        None => None,
    }
}

fn hello_result_from(result: &serde_json::Value) -> (response: Option<Response>)
    ensures
        response_seen(response) == read_hello_result(json::json_tree(*result)),
{
    let known: [&str; 3] = ["protocol_version", "daemon_version", "capabilities"];
    proof {
        assert(json::literals(known@) =~= seq![
            "protocol_version"@,
            "daemon_version"@,
            "capabilities"@,
        ]);
    }
    if !json::has_only(result, known.as_slice()) {
        return None;
    }
    match (
        json::number_of(result, "protocol_version", u32::MAX as u64),
        json::text_of(result, "daemon_version"),
        json::texts_of(result, "capabilities"),
    ) {
        (Some(version), Some(daemon_version), Some(capabilities)) => Some(
            Response::Hello(
                HelloResult {
                    protocol_version: version as u32,
                    daemon_version: daemon_version.to_owned(),
                    capabilities,
                },
            ),
        ),
        _ => None,
    }
}

fn state_from(parent: &serde_json::Value) -> (state: Option<WireState>)
    ensures
        state == read_state(json::json_tree(*parent)),
{
    match json::text_of(parent, "state") {
        Some(name) => state_of(name),
        None => None,
    }
}

fn state_result_from(result: &serde_json::Value) -> (read: Option<StateResult>)
    ensures
        (match read {
            Some(read) => Some(
                StateResult {
                    protocol_version: read.protocol_version,
                    id: read.id@,
                    state: read.state,
                },
            ),
            None => None,
        }) == read_state_result(json::json_tree(*result)),
{
    let known: [&str; 3] = ["protocol_version", "id", "state"];
    proof {
        assert(json::literals(known@) =~= seq!["protocol_version"@, "id"@, "state"@]);
    }
    if !json::has_only(result, known.as_slice()) {
        return None;
    }
    match (
        json::number_of(result, "protocol_version", u32::MAX as u64),
        id_from(result, "id"),
        state_from(result),
    ) {
        (Some(version), Some(id), Some(state)) => Some(
            StateResult { protocol_version: version as u32, id, state },
        ),
        _ => None,
    }
}

fn view_from(result: &serde_json::Value) -> (response: Option<Response>)
    ensures
        response_seen(response) == read_view(json::json_tree(*result)),
{
    let known: [&str; 6] = ["protocol_version", "id", "state", "covered", "total", "error_kind"];
    proof {
        assert(json::literals(known@) =~= seq![
            "protocol_version"@,
            "id"@,
            "state"@,
            "covered"@,
            "total"@,
            "error_kind"@,
        ]);
    }
    if !json::has_only(result, known.as_slice()) {
        return None;
    }
    match (
        json::number_of(result, "protocol_version", u32::MAX as u64),
        id_from(result, "id"),
        state_from(result),
        json::number_of(result, "covered", u64::MAX),
        json::optional_number(result, "total", u64::MAX),
        json::optional_text(result, "error_kind"),
    ) {
        (
            Some(version),
            Some(id),
            Some(state),
            Some(covered),
            Some(total),
            Some(error_kind),
        ) => Some(
            Response::Download(
                DownloadView {
                    protocol_version: version as u32,
                    id,
                    state,
                    covered,
                    total,
                    error_kind,
                },
            ),
        ),
        _ => None,
    }
}

fn status_from(result: &serde_json::Value) -> (response: Option<Response>)
    ensures
        response_seen(response) == read_status(json::json_tree(*result)),
{
    let known: [&str; 6] = [
        "protocol_version",
        "version",
        "uptime_seconds",
        "active",
        "queued",
        "throughput",
    ];
    proof {
        assert(json::literals(known@) =~= seq![
            "protocol_version"@,
            "version"@,
            "uptime_seconds"@,
            "active"@,
            "queued"@,
            "throughput"@,
        ]);
    }
    if !json::has_only(result, known.as_slice()) {
        return None;
    }
    match (
        json::number_of(result, "protocol_version", u32::MAX as u64),
        json::text_of(result, "version"),
        json::number_of(result, "uptime_seconds", u64::MAX),
        json::number_of(result, "active", u32::MAX as u64),
        json::number_of(result, "queued", u32::MAX as u64),
        json::number_of(result, "throughput", u64::MAX),
    ) {
        (
            Some(protocol_version),
            Some(version),
            Some(uptime_seconds),
            Some(active),
            Some(queued),
            Some(throughput),
        ) => Some(
            Response::Status(
                SystemStatus {
                    protocol_version: protocol_version as u32,
                    version: version.to_owned(),
                    uptime_seconds,
                    active: active as u32,
                    queued: queued as u32,
                    throughput,
                },
            ),
        ),
        _ => None,
    }
}

fn optional_id_from(parent: &serde_json::Value, name: &str) -> (id: Option<Option<DownloadId>>)
    ensures
        (match id {
            Some(id) => Some(messages::optional_id(id)),
            None => None,
        }) == read_optional_id(json::json_tree(*parent), name@),
{
    match json::optional_text(parent, name) {
        Some(Some(raw)) => match DownloadId::new(raw.as_str()) {
            Ok(id) => Some(Some(id)),
            Err(_) => None,
        },
        Some(None) => Some(None),
        None => None,
    }
}

fn data_from(data: &serde_json::Value) -> (read: Option<ErrorData>)
    ensures
        (match read {
            Some(read) => Some(
                ErrorData {
                    protocol_version: read.protocol_version,
                    kind: read.kind@,
                    download_id: messages::optional_id(read.download_id),
                    recoverable: read.recoverable,
                    suggestion: text::owned(read.suggestion),
                },
            ),
            None => None,
        }) == read_data(json::json_tree(*data)),
{
    let known: [&str; 5] = ["protocol_version", "kind", "download_id", "recoverable", "suggestion"];
    proof {
        assert(json::literals(known@) =~= seq![
            "protocol_version"@,
            "kind"@,
            "download_id"@,
            "recoverable"@,
            "suggestion"@,
        ]);
    }
    if !json::has_only(data, known.as_slice()) {
        return None;
    }
    match (
        json::number_of(data, "protocol_version", u32::MAX as u64),
        json::text_of(data, "kind"),
        optional_id_from(data, "download_id"),
        json::truth_of(data, "recoverable"),
        json::optional_text(data, "suggestion"),
    ) {
        (
            Some(version),
            Some(kind),
            Some(download_id),
            Some(recoverable),
            Some(suggestion),
        ) => Some(
            ErrorData {
                protocol_version: version as u32,
                kind: kind.to_owned(),
                download_id,
                recoverable,
                suggestion,
            },
        ),
        _ => None,
    }
}

fn code_from(error: &serde_json::Value) -> (code: Option<i32>)
    ensures
        code == read_code(json::json_tree(*error)),
{
    match json::signed_of(error, "code") {
        Some(code) => if i32::MIN as i64 <= code && code <= i32::MAX as i64 {
            Some(code as i32)
        } else {
            None
        },
        None => None,
    }
}

fn error_from(error: &serde_json::Value) -> (response: Option<Response>)
    ensures
        response_seen(response) == read_error(json::json_tree(*error)),
{
    let known: [&str; 3] = ["code", "message", "data"];
    proof {
        assert(json::literals(known@) =~= seq!["code"@, "message"@, "data"@]);
    }
    if !json::has_only(error, known.as_slice()) {
        return None;
    }
    let data: Option<ErrorData> = match json::member(error, "data") {
        Some(data) => data_from(data),
        None => None,
    };
    match (code_from(error), json::text_of(error, "message"), data) {
        (Some(code), Some(message), Some(data)) => Some(
            Response::Error(RpcError { code, message: message.to_owned(), data }),
        ),
        _ => None,
    }
}

fn result_from(expected: ResponseKind, result: &serde_json::Value) -> (response: Option<Response>)
    ensures
        response_seen(response) == read_result(expected, json::json_tree(*result)),
{
    match expected {
        ResponseKind::Hello => hello_result_from(result),
        ResponseKind::Added => match state_result_from(result) {
            Some(result) => Some(Response::Added(result)),
            None => None,
        },
        ResponseKind::Download => view_from(result),
        ResponseKind::Resumed => match state_result_from(result) {
            Some(result) => Some(Response::Resumed(result)),
            None => None,
        },
        ResponseKind::Status => status_from(result),
    }
}

/// Read a response out of a parsed payload.
pub fn response_from(payload: &serde_json::Value, expected: ResponseKind) -> (decoded: Option<
    (u64, Response),
>)
    ensures
        (match decoded {
            Some((id, response)) => Some((id, response@)),
            None => None,
        }) == read_response(json::json_tree(*payload), expected),
{
    let known: [&str; 4] = ["jsonrpc", "id", "result", "error"];
    proof {
        assert(json::literals(known@) =~= seq!["jsonrpc"@, "id"@, "result"@, "error"@]);
    }
    if !json::has_only(payload, known.as_slice()) {
        return None;
    }
    match json::text_of(payload, "jsonrpc") {
        Some(version) => if !text::same(version, "2.0") {
            return None;
        },
        None => {
            return None;
        },
    }
    let outcome: Option<Response> = match (
        json::member(payload, "result"),
        json::member(payload, "error"),
    ) {
        (Some(result), None) => result_from(expected, result),
        (None, Some(error)) => error_from(error),
        _ => None,
    };
    match (json::number_of(payload, "id", u64::MAX), outcome) {
        (Some(id), Some(response)) => Some((id, response)),
        _ => None,
    }
}

fn hello_value(params: &HelloParams) -> (value: serde_json::Value)
    ensures
        json::json_tree(value) == json::object(hello_pairs(HelloParams { protocol_version: params.protocol_version, client: params.client@, token: params.token@ })),
{
    let mut pairs: Vec<(String, serde_json::Value)> = Vec::new();
    pairs.push(("protocol_version".to_owned(), json::unsigned_value(params.protocol_version as u64)));
    pairs.push(("client".to_owned(), json::text_value(params.client.as_str())));
    pairs.push(("token".to_owned(), json::text_value(params.token.expose())));
    proof {
        assert(json::pair_trees(pairs@) =~= hello_pairs(HelloParams { protocol_version: params.protocol_version, client: params.client@, token: params.token@ }));
        lemma_hello(HelloParams { protocol_version: params.protocol_version, client: params.client@, token: params.token@ });
    }
    json::object_value(pairs)
}

fn options_value(options: &AddOptions) -> (value: serde_json::Value)
    ensures
        json::json_tree(value) == json::object(options_pairs(*options)),
{
    let mut pairs: Vec<(String, serde_json::Value)> = Vec::new();
    let connections: Option<u64> = match options.connections {
        Some(count) => Some(count as u64),
        None => None,
    };
    pairs.push(("connections".to_owned(), json::optional_number_value(connections)));
    proof {
        assert(json::pair_trees(pairs@) =~= options_pairs(*options));
        lemma_options(*options);
    }
    json::object_value(pairs)
}

fn add_value(params: &AddParams) -> (value: serde_json::Value)
    ensures
        json::json_tree(value) == json::object(add_pairs(AddParams { protocol_version: params.protocol_version, url: params.url@, target: text::owned(params.target), options: params.options })),
{
    let mut pairs: Vec<(String, serde_json::Value)> = Vec::new();
    pairs.push(("protocol_version".to_owned(), json::unsigned_value(params.protocol_version as u64)));
    pairs.push(("url".to_owned(), json::text_value(params.url.expose())));
    pairs.push(("target".to_owned(), json::optional_text_value(text::borrowed(&params.target))));
    pairs.push(("options".to_owned(), options_value(&params.options)));
    proof {
        assert(json::pair_trees(pairs@) =~= add_pairs(AddParams { protocol_version: params.protocol_version, url: params.url@, target: text::owned(params.target), options: params.options }));
        lemma_add(AddParams { protocol_version: params.protocol_version, url: params.url@, target: text::owned(params.target), options: params.options });
    }
    json::object_value(pairs)
}

fn id_value(params: &IdParams) -> (value: serde_json::Value)
    ensures
        json::json_tree(value) == json::object(id_pairs(IdParams { protocol_version: params.protocol_version, id: params.id@ })),
        messages::valid_id(params.id@),
{
    let mut pairs: Vec<(String, serde_json::Value)> = Vec::new();
    pairs.push(("protocol_version".to_owned(), json::unsigned_value(params.protocol_version as u64)));
    pairs.push(("id".to_owned(), json::text_value(params.id.as_str())));
    proof {
        assert(json::pair_trees(pairs@) =~= id_pairs(IdParams { protocol_version: params.protocol_version, id: params.id@ }));
        lemma_id_params(IdParams { protocol_version: params.protocol_version, id: params.id@ });
    }
    json::object_value(pairs)
}

fn version_value(params: &VersionParams) -> (value: serde_json::Value)
    ensures
        json::json_tree(value) == json::object(version_pairs(*params)),
{
    let mut pairs: Vec<(String, serde_json::Value)> = Vec::new();
    pairs.push(("protocol_version".to_owned(), json::unsigned_value(params.protocol_version as u64)));
    proof {
        assert(json::pair_trees(pairs@) =~= version_pairs(*params));
        lemma_version(*params);
    }
    json::object_value(pairs)
}

fn method_text(request: &Request) -> (name: &'static str)
    ensures
        name@ == method_name(request@),
{
    match request {
        Request::Hello(_) => "hello",
        Request::DownloadAdd(_) => "download.add",
        Request::DownloadGet(_) => "download.get",
        Request::DownloadResume(_) => "download.resume",
        Request::SystemStatus(_) => "system.status",
    }
}

/// Builds the payload that carries a request.
pub fn request_value(id: u64, request: &Request) -> (value: serde_json::Value)
    ensures
        json::json_tree(value) == request_tree(id, request@),
        request@.wf(),
{
    let params: serde_json::Value = match request {
        Request::Hello(params) => hello_value(params),
        Request::DownloadAdd(params) => add_value(params),
        Request::DownloadGet(params) => id_value(params),
        Request::DownloadResume(params) => id_value(params),
        Request::SystemStatus(params) => version_value(params),
    };
    let mut pairs: Vec<(String, serde_json::Value)> = Vec::new();
    pairs.push(("jsonrpc".to_owned(), json::text_value("2.0")));
    pairs.push(("id".to_owned(), json::unsigned_value(id)));
    pairs.push(("method".to_owned(), json::text_value(method_text(request))));
    pairs.push(("params".to_owned(), params));
    proof {
        assert(json::pair_trees(pairs@) =~= request_pairs(id, request@));
        lemma_request_names(id, request@);
    }
    json::object_value(pairs)
}

fn hello_result_value(result: &HelloResult) -> (value: serde_json::Value)
    ensures
        json::json_tree(value) == json::object(hello_result_pairs(HelloResult { protocol_version: result.protocol_version, daemon_version: result.daemon_version@, capabilities: remote::texts(result.capabilities@) })),
{
    let mut pairs: Vec<(String, serde_json::Value)> = Vec::new();
    pairs.push(("protocol_version".to_owned(), json::unsigned_value(result.protocol_version as u64)));
    pairs.push(("daemon_version".to_owned(), json::text_value(result.daemon_version.as_str())));
    pairs.push(("capabilities".to_owned(), json::text_list_value(&result.capabilities)));
    proof {
        assert(json::pair_trees(pairs@) =~= hello_result_pairs(HelloResult { protocol_version: result.protocol_version, daemon_version: result.daemon_version@, capabilities: remote::texts(result.capabilities@) }));
        lemma_hello_result(HelloResult { protocol_version: result.protocol_version, daemon_version: result.daemon_version@, capabilities: remote::texts(result.capabilities@) });
    }
    json::object_value(pairs)
}

fn state_result_value(result: &StateResult) -> (value: serde_json::Value)
    ensures
        json::json_tree(value) == json::object(state_result_pairs(StateResult { protocol_version: result.protocol_version, id: result.id@, state: result.state })),
        messages::valid_id(result.id@),
{
    let mut pairs: Vec<(String, serde_json::Value)> = Vec::new();
    pairs.push(("protocol_version".to_owned(), json::unsigned_value(result.protocol_version as u64)));
    pairs.push(("id".to_owned(), json::text_value(result.id.as_str())));
    pairs.push(("state".to_owned(), json::text_value(state_text(result.state))));
    proof {
        assert(json::pair_trees(pairs@) =~= state_result_pairs(StateResult { protocol_version: result.protocol_version, id: result.id@, state: result.state }));
        lemma_state_result(StateResult { protocol_version: result.protocol_version, id: result.id@, state: result.state });
    }
    json::object_value(pairs)
}

fn view_value(view: &DownloadView) -> (value: serde_json::Value)
    ensures
        json::json_tree(value) == json::object(view_pairs(DownloadView { protocol_version: view.protocol_version, id: view.id@, state: view.state, covered: view.covered, total: view.total, error_kind: text::owned(view.error_kind) })),
        messages::valid_id(view.id@),
{
    let mut pairs: Vec<(String, serde_json::Value)> = Vec::new();
    pairs.push(("protocol_version".to_owned(), json::unsigned_value(view.protocol_version as u64)));
    pairs.push(("id".to_owned(), json::text_value(view.id.as_str())));
    pairs.push(("state".to_owned(), json::text_value(state_text(view.state))));
    pairs.push(("covered".to_owned(), json::unsigned_value(view.covered)));
    pairs.push(("total".to_owned(), json::optional_number_value(view.total)));
    pairs.push(("error_kind".to_owned(), json::optional_text_value(text::borrowed(&view.error_kind))));
    proof {
        assert(json::pair_trees(pairs@) =~= view_pairs(DownloadView { protocol_version: view.protocol_version, id: view.id@, state: view.state, covered: view.covered, total: view.total, error_kind: text::owned(view.error_kind) }));
        lemma_view(DownloadView { protocol_version: view.protocol_version, id: view.id@, state: view.state, covered: view.covered, total: view.total, error_kind: text::owned(view.error_kind) });
    }
    json::object_value(pairs)
}

fn status_value(status: &SystemStatus) -> (value: serde_json::Value)
    ensures
        json::json_tree(value) == json::object(status_pairs(SystemStatus { protocol_version: status.protocol_version, version: status.version@, uptime_seconds: status.uptime_seconds, active: status.active, queued: status.queued, throughput: status.throughput })),
{
    let mut pairs: Vec<(String, serde_json::Value)> = Vec::new();
    pairs.push(("protocol_version".to_owned(), json::unsigned_value(status.protocol_version as u64)));
    pairs.push(("version".to_owned(), json::text_value(status.version.as_str())));
    pairs.push(("uptime_seconds".to_owned(), json::unsigned_value(status.uptime_seconds)));
    pairs.push(("active".to_owned(), json::unsigned_value(status.active as u64)));
    pairs.push(("queued".to_owned(), json::unsigned_value(status.queued as u64)));
    pairs.push(("throughput".to_owned(), json::unsigned_value(status.throughput)));
    proof {
        assert(json::pair_trees(pairs@) =~= status_pairs(SystemStatus { protocol_version: status.protocol_version, version: status.version@, uptime_seconds: status.uptime_seconds, active: status.active, queued: status.queued, throughput: status.throughput }));
        lemma_status(SystemStatus { protocol_version: status.protocol_version, version: status.version@, uptime_seconds: status.uptime_seconds, active: status.active, queued: status.queued, throughput: status.throughput });
    }
    json::object_value(pairs)
}

fn data_value(data: &ErrorData) -> (value: serde_json::Value)
    ensures
        json::json_tree(value) == json::object(data_pairs(ErrorData { protocol_version: data.protocol_version, kind: data.kind@, download_id: messages::optional_id(data.download_id), recoverable: data.recoverable, suggestion: text::owned(data.suggestion) })),
        data.download_id is Some ==> messages::valid_id(data.download_id->0@),
{
    let mut pairs: Vec<(String, serde_json::Value)> = Vec::new();
    let download_id: Option<&str> = match &data.download_id {
        Some(id) => Some(id.as_str()),
        None => None,
    };
    pairs.push(("protocol_version".to_owned(), json::unsigned_value(data.protocol_version as u64)));
    pairs.push(("kind".to_owned(), json::text_value(data.kind.as_str())));
    pairs.push(("download_id".to_owned(), json::optional_text_value(download_id)));
    pairs.push(("recoverable".to_owned(), json::truth_value(data.recoverable)));
    pairs.push(("suggestion".to_owned(), json::optional_text_value(text::borrowed(&data.suggestion))));
    proof {
        assert(json::pair_trees(pairs@) =~= data_pairs(ErrorData { protocol_version: data.protocol_version, kind: data.kind@, download_id: messages::optional_id(data.download_id), recoverable: data.recoverable, suggestion: text::owned(data.suggestion) }));
        lemma_data(ErrorData { protocol_version: data.protocol_version, kind: data.kind@, download_id: messages::optional_id(data.download_id), recoverable: data.recoverable, suggestion: text::owned(data.suggestion) });
    }
    json::object_value(pairs)
}

fn error_value(error: &RpcError) -> (value: serde_json::Value)
    ensures
        json::json_tree(value) == json::object(
            error_pairs(
                RpcError {
                    code: error.code,
                    message: error.message@,
                    data: ErrorData {
                        protocol_version: error.data.protocol_version,
                        kind: error.data.kind@,
                        download_id: messages::optional_id(error.data.download_id),
                        recoverable: error.data.recoverable,
                        suggestion: text::owned(error.data.suggestion),
                    },
                },
            ),
        ),
        error.data.download_id is Some ==> messages::valid_id(error.data.download_id->0@),
{
    let mut pairs: Vec<(String, serde_json::Value)> = Vec::new();
    pairs.push(("code".to_owned(), json::signed_value(error.code as i64)));
    pairs.push(("message".to_owned(), json::text_value(error.message.as_str())));
    pairs.push(("data".to_owned(), data_value(&error.data)));
    proof {
        assert(json::pair_trees(pairs@) =~= error_pairs(
            RpcError {
                code: error.code,
                message: error.message@,
                data: ErrorData {
                    protocol_version: error.data.protocol_version,
                    kind: error.data.kind@,
                    download_id: messages::optional_id(error.data.download_id),
                    recoverable: error.data.recoverable,
                    suggestion: text::owned(error.data.suggestion),
                },
            },
        ));
        lemma_error(
            RpcError {
                code: error.code,
                message: error.message@,
                data: ErrorData {
                    protocol_version: error.data.protocol_version,
                    kind: error.data.kind@,
                    download_id: messages::optional_id(error.data.download_id),
                    recoverable: error.data.recoverable,
                    suggestion: text::owned(error.data.suggestion),
                },
            },
        );
    }
    json::object_value(pairs)
}

/// Builds the payload that carries a response.
pub fn response_value(id: u64, response: &Response) -> (value: serde_json::Value)
    ensures
        json::json_tree(value) == response_tree(id, response@),
        response@.wf(),
{
    let outcome: serde_json::Value = match response {
        Response::Hello(result) => hello_result_value(result),
        Response::Added(result) => state_result_value(result),
        Response::Download(view) => view_value(view),
        Response::Resumed(result) => state_result_value(result),
        Response::Status(status) => status_value(status),
        Response::Error(error) => error_value(error),
    };
    let name: &'static str = match response {
        Response::Error(_) => "error",
        _ => "result",
    };
    let mut pairs: Vec<(String, serde_json::Value)> = Vec::new();
    pairs.push(("jsonrpc".to_owned(), json::text_value("2.0")));
    pairs.push(("id".to_owned(), json::unsigned_value(id)));
    pairs.push((name.to_owned(), outcome));
    proof {
        assert(json::pair_trees(pairs@) =~= response_pairs(id, response@));
        lemma_response_names(id, response@);
    }
    json::object_value(pairs)
}

proof fn lemma_hello(params: HelloParams<Seq<char>, Seq<char>>)
    ensures
        json::distinct(hello_pairs(params)),
        read_hello(json::object(hello_pairs(params))) == Some(RequestView::Hello(params)),
        json::fits(json::object(hello_pairs(params)), 3),
{
    let pairs = hello_pairs(params);
    let known = seq!["protocol_version"@, "client"@, "token"@];
    reveal_strlit("protocol_version");
    reveal_strlit("client");
    reveal_strlit("token");
    assert("protocol_version"@.len() == 16);
    assert("client"@.len() == 6);
    assert("token"@.len() == 5);
    assert(json::distinct(pairs));
    json::lemma_members(pairs, known);
    assert(pairs[0].0 == "protocol_version"@);
    assert(pairs[1].0 == "client"@);
    assert(pairs[2].0 == "token"@);
    json::lemma_object_fits(pairs, 3);
}

proof fn lemma_options(options: AddOptions)
    ensures
        json::distinct(options_pairs(options)),
        read_options(json::object(options_pairs(options))) == Some(options),
        json::fits(json::object(options_pairs(options)), 2),
{
    let pairs = options_pairs(options);
    let known = seq!["connections"@];
    reveal_strlit("connections");
    assert("connections"@.len() == 11);
    assert(json::distinct(pairs));
    json::lemma_members(pairs, known);
    assert(pairs[0].0 == "connections"@);
    json::lemma_object_fits(pairs, 2);
}

proof fn lemma_add(params: AddParams<Seq<char>, Seq<char>>)
    ensures
        json::distinct(add_pairs(params)),
        read_add(json::object(add_pairs(params))) == Some(RequestView::DownloadAdd(params)),
        json::fits(json::object(add_pairs(params)), 3),
{
    let pairs = add_pairs(params);
    let known = seq!["protocol_version"@, "url"@, "target"@, "options"@];
    reveal_strlit("protocol_version");
    reveal_strlit("url");
    reveal_strlit("target");
    reveal_strlit("options");
    assert("protocol_version"@.len() == 16);
    assert("url"@.len() == 3);
    assert("target"@.len() == 6);
    assert("options"@.len() == 7);
    assert(json::distinct(pairs));
    json::lemma_members(pairs, known);
    assert(pairs[0].0 == "protocol_version"@);
    assert(pairs[1].0 == "url"@);
    assert(pairs[2].0 == "target"@);
    assert(pairs[3].0 == "options"@);
    lemma_options(params.options);
    json::lemma_object_fits(pairs, 3);
}

proof fn lemma_id_params(params: IdParams<Seq<char>>)
    requires
        messages::valid_id(params.id),
    ensures
        json::distinct(id_pairs(params)),
        read_id_params(json::object(id_pairs(params))) == Some(params),
        json::fits(json::object(id_pairs(params)), 3),
{
    let pairs = id_pairs(params);
    let known = seq!["protocol_version"@, "id"@];
    reveal_strlit("protocol_version");
    reveal_strlit("id");
    assert("protocol_version"@.len() == 16);
    assert("id"@.len() == 2);
    assert(json::distinct(pairs));
    json::lemma_members(pairs, known);
    assert(pairs[0].0 == "protocol_version"@);
    assert(pairs[1].0 == "id"@);
    json::lemma_object_fits(pairs, 3);
}

proof fn lemma_version(params: VersionParams)
    ensures
        json::distinct(version_pairs(params)),
        read_version(json::object(version_pairs(params))) == Some(
            RequestView::SystemStatus(params),
        ),
        json::fits(json::object(version_pairs(params)), 3),
{
    let pairs = version_pairs(params);
    let known = seq!["protocol_version"@];
    reveal_strlit("protocol_version");
    assert("protocol_version"@.len() == 16);
    assert(json::distinct(pairs));
    json::lemma_members(pairs, known);
    assert(pairs[0].0 == "protocol_version"@);
    json::lemma_object_fits(pairs, 3);
}

proof fn lemma_params(request: RequestView)
    requires
        request.wf(),
    ensures
        read_params(method_name(request), json::object(params_pairs(request))) == Some(request),
        json::fits(json::object(params_pairs(request)), 3),
{
    reveal_strlit("hello");
    reveal_strlit("download.add");
    reveal_strlit("download.get");
    reveal_strlit("download.resume");
    reveal_strlit("system.status");
    assert("hello"@.len() == 5);
    assert("download.add"@.len() == 12);
    assert("download.get"@.len() == 12);
    assert("download.resume"@.len() == 15);
    assert("system.status"@.len() == 13);
    assert("download.add"@[9] != "download.get"@[9]);
    match request {
        Request::Hello(params) => lemma_hello(params),
        Request::DownloadAdd(params) => lemma_add(params),
        Request::DownloadGet(params) => lemma_id_params(params),
        Request::DownloadResume(params) => lemma_id_params(params),
        Request::SystemStatus(params) => lemma_version(params),
    }
}

proof fn lemma_request_names(id: u64, request: RequestView)
    ensures
        json::distinct(request_pairs(id, request)),
{
    reveal_strlit("jsonrpc");
    reveal_strlit("id");
    reveal_strlit("method");
    reveal_strlit("params");
    assert("jsonrpc"@.len() == 7);
    assert("id"@.len() == 2);
    assert("method"@.len() == 6);
    assert("params"@.len() == 6);
    assert("method"@[0] != "params"@[0]);
}

/// What is written as a request reads back as the same request, with its number.
pub proof fn law_requests_round_trip(id: u64, request: RequestView)
    requires
        request.wf(),
    ensures
        read_request(request_tree(id, request)) == Some((id, request)),
        json::fits(request_tree(id, request), 4),
{
    let pairs = request_pairs(id, request);
    let known = seq!["jsonrpc"@, "id"@, "method"@, "params"@];
    lemma_request_names(id, request);
    json::lemma_members(pairs, known);
    assert(pairs[0].0 == "jsonrpc"@);
    assert(pairs[1].0 == "id"@);
    assert(pairs[2].0 == "method"@);
    assert(pairs[3].0 == "params"@);
    lemma_params(request);
    json::lemma_object_fits(pairs, 4);
}

proof fn lemma_hello_result(result: HelloResult<Seq<char>, Seq<Seq<char>>>)
    ensures
        json::distinct(hello_result_pairs(result)),
        read_hello_result(json::object(hello_result_pairs(result))) == Some(
            ResponseView::Hello(result),
        ),
        json::fits(json::object(hello_result_pairs(result)), 3),
{
    let pairs = hello_result_pairs(result);
    let known = seq!["protocol_version"@, "daemon_version"@, "capabilities"@];
    reveal_strlit("protocol_version");
    reveal_strlit("daemon_version");
    reveal_strlit("capabilities");
    assert("protocol_version"@.len() == 16);
    assert("daemon_version"@.len() == 14);
    assert("capabilities"@.len() == 12);
    assert(json::distinct(pairs));
    json::lemma_members(pairs, known);
    assert(pairs[0].0 == "protocol_version"@);
    assert(pairs[1].0 == "daemon_version"@);
    assert(pairs[2].0 == "capabilities"@);
    json::lemma_text_list(result.capabilities);
    json::lemma_text_list_fits(result.capabilities, 2);
    json::lemma_object_fits(pairs, 3);
}

proof fn lemma_state_result(result: StateResult<Seq<char>>)
    requires
        messages::valid_id(result.id),
    ensures
        json::distinct(state_result_pairs(result)),
        read_state_result(json::object(state_result_pairs(result))) == Some(result),
        json::fits(json::object(state_result_pairs(result)), 3),
{
    let pairs = state_result_pairs(result);
    let known = seq!["protocol_version"@, "id"@, "state"@];
    reveal_strlit("protocol_version");
    reveal_strlit("id");
    reveal_strlit("state");
    assert("protocol_version"@.len() == 16);
    assert("id"@.len() == 2);
    assert("state"@.len() == 5);
    assert(json::distinct(pairs));
    json::lemma_members(pairs, known);
    assert(pairs[0].0 == "protocol_version"@);
    assert(pairs[1].0 == "id"@);
    assert(pairs[2].0 == "state"@);
    law_state_names_round_trip(result.state);
    json::lemma_object_fits(pairs, 3);
}

proof fn lemma_view(view: DownloadView<Seq<char>, Seq<char>>)
    requires
        messages::valid_id(view.id),
    ensures
        json::distinct(view_pairs(view)),
        read_view(json::object(view_pairs(view))) == Some(ResponseView::Download(view)),
        json::fits(json::object(view_pairs(view)), 3),
{
    let pairs = view_pairs(view);
    let known = seq!["protocol_version"@, "id"@, "state"@, "covered"@, "total"@, "error_kind"@];
    reveal_strlit("protocol_version");
    reveal_strlit("id");
    reveal_strlit("state");
    reveal_strlit("covered");
    reveal_strlit("total");
    reveal_strlit("error_kind");
    assert("protocol_version"@.len() == 16);
    assert("id"@.len() == 2);
    assert("state"@.len() == 5);
    assert("covered"@.len() == 7);
    assert("total"@.len() == 5);
    assert("error_kind"@.len() == 10);
    assert("state"@[0] != "total"@[0]);
    assert(json::distinct(pairs));
    json::lemma_members(pairs, known);
    assert(pairs[0].0 == "protocol_version"@);
    assert(pairs[1].0 == "id"@);
    assert(pairs[2].0 == "state"@);
    assert(pairs[3].0 == "covered"@);
    assert(pairs[4].0 == "total"@);
    assert(pairs[5].0 == "error_kind"@);
    law_state_names_round_trip(view.state);
    json::lemma_object_fits(pairs, 3);
}

proof fn lemma_status(status: SystemStatus<Seq<char>>)
    ensures
        json::distinct(status_pairs(status)),
        read_status(json::object(status_pairs(status))) == Some(ResponseView::Status(status)),
        json::fits(json::object(status_pairs(status)), 3),
{
    let pairs = status_pairs(status);
    let known = seq!["protocol_version"@, "version"@, "uptime_seconds"@, "active"@, "queued"@, "throughput"@];
    reveal_strlit("protocol_version");
    reveal_strlit("version");
    reveal_strlit("uptime_seconds");
    reveal_strlit("active");
    reveal_strlit("queued");
    reveal_strlit("throughput");
    assert("protocol_version"@.len() == 16);
    assert("version"@.len() == 7);
    assert("uptime_seconds"@.len() == 14);
    assert("active"@.len() == 6);
    assert("queued"@.len() == 6);
    assert("throughput"@.len() == 10);
    assert("active"@[0] != "queued"@[0]);
    assert(json::distinct(pairs));
    json::lemma_members(pairs, known);
    assert(pairs[0].0 == "protocol_version"@);
    assert(pairs[1].0 == "version"@);
    assert(pairs[2].0 == "uptime_seconds"@);
    assert(pairs[3].0 == "active"@);
    assert(pairs[4].0 == "queued"@);
    assert(pairs[5].0 == "throughput"@);
    json::lemma_object_fits(pairs, 3);
}

proof fn lemma_data(data: ErrorData<Seq<char>, Seq<char>>)
    requires
        data.download_id is Some ==> messages::valid_id(data.download_id->0),
    ensures
        json::distinct(data_pairs(data)),
        read_data(json::object(data_pairs(data))) == Some(data),
        json::fits(json::object(data_pairs(data)), 2),
{
    let pairs = data_pairs(data);
    let known = seq!["protocol_version"@, "kind"@, "download_id"@, "recoverable"@, "suggestion"@];
    reveal_strlit("protocol_version");
    reveal_strlit("kind");
    reveal_strlit("download_id");
    reveal_strlit("recoverable");
    reveal_strlit("suggestion");
    assert("protocol_version"@.len() == 16);
    assert("kind"@.len() == 4);
    assert("download_id"@.len() == 11);
    assert("recoverable"@.len() == 11);
    assert("suggestion"@.len() == 10);
    assert("download_id"@[0] != "recoverable"@[0]);
    assert(json::distinct(pairs));
    json::lemma_members(pairs, known);
    assert(pairs[0].0 == "protocol_version"@);
    assert(pairs[1].0 == "kind"@);
    assert(pairs[2].0 == "download_id"@);
    assert(pairs[3].0 == "recoverable"@);
    assert(pairs[4].0 == "suggestion"@);
    json::lemma_object_fits(pairs, 2);
}

proof fn lemma_error(error: RpcError<Seq<char>, Seq<char>>)
    requires
        error.data.download_id is Some ==> messages::valid_id(error.data.download_id->0),
    ensures
        json::distinct(error_pairs(error)),
        read_error(json::object(error_pairs(error))) == Some(ResponseView::Error(error)),
        json::fits(json::object(error_pairs(error)), 3),
{
    let pairs = error_pairs(error);
    let known = seq!["code"@, "message"@, "data"@];
    reveal_strlit("code");
    reveal_strlit("message");
    reveal_strlit("data");
    assert("code"@.len() == 4);
    assert("message"@.len() == 7);
    assert("data"@.len() == 4);
    assert("code"@[0] != "data"@[0]);
    assert(json::distinct(pairs));
    json::lemma_members(pairs, known);
    assert(pairs[0].0 == "code"@);
    assert(pairs[1].0 == "message"@);
    assert(pairs[2].0 == "data"@);
    lemma_data(error.data);
    json::lemma_object_fits(pairs, 3);
}

proof fn lemma_response_names(id: u64, response: ResponseView)
    ensures
        json::distinct(response_pairs(id, response)),
{
    reveal_strlit("jsonrpc");
    reveal_strlit("id");
    reveal_strlit("result");
    reveal_strlit("error");
    assert("jsonrpc"@.len() == 7);
    assert("id"@.len() == 2);
    assert("result"@.len() == 6);
    assert("error"@.len() == 5);
}

/// What is written as a response reads back as the same response, with its number, for a request
/// that expects it.
pub proof fn law_responses_round_trip(id: u64, response: ResponseView, expected: ResponseKind)
    requires
        response.wf(),
        response.answers(expected),
    ensures
        read_response(response_tree(id, response), expected) == Some((id, response)),
        json::fits(response_tree(id, response), 4),
{
    let pairs = response_pairs(id, response);
    let present = seq![pairs[0].0, pairs[1].0, pairs[2].0];
    let known = seq!["jsonrpc"@, "id"@, "result"@, "error"@];
    reveal_strlit("jsonrpc");
    reveal_strlit("id");
    reveal_strlit("result");
    reveal_strlit("error");
    assert("jsonrpc"@.len() == 7);
    assert("id"@.len() == 2);
    assert("result"@.len() == 6);
    assert("error"@.len() == 5);
    lemma_response_names(id, response);
    json::lemma_members(pairs, present);
    let tree = response_tree(id, response);
    assert(tree.only_has(known)) by {
        assert(known[0] == present[0] && known[1] == present[1]);
        assert(known[2] == present[2] || known[3] == present[2]);
        assert forall|name: Seq<char>| #[trigger]
            json::keyed(pairs).contains_key(name) implies known.contains(name) by {
            assert(present.contains(name));
        }
    }
    assert(pairs[0].0 == "jsonrpc"@);
    assert(pairs[1].0 == "id"@);
    let other = if response is Error {
        "result"@
    } else {
        "error"@
    };
    assert(tree.member(other) is None) by {
        if json::keyed(pairs).contains_key(other) {
            assert(present.contains(other));
        }
    }
    match response {
        Response::Hello(result) => lemma_hello_result(result),
        Response::Added(result) => lemma_state_result(result),
        Response::Download(view) => lemma_view(view),
        Response::Resumed(result) => lemma_state_result(result),
        Response::Status(status) => lemma_status(status),
        Response::Error(error) => lemma_error(error),
    }
    assert(tree.member(pairs[2].0) == Some(json::object(outcome_pairs(response))));
    json::lemma_object_fits(pairs, 4);
}

/// The names on the wire: every method, and every state, goes by its own.
pub proof fn law_names_on_the_wire(request: RequestView, state: WireState, name: Seq<char>)
    ensures
        request is Hello ==> method_name(request) == "hello"@,
        request is DownloadAdd ==> method_name(request) == "download.add"@,
        request is DownloadGet ==> method_name(request) == "download.get"@,
        request is DownloadResume ==> method_name(request) == "download.resume"@,
        request is SystemStatus ==> method_name(request) == "system.status"@,
        state is Submitted ==> state_name(state) == "submitted"@,
        state is Probing ==> state_name(state) == "probing"@,
        state is Planned ==> state_name(state) == "planned"@,
        state is Transferring ==> state_name(state) == "transferring"@,
        state is Paused ==> state_name(state) == "paused"@,
        state is Stalled ==> state_name(state) == "stalled"@,
        state is Verifying ==> state_name(state) == "verifying"@,
        state is Completed ==> state_name(state) == "completed"@,
        state is Failed ==> state_name(state) == "failed"@,
        named_state(name) == Some(state) <==> name == state_name(state),
{
    law_state_names_round_trip(state);
}

/// The value of an optional text member: absent or `null` without one, else the text.
pub open spec fn says_text(member: Option<JsonTree>, text: Option<Seq<char>>) -> bool {
    match text {
        Some(text) => member == Some(JsonTree::Text(text)),
        None => member is None || member == Some(JsonTree::Null),
    }
}

/// The value of an optional number member: absent or `null` without one, else the number.
pub open spec fn says_number(member: Option<JsonTree>, number: Option<u64>) -> bool {
    match number {
        Some(number) => member == Some(JsonTree::Unsigned(number)),
        None => member is None || member == Some(JsonTree::Null),
    }
}

/// Nothing is read into a request that does not stand in its payload, and nothing that stands there
/// is passed over: the envelope is the protocol's, the method is the request's own, every field is
/// its member's value, and there is no other member. What is written as a request is one such
/// payload.
pub proof fn law_a_request_is_read_member_by_member(payload: JsonTree, id: u64, request: RequestView)
    requires
        read_request(payload) == Some((id, request)),
    ensures
        payload.member("jsonrpc"@) == Some(JsonTree::Text("2.0"@)),
        payload.member("id"@) == Some(JsonTree::Unsigned(id)),
        payload.member("method"@) == Some(JsonTree::Text(method_name(request))),
        payload.member("params"@) is Some,
        payload.only_has(seq!["jsonrpc"@, "id"@, "method"@, "params"@]),
        request.wf(),
        ({
            let params = payload.member("params"@)->0;
            &&& params.member("protocol_version"@) == Some(
                JsonTree::Unsigned(request.version() as u64),
            )
            &&& match request {
                Request::Hello(hello) => {
                    &&& params.member("client"@) == Some(JsonTree::Text(hello.client))
                    &&& params.member("token"@) == Some(JsonTree::Text(hello.token))
                    &&& params.only_has(seq!["protocol_version"@, "client"@, "token"@])
                },
                Request::DownloadAdd(add) => {
                    &&& params.member("url"@) == Some(JsonTree::Text(add.url))
                    &&& says_text(params.member("target"@), add.target)
                    &&& params.member("options"@) is Some
                    &&& says_number(
                        params.member("options"@)->0.member("connections"@),
                        match add.options.connections {
                            Some(count) => Some(count as u64),
                            None => None,
                        },
                    )
                    &&& params.member("options"@)->0.only_has(seq!["connections"@])
                    &&& params.only_has(seq!["protocol_version"@, "url"@, "target"@, "options"@])
                },
                Request::DownloadGet(get) => {
                    &&& params.member("id"@) == Some(JsonTree::Text(get.id))
                    &&& params.only_has(seq!["protocol_version"@, "id"@])
                },
                Request::DownloadResume(resume) => {
                    &&& params.member("id"@) == Some(JsonTree::Text(resume.id))
                    &&& params.only_has(seq!["protocol_version"@, "id"@])
                },
                Request::SystemStatus(_) => params.only_has(seq!["protocol_version"@]),
            }
        }),
{
}

/// Nothing is read into a response that does not stand in its payload: the envelope is the
/// protocol's, there is either a result or a failure, every field is its member's value, and there
/// is no other member.
pub proof fn law_a_response_is_read_member_by_member(
    payload: JsonTree,
    expected: ResponseKind,
    id: u64,
    response: ResponseView,
)
    requires
        read_response(payload, expected) == Some((id, response)),
    ensures
        payload.member("jsonrpc"@) == Some(JsonTree::Text("2.0"@)),
        payload.member("id"@) == Some(JsonTree::Unsigned(id)),
        payload.only_has(seq!["jsonrpc"@, "id"@, "result"@, "error"@]),
        response is Error <==> payload.member("error"@) is Some,
        response is Error <==> payload.member("result"@) is None,
        response.answers(expected),
        response.wf(),
        ({
            let said = if response is Error {
                payload.member("error"@)->0
            } else {
                payload.member("result"@)->0
            };
            match response {
                Response::Hello(result) => {
                    &&& said.member("protocol_version"@) == Some(
                        JsonTree::Unsigned(result.protocol_version as u64),
                    )
                    &&& said.member("daemon_version"@) == Some(
                        JsonTree::Text(result.daemon_version),
                    )
                    &&& said.member("capabilities"@) is Some
                    &&& said.member("capabilities"@)->0 is List
                    &&& said.only_has(seq!["protocol_version"@, "daemon_version"@, "capabilities"@])
                },
                Response::Added(result) => says_state(said, result),
                Response::Resumed(result) => says_state(said, result),
                Response::Download(view) => {
                    &&& said.member("protocol_version"@) == Some(
                        JsonTree::Unsigned(view.protocol_version as u64),
                    )
                    &&& said.member("id"@) == Some(JsonTree::Text(view.id))
                    &&& said.member("state"@) == Some(JsonTree::Text(state_name(view.state)))
                    &&& said.member("covered"@) == Some(JsonTree::Unsigned(view.covered))
                    &&& says_number(said.member("total"@), view.total)
                    &&& says_text(said.member("error_kind"@), view.error_kind)
                },
                Response::Status(status) => {
                    &&& said.member("protocol_version"@) == Some(
                        JsonTree::Unsigned(status.protocol_version as u64),
                    )
                    &&& said.member("version"@) == Some(JsonTree::Text(status.version))
                    &&& said.member("uptime_seconds"@) == Some(
                        JsonTree::Unsigned(status.uptime_seconds),
                    )
                    &&& said.member("active"@) == Some(JsonTree::Unsigned(status.active as u64))
                    &&& said.member("queued"@) == Some(JsonTree::Unsigned(status.queued as u64))
                    &&& said.member("throughput"@) == Some(JsonTree::Unsigned(status.throughput))
                },
                Response::Error(error) => {
                    &&& said.member("code"@) is Some
                    &&& said.member("code"@)->0.signed() == Some(error.code as i64)
                    &&& said.member("message"@) == Some(JsonTree::Text(error.message))
                    &&& said.member("data"@) is Some
                    &&& says_data(said.member("data"@)->0, error.data)
                    &&& said.only_has(seq!["code"@, "message"@, "data"@])
                },
            }
        }),
{
    if let Response::Added(result) = response {
        lemma_state_said(payload.member("result"@)->0);
    }
    if let Response::Resumed(result) = response {
        lemma_state_said(payload.member("result"@)->0);
    }
    if let Response::Download(view) = response {
        lemma_state_said(payload.member("result"@)->0);
    }
}

/// The members are those of the result of a state-changing command.
pub open spec fn says_state(said: JsonTree, result: StateResult<Seq<char>>) -> bool {
    &&& said.member("protocol_version"@) == Some(
        JsonTree::Unsigned(result.protocol_version as u64),
    )
    &&& said.member("id"@) == Some(JsonTree::Text(result.id))
    &&& said.member("state"@) == Some(JsonTree::Text(state_name(result.state)))
    &&& said.only_has(seq!["protocol_version"@, "id"@, "state"@])
}

/// The members are those of failure data.
pub open spec fn says_data(said: JsonTree, data: ErrorData<Seq<char>, Seq<char>>) -> bool {
    &&& said.member("protocol_version"@) == Some(JsonTree::Unsigned(data.protocol_version as u64))
    &&& said.member("kind"@) == Some(JsonTree::Text(data.kind))
    &&& says_text(said.member("download_id"@), data.download_id)
    &&& said.member("recoverable"@) == Some(JsonTree::Truth(data.recoverable))
    &&& says_text(said.member("suggestion"@), data.suggestion)
    &&& said.only_has(
        seq!["protocol_version"@, "kind"@, "download_id"@, "recoverable"@, "suggestion"@],
    )
}

proof fn lemma_state_said(said: JsonTree)
    ensures
        read_state(said) is Some ==> said.member("state"@) == Some(
            JsonTree::Text(state_name(read_state(said)->0)),
        ),
{
}

/// A payload that carries more than a message, another protocol's envelope, an identity that is none
/// or a method that is not known is no request.
pub proof fn law_anything_else_is_no_request(payload: JsonTree, name: Seq<char>)
    ensures
        !(payload is Object) ==> read_request(payload) is None,
        payload.member(name) is Some && !seq![
            "jsonrpc"@,
            "id"@,
            "method"@,
            "params"@,
        ].contains(name) ==> read_request(payload) is None,
        payload.text_of("jsonrpc"@) != Some("2.0"@) ==> read_request(payload) is None,
        payload.text_of("method"@) is None ==> read_request(payload) is None,
        payload.member("params"@) is None ==> read_request(payload) is None,
        (payload.text_of("method"@) matches Some(method) && method != "hello"@ && method
            != "download.add"@ && method != "download.get"@ && method != "download.resume"@
            && method != "system.status"@) ==> read_request(payload) is None,
{
}

/// Reading is complete: a payload with the protocol's envelope, a known method and that method's
/// members is read, whether an optional member is absent, `null` or there.
pub proof fn law_an_optional_member_may_be_absent(
    payload: JsonTree,
    id: u64,
    params: JsonTree,
    options: JsonTree,
    add: AddParams<Seq<char>, Seq<char>>,
)
    requires
        payload.member("jsonrpc"@) == Some(JsonTree::Text("2.0"@)),
        payload.member("id"@) == Some(JsonTree::Unsigned(id)),
        payload.member("method"@) == Some(JsonTree::Text("download.add"@)),
        payload.member("params"@) == Some(params),
        payload.only_has(seq!["jsonrpc"@, "id"@, "method"@, "params"@]),
        params.member("protocol_version"@) == Some(
            JsonTree::Unsigned(add.protocol_version as u64),
        ),
        params.member("url"@) == Some(JsonTree::Text(add.url)),
        says_text(params.member("target"@), add.target),
        params.member("options"@) == Some(options),
        params.only_has(seq!["protocol_version"@, "url"@, "target"@, "options"@]),
        says_number(
            options.member("connections"@),
            match add.options.connections {
                Some(count) => Some(count as u64),
                None => None,
            },
        ),
        options.only_has(seq!["connections"@]),
    ensures
        read_request(payload) == Some((id, RequestView::DownloadAdd(add))),
{
    reveal_strlit("hello");
    reveal_strlit("download.add");
    assert("hello"@.len() == 5 && "download.add"@.len() == 12);
}

} // verus!
