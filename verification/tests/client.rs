//! The command-line client's side of the protocol.

use downpour::client::{
    add, added_id, check_hello, check_reply, get, hello, is_finished, log_filter, response_error,
    ClientError, RequestIds, CLIENT_NAME,
};
use downpour::codec::CodecError;
use downpour::messages::{
    AddOptions, DownloadId, DownloadView, HelloResult, Request, Response, SecretString,
    StateResult, WireState, PROTOCOL_VERSION,
};
use downpour::server::rpc_error;
use downpour::text::{from_hex, parse_u64, same_ignoring_case, to_decimal, to_hex, trim};

fn id() -> DownloadId {
    DownloadId::new("018f0f0f0f0f70008000000000000001").unwrap()
}

fn view(state: WireState, error_kind: Option<&str>) -> Response {
    Response::Download(DownloadView {
        protocol_version: PROTOCOL_VERSION,
        id: id(),
        state,
        covered: 0,
        total: None,
        error_kind: error_kind.map(str::to_owned),
    })
}

#[test]
fn requests_carry_what_they_are_about() {
    match hello(SecretString::new("aa".to_owned())) {
        Request::Hello(params) => {
            assert_eq!(params.client, CLIENT_NAME);
            assert_eq!(params.token.expose(), "aa");
        }
        _ => panic!("not a hello"),
    }
    match add("https://example.test/".to_owned(), "/d".to_owned(), Some(4)) {
        Request::DownloadAdd(params) => {
            assert_eq!(params.url.expose(), "https://example.test/");
            assert_eq!(params.target.as_deref(), Some("/d"));
            assert_eq!(params.options, AddOptions { connections: Some(4) });
        }
        _ => panic!("not an add"),
    }
    match get(&id()) {
        Request::DownloadGet(params) => assert_eq!(params.id, id()),
        _ => panic!("not a get"),
    }
}

#[test]
fn request_numbers_start_at_one_and_rise() {
    let mut ids = RequestIds::new();
    assert_eq!((ids.take(), ids.take(), ids.take()), (1, 2, 3));
}

#[test]
fn a_reply_must_answer_its_own_request() {
    assert_eq!(
        check_reply(3, Ok((3, view(WireState::Paused, None)))),
        Ok(view(WireState::Paused, None))
    );
    let other = check_reply(3, Ok((14, view(WireState::Paused, None)))).unwrap_err();
    assert_eq!(
        other.describe(),
        "daemon is unreachable: daemon replied with response id 14, expected 3"
    );
    assert_eq!(other.exit_code(), 3);
    assert_eq!(
        check_reply(3, Err(CodecError::InvalidMessage)),
        Err(ClientError::Daemon("decoding an IPC response".to_owned()))
    );
}

#[test]
fn only_the_expected_answer_is_accepted() {
    let greeting = Response::Hello(HelloResult {
        protocol_version: PROTOCOL_VERSION,
        daemon_version: "0.1.0".to_owned(),
        capabilities: Vec::new(),
    });
    assert_eq!(check_hello(greeting), Ok(()));
    let added = Response::Added(StateResult {
        protocol_version: PROTOCOL_VERSION,
        id: id(),
        state: WireState::Submitted,
    });
    assert_eq!(added_id(added), Ok(id()));
    let unexpected = added_id(view(WireState::Paused, None)).unwrap_err();
    assert_eq!(
        unexpected,
        ClientError::Daemon("daemon returned an unexpected response type".to_owned())
    );
    let refused = response_error(rpc_error("invalid_url", "no", false, None));
    assert_eq!(refused, ClientError::DownloadFailed("invalid_url".to_owned()));
    assert_eq!(refused.exit_code(), 4);
    assert_eq!(refused.describe(), "download failed: invalid_url");
    assert_eq!(ClientError::General("bad".to_owned()).exit_code(), 1);
    assert_eq!(ClientError::General("bad".to_owned()).describe(), "bad");
}

#[test]
fn a_download_is_watched_until_it_ends() {
    for state in [
        WireState::Submitted,
        WireState::Probing,
        WireState::Planned,
        WireState::Transferring,
        WireState::Paused,
        WireState::Stalled,
        WireState::Verifying,
    ] {
        assert_eq!(is_finished(view(state, None)), Ok(false));
    }
    assert_eq!(is_finished(view(WireState::Completed, None)), Ok(true));
    assert_eq!(
        is_finished(view(WireState::Failed, Some("incomplete"))),
        Err(ClientError::DownloadFailed("incomplete".to_owned()))
    );
    assert_eq!(
        is_finished(view(WireState::Failed, None)),
        Err(ClientError::DownloadFailed("unknown".to_owned()))
    );
}

#[test]
fn verbosity_chooses_the_filter() {
    let filters: Vec<&str> = [0, 1, 2, 3, 200].into_iter().map(log_filter).collect();
    assert_eq!(filters, ["warn", "info", "debug", "trace", "trace"]);
}

#[test]
fn text_rules_hold_on_examples() {
    assert_eq!(trim("\u{2003} a b\r\n"), "a b");
    assert!(same_ignoring_case("Identity", "iDENTITY"));
    assert!(!same_ignoring_case("identity", "identit"));
    assert_eq!(parse_u64("18446744073709551615"), Some(u64::MAX));
    assert_eq!(parse_u64("18446744073709551616"), None);
    assert_eq!(parse_u64("+7"), Some(7));
    assert_eq!(parse_u64("-7"), None);
    assert_eq!(parse_u64(""), None);
    assert_eq!(to_decimal(0), "0");
    assert_eq!(to_decimal(u64::MAX), "18446744073709551615");
    assert_eq!(to_hex(&[0, 0x0f, 0xff]), "000fff");
    assert_eq!(from_hex("000fff"), Some(vec![0, 0x0f, 0xff]));
    assert_eq!(from_hex("0"), None);
    assert_eq!(from_hex("0F"), None);
}
