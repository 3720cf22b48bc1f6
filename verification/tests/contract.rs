//! Versioning, framing, authentication, and strict dispatch of the local protocol.

use downpour::codec::{
    decode_request, decode_response, encode_request, encode_response, frame_length, read_frame,
    CodecError, MAX_FRAME_BYTES,
};
use downpour::messages::{
    AddOptions, AddParams, DownloadId, DownloadView, ErrorData, HelloParams, HelloResult, IdParams,
    Request, Response, ResponseKind, RpcError, SecretString, StateResult, SystemStatus,
    VersionParams, WireState, PROTOCOL_VERSION,
};
use downpour::session::{CommandHandler, Session, SessionError};
use downpour::token::{SessionToken, TokenError};
use downpour::transport::{
    check_runtime_dir, read_client_token, DirectoryFacts, EndpointPaths, TransportError,
    RUNTIME_DIR_NAME, SOCKET_FILE_NAME, TOKEN_FILE_NAME,
};

fn id() -> DownloadId {
    DownloadId::new("018f0f0f0f0f70008000000000000001").unwrap()
}

fn requests(token: String) -> Vec<Request> {
    vec![
        Request::Hello(HelloParams {
            protocol_version: PROTOCOL_VERSION,
            client: "dp/0.1.0".to_owned(),
            token: SecretString::new(token),
        }),
        Request::DownloadAdd(AddParams {
            protocol_version: PROTOCOL_VERSION,
            url: SecretString::new("https://example.test/file.bin?secret=never-log".to_owned()),
            target: Some("file.bin".to_owned()),
            options: AddOptions {
                connections: Some(4),
            },
        }),
        Request::DownloadGet(IdParams {
            protocol_version: PROTOCOL_VERSION,
            id: id(),
        }),
        Request::DownloadResume(IdParams {
            protocol_version: PROTOCOL_VERSION,
            id: id(),
        }),
        Request::SystemStatus(VersionParams {
            protocol_version: PROTOCOL_VERSION,
        }),
    ]
}

fn responses() -> Vec<(ResponseKind, Response)> {
    vec![
        (
            ResponseKind::Hello,
            Response::Hello(HelloResult {
                protocol_version: PROTOCOL_VERSION,
                daemon_version: "0.1.0".to_owned(),
                capabilities: vec!["h1-segments".to_owned()],
            }),
        ),
        (
            ResponseKind::Added,
            Response::Added(StateResult {
                protocol_version: PROTOCOL_VERSION,
                id: id(),
                state: WireState::Submitted,
            }),
        ),
        (
            ResponseKind::Download,
            Response::Download(DownloadView {
                protocol_version: PROTOCOL_VERSION,
                id: id(),
                state: WireState::Transferring,
                covered: 32,
                total: Some(96),
                error_kind: None,
            }),
        ),
        (
            ResponseKind::Resumed,
            Response::Resumed(StateResult {
                protocol_version: PROTOCOL_VERSION,
                id: id(),
                state: WireState::Transferring,
            }),
        ),
        (
            ResponseKind::Status,
            Response::Status(SystemStatus {
                protocol_version: PROTOCOL_VERSION,
                version: "0.1.0".to_owned(),
                uptime_seconds: 7,
                active: 1,
                queued: 2,
                throughput: 4096,
            }),
        ),
        (
            ResponseKind::Download,
            Response::Error(RpcError {
                code: -32001,
                message: "download not found".to_owned(),
                data: ErrorData {
                    protocol_version: PROTOCOL_VERSION,
                    kind: "download_not_found".to_owned(),
                    download_id: Some(id()),
                    recoverable: false,
                    suggestion: None,
                },
            }),
        ),
    ]
}

#[test]
fn every_s3_request_result_and_error_round_trips_with_its_version() {
    for (index, request) in requests("00".repeat(32)).into_iter().enumerate() {
        let request_id = u64::try_from(index + 1).unwrap();
        let frame = encode_request(request_id, &request).unwrap();
        assert_eq!(
            frame.len() - 4,
            usize::try_from(u32::from_le_bytes(frame[..4].try_into().unwrap())).unwrap()
        );
        assert!(decode_request(&frame[4..]) == Ok((request_id, request)));
    }
    for (index, (kind, response)) in responses().into_iter().enumerate() {
        let request_id = u64::try_from(index + 20).unwrap();
        let frame = encode_response(request_id, &response).unwrap();
        assert_eq!(
            decode_response(&frame[4..], kind).unwrap(),
            (request_id, response)
        );
    }
}

#[test]
fn oversized_length_is_rejected_after_only_the_four_byte_header() {
    let declared = u32::try_from(MAX_FRAME_BYTES + 1).unwrap();
    assert_eq!(
        frame_length(&declared.to_le_bytes()),
        Err(CodecError::FrameTooLarge {
            declared: MAX_FRAME_BYTES + 1,
            maximum: MAX_FRAME_BYTES
        })
    );

    let mut stream = declared.to_le_bytes().to_vec();
    stream.push(0x7a);
    let error = read_frame(&stream).unwrap_err();
    assert!(matches!(
        error,
        CodecError::FrameTooLarge {
            declared,
            maximum: MAX_FRAME_BYTES
        } if declared == MAX_FRAME_BYTES + 1
    ));
}

#[test]
fn exact_maximum_length_is_accepted() {
    let mut frame = vec![0x5a; MAX_FRAME_BYTES + 4];
    frame[..4].copy_from_slice(&u32::try_from(MAX_FRAME_BYTES).unwrap().to_le_bytes());

    let payload = read_frame(&frame).unwrap();
    assert_eq!(payload.len(), MAX_FRAME_BYTES);
    assert!(payload.iter().all(|byte| *byte == 0x5a));
}

#[test]
fn a_cut_frame_is_refused() {
    assert_eq!(read_frame(&[]), Err(CodecError::TruncatedHeader));
    assert_eq!(read_frame(&[1, 0, 0]), Err(CodecError::TruncatedHeader));
    assert_eq!(read_frame(&[2, 0, 0, 0, 9]), Err(CodecError::TruncatedBody));
    assert_eq!(read_frame(&[2, 0, 0, 0, 9, 8, 7]), Ok(vec![9, 8]));
    assert_eq!(read_frame(&[0, 0, 0, 0]), Ok(Vec::new()));
}

#[test]
fn an_oversized_message_is_not_framed() {
    let request = Request::DownloadAdd(AddParams {
        protocol_version: PROTOCOL_VERSION,
        url: SecretString::new("a".repeat(MAX_FRAME_BYTES)),
        target: None,
        options: AddOptions::default(),
    });
    assert!(matches!(
        encode_request(1, &request),
        Err(CodecError::FrameTooLarge { .. })
    ));
}

#[derive(Default)]
struct CountingHandler {
    calls: Vec<&'static str>,
}

impl CommandHandler for CountingHandler {
    fn handle(&mut self, request: Request) -> Response {
        match request {
            Request::DownloadAdd(_) => {
                self.calls.push("add");
                Response::Added(StateResult {
                    protocol_version: PROTOCOL_VERSION,
                    id: id(),
                    state: WireState::Submitted,
                })
            }
            Request::DownloadGet(_) => {
                self.calls.push("get");
                Response::Download(DownloadView {
                    protocol_version: PROTOCOL_VERSION,
                    id: id(),
                    state: WireState::Paused,
                    covered: 0,
                    total: None,
                    error_kind: None,
                })
            }
            Request::DownloadResume(_) => {
                self.calls.push("resume");
                Response::Resumed(StateResult {
                    protocol_version: PROTOCOL_VERSION,
                    id: id(),
                    state: WireState::Transferring,
                })
            }
            Request::SystemStatus(_) => {
                self.calls.push("status");
                Response::Status(SystemStatus {
                    protocol_version: PROTOCOL_VERSION,
                    version: "0.1.0".to_owned(),
                    uptime_seconds: 0,
                    active: 0,
                    queued: 0,
                    throughput: 0,
                })
            }
            Request::Hello(_) => panic!("hello must be consumed by the session boundary"),
        }
    }
}

fn payload(text: &str) -> Vec<u8> {
    let value: serde_json::Value = serde_json::from_str(text).unwrap();
    serde_json::to_vec(&value).unwrap()
}

#[test]
fn hello_authenticates_once_then_each_s3_command_reaches_the_typed_dispatcher() {
    let raw_token = [0x5a; 32];
    let mut token_text = String::with_capacity(64);
    for byte in raw_token {
        token_text.push_str(&format!("{byte:02x}"));
    }
    let mut session = Session::new(SessionToken::from_bytes(raw_token));
    let mut handler = CountingHandler::default();
    let hello = payload(&format!(
        "{{\"jsonrpc\": \"2.0\", \"id\": 1, \"method\": \"hello\",
          \"params\": {{\"protocol_version\": 1, \"client\": \"dp/0.1.0\", \"token\": \"{token_text}\"}}}}"
    ));
    let (_, response) = session.handle_payload(&hello, &mut handler).unwrap();
    assert!(matches!(response, Response::Hello(_)));
    assert_eq!(
        response,
        Response::Hello(HelloResult {
            protocol_version: PROTOCOL_VERSION,
            daemon_version: "0.1.0".to_owned(),
            capabilities: vec!["h1-segments".to_owned()],
        })
    );
    assert!(handler.calls.is_empty());
    assert!(matches!(
        session.handle_payload(&hello, &mut handler),
        Err(SessionError::HelloRepeated)
    ));

    for (index, request) in requests("unused".to_owned())
        .into_iter()
        .skip(1)
        .enumerate()
    {
        let frame = encode_request(u64::try_from(index + 2).unwrap(), &request).unwrap();
        session.handle_payload(&frame[4..], &mut handler).unwrap();
    }
    assert_eq!(handler.calls, ["add", "get", "resume", "status"]);
}

#[test]
fn malformed_unauthenticated_and_newer_messages_never_dispatch() {
    let token = SessionToken::from_bytes([0x11; 32]);
    let right = "11".repeat(32);
    let mut handler = CountingHandler::default();
    let mut session = Session::new(token.clone());
    assert!(matches!(
        session.handle_payload(b"not-json", &mut handler),
        Err(SessionError::Codec(CodecError::InvalidMessage))
    ));
    let mut session = Session::new(token.clone());
    assert!(matches!(
        session.handle_payload(
            &payload(&format!("{{\"jsonrpc\":\"1.0\",\"id\":1,\"method\":\"hello\",\"params\":{{\"protocol_version\":1,\"client\":\"dp\",\"token\":\"{right}\"}}}}")),
            &mut handler,
        ),
        Err(SessionError::Codec(CodecError::InvalidMessage))
    ));
    let mut session = Session::new(token.clone());
    assert!(matches!(
        session.handle_payload(
            &payload(&format!("{{\"jsonrpc\":\"2.0\",\"id\":1,\"method\":\"hello\",\"params\":{{\"protocol_version\":1,\"client\":\"dp\",\"token\":\"{right}\"}},\"extra\":true}}")),
            &mut handler,
        ),
        Err(SessionError::Codec(CodecError::InvalidMessage))
    ));
    let mut session = Session::new(token.clone());
    assert!(matches!(
        session.handle_payload(
            &payload("{\"jsonrpc\":\"2.0\",\"id\":1,\"method\":\"download.get\",\"params\":{\"protocol_version\":1,\"id\":\"018f0f0f0f0f70008000000000000001\"}}"),
            &mut handler,
        ),
        Err(SessionError::AuthenticationRequired)
    ));
    let mut session = Session::new(token.clone());
    assert!(matches!(
        session.handle_payload(
            &payload(&format!("{{\"jsonrpc\":\"2.0\",\"id\":1,\"method\":\"hello\",\"params\":{{\"protocol_version\":1,\"client\":\"dp\",\"token\":\"{right}\",\"extra\":true}}}}")),
            &mut handler,
        ),
        Err(SessionError::Codec(CodecError::InvalidMessage))
    ));
    let mut session = Session::new(token.clone());
    assert!(matches!(
        session.handle_payload(
            &payload("{\"jsonrpc\":\"2.0\",\"id\":1,\"method\":\"hello\",\"params\":{\"protocol_version\":1,\"client\":\"dp\",\"token\":\"wrong\"}}"),
            &mut handler,
        ),
        Err(SessionError::AuthenticationFailed)
    ));
    let mut session = Session::new(token);
    assert!(matches!(
        session.handle_payload(
            &payload(&format!("{{\"jsonrpc\":\"2.0\",\"id\":1,\"method\":\"hello\",\"params\":{{\"protocol_version\":2,\"client\":\"dp\",\"token\":\"{right}\"}}}}")),
            &mut handler,
        ),
        Err(SessionError::UnsupportedVersion {
            requested: 2,
            supported: PROTOCOL_VERSION
        })
    ));
    let raw_token = [0x11; 32];
    let mut authenticated = Session::new(SessionToken::from_bytes(raw_token));
    let hello = payload(&format!("{{\"jsonrpc\":\"2.0\",\"id\":1,\"method\":\"hello\",\"params\":{{\"protocol_version\":1,\"client\":\"dp\",\"token\":\"{right}\"}}}}"));
    authenticated.handle_payload(&hello, &mut handler).unwrap();
    for malformed in [
        payload("{\"jsonrpc\":\"2.0\",\"id\":2,\"method\":\"download.get\",\"params\":{\"protocol_version\":1,\"id\":\"not-a-download-id\"}}"),
        payload("{\"jsonrpc\":\"2.0\",\"id\":3,\"method\":\"download.unknown\",\"params\":{\"protocol_version\":1}}"),
    ] {
        assert!(matches!(
            authenticated.handle_payload(&malformed, &mut handler),
            Err(SessionError::Codec(CodecError::InvalidMessage))
        ));
    }
    assert!(matches!(
        authenticated.handle_payload(
            &payload("{\"jsonrpc\":\"2.0\",\"id\":4,\"method\":\"system.status\",\"params\":{\"protocol_version\":2}}"),
            &mut handler,
        ),
        Err(SessionError::UnsupportedVersion {
            requested: 2,
            supported: PROTOCOL_VERSION
        })
    ));
    assert!(handler.calls.is_empty());
}

#[test]
fn secret_bearing_message_debug_never_reveals_wire_values() {
    let token = "0123456789abcdef".repeat(4);
    let signed_url = "https://example.test/file?signature=do-not-log";
    let hello = Request::Hello(HelloParams {
        protocol_version: PROTOCOL_VERSION,
        client: "dp".to_owned(),
        token: SecretString::new(token.clone()),
    });
    let add = Request::DownloadAdd(AddParams {
        protocol_version: PROTOCOL_VERSION,
        url: SecretString::new(signed_url.to_owned()),
        target: None,
        options: AddOptions::default(),
    });
    let rendered = format!("{} {}", hello.rendered(), add.rendered());
    assert!(!rendered.contains(&token));
    assert!(!rendered.contains("do-not-log"));
    assert!(rendered.matches("[redacted]").count() >= 2);
}

#[test]
fn generated_tokens_are_distinct_and_all_formatting_is_redacted() {
    let first = SessionToken::generate().unwrap();
    let second = SessionToken::generate().unwrap();
    assert!(first != second);
    assert_eq!(first.rendered(), "[redacted]");
    assert_eq!(first.rendered_debug(), "SessionToken([redacted])");

    let deterministic = SessionToken::from_bytes([0xab; 32]);
    assert_eq!(deterministic.to_wire().expose(), "ab".repeat(32));
    assert!(deterministic.matches_wire(&"ab".repeat(32)));
    assert!(!deterministic.matches_wire(&"AB".repeat(32)));
    assert!(!deterministic.matches_wire(&"ab".repeat(31)));
}

#[test]
fn a_silent_random_source_gives_no_token() {
    assert!(matches!(
        SessionToken::from_random(None),
        Err(TokenError::Unavailable)
    ));
    let one = SessionToken::from_random(Some([1; 32])).ok().unwrap();
    let other = SessionToken::from_random(Some([2; 32])).ok().unwrap();
    assert!(one != other);
    assert!(!one.matches_wire(other.to_wire().expose()));
    let token = SessionToken::from_random(Some([3; 32])).ok().unwrap();
    assert_eq!(token.bytes(), &[3; 32]);
}

#[test]
fn malformed_client_token_file_is_refused() {
    assert!(matches!(
        read_client_token("AA-not-canonical"),
        Err(TransportError::InvalidTokenFile)
    ));
    assert!(matches!(
        read_client_token(&"AB".repeat(32)),
        Err(TransportError::InvalidTokenFile)
    ));
    let written = SessionToken::from_bytes([0xab; 32]).to_wire();
    let token = read_client_token(written.expose()).ok().unwrap();
    assert_eq!(token.expose(), "ab".repeat(32));
}

#[test]
fn existing_broad_or_symlink_runtime_directory_is_refused() {
    let private = DirectoryFacts {
        is_directory: true,
        owned: true,
        mode: 0o40700,
    };
    assert_eq!(check_runtime_dir(private), Ok(()));
    let broad = DirectoryFacts {
        mode: 0o40755,
        ..private
    };
    assert_eq!(
        check_runtime_dir(broad),
        Err(TransportError::UnsafeRuntimeDirectory)
    );
    let link = DirectoryFacts {
        is_directory: false,
        ..private
    };
    assert_eq!(
        check_runtime_dir(link),
        Err(TransportError::UnsafeRuntimeDirectory)
    );
    let foreign = DirectoryFacts {
        owned: false,
        ..private
    };
    assert_eq!(
        check_runtime_dir(foreign),
        Err(TransportError::UnsafeRuntimeDirectory)
    );
}

#[test]
fn native_endpoint_is_user_scoped_and_authenticates_before_dispatch() {
    let paths = EndpointPaths::new(
        format!("/run/user/1000/{RUNTIME_DIR_NAME}"),
        format!("/run/user/1000/{RUNTIME_DIR_NAME}/{TOKEN_FILE_NAME}"),
        format!("/run/user/1000/{RUNTIME_DIR_NAME}/{SOCKET_FILE_NAME}"),
    );
    assert_eq!(paths.runtime_dir(), "/run/user/1000/downpour");
    assert_eq!(paths.token_file(), "/run/user/1000/downpour/session.token");
    assert_eq!(paths.socket_path(), "/run/user/1000/downpour/daemon.sock");

    let token = SessionToken::generate().unwrap();
    let client_token = read_client_token(token.to_wire().expose()).ok().unwrap();
    assert!(token.matches_wire(client_token.expose()));

    let hello = |secret: &str| {
        Request::Hello(HelloParams {
            protocol_version: PROTOCOL_VERSION,
            client: "native-test".to_owned(),
            token: SecretString::new(secret.to_owned()),
        })
    };
    let mut handler = CountingHandler::default();
    let mut rejected = Session::new(token.clone());
    let frame = encode_request(1, &hello("wrong")).unwrap();
    let received = read_frame(&frame).unwrap();
    assert!(rejected.handle_payload(&received, &mut handler).is_err());
    assert_eq!(handler.calls.len(), 0);

    let mut accepted = Session::new(token);
    let frame = encode_request(2, &hello(client_token.expose())).unwrap();
    let (id, response) = accepted
        .handle_payload(&read_frame(&frame).unwrap(), &mut handler)
        .unwrap();
    let answer = encode_response(id, &response).unwrap();
    assert!(matches!(
        decode_response(&answer[4..], ResponseKind::Hello).unwrap(),
        (2, Response::Hello(_))
    ));
    let status = Request::SystemStatus(VersionParams {
        protocol_version: PROTOCOL_VERSION,
    });
    let frame = encode_request(3, &status).unwrap();
    let (id, response) = accepted
        .handle_payload(&read_frame(&frame).unwrap(), &mut handler)
        .unwrap();
    let answer = encode_response(id, &response).unwrap();
    assert!(matches!(
        decode_response(&answer[4..], ResponseKind::Status).unwrap(),
        (3, Response::Status(_))
    ));
    assert_eq!(handler.calls.len(), 1);
}

#[test]
fn an_answer_of_another_kind_is_refused() {
    for (kind, response) in responses() {
        let frame = encode_response(5, &response).unwrap();
        let other = if kind == ResponseKind::Status {
            ResponseKind::Hello
        } else {
            ResponseKind::Status
        };
        let decoded = decode_response(&frame[4..], other);
        match response {
            Response::Error(_) => assert_eq!(decoded, Ok((5, response))),
            _ => assert_eq!(decoded, Err(CodecError::InvalidMessage)),
        }
    }
}

#[test]
fn a_download_identity_is_thirty_two_lowercase_hexadecimal_digits() {
    assert_eq!(
        id().as_str(),
        "018f0f0f0f0f70008000000000000001"
    );
    assert!(DownloadId::new("018F0F0F0F0F70008000000000000001").is_err());
    assert!(DownloadId::new("018f0f0f0f0f7000800000000000000").is_err());
    assert!(DownloadId::new("018f0f0f0f0f7000800000000000000g").is_err());
}
