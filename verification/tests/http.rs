//! Probing and fetching: what each response means, judged before a byte is stored.

use downpour::error::{ProbeError, TransferError};
use downpour::digest::{ContentDigest, DigestAlgorithm};
use downpour::filename::{choose_name, component_of, resolve, suggested_name};
use downpour::h1h2::{
    body_looks_like_a_web_page, fetch_unanswered, looks_like_a_web_page, FetchSession, HeadStep,
    ProbeSession, ResponseHead, TransportMode,
};
use downpour::protocol::{ProbeRequest, RangeRequest};
use downpour::remote::{
    parse_content_range, ByteRangeSpec, ContentRange, NegotiatedProtocol, RangeProof,
    RangeProofError, RangeSupport, Validator,
};
use downpour::sink::SinkError;
use downpour::time::{Duration, Timestamp};

const URL: &str = "https://example.test/dir/file.bin";

fn head(status: u16) -> ResponseHead {
    ResponseHead {
        status,
        protocol: NegotiatedProtocol::Http11,
        location: None,
        retry_after: None,
        content_type: None,
        content_range: None,
        content_encoding: None,
        content_length: None,
        etag: None,
        last_modified: None,
        repr_digest: None,
        content_digest: None,
        content_disposition: None,
    }
}

fn some(text: &str) -> Option<String> {
    Some(text.to_owned())
}

fn probe() -> ProbeSession {
    ProbeSession::new(ProbeRequest::new(URL.to_owned()))
}

#[test]
fn a_probe_asks_for_the_first_byte_with_the_standard_limits() {
    let request = ProbeRequest::new(URL.to_owned());
    assert_eq!(request.max_redirects, 10);
    assert_eq!(request.timeout, Duration::from_secs(15));
    assert!(request.headers.is_empty());
    assert_eq!(
        probe().next_request(),
        Ok(Some(ByteRangeSpec::FromTo { first: 0, last: 0 }))
    );
    assert_eq!(TransportMode::default(), TransportMode::Negotiated);
}

#[test]
fn redirects_are_resolved_recorded_and_bounded() {
    let mut session = probe();
    let moved = ResponseHead {
        location: some("../other/next.bin"),
        ..head(302)
    };
    assert_eq!(session.on_head(&moved), Ok(HeadStep::SendAgain));
    assert_eq!(session.current, "https://example.test/other/next.bin");
    assert_eq!(
        session.chain,
        [URL, "https://example.test/other/next.bin"]
    );
    for _ in 0..10 {
        assert_eq!(session.on_head(&moved), Ok(HeadStep::SendAgain));
    }
    assert_eq!(
        session.next_request(),
        Err(ProbeError::TooManyRedirects {
            start: URL.to_owned(),
            limit: 10
        })
    );
}

#[test]
fn a_redirect_must_say_where_to() {
    assert_eq!(
        probe().on_head(&head(301)),
        Err(ProbeError::RedirectWithoutLocation {
            url: URL.to_owned(),
            status: 301
        })
    );
    let nowhere = ResponseHead {
        location: some("https://[broken"),
        ..head(308)
    };
    assert_eq!(
        probe().on_head(&nowhere),
        Err(ProbeError::UnusableRedirectTarget {
            url: URL.to_owned(),
            location: "https://[broken".to_owned()
        })
    );
    let resolved = ResponseHead {
        location: some("x"),
        ..head(303)
    };
    let mut session = probe();
    assert_eq!(
        session.judge_head(&resolved, some("https://elsewhere.test/x")),
        Ok(HeadStep::SendAgain)
    );
    assert_eq!(session.current, "https://elsewhere.test/x");
}

#[test]
fn an_unsatisfiable_probe_range_is_dropped_once() {
    let mut session = probe();
    assert_eq!(session.on_head(&head(416)), Ok(HeadStep::SendAgain));
    assert_eq!(session.next_request(), Ok(None));
    assert_eq!(
        session.on_head(&head(416)),
        Err(ProbeError::UnexpectedStatus {
            url: URL.to_owned(),
            status: 416,
            retry_after: None
        })
    );
}

#[test]
fn refusals_are_told_apart() {
    for status in [401, 403, 410] {
        let error = probe().on_head(&head(status)).unwrap_err();
        assert_eq!(error.kind(), "needs_refresh");
    }
    let busy = ResponseHead {
        retry_after: some("7"),
        ..head(503)
    };
    assert_eq!(
        probe().on_head(&busy),
        Err(ProbeError::UnexpectedStatus {
            url: URL.to_owned(),
            status: 503,
            retry_after: some("7")
        })
    );
    let page = ResponseHead {
        content_type: some(" Text/HTML; charset=utf-8"),
        ..head(200)
    };
    assert_eq!(
        probe().on_head(&page).unwrap_err().kind(),
        "looks_like_error_page"
    );
    assert_eq!(
        probe().on_failure(true, "slow".to_owned()),
        ProbeError::Timeout {
            url: URL.to_owned()
        }
    );
    assert_eq!(
        probe().on_failure(false, "reset".to_owned()).kind(),
        "transport"
    );
    assert_eq!(
        probe().on_body_failure("operation timed out".to_owned()),
        ProbeError::Transport {
            url: URL.to_owned(),
            source: "operation timed out".to_owned(),
        }
    );
}

fn ranged_head() -> ResponseHead {
    ResponseHead {
        content_range: some("bytes 0-0/64"),
        content_length: some("1"),
        etag: some("\"v1\""),
        ..head(206)
    }
}

#[test]
fn range_support_is_proven_by_an_exact_answer_alone() {
    let session = probe();
    let now = Timestamp::from_secs(9);
    let remote = session
        .on_body(&ranged_head(), 1, now)
        .unwrap();
    assert_eq!(remote.total_length, Some(64));
    assert!(remote.range_support.is_proven());
    assert_eq!(remote.validator, Validator::StrongETag("\"v1\"".to_owned()));
    assert_eq!(remote.suggested_filename.as_deref(), Some("file.bin"));
    assert_eq!(remote.probed_at, now);
    assert_eq!(remote.redirect_chain, [URL]);

    // The server set the right headers and then sent the whole representation.
    let remote = session
        .on_body(&ranged_head(), 64, now)
        .unwrap();
    assert_eq!(remote.range_support, RangeSupport::Absent);
    assert_eq!(remote.total_length, None);

    let whole = ResponseHead {
        content_length: some("64"),
        ..head(200)
    };
    let remote = session
        .on_body(&whole, 64, now)
        .unwrap();
    assert_eq!(remote.range_support, RangeSupport::Absent);
    assert_eq!(remote.total_length, Some(64));
}

#[test]
fn an_encoded_body_is_refused_with_and_without_a_range() {
    let encoded = ResponseHead {
        content_encoding: some("gzip"),
        ..ranged_head()
    };
    let mut session = probe();
    let refused = session.on_body(&encoded, 1, Timestamp::from_secs(0));
    assert_eq!(
        refused.map(|_| ()),
        Err(ProbeError::ContentEncoding {
            url: URL.to_owned(),
            source: RangeProofError::UnexpectedContentEncoding {
                encoding: "gzip".to_owned()
            }
        })
    );
    session.with_range = false;
    let refused = session.on_body(&encoded, 1, Timestamp::from_secs(0));
    assert_eq!(
        refused.map(|_| ()).unwrap_err().kind(),
        "unexpected_content_encoding"
    );
    let plain = ResponseHead {
        content_encoding: some(" Identity "),
        content_length: some("+12"),
        ..head(200)
    };
    let remote = session
        .on_body(&plain, 12, Timestamp::from_secs(0))
        .unwrap();
    assert_eq!(remote.total_length, Some(12));
    assert_eq!(remote.range_support, RangeSupport::Absent);
}

fn sha256(encoded: &str) -> ContentDigest {
    ContentDigest {
        algorithm: DigestAlgorithm::Sha256,
        encoded: encoded.to_owned(),
    }
}

#[test]
fn the_representation_digest_comes_before_the_content_digest() {
    let probed = |repr: Option<&str>, content: Option<&str>| {
        let head = ResponseHead {
            repr_digest: repr.map(str::to_owned),
            content_digest: content.map(str::to_owned),
            ..ranged_head()
        };
        probe()
            .on_body(&head, 1, Timestamp::from_secs(0))
            .unwrap()
            .digest
    };
    let (one, other) = ("sha-256=:YWE=:", "sha-256=:YmI=:");
    assert_eq!(probed(Some(one), Some(other)), Some(sha256("YWE=")));
    assert_eq!(probed(None, Some(other)), Some(sha256("YmI=")));
    assert_eq!(probed(Some("nonsense"), Some(other)), None);
    assert_eq!(probed(None, None), None);
}

#[test]
fn a_digest_field_gives_the_first_digest_that_is_known() {
    assert_eq!(
        ContentDigest::parse("md5=:YWE=:, SHA-256=:YmI=:, sha-512=:Y2M=:"),
        Some(sha256("YmI="))
    );
    assert_eq!(
        ContentDigest::parse(" sha-512=:Y2M=: ").map(|digest| digest.algorithm),
        Some(DigestAlgorithm::Sha512)
    );
    for field in ["", "sha-256", "sha-256=YWE=", "sha-256=::", "sha-256=:a b:", "sha-1=:YWE=:"] {
        assert_eq!(ContentDigest::parse(field), None, "{field}");
    }
    // The hash of a text is written in base 64, with padding.
    assert!(sha256("aGVsbG8=").agrees(b"hello"));
    assert!(!sha256("aGVsbG8").agrees(b"hello"));
    assert!(!sha256("hello").agrees(b"hello"));
    assert!(!sha256("aGVsbG8=").agrees(&[0; 65]));
    assert!(sha256("YWJj").states("YWJj"));
}

#[test]
fn only_a_media_type_is_kept_as_the_content_type() {
    let kept = |value: &str| {
        let head = ResponseHead {
            content_type: some(value),
            ..ranged_head()
        };
        probe()
            .on_body(&head, 1, Timestamp::from_secs(0))
            .unwrap()
            .content_type
    };
    assert_eq!(kept("application/zip").as_deref(), Some("application/zip"));
    assert_eq!(
        kept("text/plain; charset=utf-8").as_deref(),
        Some("text/plain; charset=utf-8")
    );
    for value in ["", "zip", "/zip", "application/", "a b/c", "a/b/c"] {
        assert_eq!(kept(value), None, "{value}");
    }
}

#[test]
fn web_pages_are_recognised_by_type_or_by_first_bytes() {
    assert!(looks_like_a_web_page(Some("text/html")));
    assert!(looks_like_a_web_page(Some("application/xhtml+xml")));
    assert!(!looks_like_a_web_page(Some("application/zip")));
    assert!(!looks_like_a_web_page(None));

    assert!(body_looks_like_a_web_page(None, b"<!DOCTYPE html><html>"));
    assert!(body_looks_like_a_web_page(
        Some("application/octet-stream"),
        b"\xEF\xBB\xBF \r\n\t<HTML>"
    ));
    assert!(!body_looks_like_a_web_page(
        Some("text/xml"),
        b"<!doctype html>"
    ));
    assert!(!body_looks_like_a_web_page(None, b"<svg>"));
    assert!(!body_looks_like_a_web_page(None, b""));
}

#[test]
fn a_conditional_request_is_answered_by_its_part_or_refused() {
    let request = RangeRequest::resume(
        URL.to_owned(),
        ByteRangeSpec::From { first: 8 },
        "\"v1\"".to_owned(),
    );
    assert_eq!(request.timeout, Duration::from_secs(300));
    for status in [200, 404, 416] {
        assert_eq!(
            FetchSession::open(&request, &head(status)).map(|_| ()),
            Err(TransferError::ValidatorMismatch {
                url: URL.to_owned(),
                resume_offset: 8,
                status,
                validator: "\"v1\"".to_owned()
            })
        );
    }
    let part = ResponseHead {
        content_range: some("bytes 8-63/64"),
        ..head(206)
    };
    let session = FetchSession::open(&request, &part).unwrap();
    assert_eq!(session.promised, Some(56));
    let other = ResponseHead {
        content_range: some("bytes 9-63/64"),
        ..head(206)
    };
    assert_eq!(
        FetchSession::open(&request, &other)
            .map(|_| ())
            .unwrap_err()
            .kind(),
        "unusable_range_response"
    );
}

#[test]
fn a_fetch_reports_what_arrived() {
    let request = RangeRequest::whole(URL.to_owned());
    let answer = ResponseHead {
        content_length: some("10"),
        ..head(200)
    };
    let mut session = FetchSession::open(&request, &answer).unwrap();
    assert_eq!(session.inspect(b"plain"), Ok(()));
    assert_eq!(session.on_stored(5, Ok(())), Ok(()));
    assert!(session.finish().truncated);
    assert_eq!(
        session.on_break(false, "reset".to_owned()),
        TransferError::TruncatedBody {
            url: URL.to_owned(),
            expected: 10,
            delivered: 5
        }
    );
    assert_eq!(
        session.on_break(true, "slow".to_owned()),
        TransferError::Timeout {
            url: URL.to_owned(),
            bytes_delivered: 5
        }
    );
    assert_eq!(session.on_stored(5, Ok(())), Ok(()));
    let outcome = session.finish();
    assert!(!outcome.truncated);
    assert_eq!((outcome.bytes_delivered, outcome.status), (10, 200));
    assert_eq!(outcome.content_range, None);
    assert_eq!(
        session.on_break(false, "reset".to_owned()).kind(),
        "transport"
    );
}

#[test]
fn a_login_page_is_refused_before_it_is_stored() {
    let request = RangeRequest::whole(URL.to_owned());
    let answer = ResponseHead {
        content_type: some("application/octet-stream"),
        ..head(200)
    };
    let mut session = FetchSession::open(&request, &answer).unwrap();
    assert_eq!(
        session.inspect(b"<html><body>log in"),
        Err(TransferError::LooksLikeAnErrorPage {
            url: URL.to_owned(),
            declared_type: "application/octet-stream".to_owned()
        })
    );
    assert_eq!(session.inspect(b""), Ok(()));
    session.on_stored(4, Ok(())).unwrap();
    assert_eq!(session.inspect(b"<html>"), Ok(()));
}

#[test]
fn what_storage_refuses_is_told_apart_from_over_delivery() {
    let request = RangeRequest::ranged(URL.to_owned(), ByteRangeSpec::FromTo { first: 0, last: 3 });
    let answer = ResponseHead {
        content_range: some("bytes 0-3/64"),
        ..head(206)
    };
    let mut session = FetchSession::open(&request, &answer).unwrap();
    let beyond = session.on_stored(
        5,
        Err(SinkError::BeyondGrant {
            grant: 4,
            already_written: 0,
            attempted: 5,
        }),
    );
    assert_eq!(beyond.unwrap_err().kind(), "over_delivery");
    let full = session.on_stored(2, Err(SinkError::NoSpace { offset: 0 }));
    assert_eq!(full.unwrap_err().kind(), "sink");
    assert_eq!(session.finish().bytes_delivered, 0);
}

#[test]
fn an_unanswered_fetch_delivered_nothing() {
    let request = RangeRequest::whole(URL.to_owned());
    assert_eq!(
        fetch_unanswered(&request, true, "slow".to_owned()),
        TransferError::Timeout {
            url: URL.to_owned(),
            bytes_delivered: 0
        }
    );
    assert_eq!(
        fetch_unanswered(&request, false, "refused".to_owned()),
        TransferError::Transport {
            url: URL.to_owned(),
            source: "refused".to_owned()
        }
    );
    assert_eq!(
        FetchSession::open(&request, &head(404)).map(|_| ()),
        Err(TransferError::UnexpectedStatus {
            url: URL.to_owned(),
            status: 404,
            retry_after: None
        })
    );
}

#[test]
fn content_ranges_are_read_strictly() {
    assert_eq!(
        parse_content_range("bytes 0-9/100"),
        Some(ContentRange::Bytes {
            first: 0,
            last: 9,
            complete_length: Some(100)
        })
    );
    assert_eq!(parse_content_range("items 0-9/100"), None);
    assert_eq!(parse_content_range(""), None);
    let part = parse_content_range("bytes 0-9/100").unwrap();
    assert_eq!(part.len(), Some(10));
}

#[test]
fn a_range_proof_needs_status_range_and_body_to_agree() {
    let asked = ByteRangeSpec::FromTo { first: 4, last: 7 };
    let observed =
        RangeProof::from_observed_response(asked, 206, Some("bytes 4-7/64"), None, 4).unwrap();
    assert_eq!(observed.total_length(), 64);
    assert_eq!(
        observed.observed_range(),
        ContentRange::Bytes {
            first: 4,
            last: 7,
            complete_length: Some(64)
        }
    );
    for (status, range, encoding, body) in [
        (200, Some("bytes 4-7/64"), None, 4),
        (206, None, None, 4),
        (206, Some("nonsense"), None, 4),
        (206, Some("bytes 4-6/64"), None, 3),
        (206, Some("bytes 4-7/*"), None, 4),
        (206, Some("bytes 4-7/64"), None, 5),
        (206, Some("bytes 4-7/64"), Some("br"), 4),
    ] {
        assert!(
            RangeProof::from_observed_response(asked, status, range, encoding, body).is_err(),
            "{status} {range:?} {encoding:?} {body}"
        );
    }
}

#[test]
fn range_headers_read_as_the_protocol_writes_them() {
    assert_eq!(ByteRangeSpec::From { first: 12 }.header_value(), "bytes=12-");
    assert_eq!(
        ByteRangeSpec::FromTo { first: 0, last: 9 }.header_value(),
        "bytes=0-9"
    );
    assert_eq!(
        ByteRangeSpec::Suffix { len: 500 }.header_value(),
        "bytes=-500"
    );
}

#[test]
fn a_validator_is_strong_or_dated_or_absent() {
    assert_eq!(
        Validator::from_headers(Some("\"a\""), Some("Sun, 06 Nov 1994 08:49:37 GMT")),
        Validator::StrongETag("\"a\"".to_owned())
    );
    assert_eq!(
        Validator::from_headers(Some("W/\"a\""), Some("Sun, 06 Nov 1994 08:49:37 GMT")),
        Validator::LastModified("Sun, 06 Nov 1994 08:49:37 GMT".to_owned())
    );
    assert_eq!(Validator::from_headers(None, None), Validator::Absent);
    assert_eq!(
        Validator::StrongETag("\"a\"".to_owned()).if_range_value(),
        Some("\"a\"")
    );
    assert_eq!(Validator::Absent.if_range_value(), None);
}

#[test]
fn a_file_is_named_by_the_server_then_by_the_url_then_by_a_fixed_name() {
    let url = "https://example.test/dir/file.bin?part=2#top";
    assert_eq!(
        resolve(Some("attachment; filename=\"report; final.pdf\"; size=3"), url),
        "report; final.pdf"
    );
    assert_eq!(resolve(Some("attachment; FileName = plain.zip"), url), "plain.zip");
    assert_eq!(resolve(Some("inline"), url), "file.bin");
    assert_eq!(resolve(None, url), "file.bin");
    assert_eq!(resolve(None, "https://example.test/dir/"), "download");
    assert_eq!(resolve(None, "https://example.test"), "download");
    assert_eq!(resolve(None, "no url"), "download");
    assert_eq!(choose_name(None, Some("/a/b")), "b");
    assert_eq!(choose_name(None, None), "download");

    let named = ResponseHead {
        content_disposition: some("attachment; filename=named.iso"),
        ..ranged_head()
    };
    let remote = probe()
        .on_body(&named, 1, Timestamp::from_secs(0))
        .unwrap();
    assert_eq!(remote.suggested_filename.as_deref(), Some("named.iso"));
}

#[test]
fn a_suggested_name_never_leads_out_of_the_directory() {
    let url = "https://example.test/file.bin";
    assert_eq!(resolve(Some("attachment; filename=\"../../etc/passwd\""), url), "passwd");
    assert_eq!(resolve(Some("attachment; filename=\"..\\boot.ini\""), url), "boot.ini");
    assert_eq!(resolve(Some("attachment; filename=\"..\""), url), "file.bin");
    assert_eq!(resolve(Some("attachment; filename=\"a/\""), url), "file.bin");
    assert_eq!(resolve(Some("attachment; filename="), url), "file.bin");
    assert_eq!(suggested_name("attachment; filename=a; filename=b"), Some("a"));
    assert_eq!(suggested_name("attachment; name=a"), None);
    assert_eq!(component_of("."), None);
}
