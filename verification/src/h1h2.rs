//! The HTTP/1.1 and HTTP/2 backend's decisions.
//!
//! Redirects are followed by hand, so that the whole chain is recorded, and every response is
//! judged before a byte of it is stored. The network itself is driven from outside:
//! [`ProbeSession`] says what to send next and what each response means, and [`FetchSession`]
//! judges a body fetch from its first header to its last chunk.

use crate::digest;
use crate::digest::ContentDigest;
use crate::error::{ProbeError, TransferError};
use crate::filename;
use crate::protocol::{BackendCapabilities, ProbeRequest, RangeOutcome, RangeRequest};
use crate::remote;
use crate::remote::{
    ByteRangeSpec, ContentRange, NegotiatedProtocol, RangeProof, RangeProofError, RangeSupport,
    RemoteObject, Validator,
};
use crate::sink;
use crate::sink::SinkError;
use crate::text;
use crate::time::Timestamp;
use vstd::prelude::*;
use vstd::string::StrSliceExecFns;

verus! {

/// How the backend is allowed to reach the origin.
#[derive(Clone, Copy, Debug, PartialEq, Eq, Structural)]
pub enum TransportMode {
    /// HTTP/2 when the origin offers it, HTTP/1.1 otherwise.
    Negotiated,
    /// HTTP/1.1 only.
    Http1Only,
    /// Assume HTTP/2 without negotiating.
    Http2PriorKnowledge,
}

impl Default for TransportMode {
    /// Negotiation.
    fn default() -> (mode: Self)
        ensures
            mode == TransportMode::Negotiated,
    {
        TransportMode::Negotiated
    }
}

/// The head of one response, as it arrived.
#[derive(Debug)]
pub struct ResponseHead {
    /// Status code.
    pub status: u16,
    /// Protocol that carried the response.
    pub protocol: NegotiatedProtocol,
    /// `Location`.
    pub location: Option<String>,
    /// `Retry-After`.
    pub retry_after: Option<String>,
    /// `Content-Type`.
    pub content_type: Option<String>,
    /// `Content-Range`.
    pub content_range: Option<String>,
    /// `Content-Encoding`.
    pub content_encoding: Option<String>,
    /// `Content-Length`.
    pub content_length: Option<String>,
    /// `ETag`.
    pub etag: Option<String>,
    /// `Last-Modified`.
    pub last_modified: Option<String>,
    /// `Repr-Digest`.
    pub repr_digest: Option<String>,
    /// `Content-Digest`.
    pub content_digest: Option<String>,
    /// `Content-Disposition`.
    pub content_disposition: Option<String>,
}

impl ResponseHead {
    /// The length that `Content-Length` declares.
    pub open spec fn declared_length(&self) -> Option<u64> {
        match text::owned(self.content_length) {
            Some(value) => text::parsed_u64(value),
            None => None,
        }
    }

    /// The length that `Content-Length` declares.
    pub fn length(&self) -> (length: Option<u64>)
        ensures
            length == self.declared_length(),
    {
        match &self.content_length {
            Some(value) => text::parse_u64(value.as_str()),
            None => None,
        }
    }
}

/// The status redirects to another location.
pub open spec fn redirects(status: u16) -> bool {
    status == 301 || status == 302 || status == 303 || status == 307 || status == 308
}

/// Reports whether a status redirects.
pub fn is_redirect(status: u16) -> (yes: bool)
    ensures
        yes == redirects(status),
{
    status == 301 || status == 302 || status == 303 || status == 307 || status == 308
}

/// The status means that the URL or the credential went stale.
pub open spec fn wants_refresh(status: u16) -> bool {
    status == 401 || status == 403 || status == 410
}

/// The declared content type is that of a web page.
pub open spec fn declares_page(content_type: Option<Seq<char>>) -> bool {
    match content_type {
        Some(value) => text::begins_with(text::trimmed(value), "text/html"@) || text::begins_with(
            text::trimmed(value),
            "application/xhtml+xml"@,
        ),
        None => false,
    }
}

/// Whether a content type is a web page rather than the file that was asked for.
pub fn looks_like_a_web_page(content_type: Option<&str>) -> (yes: bool)
    ensures
        yes == declares_page(text::viewed(content_type)),
{
    match content_type {
        Some(value) => {
            let value = text::trim(value);
            text::starts_with(value, "text/html") || text::starts_with(
                value,
                "application/xhtml+xml",
            )
        },
        None => false,
    }
}

/// The declared content type says nothing about what the body is.
pub open spec fn declares_nothing(content_type: Option<Seq<char>>) -> bool {
    match content_type {
        Some(value) => {
            let value = text::trimmed(value);
            ||| text::begins_with(value, "application/octet-stream"@)
            ||| text::begins_with(value, "binary/octet-stream"@)
            ||| text::begins_with(value, "application/binary"@)
        },
        None => true,
    }
}

/// The byte is ASCII white space.
pub open spec fn is_blank(byte: u8) -> bool {
    byte == 9 || byte == 10 || byte == 12 || byte == 13 || byte == 32
}

/// `bytes` without a leading byte-order mark.
pub open spec fn unmarked(bytes: Seq<u8>) -> Seq<u8> {
    if bytes.len() >= 3 && bytes[0] == 0xEF && bytes[1] == 0xBB && bytes[2] == 0xBF {
        bytes.skip(3)
    } else {
        bytes
    }
}

/// `bytes` without leading white space.
pub open spec fn unindented(bytes: Seq<u8>) -> Seq<u8>
    decreases bytes.len(),
{
    if bytes.len() > 0 && is_blank(bytes[0]) {
        unindented(bytes.skip(1))
    } else {
        bytes
    }
}

/// The bytes begin with an ASCII text, letters compared without regard to case.
pub open spec fn spells(bytes: Seq<u8>, word: Seq<char>) -> bool {
    &&& word.len() <= bytes.len()
    &&& forall|i: int|
        0 <= i < word.len() ==> text::folded((#[trigger] bytes[i]) as char) == text::folded(word[i])
}

/// The bytes begin an HTML document.
pub open spec fn opens_page(bytes: Seq<u8>) -> bool {
    let rest = unindented(unmarked(bytes));
    ||| spells(rest, "<!doctype html"@)
    ||| spells(rest, "<html"@)
    ||| spells(rest, "<head"@)
    ||| spells(rest, "<body"@)
    ||| spells(rest, "<!doctype"@)
}

fn fold_byte(byte: u8) -> (code: u32)
    ensures
        code == text::folded(byte as char),
{
    if 65 <= byte && byte <= 90 {
        byte as u32 + 32
    } else {
        byte as u32
    }
}

/// Reports whether the bytes from `from` on begin with an ASCII text, ignoring case.
fn spelled(bytes: &[u8], from: usize, word: &str) -> (yes: bool)
    requires
        from <= bytes@.len(),
    ensures
        yes == spells(bytes@.skip(from as int), word@),
{
    let count: usize = word.unicode_len();
    if bytes.len() - from < count {
        return false;
    }
    let mut index: usize = 0;
    while index < count
        invariant
            index <= count,
            count == word@.len(),
            from + count <= bytes.len(),
            forall|i: int|
                0 <= i < index ==> text::folded((#[trigger] bytes@.skip(from as int)[i]) as char)
                    == text::folded(word@[i]),
        decreases count - index,
    {
        let c = word.get_char(index);
        let code: u32 = if 'A' <= c && c <= 'Z' {
            c as u32 + 32
        } else {
            c as u32
        };
        if fold_byte(bytes[from + index]) != code {
            proof {
                assert(bytes@.skip(from as int)[index as int] == bytes@[from + index]);
            }
            return false;
        }
        index = index + 1;
    }
    true
}

/// Whether a body's first bytes look like an HTML document when the headers claimed otherwise.
///
/// Only asked when the declared type is absent or generic: a type there is no reason to doubt is
/// believed, whatever its first byte. A byte-order mark and leading white space are skipped.
pub fn body_looks_like_a_web_page(content_type: Option<&str>, head: &[u8]) -> (yes: bool)
    ensures
        yes == (declares_nothing(text::viewed(content_type)) && opens_page(head@)),
{
    let generic: bool = match content_type {
        Some(value) => {
            let value = text::trim(value);
            text::starts_with(value, "application/octet-stream") || text::starts_with(
                value,
                "binary/octet-stream",
            ) || text::starts_with(value, "application/binary")
        },
        None => true,
    };
    if !generic {
        return false;
    }
    let marked: bool = head.len() >= 3 && head[0] == 0xEF && head[1] == 0xBB && head[2] == 0xBF;
    let mut from: usize = if marked {
        3
    } else {
        0
    };
    proof {
        assert(head@.skip(0) =~= head@);
    }
    while from < head.len() && (head[from] == 9 || head[from] == 10 || head[from] == 12
        || head[from] == 13 || head[from] == 32)
        invariant
            from <= head@.len(),
            unindented(unmarked(head@)) == unindented(head@.skip(from as int)),
        decreases head@.len() - from,
    {
        proof {
            assert(head@.skip(from as int).skip(1) =~= head@.skip(from + 1));
        }
        from = from + 1;
    }
    proof {
        assert(unindented(head@.skip(from as int)) == head@.skip(from as int));
    }
    spelled(head, from, "<!doctype html") || spelled(head, from, "<html") || spelled(
        head,
        from,
        "<head",
    ) || spelled(head, from, "<body") || spelled(head, from, "<!doctype")
}

/// Where a `Location` leads from a URL, as `url::Url::join` resolves it; none when either text is
/// no URL.
pub uninterp spec fn joined_url(base: Seq<char>, location: Seq<char>) -> Option<Seq<char>>;

/// Resolves a `Location` against the URL that sent it, with `url::Url::parse` for the base and
/// `url::Url::join`. The result is the serialised target; which text that is is left to the crate.
#[verifier::external_body]
fn join_url(base: &str, location: &str) -> (target: Option<String>)
    ensures
        text::owned(target) == joined_url(base@, location@),
{
    let base = url::Url::parse(base).ok()?;
    base.join(location).ok().map(|target| String::from(target.as_str()))
}

/// The range that a probe asks for: the first byte.
pub open spec fn probe_range() -> ByteRangeSpec {
    ByteRangeSpec::FromTo { first: 0, last: 0 }
}

/// What one response head means to a probe.
pub enum HeadVerdict {
    /// Ask again at another URL.
    Follow {
        /// The URL to ask.
        target: Seq<char>,
    },
    /// Ask again without a range.
    DropRange,
    /// The probe fails.
    Refuse(ProbeError<Seq<char>>),
    /// The head is usable; the body decides.
    ReadBody,
}

/// What to do after one response head.
#[derive(Clone, Copy, Debug, PartialEq, Eq, Structural)]
pub enum HeadStep {
    /// Send the next request.
    SendAgain,
    /// Read this response's body.
    ReadBody,
}

/// One capability probe: a ranged GET of the first byte, never a HEAD, following redirects.
#[derive(Debug)]
pub struct ProbeSession {
    /// What was asked for.
    pub request: ProbeRequest,
    /// The URL to ask next.
    pub current: String,
    /// Every URL asked so far.
    pub chain: Vec<String>,
    /// Redirects followed so far.
    pub hops: u32,
    /// Cleared, once, if the server reports the probe range itself as unsatisfiable.
    pub with_range: bool,
}

/// What a response head means, given where the probe stands and where its `Location` leads.
///
/// A `416` to the probe range says that the range is unusable, not that the representation is, so
/// the probe asks once more without one. Statuses that ask for a fresh URL are told apart from
/// other refusals.
pub open spec fn head_verdict(
    current: Seq<char>,
    with_range: bool,
    head: ResponseHead,
    joined: Option<Seq<char>>,
) -> HeadVerdict {
    if redirects(head.status) {
        match text::owned(head.location) {
            None => HeadVerdict::Refuse(
                ProbeError::RedirectWithoutLocation { url: current, status: head.status },
            ),
            Some(location) => match joined {
                None => HeadVerdict::Refuse(
                    ProbeError::UnusableRedirectTarget { url: current, location },
                ),
                Some(target) => HeadVerdict::Follow { target },
            },
        }
    } else if head.status == 416 && with_range {
        HeadVerdict::DropRange
    } else if wants_refresh(head.status) {
        HeadVerdict::Refuse(ProbeError::NeedsRefresh { url: current, status: head.status })
    } else if head.status != 200 && head.status != 206 {
        HeadVerdict::Refuse(
            ProbeError::UnexpectedStatus {
                url: current,
                status: head.status,
                retry_after: text::owned(head.retry_after),
            },
        )
    } else if declares_page(text::owned(head.content_type)) {
        HeadVerdict::Refuse(
            ProbeError::LooksLikeAnErrorPage {
                url: current,
                content_type: text::owned(head.content_type)->0,
            },
        )
    } else {
        HeadVerdict::ReadBody
    }
}

/// Where a response's `Location` leads, if it redirects at all.
pub open spec fn destination(current: Seq<char>, head: ResponseHead) -> Option<Seq<char>> {
    match text::owned(head.location) {
        Some(location) if redirects(head.status) => joined_url(current, location),
        _ => None,
    }
}

impl ProbeSession {
    /// The state after a verdict that sends the probe on.
    pub open spec fn moved(&self, next: &ProbeSession, verdict: HeadVerdict) -> bool {
        &&& next.request == self.request
        &&& match verdict {
            HeadVerdict::Follow { target } => {
                &&& next.current@ == target
                &&& remote::texts(next.chain@) == remote::texts(self.chain@).push(target)
                &&& next.hops == self.hops + 1
                &&& next.with_range == self.with_range
            },
            HeadVerdict::DropRange => {
                &&& next.current == self.current
                &&& next.chain == self.chain
                &&& next.hops == self.hops
                &&& !next.with_range
            },
            _ => *next == *self,
        }
    }

    /// How many more requests the probe can send at most.
    pub open spec fn requests_left(&self) -> int {
        let hops = self.request.max_redirects - self.hops + 1;
        (if hops > 0 {
            hops
        } else {
            0
        }) + (if self.with_range {
            1int
        } else {
            0
        })
    }

    /// The range of the next request, or the refusal to send one more.
    pub open spec fn upcoming(self) -> Result<Option<ByteRangeSpec>, ProbeError<Seq<char>>> {
        if self.hops > self.request.max_redirects {
            Err(
                ProbeError::TooManyRedirects {
                    start: self.request.url@,
                    limit: self.request.max_redirects,
                },
            )
        } else if self.with_range {
            Ok(Some(probe_range()))
        } else {
            Ok(None)
        }
    }

    /// What it means that no response arrived.
    pub open spec fn unanswered(self, timed_out: bool, source: Seq<char>) -> ProbeError<Seq<char>> {
        if timed_out {
            ProbeError::Timeout { url: self.current@ }
        } else {
            ProbeError::Transport { url: self.current@, source }
        }
    }

    /// The representation that an accepted response describes, given what it proves.
    pub open spec fn described(
        self,
        head: ResponseHead,
        evidence: Evidence,
        now: Timestamp,
    ) -> remote::RemoteObjectView {
        remote::RemoteObjectView {
            final_url: self.current@,
            redirect_chain: remote::texts(self.chain@),
            total_length: evidence.total_length,
            range_support: evidence.range_support,
            validator: Validator::<Seq<char>>::established(
                text::owned(head.etag),
                text::owned(head.last_modified),
            ),
            digest: sent_digest(head),
            protocol: head.protocol,
            suggested_filename: Some(
                filename::chosen(
                    text::owned(head.content_disposition),
                    filename::path_of(self.current@),
                ),
            ),
            content_type: sent_type(head),
            probed_at: now,
        }
    }

    /// Start a probe.
    pub fn new(request: ProbeRequest) -> (session: Self)
        ensures
            session.request == request,
            session.current == request.url,
            remote::texts(session.chain@) == seq![request.url@],
            session.hops == 0,
            session.with_range,
    {
        let current = request.url.clone();
        let mut chain: Vec<String> = Vec::new();
        chain.push(request.url.clone());
        proof {
            assert(remote::texts(chain@) =~= seq![request.url@]);
        }
        ProbeSession { request, current, chain, hops: 0, with_range: true }
    }

    /// The range of the next request, or the refusal to send one more.
    pub fn next_request(&self) -> (send: Result<Option<ByteRangeSpec>, ProbeError>)
        ensures
            (match send {
                Ok(range) => Ok(range),
                Err(error) => Err(error@),
            }) == self.upcoming(),
    {
        if self.hops > self.request.max_redirects {
            return Err(
                ProbeError::TooManyRedirects {
                    start: self.request.url.clone(),
                    limit: self.request.max_redirects,
                },
            );
        }
        if self.with_range {
            Ok(Some(ByteRangeSpec::FromTo { first: 0, last: 0 }))
        } else {
            Ok(None)
        }
    }

    /// What it means that an accepted response's body did not arrive whole, whatever held it up.
    pub fn on_body_failure(&self, source: String) -> (error: ProbeError)
        ensures
            error@ == (ProbeError::Transport { url: self.current@, source: source@ }),
    {
        ProbeError::Transport { url: self.current.clone(), source }
    }

    /// What it means that no response arrived.
    pub fn on_failure(&self, timed_out: bool, source: String) -> (error: ProbeError)
        ensures
            error@ == self.unanswered(timed_out, source@),
    {
        if timed_out {
            ProbeError::Timeout { url: self.current.clone() }
        } else {
            ProbeError::Transport { url: self.current.clone(), source }
        }
    }

    /// Take one response head.
    pub fn on_head(&mut self, head: &ResponseHead) -> (step: Result<HeadStep, ProbeError>)
        requires
            old(self).hops < u32::MAX,
        ensures
            ({
                let verdict = head_verdict(
                    old(self).current@,
                    old(self).with_range,
                    *head,
                    destination(old(self).current@, *head),
                );
                &&& old(self).moved(final(self), verdict)
                &&& answers_verdict(step, verdict)
            }),
    {
        let joined = match &head.location {
            Some(location) => if is_redirect(head.status) {
                join_url(self.current.as_str(), location.as_str())
            } else {
                None
            },
            None => None,
        };
        self.judge_head(head, joined)
    }

    /// Take one response head whose `Location` has been resolved.
    pub fn judge_head(&mut self, head: &ResponseHead, joined: Option<String>) -> (step: Result<
        HeadStep,
        ProbeError,
    >)
        requires
            old(self).hops < u32::MAX,
        ensures
            ({
                let verdict = head_verdict(
                    old(self).current@,
                    old(self).with_range,
                    *head,
                    text::owned(joined),
                );
                &&& old(self).moved(final(self), verdict)
                &&& answers_verdict(step, verdict)
            }),
    {
        let status: u16 = head.status;
        if is_redirect(status) {
            let location = match &head.location {
                Some(location) => location,
                None => {
                    return Err(
                        ProbeError::RedirectWithoutLocation { url: self.current.clone(), status },
                    );
                },
            };
            let target = match joined {
                Some(target) => target,
                None => {
                    return Err(
                        ProbeError::UnusableRedirectTarget {
                            url: self.current.clone(),
                            location: location.clone(),
                        },
                    );
                },
            };
            let ghost before = self.chain@;
            self.current = target.clone();
            self.chain.push(target);
            self.hops = self.hops + 1;
            proof {
                assert(remote::texts(self.chain@) =~= remote::texts(before).push(target@));
            }
            return Ok(HeadStep::SendAgain);
        }
        if status == 416 && self.with_range {
            self.with_range = false;
            return Ok(HeadStep::SendAgain);
        }
        if status == 401 || status == 403 || status == 410 {
            return Err(ProbeError::NeedsRefresh { url: self.current.clone(), status });
        }
        if status != 200 && status != 206 {
            return Err(
                ProbeError::UnexpectedStatus {
                    url: self.current.clone(),
                    status,
                    retry_after: text::copied(&head.retry_after),
                },
            );
        }
        if let Some(content_type) = &head.content_type {
            if looks_like_a_web_page(Some(content_type.as_str())) {
                return Err(
                    ProbeError::LooksLikeAnErrorPage {
                        url: self.current.clone(),
                        content_type: content_type.clone(),
                    },
                );
            }
        }
        Ok(HeadStep::ReadBody)
    }

    /// Conclude from the whole body of an accepted response.
    ///
    /// Only here can range support become proven. An encoded body is reported rather than taken
    /// for missing range support. Asked for a range, the server's declared length is taken for the
    /// representation's only under the status that says the whole of it was sent; asked for the
    /// whole, it is taken as it stands. Of the digest and the content type only what can be read
    /// as one is kept. The file is named by [`filename::resolve`].
    pub fn on_body(
        &self,
        head: &ResponseHead,
        body_len: u64,
        now: Timestamp,
    ) -> (probed: Result<RemoteObject, ProbeError>)
        ensures
            match probed {
                Ok(remote) => conclusion(self.with_range, self.current@, *head, body_len) is Ok
                    && remote@ == self.described(
                    *head,
                    conclusion(self.with_range, self.current@, *head, body_len)->Ok_0,
                    now,
                ),
                Err(error) => conclusion(self.with_range, self.current@, *head, body_len)
                    == Err::<Evidence, ProbeError<Seq<char>>>(error@),
            },
    {
        let declared: Option<u64> = head.length();
        let (total_length, range_support) = if !self.with_range {
            if let Some(encoding) = remote::encoding_of(text::borrowed(&head.content_encoding)) {
                return Err(
                    ProbeError::ContentEncoding {
                        url: self.current.clone(),
                        source: RangeProofError::UnexpectedContentEncoding { encoding },
                    },
                );
            }
            (declared, RangeSupport::Absent)
        } else {
            let support = match RangeProof::from_observed_response(
                ByteRangeSpec::FromTo { first: 0, last: 0 },
                head.status,
                text::borrowed(&head.content_range),
                text::borrowed(&head.content_encoding),
                body_len,
            ) {
                Ok(found) => RangeSupport::Proven(found),
                Err(RangeProofError::UnexpectedContentEncoding { encoding }) => {
                    return Err(
                        ProbeError::ContentEncoding {
                            url: self.current.clone(),
                            source: RangeProofError::UnexpectedContentEncoding { encoding },
                        },
                    );
                },
                Err(_) => RangeSupport::Absent,
            };
            let total: Option<u64> = match support {
                RangeSupport::Proven(found) => Some(found.total_length),
                _ => if head.status == 200 {
                    declared
                } else {
                    None
                },
            };
            (total, support)
        };
        let digest: Option<ContentDigest> = match (&head.repr_digest, &head.content_digest) {
            (Some(field), _) => ContentDigest::parse(field.as_str()),
            (None, Some(field)) => ContentDigest::parse(field.as_str()),
            (None, None) => None,
        };
        let content_type: Option<String> = match &head.content_type {
            Some(value) => if remote::media_type(value.as_str()) {
                Some(value.clone())
            } else {
                None
            },
            None => None,
        };
        Ok(
            RemoteObject {
                final_url: self.current.clone(),
                redirect_chain: remote::copy_texts(&self.chain),
                total_length,
                range_support,
                validator: Validator::from_headers(
                    text::borrowed(&head.etag),
                    text::borrowed(&head.last_modified),
                ),
                digest,
                protocol: head.protocol,
                suggested_filename: Some(
                    filename::resolve(
                        text::borrowed(&head.content_disposition),
                        self.current.as_str(),
                    ),
                ),
                content_type,
                probed_at: now,
            },
        )
    }
}

/// The digest that a response sends: that of the representation, and only without such a field
/// that of the content. A field that gives none counts as absent.
pub open spec fn sent_digest(head: ResponseHead) -> Option<ContentDigest<Seq<char>>> {
    match (text::owned(head.repr_digest), text::owned(head.content_digest)) {
        (Some(field), _) => digest::field_digest(field, 0),
        (None, Some(field)) => digest::field_digest(field, 0),
        (None, None) => None,
    }
}

/// The content type that a response sends, where it is one.
pub open spec fn sent_type(head: ResponseHead) -> Option<Seq<char>> {
    match text::owned(head.content_type) {
        Some(value) if remote::is_media_type(value) => Some(value),
        _ => None,
    }
}

/// The step that a verdict asks for.
pub open spec fn answers_verdict(
    step: Result<HeadStep, ProbeError>,
    verdict: HeadVerdict,
) -> bool {
    match verdict {
        HeadVerdict::Follow { .. } => step == Ok::<HeadStep, ProbeError>(HeadStep::SendAgain),
        HeadVerdict::DropRange => step == Ok::<HeadStep, ProbeError>(HeadStep::SendAgain),
        HeadVerdict::Refuse(error) => step is Err && step->Err_0@ == error,
        HeadVerdict::ReadBody => step == Ok::<HeadStep, ProbeError>(HeadStep::ReadBody),
    }
}

/// What a probe learns about length and ranges.
pub struct Evidence {
    /// Length of the representation, when known.
    pub total_length: Option<u64>,
    /// What is known of range support.
    pub range_support: RangeSupport,
}

/// What an accepted response proves once its body has been read.
pub open spec fn conclusion(
    with_range: bool,
    current: Seq<char>,
    head: ResponseHead,
    body_len: u64,
) -> Result<Evidence, ProbeError<Seq<char>>> {
    let encoding = remote::applied_encoding(text::owned(head.content_encoding));
    if encoding is Some {
        Err(
            ProbeError::ContentEncoding {
                url: current,
                source: RangeProofError::UnexpectedContentEncoding { encoding: encoding->0 },
            },
        )
    } else if !with_range {
        Ok(Evidence { total_length: head.declared_length(), range_support: RangeSupport::Absent })
    } else {
        match remote::evidence(
            probe_range(),
            head.status,
            text::owned(head.content_range),
            text::owned(head.content_encoding),
            body_len,
        ) {
            Ok(found) => Ok(
                Evidence {
                    total_length: Some(found.total_length),
                    range_support: RangeSupport::Proven(found),
                },
            ),
            Err(_) => Ok(
                Evidence {
                    total_length: if head.status == 200 {
                        head.declared_length()
                    } else {
                        None
                    },
                    range_support: RangeSupport::Absent,
                },
            ),
        }
    }
}

/// A probe is finite: whenever a head sends it on, fewer requests are left, and none is sent once
/// the redirect limit is passed.
pub proof fn law_a_probe_sends_boundedly_many_requests(
    before: ProbeSession,
    after: ProbeSession,
    verdict: HeadVerdict,
    head: ResponseHead,
    joined: Option<Seq<char>>,
)
    requires
        before.hops <= before.request.max_redirects,
        verdict == head_verdict(before.current@, before.with_range, head, joined),
        verdict is Follow || verdict is DropRange,
        before.moved(&after, verdict),
    ensures
        0 <= after.requests_left() < before.requests_left(),
        before.requests_left() <= before.request.max_redirects + 2,
{
}

/// Range support is proven by a `206` whose part is exactly the byte that was asked for, with a
/// body of that one byte and no encoding, and by nothing else.
pub proof fn law_range_support_is_proven_never_assumed(
    with_range: bool,
    current: Seq<char>,
    head: ResponseHead,
    body_len: u64,
)
    ensures
        conclusion(with_range, current, head, body_len) matches Ok(learned) ==> (
        learned.range_support is Proven ==> {
            &&& with_range
            &&& head.status == 206
            &&& body_len == 1
            &&& remote::applied_encoding(text::owned(head.content_encoding)) is None
            &&& text::owned(head.content_range) matches Some(value) && remote::stated_range(value)
                == Some(
                ContentRange::Bytes { first: 0, last: 0, complete_length: learned.total_length },
            )
        }),
{
}

/// The offset that a range request starts from.
pub open spec fn first_of(range: Option<ByteRangeSpec>) -> u64 {
    match range {
        Some(ByteRangeSpec::From { first }) => first,
        Some(ByteRangeSpec::FromTo { first, last }) => first,
        _ => 0,
    }
}

/// The part that a `Content-Range` header announces to hold, in bytes; nothing readable counts as
/// an empty part.
pub open spec fn announced(header: Option<Seq<char>>) -> u64 {
    match header {
        Some(value) => match remote::stated_range(value) {
            Some(range) => match range.spec_len() {
                Some(length) => length,
                None => 0,
            },
            None => 0,
        },
        None => 0,
    }
}

/// Why a response must not be stored, judged from its head alone. Checked before the first byte is
/// accepted, so that a bad response never reaches the file.
pub open spec fn refusal(request: RangeRequest, head: ResponseHead) -> Option<
    TransferError<Seq<char>>,
> {
    let url = request.url@;
    if request.if_range is Some && head.status != 206 {
        Some(
            TransferError::ValidatorMismatch {
                url,
                resume_offset: first_of(request.range),
                status: head.status,
                validator: text::owned(request.if_range)->0,
            },
        )
    } else if head.status != 200 && head.status != 206 {
        Some(
            TransferError::UnexpectedStatus {
                url,
                status: head.status,
                retry_after: text::owned(head.retry_after),
            },
        )
    } else {
        match request.range {
            Some(requested) => match remote::evidence(
                requested,
                head.status,
                text::owned(head.content_range),
                text::owned(head.content_encoding),
                announced(text::owned(head.content_range)),
            ) {
                Ok(_) => None,
                Err(source) => Some(TransferError::UnusableRangeResponse { url, source }),
            },
            None => match remote::applied_encoding(text::owned(head.content_encoding)) {
                Some(encoding) => Some(
                    TransferError::UnusableRangeResponse {
                        url,
                        source: RangeProofError::UnexpectedContentEncoding { encoding },
                    },
                ),
                None => None,
            },
        }
    }
}

/// The part that an accepted response holds; a whole representation has none.
pub open spec fn accepted_part(request: RangeRequest, head: ResponseHead) -> Option<ContentRange> {
    match request.range {
        Some(_) => remote::stated_range(text::owned(head.content_range)->0),
        None => None,
    }
}

/// How many bytes an accepted response commits to: its part's length, else its declared length.
pub open spec fn committed_length(request: RangeRequest, head: ResponseHead) -> Option<u64> {
    match accepted_part(request, head) {
        Some(part) => match part.spec_len() {
            Some(length) => Some(length),
            None => head.declared_length(),
        },
        None => head.declared_length(),
    }
}

/// One body fetch, from an accepted head to the last chunk.
#[derive(Debug)]
pub struct FetchSession {
    /// The URL being fetched.
    pub url: String,
    /// The content type the response declared.
    pub declared_type: Option<String>,
    /// The validated part, when a range was asked for.
    pub content_range: Option<ContentRange>,
    /// How many bytes the response committed to.
    pub promised: Option<u64>,
    /// The response status.
    pub status: u16,
    /// Which protocol carries the body.
    pub protocol: NegotiatedProtocol,
    /// Bytes stored so far.
    pub delivered: u64,
}

/// What it means that a fetch got no response at all.
pub open spec fn unanswered_fetch(
    url: Seq<char>,
    timed_out: bool,
    source: Seq<char>,
) -> TransferError<Seq<char>> {
    if timed_out {
        TransferError::Timeout { url, bytes_delivered: 0 }
    } else {
        TransferError::Transport { url, source }
    }
}

/// What it means that a fetch got no response at all.
pub fn fetch_unanswered(request: &RangeRequest, timed_out: bool, source: String) -> (error:
    TransferError)
    ensures
        error@ == unanswered_fetch(request.url@, timed_out, source@),
{
    if timed_out {
        TransferError::Timeout { url: request.url.clone(), bytes_delivered: 0 }
    } else {
        TransferError::Transport { url: request.url.clone(), source }
    }
}

impl FetchSession {
    /// The session of an accepted response, before its first byte.
    pub open spec fn opens(self, request: RangeRequest, head: ResponseHead) -> bool {
        &&& self.url == request.url
        &&& self.declared_type == head.content_type
        &&& self.content_range == accepted_part(request, head)
        &&& self.promised == committed_length(request, head)
        &&& self.status == head.status
        &&& self.protocol == head.protocol
        &&& self.delivered == 0
    }

    /// The session of an accepted response, some bytes later.
    pub open spec fn continues(self, request: RangeRequest, head: ResponseHead) -> bool {
        (FetchSession { delivered: 0, ..self }).opens(request, head)
    }

    /// Fewer bytes were stored than the response committed to.
    pub open spec fn is_short(self) -> bool {
        self.promised is Some && self.delivered < self.promised->0
    }

    /// What is reported of a body that ended here without an error.
    pub open spec fn reported(self) -> RangeOutcome {
        RangeOutcome {
            bytes_delivered: self.delivered,
            status: self.status,
            content_range: self.content_range,
            protocol: self.protocol,
            truncated: self.is_short(),
        }
    }

    /// What is reported of a body that broke off here with an error.
    pub open spec fn broken(self, timed_out: bool, source: Seq<char>) -> TransferError<Seq<char>> {
        if timed_out {
            TransferError::Timeout { url: self.url@, bytes_delivered: self.delivered }
        } else if self.is_short() {
            TransferError::TruncatedBody {
                url: self.url@,
                expected: self.promised->0,
                delivered: self.delivered,
            }
        } else {
            TransferError::Transport { url: self.url@, source }
        }
    }

    /// What is reported of a chunk that could not be stored.
    pub open spec fn unstored(self, source: SinkError<Seq<char>>) -> TransferError<Seq<char>> {
        if source is BeyondGrant {
            TransferError::OverDelivery { url: self.url@, source }
        } else {
            TransferError::Sink { url: self.url@, source }
        }
    }

    /// The session once a chunk was stored.
    pub open spec fn stores(self, next: FetchSession, length: usize) -> bool {
        next == (FetchSession {
            delivered: sink::capped_sum(self.delivered, length as u64),
            ..self
        })
    }

    /// The chunk is the beginning of a page that was sent in place of the file.
    pub open spec fn is_page(self, chunk: Seq<u8>) -> bool {
        &&& self.delivered == 0
        &&& chunk.len() > 0
        &&& declares_nothing(text::owned(self.declared_type))
        &&& opens_page(chunk)
    }

    /// Judge a response head and open the body, or refuse the response.
    ///
    /// A conditional request that is not answered with `206` is a hard stop: the representation
    /// changed, and neither writing at the resume offset nor starting over may follow.
    pub fn open(request: &RangeRequest, head: &ResponseHead) -> (opened: Result<
        FetchSession,
        TransferError,
    >)
        ensures
            match opened {
                Ok(session) => refusal(*request, *head) is None && session.opens(*request, *head),
                Err(error) => refusal(*request, *head) == Some(error@),
            },
    {
        let status: u16 = head.status;
        if let Some(validator) = &request.if_range {
            if status != 206 {
                let resume_offset: u64 = match request.range {
                    Some(ByteRangeSpec::From { first }) => first,
                    Some(ByteRangeSpec::FromTo { first, .. }) => first,
                    _ => 0,
                };
                return Err(
                    TransferError::ValidatorMismatch {
                        url: request.url.clone(),
                        resume_offset,
                        status,
                        validator: validator.clone(),
                    },
                );
            }
        }
        if status != 200 && status != 206 {
            return Err(
                TransferError::UnexpectedStatus {
                    url: request.url.clone(),
                    status,
                    retry_after: text::copied(&head.retry_after),
                },
            );
        }
        let content_range: Option<ContentRange> = match request.range {
            Some(requested) => {
                let length: u64 = match &head.content_range {
                    Some(value) => match remote::parse_content_range(value.as_str()) {
                        Some(range) => match range.len() {
                            Some(length) => length,
                            None => 0,
                        },
                        None => 0,
                    },
                    None => 0,
                };
                match RangeProof::from_observed_response(
                    requested,
                    status,
                    text::borrowed(&head.content_range),
                    text::borrowed(&head.content_encoding),
                    length,
                ) {
                    Ok(found) => Some(found.observed_range()),
                    Err(source) => {
                        return Err(
                            TransferError::UnusableRangeResponse {
                                url: request.url.clone(),
                                source,
                            },
                        );
                    },
                }
            },
            None => {
                if let Some(encoding) = remote::encoding_of(
                    text::borrowed(&head.content_encoding),
                ) {
                    return Err(
                        TransferError::UnusableRangeResponse {
                            url: request.url.clone(),
                            source: RangeProofError::UnexpectedContentEncoding { encoding },
                        },
                    );
                }
                None
            },
        };
        let promised: Option<u64> = match content_range {
            Some(part) => match part.len() {
                Some(length) => Some(length),
                None => head.length(),
            },
            None => head.length(),
        };
        Ok(
            FetchSession {
                url: request.url.clone(),
                declared_type: text::copied(&head.content_type),
                content_range,
                promised,
                status,
                protocol: head.protocol,
                delivered: 0,
            },
        )
    }

    /// What it means that the body broke off with an error. Short of the committed length it is a
    /// truncation, which has its own retry policy.
    pub fn on_break(&self, timed_out: bool, source: String) -> (error: TransferError)
        ensures
            error@ == self.broken(timed_out, source@),
    {
        if timed_out {
            return TransferError::Timeout {
                url: self.url.clone(),
                bytes_delivered: self.delivered,
            };
        }
        if let Some(expected) = self.promised {
            if self.delivered < expected {
                return TransferError::TruncatedBody {
                    url: self.url.clone(),
                    expected,
                    delivered: self.delivered,
                };
            }
        }
        TransferError::Transport { url: self.url.clone(), source }
    }

    /// Judge a chunk before it reaches the sink, so that a login page is never written. Only the
    /// first bytes are looked at.
    pub fn inspect(&self, chunk: &[u8]) -> (admitted: Result<(), TransferError>)
        ensures
            admitted is Err <==> self.is_page(chunk@),
            admitted matches Err(error) ==> error@ == (TransferError::LooksLikeAnErrorPage {
                url: self.url@,
                declared_type: match text::owned(self.declared_type) {
                    Some(declared) => declared,
                    None => Seq::<char>::empty(),
                },
            }),
    {
        if chunk.len() == 0 {
            return Ok(());
        }
        if self.delivered == 0 && body_looks_like_a_web_page(
            text::borrowed(&self.declared_type),
            chunk,
        ) {
            let declared_type = match &self.declared_type {
                Some(declared) => declared.clone(),
                None => String::new(),
            };
            return Err(
                TransferError::LooksLikeAnErrorPage { url: self.url.clone(), declared_type },
            );
        }
        Ok(())
    }

    /// Take note of what the sink made of an admitted chunk. A refusal for going past the grant
    /// is the server's over-delivery; every other one is a storage failure.
    pub fn on_stored(&mut self, length: usize, stored: Result<(), SinkError>) -> (noted: Result<
        (),
        TransferError,
    >)
        ensures
            final(self).url == old(self).url,
            final(self).declared_type == old(self).declared_type,
            final(self).content_range == old(self).content_range,
            final(self).promised == old(self).promised,
            final(self).status == old(self).status,
            final(self).protocol == old(self).protocol,
            noted is Ok <==> stored is Ok,
            stored is Ok ==> final(self).delivered == sink::capped_sum(
                old(self).delivered,
                length as u64,
            ),
            stored is Ok ==> old(self).stores(*final(self), length),
            stored matches Err(source) ==> {
                &&& final(self).delivered == old(self).delivered
                &&& noted is Err
                &&& noted->Err_0@ == old(self).unstored(source@)
            },
    {
        match stored {
            Ok(()) => {
                self.delivered = self.delivered.saturating_add(length as u64);
                Ok(())
            },
            Err(SinkError::BeyondGrant { grant, already_written, attempted }) => Err(
                TransferError::OverDelivery {
                    url: self.url.clone(),
                    source: SinkError::BeyondGrant { grant, already_written, attempted },
                },
            ),
            Err(source) => Err(TransferError::Sink { url: self.url.clone(), source }),
        }
    }

    /// Report a body that ended without an error. One that stopped short of what was committed is
    /// reported as truncated, never taken for complete.
    pub fn finish(&self) -> (outcome: RangeOutcome)
        ensures
            outcome == self.reported(),
    {
        let truncated: bool = match self.promised {
            Some(expected) => self.delivered < expected,
            None => false,
        };
        RangeOutcome {
            bytes_delivered: self.delivered,
            status: self.status,
            content_range: self.content_range,
            protocol: self.protocol,
            truncated,
        }
    }
}

/// A conditional request whose answer is not exactly the requested part of the recorded
/// representation is refused before a byte is stored: a resume never splices two versions.
pub proof fn law_a_resume_is_answered_by_its_own_part_or_refused(
    request: RangeRequest,
    head: ResponseHead,
)
    requires
        request.if_range is Some,
        request.range is Some,
        refusal(request, head) is None,
    ensures
        head.status == 206,
        accepted_part(request, head) matches Some(ContentRange::Bytes {
            first,
            last,
            complete_length: Some(total),
        }) && remote::answers(request.range->0, first, last, total),
{
}

/// No encoded response is ever accepted, ranged or whole.
pub proof fn law_an_encoded_response_is_never_stored(request: RangeRequest, head: ResponseHead)
    requires
        refusal(request, head) is None,
    ensures
        remote::applied_encoding(text::owned(head.content_encoding)) is None,
{
}

/// What the backend can offer in a transport mode.
pub fn capabilities(mode: TransportMode) -> (offered: BackendCapabilities)
    ensures
        offered.name@ == "h1h2"@,
        offered.protocols@ == (match mode {
            TransportMode::Negotiated => seq![NegotiatedProtocol::Http11, NegotiatedProtocol::Http2],
            TransportMode::Http1Only => seq![NegotiatedProtocol::Http11],
            TransportMode::Http2PriorKnowledge => seq![NegotiatedProtocol::Http2],
        }),
        offered.multiplexes_streams == (mode != TransportMode::Http1Only),
        offered.supports_ranges,
{
    let mut protocols: Vec<NegotiatedProtocol> = Vec::new();
    match mode {
        TransportMode::Negotiated => {
            protocols.push(NegotiatedProtocol::Http11);
            protocols.push(NegotiatedProtocol::Http2);
        },
        TransportMode::Http1Only => {
            protocols.push(NegotiatedProtocol::Http11);
        },
        TransportMode::Http2PriorKnowledge => {
            protocols.push(NegotiatedProtocol::Http2);
        },
    }
    BackendCapabilities {
        name: "h1h2",
        multiplexes_streams: mode != TransportMode::Http1Only,
        protocols,
        supports_ranges: true,
    }
}

/// A redirect is followed to where its `Location` leads, and nothing else is: under each of the
/// five redirecting statuses the probe goes on to the resolved target, fails where there is no
/// `Location` or it leads nowhere, and under any other status the probe stays where it is.
pub proof fn law_redirects_are_followed_to_their_target(
    current: Seq<char>,
    with_range: bool,
    head: ResponseHead,
    target: Seq<char>,
)
    ensures
        ({
            let moves = head.status == 301 || head.status == 302 || head.status == 303
                || head.status == 307 || head.status == 308;
            let verdict = head_verdict(current, with_range, head, destination(current, head));
            &&& moves && head.location is Some && joined_url(current, head.location->0@) == Some(
                target,
            ) ==> verdict == (HeadVerdict::Follow { target })
            &&& verdict is Follow ==> moves && head.location is Some && joined_url(
                current,
                head.location->0@,
            ) == Some(verdict->target)
            &&& moves && head.location is None ==> verdict == HeadVerdict::Refuse(
                ProbeError::RedirectWithoutLocation { url: current, status: head.status },
            )
            &&& moves && head.location is Some && joined_url(current, head.location->0@) is None
                ==> verdict == HeadVerdict::Refuse(
                ProbeError::UnusableRedirectTarget { url: current, location: head.location->0@ },
            )
        }),
{
}

/// What a head that does not redirect means goes by its status: `416` to a ranged request is asked
/// again without the range, `401`, `403` and `410` want a fresh URL, `200` and `206` are read
/// unless they are a web page, and everything else is an unexpected status with its `Retry-After`.
pub proof fn law_every_other_status_has_its_meaning(
    current: Seq<char>,
    with_range: bool,
    head: ResponseHead,
)
    requires
        head.status != 301 && head.status != 302 && head.status != 303 && head.status != 307
            && head.status != 308,
    ensures
        ({
            let verdict = head_verdict(current, with_range, head, destination(current, head));
            let stale = head.status == 401 || head.status == 403 || head.status == 410;
            let sent = head.status == 200 || head.status == 206;
            &&& verdict is DropRange <==> head.status == 416 && with_range
            &&& stale ==> verdict == HeadVerdict::Refuse(
                ProbeError::NeedsRefresh { url: current, status: head.status },
            )
            &&& verdict is ReadBody <==> sent && !declares_page(text::owned(head.content_type))
            &&& sent && declares_page(text::owned(head.content_type)) ==> verdict
                == HeadVerdict::Refuse(
                ProbeError::LooksLikeAnErrorPage {
                    url: current,
                    content_type: head.content_type->0@,
                },
            )
            &&& !stale && !sent && !(head.status == 416 && with_range) ==> verdict
                == HeadVerdict::Refuse(
                ProbeError::UnexpectedStatus {
                    url: current,
                    status: head.status,
                    retry_after: text::owned(head.retry_after),
                },
            )
        }),
{
}

/// The chain records every URL that was asked, in order: it ends in the URL that is asked next, it
/// is one longer than the redirects that were followed, nothing on it is ever changed, and a
/// refused or accepted head leaves the probe as it is.
pub proof fn law_the_chain_records_every_url(
    before: ProbeSession,
    after: ProbeSession,
    verdict: HeadVerdict,
)
    requires
        before.moved(&after, verdict),
        before.chain@.len() == before.hops + 1,
        before.chain@.last()@ == before.current@,
    ensures
        after.request == before.request,
        after.chain@.len() == after.hops + 1,
        after.chain@.last()@ == after.current@,
        forall|i: int|
            0 <= i < before.chain@.len() ==> (#[trigger] after.chain@[i])@ == before.chain@[i]@,
        verdict is Follow ==> after.current@ == verdict->target && after.chain@.len()
            == before.chain@.len() + 1 && after.with_range == before.with_range,
        !(verdict is Follow) ==> after.current == before.current && after.chain == before.chain,
        after.with_range <==> before.with_range && !(verdict is DropRange),
{
    assert(remote::texts(after.chain@).len() == after.chain@.len());
    assert(remote::texts(before.chain@).len() == before.chain@.len());
    assert forall|i: int| 0 <= i < before.chain@.len() implies (#[trigger] after.chain@[i])@
        == before.chain@[i]@ by {
        assert(remote::texts(after.chain@)[i] == after.chain@[i]@);
        assert(remote::texts(before.chain@)[i] == before.chain@[i]@);
        if verdict is Follow {
            assert(remote::texts(before.chain@).push(verdict->target)[i] == remote::texts(
                before.chain@,
            )[i]);
        }
    }
    assert(remote::texts(after.chain@).last() == after.chain@.last()@);
}

/// A web page is known by its type, whatever its case, the white space around it and its
/// parameters.
pub proof fn law_a_declared_page_is_known(blank: char, rest: Seq<char>, value: Seq<char>)
    requires
        blank == ' ' || blank == '\t',
        rest.len() == 0 || !text::is_white(rest.last()),
    ensures
        declares_page(Some("text/html"@ + rest)),
        declares_page(Some(seq![blank] + ("text/html"@ + rest))),
        declares_page(Some("TEXT/HTML"@ + rest)),
        declares_page(Some("application/xhtml+xml"@ + rest)),
        declares_page(Some(value)) ==> text::trimmed(value).len() >= 9,
        declares_page(Some(value)) ==> text::folded(text::trimmed(value)[0]) == 't' as u32
            || text::folded(text::trimmed(value)[0]) == 'a' as u32,
        !declares_page(None),
{
    reveal_strlit("text/html");
    reveal_strlit("TEXT/HTML");
    reveal_strlit("application/xhtml+xml");
    assert("text/html"@.len() == 9 && "TEXT/HTML"@.len() == 9);
    assert("application/xhtml+xml"@.len() == 21);
    text::lemma_bare_ends("text/html"@ + rest);
    text::lemma_bare_ends("TEXT/HTML"@ + rest);
    text::lemma_bare_ends("application/xhtml+xml"@ + rest);
    let indented = seq![blank] + ("text/html"@ + rest);
    assert(indented.skip(1) =~= "text/html"@ + rest);
    assert(text::trim_front(indented) == text::trim_front(indented.skip(1)));
    assert forall|i: int| 0 <= i < 9 implies text::folded(#[trigger] ("TEXT/HTML"@ + rest)[i])
        == text::folded("text/html"@[i]) by {
        assert(("TEXT/HTML"@ + rest)[i] == "TEXT/HTML"@[i]);
    }
    text::law_only_ascii_case_is_disregarded('a', 'a', "text/html"@, rest);
    text::law_only_ascii_case_is_disregarded('a', 'a', "application/xhtml+xml"@, rest);
}

/// A page in place of a file is known by how it opens, behind a byte-order mark and any white
/// space: white space in front changes nothing, a mark in front changes nothing, and whatever opens
/// a page begins with an angle bracket.
pub proof fn law_a_page_is_known_by_its_opening(bytes: Seq<u8>, blank: u8)
    requires
        blank == 9 || blank == 10 || blank == 12 || blank == 13 || blank == 32,
    ensures
        bytes.len() >= 5 && bytes[0] == 60 && (bytes[1] == 104 || bytes[1] == 72) && (bytes[2]
            == 116 || bytes[2] == 84) && (bytes[3] == 109 || bytes[3] == 77) && (bytes[4] == 108
            || bytes[4] == 76) ==> opens_page(bytes),
        spells(bytes, "<!doctype"@) || spells(bytes, "<head"@) || spells(bytes, "<body"@)
            ==> opens_page(bytes),
        opens_page(bytes) && !(bytes[0] == 0xEF) ==> opens_page(seq![blank] + bytes),
        opens_page(bytes) && !(bytes[0] == 0xEF) ==> opens_page(
            seq![0xEFu8, 0xBBu8, 0xBFu8] + bytes,
        ),
        opens_page(bytes) && !(bytes[0] == 0xEF) && !is_blank(bytes[0]) ==> bytes[0] == 60,
{
    reveal_strlit("<!doctype html");
    reveal_strlit("<html");
    reveal_strlit("<head");
    reveal_strlit("<body");
    reveal_strlit("<!doctype");
    assert("<html"@.len() == 5 && "<head"@.len() == 5 && "<body"@.len() == 5);
    assert("<!doctype"@.len() == 9 && "<!doctype html"@.len() == 14);
    assert((seq![blank] + bytes).skip(1) =~= bytes);
    assert((seq![0xEFu8, 0xBBu8, 0xBFu8] + bytes).skip(3) =~= bytes);
    if bytes.len() >= 5 && bytes[0] == 60 && (bytes[1] == 104 || bytes[1] == 72) && (bytes[2] == 116
        || bytes[2] == 84) && (bytes[3] == 109 || bytes[3] == 77) && (bytes[4] == 108 || bytes[4]
        == 76) {
        assert forall|i: int| 0 <= i < 5 implies text::folded((#[trigger] bytes[i]) as char)
            == text::folded("<html"@[i]) by {
            assert(i == 0 || i == 1 || i == 2 || i == 3 || i == 4);
        }
        assert(spells(bytes, "<html"@));
    }
    if spells(bytes, "<!doctype"@) || spells(bytes, "<head"@) || spells(bytes, "<body"@) {
        assert(text::folded(bytes[0] as char) == text::folded('<'));
        assert(bytes[0] == 60);
    }
    if opens_page(bytes) && bytes[0] != 0xEF {
        assert(unmarked(bytes) == bytes);
        if !is_blank(bytes[0]) {
            assert(unindented(bytes) == bytes);
            assert(text::folded(bytes[0] as char) == text::folded('<'));
        }
    }
}

/// What a type that names the bytes says is believed; only a missing or generic type lets the body
/// be looked at, and only before its first byte was stored.
pub proof fn law_a_named_type_is_believed(
    session: FetchSession,
    chunk: Seq<u8>,
    kind: Seq<char>,
)
    ensures
        declares_nothing(None),
        declares_nothing(Some("application/octet-stream"@)),
        declares_nothing(Some("binary/octet-stream"@)),
        declares_nothing(Some("application/binary"@)),
        declares_nothing(Some(kind)) ==> text::trimmed(kind).len() >= 18,
        !declares_nothing(Some("application/zip"@)),
        session.is_page(chunk) ==> session.delivered == 0 && opens_page(chunk),
        session.declared_type is None && session.delivered == 0 && chunk.len() > 0 && opens_page(
            chunk,
        ) ==> session.is_page(chunk),
        session.is_page(chunk) && session.declared_type is Some ==> declares_nothing(
            Some(session.declared_type->0@),
        ),
{
    reveal_strlit("application/octet-stream");
    reveal_strlit("binary/octet-stream");
    reveal_strlit("application/binary");
    reveal_strlit("application/zip");
    assert("application/octet-stream"@.len() == 24);
    assert("binary/octet-stream"@.len() == 19);
    assert("application/binary"@.len() == 18);
    assert("application/zip"@.len() == 15);
    text::lemma_bare_ends("application/octet-stream"@);
    text::lemma_bare_ends("binary/octet-stream"@);
    text::lemma_bare_ends("application/binary"@);
    text::lemma_bare_ends("application/zip"@);
}

/// A server that answers the probe with the first byte of a representation of some length, and
/// nothing else, has proven range support and that length. One that sends the whole has proven no
/// range support, and its declared length is the representation's; under `206` without a proof, no
/// length is known. Asked without a range, it proves no range support whatever it says.
pub proof fn law_a_probe_learns_what_was_shown(
    with_range: bool,
    current: Seq<char>,
    head: ResponseHead,
    body_len: u64,
    total: u64,
)
    requires
        remote::applied_encoding(text::owned(head.content_encoding)) is None,
    ensures
        ({
            let learned = conclusion(with_range, current, head, body_len);
            &&& learned is Ok
            &&& with_range && head.status == 206 && body_len == 1 && head.content_range is Some
                && remote::stated_range(head.content_range->0@) == Some(
                ContentRange::Bytes { first: 0, last: 0, complete_length: Some(total) },
            ) ==> learned->Ok_0.range_support is Proven && learned->Ok_0.total_length == Some(total)
                && learned->Ok_0.range_support->Proven_0.total_length == total
            &&& learned->Ok_0.range_support is Proven || learned->Ok_0.range_support is Absent
            &&& head.status == 200 ==> learned->Ok_0.range_support is Absent
                && learned->Ok_0.total_length == head.declared_length()
            &&& !with_range ==> learned->Ok_0.range_support is Absent
                && learned->Ok_0.total_length == head.declared_length()
            &&& with_range && head.status == 206 && learned->Ok_0.range_support is Absent
                ==> learned->Ok_0.total_length is None
        }),
{
    if remote::stated_range(head.content_range->0@) == Some(
        ContentRange::Bytes { first: 0, last: 0, complete_length: Some(total) },
    ) {
        assert(total > 0);
    }
}

/// An encoded body is no evidence of anything: the probe fails and tells the encoding, whatever
/// else the response says.
pub proof fn law_an_encoded_probe_is_refused(
    with_range: bool,
    current: Seq<char>,
    head: ResponseHead,
    body_len: u64,
)
    ensures
        remote::applied_encoding(text::owned(head.content_encoding)) matches Some(encoding)
            ==> conclusion(with_range, current, head, body_len) == Err::<
            Evidence,
            ProbeError<Seq<char>>,
        >(
            ProbeError::ContentEncoding {
                url: current,
                source: RangeProofError::UnexpectedContentEncoding { encoding },
            },
        ),
{
}

/// A length that a server declares is the number it writes, and no other header plays a part.
pub proof fn law_a_declared_length_is_the_number_written(head: ResponseHead, length: u64)
    ensures
        head.content_length is Some && head.content_length->0@ == text::decimal(length as nat)
            ==> head.declared_length() == Some(length),
        head.content_length is None ==> head.declared_length() is None,
        head.declared_length() is Some ==> head.content_length is Some && text::parsed_u64(
            head.content_length->0@,
        ) == head.declared_length(),
{
    text::law_decimal_reads_back(length, 0);
}

/// A short body is told from a whole one, whatever the response's other headers say: asked for the
/// whole, a server that declares a length owes that many bytes; asked for a part, it owes the part.
/// Fewer stored bytes than are owed are a truncation, as many or more are none, and without any
/// length nothing is.
pub proof fn law_a_short_body_is_told_from_a_whole_one(
    request: RangeRequest,
    head: ResponseHead,
    session: FetchSession,
    source: Seq<char>,
)
    requires
        refusal(request, head) is None,
        session.continues(request, head),
    ensures
        request.range is None ==> session.promised == head.declared_length(),
        request.range is Some ==> head.content_range is Some && (remote::stated_range(
            head.content_range->0@,
        ) matches Some(ContentRange::Bytes { first, last, complete_length: Some(_) }) && (
        session.promised matches Some(owed) && owed == last - first + 1)),
        session.promised matches Some(owed) ==> (session.reported().truncated
            <==> session.delivered < owed),
        session.promised is None ==> !session.reported().truncated,
        session.reported().bytes_delivered == session.delivered,
        session.reported().status == head.status,
        session.reported().protocol == head.protocol,
        session.reported().content_range is Some <==> request.range is Some,
        session.broken(true, source) == (TransferError::Timeout {
            url: request.url@,
            bytes_delivered: session.delivered,
        }),
        session.promised is Some && session.delivered < session.promised->0 ==> session.broken(
            false,
            source,
        ) == (TransferError::TruncatedBody {
            url: request.url@,
            expected: session.promised->0,
            delivered: session.delivered,
        }),
        !session.reported().truncated ==> session.broken(false, source) == (
        TransferError::Transport { url: request.url@, source }),
{
    if let Some(requested) = request.range {
        remote::law_evidence_needs_every_check(
            requested,
            head.status,
            text::owned(head.content_range),
            text::owned(head.content_encoding),
            announced(text::owned(head.content_range)),
        );
    }
}

/// A response is stored exactly if every check passes: the status is `200` or `206`, a conditional
/// request got `206`, nothing is encoded, and a ranged request got the part it asked for. A
/// conditional request with any other status is the representation having changed, told with the
/// offset and the validator that it was asked with.
pub proof fn law_what_is_stored_and_what_is_refused(request: RangeRequest, head: ResponseHead)
    ensures
        refusal(request, head) is None <==> {
            &&& head.status == 200 || head.status == 206
            &&& request.if_range is Some ==> head.status == 206
            &&& remote::applied_encoding(text::owned(head.content_encoding)) is None
            &&& request.range matches Some(requested) ==> {
                &&& head.status == 206
                &&& head.content_range is Some
                &&& remote::stated_range(head.content_range->0@) matches Some(
                    ContentRange::Bytes { first, last, complete_length: Some(total) },
                ) && remote::answers(requested, first, last, total) && last - first < u64::MAX
            }
        },
        request.if_range is Some && head.status != 206 <==> refusal(request, head) matches Some(
            TransferError::ValidatorMismatch { .. },
        ),
        refusal(request, head) matches Some(
            TransferError::ValidatorMismatch { url, resume_offset, status, validator },
        ) ==> url == request.url@ && status == head.status && validator == request.if_range->0@
            && match request.range {
            Some(ByteRangeSpec::From { first }) => resume_offset == first,
            Some(ByteRangeSpec::FromTo { first, last }) => resume_offset == first,
            _ => resume_offset == 0,
        },
        request.if_range is None && head.status != 200 && head.status != 206 ==> refusal(
            request,
            head,
        ) == Some(
            TransferError::UnexpectedStatus {
                url: request.url@,
                status: head.status,
                retry_after: text::owned(head.retry_after),
            },
        ),
{
    if let Some(requested) = request.range {
        remote::law_evidence_needs_every_check(
            requested,
            head.status,
            text::owned(head.content_range),
            text::owned(head.content_encoding),
            announced(text::owned(head.content_range)),
        );
    }
}

/// Of two digest fields the representation's counts, and the content's only where there is no
/// other; of a content type only what is one is kept, as it was written.
pub proof fn law_what_a_head_says_of_the_file(head: ResponseHead)
    ensures
        head.repr_digest is Some ==> sent_digest(head) == digest::field_digest(
            head.repr_digest->0@,
            0,
        ),
        head.repr_digest is None && head.content_digest is Some ==> sent_digest(head)
            == digest::field_digest(head.content_digest->0@, 0),
        head.repr_digest is None && head.content_digest is None ==> sent_digest(head) is None,
        sent_type(head) is Some <==> head.content_type is Some && remote::is_media_type(
            head.content_type->0@,
        ),
        sent_type(head) is Some ==> sent_type(head) == text::owned(head.content_type),
{
}

/// A probe asks for the first byte and for no other, until a server says that this range is
/// unusable; then it asks for the whole. It sends one request more than the redirects it may
/// follow, and then gives up with its start and its limit.
pub proof fn law_a_probe_asks_for_the_first_byte(probe: ProbeSession, offset: int)
    requires
        0 <= offset,
    ensures
        crate::segmented::asks_for(probe_range(), offset) <==> offset == 0,
        probe.upcoming() is Ok <==> probe.hops <= probe.request.max_redirects,
        probe.upcoming() matches Ok(range) ==> (range is Some <==> probe.with_range) && (
        probe.with_range ==> range == Some(probe_range())),
        probe.upcoming() matches Err(error) ==> error == (ProbeError::TooManyRedirects {
            start: probe.request.url@,
            limit: probe.request.max_redirects,
        }),
{
}

/// A head sends the probe on, ends it with the verdict's own error, or lets it read the body; it
/// does one of the three.
pub proof fn law_a_head_is_answered_by_its_verdict(
    step: Result<HeadStep, ProbeError>,
    verdict: HeadVerdict,
)
    requires
        answers_verdict(step, verdict),
    ensures
        step is Err <==> verdict is Refuse,
        step matches Err(error) ==> verdict == HeadVerdict::Refuse(error@),
        step == Ok::<HeadStep, ProbeError>(HeadStep::SendAgain) <==> verdict is Follow
            || verdict is DropRange,
        step == Ok::<HeadStep, ProbeError>(HeadStep::ReadBody) <==> verdict is ReadBody,
{
}

/// A request without an answer ran out of time or was broken off, told apart, at the URL that was
/// asked, and with no byte delivered.
pub proof fn law_silence_is_told_from_a_broken_connection(
    probe: ProbeSession,
    url: Seq<char>,
    source: Seq<char>,
)
    ensures
        probe.unanswered(true, source) == (ProbeError::Timeout::<Seq<char>> {
            url: probe.current@,
        }),
        probe.unanswered(false, source) == (ProbeError::Transport { url: probe.current@, source }),
        unanswered_fetch(url, true, source) == (TransferError::Timeout::<Seq<char>> {
            url,
            bytes_delivered: 0,
        }),
        unanswered_fetch(url, false, source) == (TransferError::Transport { url, source }),
{
}

/// A probe describes what it found where it found it: the URL it ended at and every URL on the way,
/// the mark of the version, the digest and type that were sent, and the moment it ran.
pub proof fn law_a_probe_describes_what_it_found(
    probe: ProbeSession,
    head: ResponseHead,
    evidence: Evidence,
    now: Timestamp,
)
    ensures
        ({
            let found = probe.described(head, evidence, now);
            &&& found.final_url == probe.current@
            &&& found.redirect_chain == remote::texts(probe.chain@)
            &&& found.total_length == evidence.total_length
            &&& found.range_support == evidence.range_support
            &&& found.protocol == head.protocol
            &&& found.probed_at == now
            &&& found.digest == sent_digest(head)
            &&& found.content_type == sent_type(head)
            &&& found.suggested_filename is Some
            &&& head.content_disposition is None ==> found.suggested_filename == Some(
                filename::chosen(None, filename::path_of(probe.current@)),
            )
            &&& head.etag is None ==> found.validator.condition() == text::owned(head.last_modified)
            &&& head.etag is None && head.last_modified is None ==> found.validator is Absent
        }),
{
}

/// Stored bytes add up: every stored chunk counts in full, nothing else of the session changes, and
/// an overrun of the grant is told from any other failure to store.
pub proof fn law_stored_chunks_add_up(
    before: FetchSession,
    after: FetchSession,
    length: usize,
    source: SinkError<Seq<char>>,
)
    requires
        before.stores(after, length),
    ensures
        before.delivered + length <= u64::MAX ==> after.delivered == before.delivered + length,
        after.url == before.url && after.promised == before.promised && after.status
            == before.status && after.content_range == before.content_range && after.protocol
            == before.protocol,
        before.unstored(source) is OverDelivery <==> source is BeyondGrant,
        before.unstored(source) is Sink <==> !(source is BeyondGrant),
{
}

/// A byte-order mark is taken off once, and white space as long as there is any; nothing else is.
pub proof fn law_only_a_mark_and_white_space_come_off(bytes: Seq<u8>)
    ensures
        unmarked(seq![0xEFu8, 0xBBu8, 0xBFu8] + bytes) == bytes,
        bytes.len() < 3 || bytes[0] != 0xEF || bytes[1] != 0xBB || bytes[2] != 0xBF ==> unmarked(
            bytes,
        ) == bytes,
        unindented(bytes).len() > 0 ==> !is_blank(unindented(bytes)[0]),
        unindented(bytes).len() <= bytes.len(),
        unindented(bytes) == bytes.skip(bytes.len() - unindented(bytes).len()),
        forall|i: int|
            0 <= i < bytes.len() - unindented(bytes).len() ==> is_blank(#[trigger] bytes[i]),
        forall|byte: u8|
            #[trigger] is_blank(byte) <==> byte == 9 || byte == 10 || byte == 12 || byte == 13
                || byte == 32,
    decreases bytes.len(),
{
    assert((seq![0xEFu8, 0xBBu8, 0xBFu8] + bytes).skip(3) =~= bytes);
    if bytes.len() > 0 && is_blank(bytes[0]) {
        let rest = bytes.skip(1);
        law_only_a_mark_and_white_space_come_off(rest);
        assert(rest.skip(rest.len() - unindented(rest).len()) =~= bytes.skip(
            bytes.len() - unindented(bytes).len(),
        ));
        assert forall|i: int| 0 <= i < bytes.len() - unindented(bytes).len() implies is_blank(
            #[trigger] bytes[i],
        ) by {
            if i > 0 {
                assert(is_blank(rest[i - 1]));
            }
        }
    } else {
        assert(bytes.skip(0) =~= bytes);
    }
}

} // verus!
