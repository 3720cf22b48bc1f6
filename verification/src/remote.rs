//! What is known of a remote representation, and what counts as evidence of it.
//!
//! Range support is proven, never assumed: a [`RangeProof`] comes from one observed response and
//! from nothing else.

use crate::digest;
use crate::digest::ContentDigest;
use crate::text;
use crate::time::Timestamp;
use vstd::prelude::*;
use vstd::string::StrSliceExecFns;
use vstd::string::StringExecFns;

verus! {

/// Which HTTP version carried a response.
#[derive(Clone, Copy, Debug, PartialEq, Eq, Structural)]
pub enum NegotiatedProtocol {
    /// HTTP/1.1.
    Http11,
    /// HTTP/2.
    Http2,
    /// HTTP/3.
    Http3,
}

/// A byte range as a request asks for it.
#[derive(Clone, Copy, Debug, PartialEq, Eq, Structural)]
pub enum ByteRangeSpec {
    /// From an offset to the end.
    From {
        /// First byte asked for.
        first: u64,
    },
    /// From one offset to another, both included.
    FromTo {
        /// First byte asked for.
        first: u64,
        /// Last byte asked for.
        last: u64,
    },
    /// The last bytes of the representation.
    Suffix {
        /// How many bytes are asked for.
        len: u64,
    },
}

impl ByteRangeSpec {
    /// The value of a `Range` header that asks for the range.
    pub open spec fn header_text(self) -> Seq<char> {
        match self {
            ByteRangeSpec::From { first } => "bytes="@ + text::decimal(first as nat) + "-"@,
            ByteRangeSpec::FromTo { first, last } => "bytes="@ + text::decimal(first as nat)
                + "-"@ + text::decimal(last as nat),
            ByteRangeSpec::Suffix { len } => "bytes=-"@ + text::decimal(len as nat),
        }
    }

    /// The value of a `Range` header that asks for the range.
    pub fn header_value(self) -> (value: String)
        ensures
            value@ == self.header_text(),
    {
        match self {
            ByteRangeSpec::From { first } => {
                let first: String = text::to_decimal(first);
                String::from_str("bytes=").concat(first.as_str()).concat("-")
            },
            ByteRangeSpec::FromTo { first, last } => {
                let first: String = text::to_decimal(first);
                let last: String = text::to_decimal(last);
                String::from_str("bytes=").concat(first.as_str()).concat("-").concat(
                    last.as_str(),
                )
            },
            ByteRangeSpec::Suffix { len } => {
                let len: String = text::to_decimal(len);
                String::from_str("bytes=-").concat(len.as_str())
            },
        }
    }
}

/// A `Content-Range` value.
#[derive(Clone, Copy, Debug, PartialEq, Eq, Structural)]
#[allow(inconsistent_fields)]
pub enum ContentRange {
    /// The enclosed part.
    Bytes {
        /// First byte enclosed.
        first: u64,
        /// Last byte enclosed.
        last: u64,
        /// Length of the whole representation, when stated.
        complete_length: Option<u64>,
    },
    /// The requested range does not exist.
    Unsatisfied {
        /// Length of the whole representation.
        complete_length: u64,
    },
}

impl ContentRange {
    /// How many bytes the part holds; an unsatisfied range encloses none.
    pub open spec fn spec_len(self) -> Option<u64> {
        match self {
            ContentRange::Bytes { first, last, .. } => if first <= last && last - first
                < u64::MAX {
                Some((last - first + 1) as u64)
            } else {
                None
            },
            ContentRange::Unsatisfied { .. } => None,
        }
    }

    /// How many bytes the part holds; an unsatisfied range encloses none.
    pub fn len(self) -> (bytes: Option<u64>)
        ensures
            bytes == self.spec_len(),
    {
        match self {
            ContentRange::Bytes { first, last, .. } => if first <= last && last - first
                < u64::MAX {
                Some(last - first + 1)
            } else {
                None
            },
            ContentRange::Unsatisfied { .. } => None,
        }
    }
}

/// The text before and after the first occurrence of a character.
pub open spec fn parted(text: Seq<char>, at: char) -> Option<(Seq<char>, Seq<char>)>
    decreases text.len(),
{
    if text.len() == 0 {
        None
    } else if text[0] == at {
        Some((Seq::empty(), text.skip(1)))
    } else {
        match parted(text.skip(1), at) {
            Some((before, after)) => Some((seq![text[0]] + before, after)),
            None => None,
        }
    }
}

/// The range that a `Content-Range` value states: `bytes first-last/complete`, the complete length
/// possibly unknown, or `bytes */complete`. A part must lie inside its representation.
pub open spec fn stated_range(value: Seq<char>) -> Option<ContentRange> {
    if value.len() < 6 || value.take(6) != "bytes "@ {
        None
    } else {
        match parted(value.skip(6), '/') {
            Some((part, complete)) => if part == "*"@ {
                match text::digits_u64(complete) {
                    Some(complete_length) => Some(ContentRange::Unsatisfied { complete_length }),
                    None => None,
                }
            } else {
                match parted(part, '-') {
                    Some((low, high)) => match (text::digits_u64(low), text::digits_u64(high)) {
                        (Some(first), Some(last)) => if first > last {
                            None
                        } else if complete == "*"@ {
                            Some(ContentRange::Bytes { first, last, complete_length: None })
                        } else {
                            match text::digits_u64(complete) {
                                Some(total) => if last < total {
                                    Some(
                                        ContentRange::Bytes {
                                            first,
                                            last,
                                            complete_length: Some(total),
                                        },
                                    )
                                } else {
                                    None
                                },
                                None => None,
                            }
                        },
                        _ => None,
                    },
                    None => None,
                }
            },
            None => None,
        }
    }
}

/// Splits a text at the first occurrence of a character.
fn part<'a>(text: &'a str, at: char) -> (halves: Option<(&'a str, &'a str)>)
    ensures
        match halves {
            Some((before, after)) => parted(text@, at) == Some((before@, after@)),
            None => parted(text@, at) is None,
        },
{
    let count: usize = text.unicode_len();
    let mut index: usize = 0;
    proof {
        assert(text@.skip(0) =~= text@);
        assert(parted(text@, at) == prefixed(text@.take(0), parted(text@.skip(0), at))) by {
            if let Some((before, after)) = parted(text@, at) {
                assert(text@.take(0) + before =~= before);
            }
        }
    }
    while index < count
        invariant
            index <= count,
            count == text@.len(),
            parted(text@, at) == prefixed(
                text@.take(index as int),
                parted(text@.skip(index as int), at),
            ),
        decreases count - index,
    {
        let ghost rest = text@.skip(index as int);
        if text.get_char(index) == at {
            proof {
                assert(rest.skip(1) =~= text@.skip(index + 1));
                assert(text@.take(index as int) + Seq::<char>::empty() =~= text@.take(
                    index as int,
                ));
                assert(text@.subrange(0, index as int) =~= text@.take(index as int));
                assert(text@.subrange(index + 1, count as int) =~= text@.skip(index + 1));
            }
            return Some((text.substring_char(0, index), text.substring_char(index + 1, count)));
        }
        proof {
            assert(rest.skip(1) =~= text@.skip(index + 1));
            if let Some((before, after)) = parted(rest.skip(1), at) {
                assert(text@.take(index as int) + (seq![rest[0]] + before) =~= text@.take(index + 1)
                    + before);
            }
        }
        index = index + 1;
    }
    None
}

/// A split with `before` put in front of its first half.
spec fn prefixed(front: Seq<char>, halves: Option<(Seq<char>, Seq<char>)>) -> Option<
    (Seq<char>, Seq<char>),
> {
    match halves {
        Some((before, after)) => Some((front + before, after)),
        None => None,
    }
}

/// Reads a `Content-Range` value.
pub fn parse_content_range(value: &str) -> (range: Option<ContentRange>)
    ensures
        range == stated_range(value@),
{
    let count: usize = value.unicode_len();
    if count < 6 {
        return None;
    }
    proof {
        assert(value@.subrange(0, 6) =~= value@.take(6));
        assert(value@.subrange(6, count as int) =~= value@.skip(6));
    }
    if !text::same(value.substring_char(0, 6), "bytes ") {
        return None;
    }
    let (part_text, complete) = match part(value.substring_char(6, count), '/') {
        Some(halves) => halves,
        None => {
            return None;
        },
    };
    if text::same(part_text, "*") {
        return match digits(complete) {
            Some(complete_length) => Some(ContentRange::Unsatisfied { complete_length }),
            None => None,
        };
    }
    let (low, high) = match part(part_text, '-') {
        Some(halves) => halves,
        None => {
            return None;
        },
    };
    let first: u64 = match digits(low) {
        Some(first) => first,
        None => {
            return None;
        },
    };
    let last: u64 = match digits(high) {
        Some(last) => last,
        None => {
            return None;
        },
    };
    if first > last {
        return None;
    }
    if text::same(complete, "*") {
        return Some(ContentRange::Bytes { first, last, complete_length: None });
    }
    match digits(complete) {
        Some(total) => if last < total {
            Some(ContentRange::Bytes { first, last, complete_length: Some(total) })
        } else {
            None
        },
        None => None,
    }
}

/// Reads a text that must consist of digits alone.
fn digits(value: &str) -> (number: Option<u64>)
    ensures
        number == text::digits_u64(value@),
{
    if text::only_digits(value) {
        proof {
            if value@.len() > 0 {
                assert(text::is_digit(value@[0]));
            }
        }
        text::parse_u64(value)
    } else {
        None
    }
}

/// Why a response is no evidence of range support.
#[derive(Debug, PartialEq, Eq)]
pub enum RangeProofError<T = String> {
    /// The body is encoded, so its bytes are not the representation's.
    UnexpectedContentEncoding {
        /// The encoding that was declared.
        encoding: T,
    },
    /// The status is not `206`.
    NotPartialContent {
        /// The status observed.
        status: u16,
    },
    /// No `Content-Range` was sent.
    MissingContentRange,
    /// The `Content-Range` could not be read, or states no complete length.
    UnusableContentRange,
    /// The part is not the one that was asked for.
    RangeNotAsRequested,
    /// The body does not hold as many bytes as the part states.
    BodyLengthMismatch {
        /// Length that the part states.
        stated: u64,
        /// Length that arrived.
        delivered: u64,
    },
}

impl View for RangeProofError<String> {
    type V = RangeProofError<Seq<char>>;

    open spec fn view(&self) -> RangeProofError<Seq<char>> {
        match *self {
            RangeProofError::UnexpectedContentEncoding { encoding } =>
                RangeProofError::UnexpectedContentEncoding { encoding: encoding@ },
            RangeProofError::NotPartialContent { status } => RangeProofError::NotPartialContent {
                status,
            },
            RangeProofError::MissingContentRange => RangeProofError::MissingContentRange,
            RangeProofError::UnusableContentRange => RangeProofError::UnusableContentRange,
            RangeProofError::RangeNotAsRequested => RangeProofError::RangeNotAsRequested,
            RangeProofError::BodyLengthMismatch { stated, delivered } =>
                RangeProofError::BodyLengthMismatch { stated, delivered },
        }
    }
}

/// The encoding that a `Content-Encoding` value applies; none when it is absent, blank or the
/// identity.
pub open spec fn applied_encoding(header: Option<Seq<char>>) -> Option<Seq<char>> {
    match header {
        Some(value) => {
            let encoding = text::trimmed(value);
            if encoding.len() == 0 || text::same_folded(encoding, "identity"@) {
                None
            } else {
                Some(encoding)
            }
        },
        None => None,
    }
}

/// Reads the encoding that a `Content-Encoding` value applies.
pub fn encoding_of(header: Option<&str>) -> (encoding: Option<String>)
    ensures
        text::owned(encoding) == applied_encoding(text::viewed(header)),
{
    match header {
        Some(value) => {
            let encoding = text::trim(value);
            if encoding.is_empty() || text::same_ignoring_case(encoding, "identity") {
                None
            } else {
                Some(encoding.to_owned())
            }
        },
        None => None,
    }
}

/// A part with these bounds is what the request asks of a representation of this length.
pub open spec fn answers(requested: ByteRangeSpec, first: u64, last: u64, total: u64) -> bool {
    match requested {
        ByteRangeSpec::From { first: from } => first == from && last == total - 1,
        ByteRangeSpec::FromTo { first: from, last: to } => first == from && last == (if to
            < total {
            to as int
        } else {
            total - 1
        }),
        ByteRangeSpec::Suffix { len } => last == total - 1 && first == (if len < total {
            total - len
        } else {
            0
        }),
    }
}

/// Evidence, from one observed response, that the server answers byte ranges.
#[derive(Clone, Copy, Debug, PartialEq, Eq, Structural)]
pub struct RangeProof {
    /// First byte of the observed part.
    pub first: u64,
    /// Last byte of the observed part.
    pub last: u64,
    /// Length of the whole representation.
    pub total_length: u64,
}

/// What an observed response proves, or which check it fails. The encoding is looked at first: an
/// encoded body is a hazard, not merely missing range support.
pub open spec fn evidence(
    requested: ByteRangeSpec,
    status: u16,
    content_range: Option<Seq<char>>,
    content_encoding: Option<Seq<char>>,
    body_len: u64,
) -> Result<RangeProof, RangeProofError<Seq<char>>> {
    match applied_encoding(content_encoding) {
        Some(encoding) => Err(RangeProofError::UnexpectedContentEncoding { encoding }),
        None => if status != 206 {
            Err(RangeProofError::NotPartialContent { status })
        } else {
            match content_range {
                None => Err(RangeProofError::MissingContentRange),
                Some(value) => match stated_range(value) {
                    Some(ContentRange::Bytes { first, last, complete_length: Some(total) }) =>
                        if !answers(requested, first, last, total) {
                            Err(RangeProofError::RangeNotAsRequested)
                        } else if body_len != last - first + 1 {
                            Err(
                                RangeProofError::BodyLengthMismatch {
                                    stated: (last - first + 1) as u64,
                                    delivered: body_len,
                                },
                            )
                        } else {
                            Ok(RangeProof { first, last, total_length: total })
                        },
                    _ => Err(RangeProofError::UnusableContentRange),
                },
            }
        },
    }
}

/// The mathematical reading of a judgement.
pub open spec fn judged(judgement: Result<RangeProof, RangeProofError>) -> Result<
    RangeProof,
    RangeProofError<Seq<char>>,
> {
    match judgement {
        Ok(found) => Ok(found),
        Err(error) => Err(error@),
    }
}

impl RangeProof {
    /// Judge one observed response to a ranged request.
    pub fn from_observed_response(
        requested: ByteRangeSpec,
        status: u16,
        content_range: Option<&str>,
        content_encoding: Option<&str>,
        body_len: u64,
    ) -> (judgement: Result<RangeProof, RangeProofError>)
        ensures
            judged(judgement) == evidence(
                requested,
                status,
                text::viewed(content_range),
                text::viewed(content_encoding),
                body_len,
            ),
    {
        if let Some(encoding) = encoding_of(content_encoding) {
            return Err(RangeProofError::UnexpectedContentEncoding { encoding });
        }
        if status != 206 {
            return Err(RangeProofError::NotPartialContent { status });
        }
        let value = match content_range {
            Some(value) => value,
            None => {
                return Err(RangeProofError::MissingContentRange);
            },
        };
        match parse_content_range(value) {
            Some(ContentRange::Bytes { first, last, complete_length: Some(total) }) => {
                let asked: bool = match requested {
                    ByteRangeSpec::From { first: from } => first == from && last == total - 1,
                    ByteRangeSpec::FromTo { first: from, last: to } => first == from && last == (
                    if to < total {
                        to
                    } else {
                        total - 1
                    }),
                    ByteRangeSpec::Suffix { len } => last == total - 1 && first == (if len < total {
                        total - len
                    } else {
                        0
                    }),
                };
                if !asked {
                    return Err(RangeProofError::RangeNotAsRequested);
                }
                let stated: u64 = last - first + 1;
                if body_len != stated {
                    return Err(RangeProofError::BodyLengthMismatch { stated, delivered: body_len });
                }
                Ok(RangeProof { first, last, total_length: total })
            },
            _ => Err(RangeProofError::UnusableContentRange),
        }
    }

    /// Length of the whole representation.
    pub fn total_length(&self) -> (total: u64)
        ensures
            total == self.total_length,
    {
        self.total_length
    }

    /// The part that was observed.
    pub fn observed_range(&self) -> (range: ContentRange)
        ensures
            range == (ContentRange::Bytes {
                first: self.first,
                last: self.last,
                complete_length: Some(self.total_length),
            }),
    {
        ContentRange::Bytes {
            first: self.first,
            last: self.last,
            complete_length: Some(self.total_length),
        }
    }
}

/// What is known of a server's range support.
#[derive(Clone, Copy, Debug, PartialEq, Eq, Structural)]
pub enum RangeSupport {
    /// A response proved it.
    Proven(RangeProof),
    /// A response did not prove it.
    Absent,
    /// Nothing was observed.
    Unknown,
}

impl RangeSupport {
    /// The length that the proof established.
    pub open spec fn proven_length(self) -> Option<u64> {
        match self {
            RangeSupport::Proven(evidence) => Some(evidence.total_length),
            _ => None,
        }
    }

    /// The length that the proof established.
    pub fn total_length(&self) -> (total: Option<u64>)
        ensures
            total == self.proven_length(),
    {
        match self {
            RangeSupport::Proven(evidence) => Some(evidence.total_length),
            _ => None,
        }
    }

    /// Whether a response proved range support.
    pub fn is_proven(&self) -> (yes: bool)
        ensures
            yes == (*self is Proven),
    {
        match self {
            RangeSupport::Proven(_) => true,
            _ => false,
        }
    }
}

/// What identifies a version of the representation.
#[derive(Debug, PartialEq, Eq)]
pub enum Validator<T = String> {
    /// A strong entity tag.
    StrongETag(T),
    /// A modification date.
    LastModified(T),
    /// Nothing that a conditional request could use.
    Absent,
}

impl Clone for Validator<String> {
    /// Copies the validator.
    fn clone(&self) -> (copy: Self)
        ensures
            copy == *self,
    {
        match self {
            Validator::StrongETag(tag) => Validator::StrongETag(tag.clone()),
            Validator::LastModified(date) => Validator::LastModified(date.clone()),
            Validator::Absent => Validator::Absent,
        }
    }
}

impl View for Validator<String> {
    type V = Validator<Seq<char>>;

    open spec fn view(&self) -> Validator<Seq<char>> {
        match *self {
            Validator::StrongETag(tag) => Validator::StrongETag(tag@),
            Validator::LastModified(date) => Validator::LastModified(date@),
            Validator::Absent => Validator::Absent,
        }
    }
}

impl Validator<Seq<char>> {
    /// The validator that response headers establish: a strong entity tag before a date. A weak
    /// tag may compare equal across representations that differ, so it establishes nothing.
    pub open spec fn established(
        etag: Option<Seq<char>>,
        last_modified: Option<Seq<char>>,
    ) -> Validator<Seq<char>> {
        match etag {
            Some(tag) if !(tag.len() >= 2 && tag[0] == 'W' && tag[1] == '/') =>
                Validator::StrongETag(tag),
            _ => match last_modified {
                Some(date) => Validator::LastModified(date),
                None => Validator::Absent,
            },
        }
    }

    /// What a conditional range request sends.
    pub open spec fn condition(self) -> Option<Seq<char>> {
        match self {
            Validator::StrongETag(tag) => Some(tag),
            Validator::LastModified(date) => Some(date),
            Validator::Absent => None,
        }
    }
}

impl Validator<String> {
    /// The validator that response headers establish.
    pub fn from_headers(etag: Option<&str>, last_modified: Option<&str>) -> (validator: Self)
        ensures
            validator@ == Validator::<Seq<char>>::established(
                text::viewed(etag),
                text::viewed(last_modified),
            ),
    {
        if let Some(tag) = etag {
            let weak: bool = tag.unicode_len() >= 2 && tag.get_char(0) == 'W' && tag.get_char(1)
                == '/';
            if !weak {
                return Validator::StrongETag(tag.to_owned());
            }
        }
        match last_modified {
            Some(date) => Validator::LastModified(date.to_owned()),
            None => Validator::Absent,
        }
    }

    /// What a conditional range request sends, when the validator can be used for one.
    pub fn if_range_value(&self) -> (value: Option<&str>)
        ensures
            text::viewed(value) == self@.condition(),
    {
        match self {
            Validator::StrongETag(tag) => Some(tag.as_str()),
            Validator::LastModified(date) => Some(date.as_str()),
            Validator::Absent => None,
        }
    }

    /// Reports whether two validators are the same.
    pub fn same_as(&self, other: &Validator<String>) -> (equal: bool)
        ensures
            equal == (self@ == other@),
    {
        match (self, other) {
            (Validator::StrongETag(a), Validator::StrongETag(b)) => *a == *b,
            (Validator::LastModified(a), Validator::LastModified(b)) => *a == *b,
            (Validator::Absent, Validator::Absent) => true,
            _ => false,
        }
    }
}

/// The text is a media type: two tokens around a slash, perhaps with parameters behind a
/// semicolon.
pub open spec fn is_media_type(value: Seq<char>) -> bool {
    let bare = text::trimmed(value.subrange(0, text::place_of(value, ';', 0)));
    let at = text::place_of(bare, '/', 0);
    at < bare.len() && text::is_token(bare.subrange(0, at)) && text::is_token(
        bare.subrange(at + 1, bare.len() as int),
    )
}

/// Reports whether a text is a media type.
pub fn media_type(value: &str) -> (yes: bool)
    ensures
        yes == is_media_type(value@),
{
    let end: usize = text::find(value, ';', 0);
    let bare = text::trim(value.substring_char(0, end));
    let length: usize = bare.unicode_len();
    let at: usize = text::find(bare, '/', 0);
    at < length && text::token(bare.substring_char(0, at)) && text::token(
        bare.substring_char(at + 1, length),
    )
}

/// Everything a probe established about one remote representation.
#[derive(Debug, PartialEq, Eq)]
pub struct RemoteObject {
    /// Where the representation was finally found.
    pub final_url: String,
    /// Every URL on the way there, the final one included.
    pub redirect_chain: Vec<String>,
    /// Length of the representation, when known.
    pub total_length: Option<u64>,
    /// What is known of range support.
    pub range_support: RangeSupport,
    /// What identifies this version.
    pub validator: Validator,
    /// The digest that the server sent, where its field gives one.
    pub digest: Option<ContentDigest>,
    /// Which protocol carried the response.
    pub protocol: NegotiatedProtocol,
    /// A file name of exactly one path component.
    pub suggested_filename: Option<String>,
    /// The content type that the server sent, where it is one.
    pub content_type: Option<String>,
    /// When the probe ran.
    pub probed_at: Timestamp,
}

/// The mathematical reading of a [`RemoteObject`].
pub struct RemoteObjectView {
    /// Where the representation was finally found.
    pub final_url: Seq<char>,
    /// Every URL on the way there, the final one included.
    pub redirect_chain: Seq<Seq<char>>,
    /// Length of the representation, when known.
    pub total_length: Option<u64>,
    /// What is known of range support.
    pub range_support: RangeSupport,
    /// What identifies this version.
    pub validator: Validator<Seq<char>>,
    /// The digest that the server sent, where its field gives one.
    pub digest: Option<ContentDigest<Seq<char>>>,
    /// Which protocol carried the response.
    pub protocol: NegotiatedProtocol,
    /// A file name of exactly one path component.
    pub suggested_filename: Option<Seq<char>>,
    /// The content type that the server sent, where it is one.
    pub content_type: Option<Seq<char>>,
    /// When the probe ran.
    pub probed_at: Timestamp,
}

/// The characters of every text in a list.
pub open spec fn texts(list: Seq<String>) -> Seq<Seq<char>> {
    list.map_values(|text: String| text@)
}

impl View for RemoteObject {
    type V = RemoteObjectView;

    open spec fn view(&self) -> RemoteObjectView {
        RemoteObjectView {
            final_url: self.final_url@,
            redirect_chain: texts(self.redirect_chain@),
            total_length: self.total_length,
            range_support: self.range_support,
            validator: self.validator@,
            digest: digest::viewed(self.digest),
            protocol: self.protocol,
            suggested_filename: text::owned(self.suggested_filename),
            content_type: text::owned(self.content_type),
            probed_at: self.probed_at,
        }
    }
}

/// Copies a list of texts.
pub fn copy_texts(list: &Vec<String>) -> (copy: Vec<String>)
    ensures
        copy@ == list@,
{
    let mut copy: Vec<String> = Vec::with_capacity(list.len());
    let mut index: usize = 0;
    while index < list.len()
        invariant
            index <= list.len(),
            copy@ == list@.take(index as int),
        decreases list.len() - index,
    {
        copy.push(list[index].clone());
        proof {
            assert(list@.take(index + 1) =~= list@.take(index as int).push(list@[index as int]));
        }
        index = index + 1;
    }
    proof {
        assert(list@.take(list@.len() as int) =~= list@);
    }
    copy
}

impl Clone for RemoteObject {
    /// Copies the record.
    fn clone(&self) -> (copy: Self)
        ensures
            copy@ == self@,
    {
        RemoteObject {
            final_url: self.final_url.clone(),
            redirect_chain: copy_texts(&self.redirect_chain),
            total_length: self.total_length,
            range_support: self.range_support,
            validator: self.validator.clone(),
            digest: digest::copied(&self.digest),
            protocol: self.protocol,
            suggested_filename: text::copied(&self.suggested_filename),
            content_type: text::copied(&self.content_type),
            probed_at: self.probed_at,
        }
    }
}

proof fn lemma_parted(before: Seq<char>, at: char, after: Seq<char>)
    requires
        forall|i: int| 0 <= i < before.len() ==> #[trigger] before[i] != at,
    ensures
        parted(before + seq![at] + after, at) == Some((before, after)),
    decreases before.len(),
{
    let whole = before + seq![at] + after;
    if before.len() == 0 {
        assert(whole.skip(1) =~= after);
        assert(before =~= Seq::<char>::empty());
    } else {
        let rest = before.skip(1);
        assert forall|i: int| 0 <= i < rest.len() implies #[trigger] rest[i] != at by {
            assert(before[i + 1] != at);
        }
        lemma_parted(rest, at, after);
        assert(whole.skip(1) =~= rest + seq![at] + after);
        assert(whole[0] == before[0]);
        assert(before[0] != at);
        assert(seq![whole[0]] + rest =~= before);
    }
}

/// What a server states in `Content-Range` is what it meant: a part with a known or an unknown
/// complete length, or a length alone, reads back as its numbers, and a part that is turned around
/// or lies outside its representation reads as nothing.
pub proof fn law_a_stated_part_reads_back(first: u64, last: u64, total: u64)
    ensures
        stated_range(
            "bytes "@ + (text::decimal(first as nat) + seq!['-'] + text::decimal(last as nat))
                + seq!['/'] + text::decimal(total as nat),
        ) == (if first <= last < total {
            Some(ContentRange::Bytes { first, last, complete_length: Some(total) })
        } else {
            None
        }),
        stated_range(
            "bytes "@ + (text::decimal(first as nat) + seq!['-'] + text::decimal(last as nat))
                + seq!['/'] + "*"@,
        ) == (if first <= last {
            Some(ContentRange::Bytes { first, last, complete_length: None })
        } else {
            None
        }),
        stated_range("bytes "@ + "*"@ + seq!['/'] + text::decimal(total as nat)) == Some(
            ContentRange::Unsatisfied { complete_length: total },
        ),
{
    reveal_strlit("bytes ");
    reveal_strlit("*");
    text::law_decimal_reads_back(first, 0);
    text::law_decimal_reads_back(last, 0);
    text::law_decimal_reads_back(total, 0);
    let low = text::decimal(first as nat);
    let high = text::decimal(last as nat);
    let complete = text::decimal(total as nat);
    text::law_only_digits_read_as_a_number(low, low);
    text::law_only_digits_read_as_a_number(high, high);
    text::law_only_digits_read_as_a_number(complete, complete);
    let part = low + seq!['-'] + high;
    assert forall|i: int| 0 <= i < part.len() implies #[trigger] part[i] != '/' by {
        if i < low.len() {
            assert(part[i] == low[i]);
        } else if i > low.len() {
            assert(part[i] == high[i - low.len() - 1]);
        }
    }
    lemma_parted(low, '-', high);
    lemma_parted(part, '/', complete);
    lemma_parted(part, '/', "*"@);
    lemma_parted("*"@, '/', complete);
    assert(part[0] == low[0]);
    assert("*"@[0] == '*');
    assert(part != "*"@);
    assert(complete[0] != '*');
    assert(complete != "*"@);
    let known = "bytes "@ + part + seq!['/'] + complete;
    let unknown = "bytes "@ + part + seq!['/'] + "*"@;
    let bare = "bytes "@ + "*"@ + seq!['/'] + complete;
    assert("bytes "@.len() == 6);
    assert(known.take(6) =~= "bytes "@ && known.skip(6) =~= part + seq!['/'] + complete);
    assert(unknown.take(6) =~= "bytes "@ && unknown.skip(6) =~= part + seq!['/'] + "*"@);
    assert(bare.take(6) =~= "bytes "@ && bare.skip(6) =~= "*"@ + seq!['/'] + complete);
}

/// The range that a request asks for is written so that a server that answers with just that part
/// states the same numbers: the request's header, read as the answer's, is the part.
pub proof fn law_a_range_is_asked_for_as_it_is_answered(first: u64, last: u64, total: u64)
    requires
        first <= last < total,
    ensures
        (ByteRangeSpec::FromTo { first, last }).header_text().take(6) == "bytes="@,
        stated_range(
            "bytes "@ + (ByteRangeSpec::FromTo { first, last }).header_text().skip(6) + seq!['/']
                + text::decimal(total as nat),
        ) == Some(ContentRange::Bytes { first, last, complete_length: Some(total) }),
        (ByteRangeSpec::FromTo { first, last }).header_text() == (ByteRangeSpec::From {
            first,
        }).header_text() + text::decimal(last as nat),
        (ByteRangeSpec::Suffix { len: last }).header_text() == "bytes=-"@ + text::decimal(
            last as nat,
        ),
{
    reveal_strlit("bytes=");
    reveal_strlit("-");
    reveal_strlit("bytes ");
    let header = (ByteRangeSpec::FromTo { first, last }).header_text();
    let low = text::decimal(first as nat);
    let high = text::decimal(last as nat);
    assert("bytes="@.len() == 6);
    assert("-"@ =~= seq!['-']);
    assert(header.take(6) =~= "bytes="@);
    assert(header.skip(6) =~= low + seq!['-'] + high);
    law_a_stated_part_reads_back(first, last, total);
    assert(header =~= "bytes="@ + low + "-"@ + high);
}

/// An answered part holds exactly the bytes that were asked for and exist: those from an offset on,
/// those between two offsets, or the last so many.
pub proof fn law_a_part_holds_the_bytes_asked_for(
    requested: ByteRangeSpec,
    first: u64,
    last: u64,
    total: u64,
)
    requires
        first <= last < total,
    ensures
        answers(requested, first, last, total) <==> forall|i: int|
            0 <= i < total ==> (#[trigger] in_part(first, last, i) <==> match requested {
                ByteRangeSpec::From { first: from } => from <= i,
                ByteRangeSpec::FromTo { first: from, last: to } => from <= i <= to,
                ByteRangeSpec::Suffix { len } => total - len <= i,
            }),
{
    let agree = forall|i: int|
        0 <= i < total ==> (#[trigger] in_part(first, last, i) <==> match requested {
            ByteRangeSpec::From { first: from } => from <= i,
            ByteRangeSpec::FromTo { first: from, last: to } => from <= i <= to,
            ByteRangeSpec::Suffix { len } => total - len <= i,
        });
    if agree {
        assert(in_part(first, last, first as int));
        assert(in_part(first, last, last as int));
        assert(!in_part(first, last, first - 1));
        assert(!in_part(first, last, last + 1));
    }
}

/// The byte lies in a part.
pub open spec fn in_part(first: u64, last: u64, offset: int) -> bool {
    first <= offset <= last
}

/// A response proves range support exactly if it is a `206`, carries no encoding, and states a part
/// of a known length that is what was asked for and as long as the body. The proof is of that part.
/// Which check fails first is told: the encoding before the status, the status before the part.
pub proof fn law_evidence_needs_every_check(
    requested: ByteRangeSpec,
    status: u16,
    content_range: Option<Seq<char>>,
    content_encoding: Option<Seq<char>>,
    body_len: u64,
)
    ensures
        ({
            let found = evidence(requested, status, content_range, content_encoding, body_len);
            let stated = match content_range {
                Some(value) => stated_range(value),
                None => None,
            };
            &&& found is Ok <==> {
                &&& applied_encoding(content_encoding) is None
                &&& status == 206
                &&& stated matches Some(ContentRange::Bytes {
                    first,
                    last,
                    complete_length: Some(total),
                }) && answers(requested, first, last, total) && body_len == last - first + 1
            }
            &&& found matches Ok(observed) ==> stated == Some(
                ContentRange::Bytes {
                    first: observed.first,
                    last: observed.last,
                    complete_length: Some(observed.total_length),
                },
            )
            &&& applied_encoding(content_encoding) matches Some(encoding) ==> found == Err::<
                RangeProof,
                RangeProofError<Seq<char>>,
            >(RangeProofError::UnexpectedContentEncoding { encoding })
            &&& applied_encoding(content_encoding) is None && status != 206 ==> found == Err::<
                RangeProof,
                RangeProofError<Seq<char>>,
            >(RangeProofError::NotPartialContent { status })
        }),
{
}

/// A response is encoded unless its header is absent, blank, or the identity in any spelling; the
/// encoding is told without the white space around it.
pub proof fn law_only_the_identity_is_no_encoding(value: Seq<char>)
    ensures
        applied_encoding(None) is None,
        applied_encoding(Some(value)) is None <==> text::trimmed(value).len() == 0
            || text::same_folded(text::trimmed(value), "identity"@),
        applied_encoding(Some(value)) matches Some(encoding) ==> encoding == text::trimmed(value),
        applied_encoding(Some(text::trimmed(value))) == applied_encoding(Some(value)),
{
    text::law_trimming_takes_white_space_alone(value);
}

/// A strong entity tag identifies a version before a date does, a date does where there is no
/// strong tag, and a weak tag never: nothing is sent as a condition that could match two versions.
pub proof fn law_a_version_is_known_by_its_strongest_mark(
    etag: Option<Seq<char>>,
    last_modified: Option<Seq<char>>,
)
    ensures
        ({
            let weak = etag is Some && etag->0.len() >= 2 && etag->0[0] == 'W' && etag->0[1] == '/';
            let validator = Validator::<Seq<char>>::established(etag, last_modified);
            &&& etag is Some && !weak ==> validator == Validator::StrongETag(etag->0)
                && validator.condition() == etag
            &&& etag is None || weak ==> validator.condition() == last_modified
            &&& validator is LastModified <==> (etag is None || weak) && last_modified is Some
            &&& validator is Absent <==> (etag is None || weak) && last_modified is None
        }),
{
}

/// A part is as long as its bounds say, and a length alone encloses nothing.
pub proof fn law_a_part_is_as_long_as_its_bounds(first: u64, last: u64, complete: Option<u64>)
    requires
        first <= last,
        last - first < u64::MAX,
    ensures
        (ContentRange::Bytes { first, last, complete_length: complete }).spec_len() matches Some(
            length,
        ) && first + length == last + 1,
        (ContentRange::Unsatisfied { complete_length: last }).spec_len() is None,
{
}

/// A media type is a type and a subtype: what stands around the first slash, before any parameter.
pub proof fn law_a_media_type_has_two_tokens(kind: Seq<char>, subtype: Seq<char>, rest: Seq<char>)
    requires
        text::is_token(kind),
        text::is_token(subtype),
    ensures
        is_media_type(kind + seq!['/'] + subtype),
        is_media_type(kind + seq!['/'] + subtype + seq![';'] + rest),
        !is_media_type(kind),
        !is_media_type(kind + seq!['/']),
        !is_media_type(seq!['/'] + subtype),
{
    let whole = kind + seq!['/'] + subtype;
    assert forall|i: int| 0 <= i < whole.len() implies #[trigger] whole[i] != ';'
        && !text::is_white(whole[i]) by {
        if i < kind.len() {
            assert(text::is_token_char(kind[i]));
        } else if i > kind.len() {
            assert(text::is_token_char(subtype[i - kind.len() - 1]));
        }
    }
    assert forall|i: int| 0 <= i < kind.len() implies #[trigger] kind[i] != '/' by {
        assert(text::is_token_char(kind[i]));
    }
    lemma_no_white_no_trim(whole);
    text::lemma_known_place(whole, ';', 0, whole.len() as int);
    text::lemma_known_place(whole, '/', 0, kind.len() as int);
    assert(whole.subrange(0, whole.len() as int) =~= whole);
    assert(whole.subrange(0, kind.len() as int) =~= kind);
    assert(whole.subrange((kind.len() + 1) as int, whole.len() as int) =~= subtype);
    let longer = whole + seq![';'] + rest;
    assert forall|i: int| 0 <= i < whole.len() implies #[trigger] longer[i] != ';' by {
        assert(longer[i] == whole[i]);
    }
    text::lemma_known_place(longer, ';', 0, whole.len() as int);
    assert(longer.subrange(0, whole.len() as int) =~= whole);
    let half = kind + seq!['/'];
    assert forall|i: int| 0 <= i < half.len() implies #[trigger] half[i] != ';' && !text::is_white(
        half[i],
    ) by {
        assert(half[i] == whole[i]);
    }
    lemma_no_white_no_trim(half);
    text::lemma_known_place(half, ';', 0, half.len() as int);
    assert forall|i: int| 0 <= i < kind.len() implies #[trigger] half[i] != '/' by {
        assert(half[i] == kind[i]);
    }
    text::lemma_known_place(half, '/', 0, kind.len() as int);
    assert(half.subrange(0, half.len() as int) =~= half);
    assert(half.subrange((kind.len() + 1) as int, half.len() as int).len() == 0);
    assert forall|i: int| 0 <= i < kind.len() implies #[trigger] kind[i] != ';' && !text::is_white(
        kind[i],
    ) by {
        assert(kind[i] == whole[i]);
    }
    lemma_no_white_no_trim(kind);
    text::lemma_known_place(kind, ';', 0, kind.len() as int);
    text::lemma_known_place(kind, '/', 0, kind.len() as int);
    assert(kind.subrange(0, kind.len() as int) =~= kind);
    let tail = seq!['/'] + subtype;
    assert forall|i: int| 0 <= i < tail.len() implies #[trigger] tail[i] != ';' && !text::is_white(
        tail[i],
    ) by {
        assert(tail[i] == whole[i + kind.len()]);
    }
    lemma_no_white_no_trim(tail);
    text::lemma_known_place(tail, ';', 0, tail.len() as int);
    text::lemma_known_place(tail, '/', 0, 0);
    assert(tail.subrange(0, tail.len() as int) =~= tail);
    assert(tail.subrange(0, 0).len() == 0);
}

proof fn lemma_no_white_no_trim(value: Seq<char>)
    requires
        forall|i: int| 0 <= i < value.len() ==> !text::is_white(#[trigger] value[i]),
    ensures
        text::trimmed(value) == value,
{
    let bounds = text::law_trimming_takes_white_space_alone(value);
    if bounds.0 > 0 {
        assert(text::is_white(value[0]));
    }
    if bounds.1 < value.len() {
        assert(text::is_white(value[value.len() - 1]));
    }
    assert(value.subrange(0, value.len() as int) =~= value);
}

} // verus!
