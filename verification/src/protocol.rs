//! What is asked of a transfer backend, and what it reports back.

use crate::remote::{ByteRangeSpec, ContentRange, NegotiatedProtocol};
use crate::time::Duration;
use vstd::prelude::*;

verus! {

/// Ask the remote what it will actually let us do.
#[derive(Debug)]
pub struct ProbeRequest {
    /// Where to start. The probe follows redirects from here and records the chain.
    pub url: String,
    /// Request headers to replay. Empty for a bare URL.
    pub headers: Vec<(String, String)>,
    /// How many redirect hops to follow before giving up.
    pub max_redirects: u32,
    /// Overall probe deadline.
    pub timeout: Duration,
}

impl ProbeRequest {
    /// A probe of `url` with ten redirects, fifteen seconds, and no replayed headers.
    pub fn new(url: String) -> (request: Self)
        ensures
            request.url == url,
            request.headers@.len() == 0,
            request.max_redirects == 10,
            request.timeout == Duration::of_secs(15),
    {
        ProbeRequest {
            url,
            headers: Vec::new(),
            max_redirects: 10,
            timeout: Duration::from_secs(15),
        }
    }
}

/// Fetch one byte range, or the whole representation when `range` is `None`.
#[derive(Debug)]
pub struct RangeRequest {
    /// The URL to fetch, already resolved by the probe.
    pub url: String,
    /// The range to ask for, or `None` for the whole representation.
    pub range: Option<ByteRangeSpec>,
    /// The validator that the answer is conditional on.
    pub if_range: Option<String>,
    /// Headers to replay.
    pub headers: Vec<(String, String)>,
    /// Deadline for the whole fetch.
    pub timeout: Duration,
}

impl RangeRequest {
    /// A whole-representation fetch of `url`.
    pub fn whole(url: String) -> (request: Self)
        ensures
            request.url == url,
            request.range is None,
            request.if_range is None,
            request.headers@.len() == 0,
            request.timeout == Duration::of_secs(300),
    {
        RangeRequest {
            url,
            range: None,
            if_range: None,
            headers: Vec::new(),
            timeout: Duration::from_secs(300),
        }
    }

    /// A fetch of one range of `url`.
    pub fn ranged(url: String, range: ByteRangeSpec) -> (request: Self)
        ensures
            request.url == url,
            request.range == Some(range),
            request.if_range is None,
            request.headers@.len() == 0,
            request.timeout == Duration::of_secs(300),
    {
        RangeRequest {
            url,
            range: Some(range),
            if_range: None,
            headers: Vec::new(),
            timeout: Duration::from_secs(300),
        }
    }

    /// A fetch of one range of `url`, conditional on a recorded validator.
    pub fn resume(url: String, range: ByteRangeSpec, validator: String) -> (request: Self)
        ensures
            request.url == url,
            request.range == Some(range),
            request.if_range == Some(validator),
            request.headers@.len() == 0,
            request.timeout == Duration::of_secs(300),
    {
        RangeRequest {
            url,
            range: Some(range),
            if_range: Some(validator),
            headers: Vec::new(),
            timeout: Duration::from_secs(300),
        }
    }
}

/// What a fetch actually delivered, not what it was asked for.
#[derive(Clone, Copy, Debug, PartialEq, Eq, Structural)]
pub struct RangeOutcome {
    /// Bytes accepted by the sink.
    pub bytes_delivered: u64,
    /// The response status.
    pub status: u16,
    /// The validated `Content-Range`, when the response carried a usable one.
    pub content_range: Option<ContentRange>,
    /// Which protocol carried it.
    pub protocol: NegotiatedProtocol,
    /// Whether the body ended before its declared length.
    pub truncated: bool,
}

/// What a backend can offer. This is the only way a scheduler learns anything of the protocol.
#[derive(Debug, PartialEq, Eq)]
pub struct BackendCapabilities {
    /// Stable identifier, for logs.
    pub name: &'static str,
    /// Protocols this backend may negotiate.
    pub protocols: Vec<NegotiatedProtocol>,
    /// Whether extra capacity can be added as streams on an existing connection.
    pub multiplexes_streams: bool,
    /// Whether the backend can express a byte-range request at all.
    pub supports_ranges: bool,
}

} // verus!
