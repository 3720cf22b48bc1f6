//! Error taxonomy for the transfer path.
//!
//! The texts returned by the `kind` functions are an interface: clients switch on them, so they are
//! stable identifiers, never prose.

use crate::remote::RangeProofError;
use crate::sink::SinkError;
use crate::text;
use vstd::prelude::*;

verus! {

/// Why a capability probe did not produce a usable remote object.
#[derive(Debug, PartialEq, Eq)]
#[allow(inconsistent_fields)]
pub enum ProbeError<T = String> {
    /// The request never got a response.
    Transport {
        /// The URL that was attempted.
        url: T,
        /// What the transport reported.
        source: T,
    },
    /// The probe did not finish inside its deadline.
    Timeout {
        /// The URL that was attempted.
        url: T,
    },
    /// More redirect hops than allowed.
    TooManyRedirects {
        /// Where the chain started.
        start: T,
        /// The hop limit that was exceeded.
        limit: u32,
    },
    /// A redirect response carried no usable `Location`.
    RedirectWithoutLocation {
        /// The URL that redirected.
        url: T,
        /// The redirect status.
        status: u16,
    },
    /// A `Location` header was not a valid URL, absolute or relative.
    UnusableRedirectTarget {
        /// The URL that redirected.
        url: T,
        /// The `Location` value as it arrived.
        location: T,
    },
    /// The server answered with a status that makes the transfer impossible for this URL.
    UnexpectedStatus {
        /// The final URL.
        url: T,
        /// The status observed.
        status: u16,
        /// The `Retry-After` header, verbatim, when the response carried one.
        retry_after: Option<T>,
    },
    /// Authentication or authorisation failed, or the URL expired: a fresh URL is needed, and
    /// every byte already held stays.
    NeedsRefresh {
        /// The final URL.
        url: T,
        /// `401`, `403` or `410`.
        status: u16,
    },
    /// The response looks like a web page where a file was expected.
    LooksLikeAnErrorPage {
        /// The final URL.
        url: T,
        /// The content type that was served.
        content_type: T,
    },
    /// The response carried a non-identity `Content-Encoding`.
    ContentEncoding {
        /// The final URL.
        url: T,
        /// The rejection detail.
        source: RangeProofError<T>,
    },
}

impl View for ProbeError<String> {
    type V = ProbeError<Seq<char>>;

    open spec fn view(&self) -> ProbeError<Seq<char>> {
        match *self {
            ProbeError::Transport { url, source } => ProbeError::Transport {
                url: url@,
                source: source@,
            },
            ProbeError::Timeout { url } => ProbeError::Timeout { url: url@ },
            ProbeError::TooManyRedirects { start, limit } => ProbeError::TooManyRedirects {
                start: start@,
                limit,
            },
            ProbeError::RedirectWithoutLocation { url, status } =>
                ProbeError::RedirectWithoutLocation { url: url@, status },
            ProbeError::UnusableRedirectTarget { url, location } =>
                ProbeError::UnusableRedirectTarget { url: url@, location: location@ },
            ProbeError::UnexpectedStatus { url, status, retry_after } =>
                ProbeError::UnexpectedStatus {
                url: url@,
                status,
                retry_after: text::owned(retry_after),
            },
            ProbeError::NeedsRefresh { url, status } => ProbeError::NeedsRefresh {
                url: url@,
                status,
            },
            ProbeError::LooksLikeAnErrorPage { url, content_type } =>
                ProbeError::LooksLikeAnErrorPage { url: url@, content_type: content_type@ },
            ProbeError::ContentEncoding { url, source } => ProbeError::ContentEncoding {
                url: url@,
                source: source@,
            },
        }
    }
}

impl<T> ProbeError<T> {
    /// The stable identifier clients switch on.
    pub open spec fn name(self) -> Seq<char> {
        match self {
            ProbeError::Transport { .. } => "transport"@,
            ProbeError::Timeout { .. } => "timeout"@,
            ProbeError::TooManyRedirects { .. } => "too_many_redirects"@,
            ProbeError::RedirectWithoutLocation { .. } => "redirect_without_location"@,
            ProbeError::UnusableRedirectTarget { .. } => "unusable_redirect_target"@,
            ProbeError::UnexpectedStatus { .. } => "unexpected_status"@,
            ProbeError::NeedsRefresh { .. } => "needs_refresh"@,
            ProbeError::LooksLikeAnErrorPage { .. } => "looks_like_error_page"@,
            ProbeError::ContentEncoding { .. } => "unexpected_content_encoding"@,
        }
    }

    /// The stable identifier clients switch on.
    pub fn kind(&self) -> (kind: &'static str)
        ensures
            kind@ == self.name(),
    {
        match self {
            ProbeError::Transport { .. } => "transport",
            ProbeError::Timeout { .. } => "timeout",
            ProbeError::TooManyRedirects { .. } => "too_many_redirects",
            ProbeError::RedirectWithoutLocation { .. } => "redirect_without_location",
            ProbeError::UnusableRedirectTarget { .. } => "unusable_redirect_target",
            ProbeError::UnexpectedStatus { .. } => "unexpected_status",
            ProbeError::NeedsRefresh { .. } => "needs_refresh",
            ProbeError::LooksLikeAnErrorPage { .. } => "looks_like_error_page",
            ProbeError::ContentEncoding { .. } => "unexpected_content_encoding",
        }
    }
}

/// Why a range fetch did not complete.
#[derive(Debug, PartialEq, Eq)]
#[allow(inconsistent_fields)]
pub enum TransferError<T = String> {
    /// The connection failed or was reset.
    Transport {
        /// The URL being fetched.
        url: T,
        /// What the transport reported.
        source: T,
    },
    /// The fetch did not finish inside its deadline.
    Timeout {
        /// The URL being fetched.
        url: T,
        /// How much had arrived when the deadline passed.
        bytes_delivered: u64,
    },
    /// The body ended before the length the response declared.
    TruncatedBody {
        /// The URL being fetched.
        url: T,
        /// What the response declared.
        expected: u64,
        /// What actually arrived and was written.
        delivered: u64,
    },
    /// The response status was not usable for a body fetch.
    UnexpectedStatus {
        /// The URL being fetched.
        url: T,
        /// The status observed.
        status: u16,
        /// The `Retry-After` header, verbatim, when the response carried one.
        retry_after: Option<T>,
    },
    /// The body's first bytes look like a web page even though the headers did not say so.
    LooksLikeAnErrorPage {
        /// The URL being fetched.
        url: T,
        /// The content type the response declared, if any.
        declared_type: T,
    },
    /// A response came back encoded, or with a part other than the one asked for. Nothing of it
    /// is written.
    UnusableRangeResponse {
        /// The URL being fetched.
        url: T,
        /// Which check failed.
        source: RangeProofError<T>,
    },
    /// The server delivered more than the range it described.
    OverDelivery {
        /// The URL being fetched.
        url: T,
        /// The sink's refusal.
        source: SinkError<T>,
    },
    /// Writing the delivered bytes failed.
    Sink {
        /// The URL being fetched.
        url: T,
        /// The underlying sink error.
        source: SinkError<T>,
    },
    /// A conditional resume was answered with something other than the requested range, so the
    /// representation changed. Never permission to overwrite or to splice.
    ValidatorMismatch {
        /// The URL being fetched.
        url: T,
        /// The offset the resume asked to continue from.
        resume_offset: u64,
        /// The status that arrived where `206` was required.
        status: u16,
        /// The validator recorded when the existing bytes were fetched.
        validator: T,
    },
}

impl View for TransferError<String> {
    type V = TransferError<Seq<char>>;

    open spec fn view(&self) -> TransferError<Seq<char>> {
        match *self {
            TransferError::Transport { url, source } => TransferError::Transport {
                url: url@,
                source: source@,
            },
            TransferError::Timeout { url, bytes_delivered } => TransferError::Timeout {
                url: url@,
                bytes_delivered,
            },
            TransferError::TruncatedBody { url, expected, delivered } =>
                TransferError::TruncatedBody { url: url@, expected, delivered },
            TransferError::UnexpectedStatus { url, status, retry_after } =>
                TransferError::UnexpectedStatus {
                url: url@,
                status,
                retry_after: text::owned(retry_after),
            },
            TransferError::LooksLikeAnErrorPage { url, declared_type } =>
                TransferError::LooksLikeAnErrorPage { url: url@, declared_type: declared_type@ },
            TransferError::UnusableRangeResponse { url, source } =>
                TransferError::UnusableRangeResponse { url: url@, source: source@ },
            TransferError::OverDelivery { url, source } => TransferError::OverDelivery {
                url: url@,
                source: source@,
            },
            TransferError::Sink { url, source } => TransferError::Sink {
                url: url@,
                source: source@,
            },
            TransferError::ValidatorMismatch { url, resume_offset, status, validator } =>
                TransferError::ValidatorMismatch {
                url: url@,
                resume_offset,
                status,
                validator: validator@,
            },
        }
    }
}

impl<T> TransferError<T> {
    /// The stable identifier clients switch on.
    pub open spec fn name(self) -> Seq<char> {
        match self {
            TransferError::Transport { .. } => "transport"@,
            TransferError::Timeout { .. } => "timeout"@,
            TransferError::TruncatedBody { .. } => "truncated_body"@,
            TransferError::UnexpectedStatus { .. } => "unexpected_status"@,
            TransferError::LooksLikeAnErrorPage { .. } => "looks_like_error_page"@,
            TransferError::UnusableRangeResponse { .. } => "unusable_range_response"@,
            TransferError::OverDelivery { .. } => "over_delivery"@,
            TransferError::Sink { .. } => "sink"@,
            TransferError::ValidatorMismatch { .. } => "validator_mismatch"@,
        }
    }

    /// The stable identifier clients switch on. A web page is reported under the same name as by
    /// the probe, whichever layer noticed it.
    pub fn kind(&self) -> (kind: &'static str)
        ensures
            kind@ == self.name(),
    {
        match self {
            TransferError::Transport { .. } => "transport",
            TransferError::Timeout { .. } => "timeout",
            TransferError::TruncatedBody { .. } => "truncated_body",
            TransferError::UnexpectedStatus { .. } => "unexpected_status",
            TransferError::LooksLikeAnErrorPage { .. } => "looks_like_error_page",
            TransferError::UnusableRangeResponse { .. } => "unusable_range_response",
            TransferError::OverDelivery { .. } => "over_delivery",
            TransferError::Sink { .. } => "sink",
            TransferError::ValidatorMismatch { .. } => "validator_mismatch",
        }
    }
}

/// Clients switch on names that do not change, and a failure goes by the same name whether the
/// probe or the transfer met it.
pub proof fn law_failures_keep_their_names(probe: ProbeError, transfer: TransferError)
    ensures
        probe is Transport ==> probe.name() == "transport"@,
        probe is Timeout ==> probe.name() == "timeout"@,
        probe is TooManyRedirects ==> probe.name() == "too_many_redirects"@,
        probe is RedirectWithoutLocation ==> probe.name() == "redirect_without_location"@,
        probe is UnusableRedirectTarget ==> probe.name() == "unusable_redirect_target"@,
        probe is UnexpectedStatus ==> probe.name() == "unexpected_status"@,
        probe is NeedsRefresh ==> probe.name() == "needs_refresh"@,
        probe is LooksLikeAnErrorPage ==> probe.name() == "looks_like_error_page"@,
        probe is ContentEncoding ==> probe.name() == "unexpected_content_encoding"@,
        transfer is TruncatedBody ==> transfer.name() == "truncated_body"@,
        transfer is UnusableRangeResponse ==> transfer.name() == "unusable_range_response"@,
        transfer is OverDelivery ==> transfer.name() == "over_delivery"@,
        transfer is Sink ==> transfer.name() == "sink"@,
        transfer is ValidatorMismatch ==> transfer.name() == "validator_mismatch"@,
        probe is Transport && transfer is Transport ==> probe.name() == transfer.name(),
        probe is Timeout && transfer is Timeout ==> probe.name() == transfer.name(),
        probe is UnexpectedStatus && transfer is UnexpectedStatus ==> probe.name()
            == transfer.name(),
        probe is LooksLikeAnErrorPage && transfer is LooksLikeAnErrorPage ==> probe.name()
            == transfer.name(),
{
}

} // verus!
