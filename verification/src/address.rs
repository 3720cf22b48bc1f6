//! URLs as texts: parsing, and the origin that retries are counted against.

use crate::text;
use vstd::prelude::*;
use vstd::string::StringExecFns;

verus! {

/// What the program reads of a parsed URL.
#[derive(Debug, PartialEq, Eq)]
pub struct Address<T = String> {
    /// The URL as it serialises.
    pub text: T,
    /// The scheme, in lower case.
    pub scheme: T,
    /// User information, host and port, as far as they are there.
    pub authority: T,
    /// The path.
    pub path: T,
}

impl View for Address<String> {
    type V = Address<Seq<char>>;

    open spec fn view(&self) -> Address<Seq<char>> {
        Address {
            text: self.text@,
            scheme: self.scheme@,
            authority: self.authority@,
            path: self.path@,
        }
    }
}

/// What `url::Url::parse` makes of a text.
pub uninterp spec fn parsed_url(text: Seq<char>) -> Option<Address<Seq<char>>>;

/// Calls `url::Url::parse` and copies out the serialised text, the scheme, the authority and the
/// path. Which texts are URLs, and how they serialise, is left to the crate.
#[verifier::external_body]
fn parse_url(text: &str) -> (address: Option<Address>)
    ensures
        (match address {
            Some(address) => Some(address@),
            None => None,
        }) == parsed_url(text@),
{
    let url = url::Url::parse(text).ok()?;
    Some(
        Address {
            text: String::from(url.as_str()),
            scheme: String::from(url.scheme()),
            authority: String::from(url.authority()),
            path: String::from(url.path()),
        },
    )
}

impl Address<Seq<char>> {
    /// The scheme and the authority.
    pub open spec fn origin_text(self) -> Seq<char> {
        self.scheme + "://"@ + self.authority
    }

    /// The scheme is one that a transfer can use.
    pub open spec fn is_web(self) -> bool {
        self.scheme == "http"@ || self.scheme == "https"@
    }
}

impl Address {
    /// Parse a URL.
    pub fn parse(text: &str) -> (address: Option<Self>)
        ensures
            (match address {
                Some(address) => Some(address@),
                None => None,
            }) == parsed_url(text@),
    {
        parse_url(text)
    }

    /// The scheme and the authority: what failed attempts are counted against.
    pub fn origin(&self) -> (origin: String)
        ensures
            origin@ == self@.origin_text(),
    {
        self.scheme.clone().concat("://").concat(self.authority.as_str())
    }

    /// Whether the scheme is HTTP or HTTPS.
    pub fn is_http(&self) -> (yes: bool)
        ensures
            yes == self@.is_web(),
    {
        text::same(self.scheme.as_str(), "http") || text::same(self.scheme.as_str(), "https")
    }
}

/// Only the two web schemes can be fetched, and an origin is a scheme and an authority, whatever the
/// path is.
pub proof fn law_an_origin_has_no_path(address: Address<Seq<char>>, path: Seq<char>)
    ensures
        address.is_web() <==> address.scheme == "http"@ || address.scheme == "https"@,
        (Address { path, ..address }).origin_text() == address.origin_text(),
        address.origin_text() == address.scheme + "://"@ + address.authority,
{
}

} // verus!
