//! The parts of HTTP requests and responses that the filters read and change,
//! and the `http` crate's parsers of request-line components.

use vstd::prelude::*;
use crate::headers::HeaderMap;

verus! {

/// What `http::Method::from_bytes` makes of some bytes: the method's text,
/// or nothing when they are not a valid method.
pub uninterp spec fn method_from_bytes(b: Seq<u8>) -> Option<Seq<char>>;

/// What `http::uri::Scheme::try_from(&[u8])` makes of some bytes: the
/// scheme's text, or nothing when they are not a valid scheme.
pub uninterp spec fn scheme_from_bytes(b: Seq<u8>) -> Option<Seq<char>>;

/// What `http::uri::Authority::try_from(&[u8])` makes of some bytes: the
/// authority's text, or nothing when they are not a valid authority.
pub uninterp spec fn authority_from_bytes(b: Seq<u8>) -> Option<Seq<char>>;

/// What `http::uri::PathAndQuery::try_from(&[u8])` makes of some bytes: the
/// path-and-query's text, or nothing when they are not a valid one.
pub uninterp spec fn path_and_query_from_bytes(b: Seq<u8>) -> Option<Seq<char>>;

/// Calls `http::Method::from_bytes`; the result is named `method_from_bytes`.
#[verifier::external_body]
pub(crate) fn parse_method(b: &[u8]) -> (r: Option<String>)
    ensures
        match r {
            Some(m) => method_from_bytes(b@) == Some(m@),
            None => method_from_bytes(b@) is None,
        },
{
    http::Method::from_bytes(b).ok().map(|m| m.as_str().to_owned())
}

/// Calls `http::uri::Scheme::try_from(&[u8])`; the result is named `scheme_from_bytes`.
#[verifier::external_body]
pub(crate) fn parse_scheme(b: &[u8]) -> (r: Option<String>)
    ensures
        match r {
            Some(s) => scheme_from_bytes(b@) == Some(s@),
            None => scheme_from_bytes(b@) is None,
        },
{
    http::uri::Scheme::try_from(b).ok().map(|s| s.as_str().to_owned())
}

/// Calls `http::uri::Authority::try_from(&[u8])`; the result is named `authority_from_bytes`.
#[verifier::external_body]
pub(crate) fn parse_authority(b: &[u8]) -> (r: Option<String>)
    ensures
        match r {
            Some(a) => authority_from_bytes(b@) == Some(a@),
            None => authority_from_bytes(b@) is None,
        },
{
    http::uri::Authority::try_from(b).ok().map(|a| a.as_str().to_owned())
}

/// Calls `http::uri::PathAndQuery::try_from(&[u8])`; the result is named `path_and_query_from_bytes`.
#[verifier::external_body]
pub(crate) fn parse_path_and_query(b: &[u8]) -> (r: Option<String>)
    ensures
        match r {
            Some(p) => path_and_query_from_bytes(b@) == Some(p@),
            None => path_and_query_from_bytes(b@) is None,
        },
{
    http::uri::PathAndQuery::try_from(b).ok().map(|p| p.as_str().to_owned())
}

/// A valid HTTP status code (`http::StatusCode::from_u16` accepts 100 to 999).
pub open spec fn is_status_code(code: u16) -> bool {
    100 <= code <= 999
}

/// Checks a status code as `http::StatusCode::from_u16` does.
pub fn valid_status_code(code: u16) -> (r: bool)
    ensures
        r == is_status_code(code),
{
    100 <= code && code <= 999
}

/// The parts of a URI: scheme, authority and path-and-query, by their text.
pub struct UriPartsView {
    pub scheme: Option<Seq<char>>,
    pub authority: Option<Seq<char>>,
    pub path_and_query: Option<Seq<char>>,
}

/// Whether the parts make a URI (`http::Uri::from_parts`): a scheme needs an
/// authority and a path; an authority with a path needs a scheme.
pub open spec fn uri_parts_valid(p: UriPartsView) -> bool {
    if p.scheme is Some {
        p.authority is Some && p.path_and_query is Some
    } else {
        !(p.authority is Some && p.path_and_query is Some)
    }
}

/// The parts of a request that the filters read and change.
#[derive(Debug)]
pub struct RequestHead {
    /// The method's text (`GET`, `POST`, ...).
    pub method: String,
    /// The URI's scheme, if it has one.
    pub scheme: Option<String>,
    /// The URI's authority, if it has one.
    pub authority: Option<String>,
    /// The URI's path and query, if it has one.
    pub path_and_query: Option<String>,
    /// The request headers.
    pub headers: HeaderMap,
}

/// The parts of a response that the filters read and change.
#[derive(Debug)]
pub struct ResponseHead {
    /// The status code.
    pub status: u16,
    /// The response headers.
    pub headers: HeaderMap,
}

/// The URI parts of a request, by their text.
pub open spec fn uri_parts_of(req: RequestHead) -> UriPartsView {
    UriPartsView {
        scheme: crate::format_string::opt_chars(req.scheme),
        authority: crate::format_string::opt_chars(req.authority),
        path_and_query: crate::format_string::opt_chars(req.path_and_query),
    }
}

/// What a request head holds: its method, its URI's parts and its headers.
pub struct RequestView {
    pub method: Seq<char>,
    pub uri: UriPartsView,
    pub headers: Map<Seq<char>, Seq<Seq<u8>>>,
}

impl View for RequestHead {
    type V = RequestView;

    open spec fn view(&self) -> RequestView {
        RequestView { method: self.method@, uri: uri_parts_of(*self), headers: self.headers@ }
    }
}

/// What a response head holds: its status and its headers.
pub struct ResponseView {
    pub status: u16,
    pub headers: Map<Seq<char>, Seq<Seq<u8>>>,
}

impl View for ResponseHead {
    type V = ResponseView;

    open spec fn view(&self) -> ResponseView {
        ResponseView { status: self.status, headers: self.headers@ }
    }
}

} // verus!
