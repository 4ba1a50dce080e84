//! The gateway's external processing of requests and responses: the
//! pseudo-headers of a request (`:method`, `:scheme`, `:authority`,
//! `:path`) and of a response (`:status`), the header mutations that the
//! external processor sends back, and the decisions of the tasks that
//! exchange messages with it.

use vstd::prelude::*;
use vstd::utf8::{decode_utf8, valid_utf8};
use crate::headers::{header_name_from_bytes, is_header_value, parse_header_name, valid_header_value, HeaderMap};
use crate::http_parts::{
    authority_from_bytes, is_status_code, method_from_bytes, parse_authority, parse_method, parse_path_and_query,
    parse_scheme, path_and_query_from_bytes, scheme_from_bytes, uri_parts_valid, valid_status_code, RequestHead,
    RequestView, ResponseHead, ResponseView, UriPartsView,
};
use crate::format_string::opt_chars;
use crate::mutation::{parse_u16, parse_u16_text, HeaderMutation, HeaderValueOption};
use vstd::utf8::encode_utf8;
use crate::text::{lossy_string, utf8_lossy, utf8_to_string};
use crate::headers::{pairs_of, pair_view};
use crate::mutation::HeaderValue;
use crate::original_dst::{decimal_text, push_decimal};

verus! {

broadcast use vstd::string::group_string_axioms;

/// Errors of the exchange with the external processor.
#[derive(Debug, Clone, PartialEq)]
pub enum Error {
    /// The request could not be sent.
    RequestSend,
    /// The processor sends no more responses.
    NoMoreResponses,
    /// The reply was dropped.
    ResponseDropped,
    /// The body could not be buffered.
    BodyBuffer(String),
    /// A header name that the processor sent is not valid.
    InvalidHeaderName,
    /// A header value that the processor sent is not valid.
    InvalidHeaderValue,
}

/// What happens to a request when the processor fails.
#[derive(Debug, Clone, Copy, PartialEq, Eq, Structural)]
pub enum FailureMode {
    /// The request fails.
    FailClosed,
    /// The request goes on unchanged.
    FailOpen,
}

impl Default for FailureMode {
    fn default() -> (r: Self)
        ensures
            r == FailureMode::FailClosed,
    {
        FailureMode::FailClosed
    }
}

/// Routing by an inference endpoint picker.
#[derive(Debug, Clone, Copy)]
pub struct InferenceRouting {
    pub failure_mode: FailureMode,
}

/// External processing of requests and responses.
#[derive(Debug, Clone, Copy)]
pub struct ExtProc {
    pub failure_mode: FailureMode,
}

/// The most body bytes that are buffered, set on a request.
#[derive(Debug, Clone, Copy)]
pub struct BufferLimit(pub usize);

impl BufferLimit {
    pub fn new(limit: usize) -> (r: Self)
        ensures
            r.0 == limit,
    {
        BufferLimit(limit)
    }
}

/// The body bytes buffered when a request sets no limit: 2 MiB.
pub const DEFAULT_BUFFER_LIMIT: usize = 2_097_152;

/// The buffer limit of a request: the one it carries, or 2 MiB.
pub fn buffer_limit(limit: Option<&BufferLimit>) -> (r: usize)
    ensures
        r == match limit {
            Some(b) => b.0,
            None => DEFAULT_BUFFER_LIMIT,
        },
{
    match limit {
        Some(b) => b.0,
        None => DEFAULT_BUFFER_LIMIT,
    }
}

/// A header, or one of the pseudo-headers.
#[derive(Debug, Clone, PartialEq, Eq, Hash)]
pub enum HeaderOrPseudo {
    /// A header, by its (lowercase) name.
    Header(String),
    Method,
    Scheme,
    Authority,
    Path,
    Status,
}

/// What a header-or-pseudo-header is.
pub enum HeaderOrPseudoView {
    Header(Seq<char>),
    Method,
    Scheme,
    Authority,
    Path,
    Status,
}

impl View for HeaderOrPseudo {
    type V = HeaderOrPseudoView;

    open spec fn view(&self) -> HeaderOrPseudoView {
        match self {
            HeaderOrPseudo::Header(h) => HeaderOrPseudoView::Header(h@),
            HeaderOrPseudo::Method => HeaderOrPseudoView::Method,
            HeaderOrPseudo::Scheme => HeaderOrPseudoView::Scheme,
            HeaderOrPseudo::Authority => HeaderOrPseudoView::Authority,
            HeaderOrPseudo::Path => HeaderOrPseudoView::Path,
            HeaderOrPseudo::Status => HeaderOrPseudoView::Status,
        }
    }
}

/// What a name denotes: one of the five pseudo-headers, else the header of
/// that name once parsed (and lowercased) by `http`; nothing when it is not
/// a valid header name.
pub open spec fn header_or_pseudo_of(name: Seq<char>) -> Option<HeaderOrPseudoView> {
    if name == ":method"@ {
        Some(HeaderOrPseudoView::Method)
    } else if name == ":scheme"@ {
        Some(HeaderOrPseudoView::Scheme)
    } else if name == ":authority"@ {
        Some(HeaderOrPseudoView::Authority)
    } else if name == ":path"@ {
        Some(HeaderOrPseudoView::Path)
    } else if name == ":status"@ {
        Some(HeaderOrPseudoView::Status)
    } else {
        match header_name_from_bytes(vstd::utf8::encode_utf8(name)) {
            Some(h) => Some(HeaderOrPseudoView::Header(h)),
            None => None,
        }
    }
}

/// The text of a header-or-pseudo-header.
pub open spec fn header_or_pseudo_text(h: HeaderOrPseudoView) -> Seq<char> {
    match h {
        HeaderOrPseudoView::Header(n) => n,
        HeaderOrPseudoView::Method => ":method"@,
        HeaderOrPseudoView::Scheme => ":scheme"@,
        HeaderOrPseudoView::Authority => ":authority"@,
        HeaderOrPseudoView::Path => ":path"@,
        HeaderOrPseudoView::Status => ":status"@,
    }
}

impl HeaderOrPseudo {
    /// Reads a name: a pseudo-header, or a header name that `http` accepts.
    pub fn try_from_str(value: &str) -> (r: Result<Self, Error>)
        ensures
            match header_or_pseudo_of(value@) {
                Some(h) => r matches Ok(x) && x@ == h,
                None => r == Err::<Self, Error>(Error::InvalidHeaderName),
            },
    {
        let v = value.to_owned();
        proof {
            reveal_strlit(":method");
            reveal_strlit(":scheme");
            reveal_strlit(":authority");
            reveal_strlit(":path");
            reveal_strlit(":status");
        }
        if v == ":method".to_owned() {
            Ok(HeaderOrPseudo::Method)
        } else if v == ":scheme".to_owned() {
            Ok(HeaderOrPseudo::Scheme)
        } else if v == ":authority".to_owned() {
            Ok(HeaderOrPseudo::Authority)
        } else if v == ":path".to_owned() {
            Ok(HeaderOrPseudo::Path)
        } else if v == ":status".to_owned() {
            Ok(HeaderOrPseudo::Status)
        } else {
            match parse_header_name(value.as_bytes()) {
                Some(h) => Ok(HeaderOrPseudo::Header(h)),
                None => Err(Error::InvalidHeaderName),
            }
        }
    }

    /// The text of the name.
    pub fn as_text(&self) -> (r: String)
        ensures
            r@ == header_or_pseudo_text(self@),
    {
        proof {
            reveal_strlit(":method");
            reveal_strlit(":scheme");
            reveal_strlit(":authority");
            reveal_strlit(":path");
            reveal_strlit(":status");
        }
        match self {
            HeaderOrPseudo::Header(h) => h.clone(),
            HeaderOrPseudo::Method => ":method".to_owned(),
            HeaderOrPseudo::Scheme => ":scheme".to_owned(),
            HeaderOrPseudo::Authority => ":authority".to_owned(),
            HeaderOrPseudo::Path => ":path".to_owned(),
            HeaderOrPseudo::Status => ":status".to_owned(),
        }
    }
}

/// The request that `Default` gives: `GET /` without headers.
pub open spec fn default_request() -> RequestView {
    RequestView {
        method: "GET"@,
        uri: UriPartsView { scheme: None, authority: None, path_and_query: Some("/"@) },
        headers: Map::empty(),
    }
}

/// The request after its URI parts were replaced: when the new parts do not
/// make a URI, the request is left as the default one (its parts were taken
/// out of it before the check).
pub open spec fn with_uri(req: RequestView, parts: UriPartsView) -> RequestView {
    if uri_parts_valid(parts) {
        RequestView { method: req.method, uri: parts, headers: req.headers }
    } else {
        default_request()
    }
}

/// The request after a pseudo-header or header was set to `raw`, and
/// whether it applied: a value that does not parse, and `:status`, change
/// nothing.
pub open spec fn request_with(req: RequestView, p: HeaderOrPseudoView, raw: Seq<u8>) -> (RequestView, bool) {
    match p {
        HeaderOrPseudoView::Method => match method_from_bytes(raw) {
            Some(m) => (RequestView { method: m, uri: req.uri, headers: req.headers }, true),
            None => (req, false),
        },
        HeaderOrPseudoView::Scheme => match scheme_from_bytes(raw) {
            Some(s) => (with_uri(req, UriPartsView { scheme: Some(s), ..req.uri }), true),
            None => (req, false),
        },
        HeaderOrPseudoView::Authority => match authority_from_bytes(raw) {
            Some(a) => (
                with_uri(
                    req,
                    UriPartsView {
                        authority: Some(a),
                        scheme: match req.uri.scheme {
                            Some(s) => Some(s),
                            None => Some("http"@),
                        },
                        ..req.uri
                    },
                ),
                true,
            ),
            None => (req, false),
        },
        HeaderOrPseudoView::Path => match path_and_query_from_bytes(raw) {
            Some(pq) => (with_uri(req, UriPartsView { path_and_query: Some(pq), ..req.uri }), true),
            None => (req, false),
        },
        HeaderOrPseudoView::Header(n) => if is_header_value(raw) {
            (RequestView { method: req.method, uri: req.uri, headers: req.headers.insert(n, seq![raw]) }, true)
        } else {
            (req, false)
        },
        HeaderOrPseudoView::Status => (req, false),
    }
}

/// The status that `raw` sets: UTF-8 text that reads as a `u16` that is a
/// valid status code.
pub open spec fn status_from_raw(raw: Seq<u8>) -> Option<u16> {
    if valid_utf8(raw) {
        match parse_u16_text(decode_utf8(raw)) {
            Some(c) => if is_status_code(c) {
                Some(c)
            } else {
                None
            },
            None => None,
        }
    } else {
        None
    }
}

fn set_request_uri(req: &mut RequestHead, scheme: Option<String>, authority: Option<String>, path_and_query: Option<String>)
    ensures
        final(req)@ == with_uri(
            old(req)@,
            UriPartsView {
                scheme: opt_chars(scheme),
                authority: opt_chars(authority),
                path_and_query: opt_chars(path_and_query),
            },
        ),
{
    let valid = if scheme.is_some() {
        authority.is_some() && path_and_query.is_some()
    } else {
        !(authority.is_some() && path_and_query.is_some())
    };
    if valid {
        req.scheme = scheme;
        req.authority = authority;
        req.path_and_query = path_and_query;
    } else {
        proof {
            reveal_strlit("GET");
            reveal_strlit("/");
        }
        req.method = "GET".to_owned();
        req.scheme = None;
        req.authority = None;
        req.path_and_query = Some("/".to_owned());
        req.headers = HeaderMap::new();
        assert(req@.uri =~= default_request().uri);
    }
}

fn clone_opt(o: &Option<String>) -> (r: Option<String>)
    ensures
        opt_chars(r) == opt_chars(*o),
{
    match o {
        Some(s) => Some(s.clone()),
        None => None,
    }
}

/// Sets a pseudo-header or a header of a request to `raw`; returns whether
/// it applied.
pub fn apply_header_or_pseudo_request(req: &mut RequestHead, pseudo: &HeaderOrPseudo, raw: &[u8]) -> (r: bool)
    ensures
        (final(req)@, r) == request_with(old(req)@, pseudo@, raw@),
{
    proof {
        reveal_strlit("http");
    }
    match pseudo {
        HeaderOrPseudo::Method => match parse_method(raw) {
            Some(m) => {
                req.method = m;
                true
            },
            None => false,
        },
        HeaderOrPseudo::Scheme => match parse_scheme(raw) {
            Some(s) => {
                let a = clone_opt(&req.authority);
                let p = clone_opt(&req.path_and_query);
                set_request_uri(req, Some(s), a, p);
                true
            },
            None => false,
        },
        HeaderOrPseudo::Authority => match parse_authority(raw) {
            Some(a) => {
                let s = match &req.scheme {
                    Some(s) => s.clone(),
                    None => "http".to_owned(),
                };
                let p = clone_opt(&req.path_and_query);
                set_request_uri(req, Some(s), Some(a), p);
                true
            },
            None => false,
        },
        HeaderOrPseudo::Path => match parse_path_and_query(raw) {
            Some(pq) => {
                let s = clone_opt(&req.scheme);
                let a = clone_opt(&req.authority);
                set_request_uri(req, s, a, Some(pq));
                true
            },
            None => false,
        },
        HeaderOrPseudo::Header(n) => {
            if valid_header_value(raw) {
                req.headers.insert(n.as_str(), vstd::slice::slice_to_vec(raw));
                true
            } else {
                false
            }
        },
        HeaderOrPseudo::Status => false,
    }
}

/// The response after `:status` or a header was set to `raw`, and whether
/// it applied: a value that does not parse, and the request
/// pseudo-headers, change nothing.
pub open spec fn response_with(resp: ResponseView, p: HeaderOrPseudoView, raw: Seq<u8>) -> (ResponseView, bool) {
    match p {
        HeaderOrPseudoView::Status => match status_from_raw(raw) {
            Some(c) => (ResponseView { status: c, headers: resp.headers }, true),
            None => (resp, false),
        },
        HeaderOrPseudoView::Header(n) => if is_header_value(raw) {
            (ResponseView { status: resp.status, headers: resp.headers.insert(n, seq![raw]) }, true)
        } else {
            (resp, false)
        },
        _ => (resp, false),
    }
}

/// Sets the `:status` pseudo-header or a header of a response to `raw`;
/// returns whether it applied. The request pseudo-headers do not apply.
pub fn apply_header_or_pseudo_response(resp: &mut ResponseHead, pseudo: &HeaderOrPseudo, raw: &[u8]) -> (r: bool)
    ensures
        (final(resp)@, r) == response_with(old(resp)@, pseudo@, raw@),
{
    match pseudo {
        HeaderOrPseudo::Status => match utf8_to_string(vstd::slice::slice_to_vec(raw)) {
            Some(t) => match parse_u16(&t) {
                Some(c) => if valid_status_code(c) {
                    resp.status = c;
                    true
                } else {
                    false
                },
                None => false,
            },
            None => false,
        },
        HeaderOrPseudo::Header(n) => {
            if valid_header_value(raw) {
                resp.headers.insert(n.as_str(), vstd::slice::slice_to_vec(raw));
                true
            } else {
                false
            }
        },
        _ => false,
    }
}

/// Bytes that `HeaderValue::to_str` accepts: visible ASCII or tabs.
pub open spec fn is_visible_ascii(b: Seq<u8>) -> bool {
    forall|i: int| 0 <= i < b.len() ==> (32 <= #[trigger] b[i] < 127 || b[i] == 9)
}

/// Checks that bytes are visible ASCII or tabs.
pub fn visible_ascii_bytes(b: &[u8]) -> (r: bool)
    ensures
        r == is_visible_ascii(b@),
{
    let mut i: usize = 0;
    while i < b.len()
        invariant
            i <= b@.len(),
            forall|t: int| 0 <= t < i ==> (32 <= #[trigger] b@[t] < 127 || b@[t] == 9),
        decreases b@.len() - i,
    {
        if !(32 <= b[i] && b[i] < 127 || b[i] == 9) {
            return false;
        }
        i += 1;
    }
    true
}

/// The text that the request's URI shows as its path: the path and query
/// (with a leading `/` when it lacks one), `/` when there is none, and
/// nothing for an authority-only URI.
pub open spec fn path_text(uri: UriPartsView) -> Seq<char> {
    match uri.path_and_query {
        Some(p) => if p.len() == 0 {
            "/"@
        } else if p[0] == '/' || p[0] == '*' {
            p
        } else {
            "/"@ + p
        },
        None => if uri.scheme is Some || uri.authority is None {
            "/"@
        } else {
            Seq::empty()
        },
    }
}

/// The value of a pseudo-header of a request: its method, its scheme, its
/// authority (or else its host header, when that is visible ASCII), its
/// path; requests have no `:status`, and headers are not pseudo-headers.
pub open spec fn pseudo_value(p: HeaderOrPseudoView, req: RequestView) -> Option<Seq<char>> {
    match p {
        HeaderOrPseudoView::Method => Some(req.method),
        HeaderOrPseudoView::Scheme => req.uri.scheme,
        HeaderOrPseudoView::Authority => match req.uri.authority {
            Some(a) => Some(a),
            None => if req.headers.contains_key("host"@) && is_visible_ascii(req.headers["host"@][0]) {
                Some(decode_utf8(req.headers["host"@][0]))
            } else {
                None
            },
        },
        HeaderOrPseudoView::Path => Some(path_text(req.uri)),
        _ => None,
    }
}

/// Visible ASCII is well-formed UTF-8.
pub proof fn lemma_visible_ascii_utf8(b: Seq<u8>)
    requires
        is_visible_ascii(b),
    ensures
        valid_utf8(b),
{
    assert(valid_utf8(b.subrange(0, 0))) by {
        assert(b.subrange(0, 0).len() == 0);
    }
    vstd::utf8::partial_valid_utf8_extend_ascii_block(b, 0, b.len() as int);
    assert(b.subrange(0, b.len() as int) =~= b);
}

/// The endpoint that the endpoint picker chose for a request: the text of
/// the first value of `x-gateway-destination-endpoint`, when it is visible
/// ASCII; otherwise none.
pub open spec fn destination_text(headers: Map<Seq<char>, Seq<Seq<u8>>>) -> Option<Seq<char>> {
    let name = "x-gateway-destination-endpoint"@;
    if headers.contains_key(name) && is_visible_ascii(headers[name][0]) {
        Some(decode_utf8(headers[name][0]))
    } else {
        None
    }
}

/// Reads the endpoint that the endpoint picker chose, from the headers of
/// the request it mutated.
pub fn gateway_destination(headers: &HeaderMap) -> (r: Option<String>)
    ensures
        opt_chars(r) == destination_text(headers@),
{
    let name = "x-gateway-destination-endpoint";
    match headers.get(name) {
        Some(v) => if visible_ascii_bytes(v.as_slice()) {
            proof {
                lemma_visible_ascii_utf8(v@);
            }
            utf8_to_string(v.clone())
        } else {
            None
        },
        None => None,
    }
}

/// The value of a pseudo-header of a request.
pub fn get_pseudo_header_value(pseudo: &HeaderOrPseudo, req: &RequestHead) -> (r: Option<String>)
    ensures
        opt_chars(r) == pseudo_value(pseudo@, req@),
{
    match pseudo {
        HeaderOrPseudo::Method => Some(req.method.clone()),
        HeaderOrPseudo::Scheme => clone_opt(&req.scheme),
        HeaderOrPseudo::Authority => match &req.authority {
            Some(a) => Some(a.clone()),
            None => {
                let host = "host";
                proof {
                    reveal_strlit("host");
                }
                match req.headers.get(host) {
                    Some(h) => if visible_ascii_bytes(h.as_slice()) {
                        proof {
                            lemma_visible_ascii_utf8(h@);
                        }
                        utf8_to_string(h.clone())
                    } else {
                        None
                    },
                    None => None,
                }
            },
        },
        HeaderOrPseudo::Path => {
            proof {
                reveal_strlit("/");
            }
            match &req.path_and_query {
                Some(p) => {
                    {
                        let c = crate::text::chars_of(p.as_str());
                        assert(c@ == p@);
                        if c.len() == 0 {
                            Some("/".to_owned())
                        } else if c[0] == '/' || c[0] == '*' {
                            Some(p.clone())
                        } else {
                            let mut t = "/".to_owned();
                            let mut k: usize = 0;
                            while k < c.len()
                                invariant
                                    k <= c@.len(),
                                    t@ == "/"@ + c@.subrange(0, k as int),
                                decreases c@.len() - k,
                            {
                                crate::text::push_char(&mut t, c[k]);
                                assert(c@.subrange(0, k + 1) =~= c@.subrange(0, k as int).push(c@[k as int]));
                                k += 1;
                            }
                            assert(c@.subrange(0, k as int) =~= p@);
                            Some(t)
                        }
                    }
                },
                None => {
                    if req.scheme.is_some() || req.authority.is_none() {
                        Some("/".to_owned())
                    } else {
                        Some(String::new())
                    }
                },
            }
        },
        _ => None,
    }
}

/// The headers after the removals from position `i` on: a name is read as
/// `http` reads header names, and one that is not valid removes nothing.
pub open spec fn removals_of(h: Map<Seq<char>, Seq<Seq<u8>>>, names: Seq<String>, i: int) -> Map<Seq<char>, Seq<Seq<u8>>>
    decreases names.len() - i,
{
    if i < 0 || i >= names.len() {
        h
    } else {
        let h2 = match header_name_from_bytes(encode_utf8(names[i]@)) {
            Some(n) => h.remove(n),
            None => h,
        };
        removals_of(h2, names, i + 1)
    }
}

/// The name of the `content-length` header, which the processor's
/// mutations never set.
pub open spec fn content_length() -> Seq<char> {
    "content-length"@
}

/// The headers after the headers to set from position `i` on, and the
/// error that stopped them, if any: a name that is not valid stops with
/// `InvalidHeaderName`, `content-length` is skipped, and a raw value that
/// is not valid stops with `InvalidHeaderValue`; a valid one replaces the
/// header's values.
pub open spec fn sets_of(h: Map<Seq<char>, Seq<Seq<u8>>>, sets: Seq<HeaderValueOption>, i: int) -> (Map<Seq<char>, Seq<Seq<u8>>>, Option<Error>)
    decreases sets.len() - i,
{
    if i < 0 || i >= sets.len() {
        (h, None)
    } else {
        match sets[i].header {
            None => sets_of(h, sets, i + 1),
            Some(hv) => match header_name_from_bytes(encode_utf8(hv.key@)) {
                None => (h, Some(Error::InvalidHeaderName)),
                Some(n) => if n == content_length() {
                    sets_of(h, sets, i + 1)
                } else if is_header_value(hv.raw_value@) {
                    sets_of(h.insert(n, seq![hv.raw_value@]), sets, i + 1)
                } else {
                    (h, Some(Error::InvalidHeaderValue))
                },
            },
        }
    }
}

/// The result that reports an optional error.
pub open spec fn outcome(e: Option<Error>) -> Result<(), Error> {
    match e {
        Some(x) => Err(x),
        None => Ok(()),
    }
}

fn remove_headers(headers: &mut HeaderMap, names: &Vec<String>)
    ensures
        final(headers)@ == removals_of(old(headers)@, names@, 0),
{
    let ghost h0 = headers@;
    let mut i: usize = 0;
    while i < names.len()
        invariant
            i <= names@.len(),
            removals_of(headers@, names@, i as int) == removals_of(h0, names@, 0),
            h0 == old(headers)@,
        decreases names@.len() - i,
    {
        match parse_header_name(names[i].as_str().as_bytes()) {
            Some(n) => {
                headers.remove(n.as_str());
            },
            None => {},
        }
        i += 1;
    }
}

fn is_content_length(n: &String) -> (r: bool)
    ensures
        r == (n@ == content_length()),
{
    proof {
        reveal_strlit("content-length");
    }
    *n == "content-length".to_owned()
}

/// Applies the processor's header mutation to headers: the removals, then
/// the headers to set, each replacing the header's values with its raw
/// value. The first invalid name or value stops it with an error; the
/// changes before it stay.
pub fn apply_header_mutations(headers: &mut HeaderMap, h: Option<&HeaderMutation>) -> (r: Result<(), Error>)
    ensures
        h is None ==> r is Ok && final(headers)@ == old(headers)@,
        h matches Some(m) ==> {
            let out = sets_of(removals_of(old(headers)@, m.remove_headers@, 0), m.set_headers@, 0);
            final(headers)@ == out.0 && r == outcome(out.1)
        },
{
    match h {
        None => Ok(()),
        Some(m) => {
            remove_headers(headers, &m.remove_headers);
            let ghost h1 = headers@;
            let mut i: usize = 0;
            while i < m.set_headers.len()
                invariant
                    i <= m.set_headers@.len(),
                    h == Some(m),
                    h1 == removals_of(old(headers)@, m.remove_headers@, 0),
                    sets_of(headers@, m.set_headers@, i as int) == sets_of(h1, m.set_headers@, 0),
                decreases m.set_headers@.len() - i,
            {
                match &m.set_headers[i].header {
                    None => {},
                    Some(hv) => {
                        let name = match parse_header_name(hv.key.as_str().as_bytes()) {
                            Some(n) => n,
                            None => {
                                return Err(Error::InvalidHeaderName);
                            },
                        };
                        if !is_content_length(&name) {
                            if !valid_header_value(hv.raw_value.as_slice()) {
                                return Err(Error::InvalidHeaderValue);
                            }
                            headers.insert(name.as_str(), hv.raw_value.clone());
                        }
                    },
                }
                i += 1;
            }
            Ok(())
        },
    }
}

/// The request after the headers to set from position `i` on, and the
/// error that stopped them, if any: a pseudo-header is applied as
/// `request_with` says; a header as in `sets_of`; a name that is neither is
/// skipped.
pub open spec fn request_sets_of(req: RequestView, sets: Seq<HeaderValueOption>, i: int) -> (RequestView, Option<Error>)
    decreases sets.len() - i,
{
    if i < 0 || i >= sets.len() {
        (req, None)
    } else {
        match sets[i].header {
            None => request_sets_of(req, sets, i + 1),
            Some(hv) => match header_or_pseudo_of(hv.key@) {
                None => request_sets_of(req, sets, i + 1),
                Some(HeaderOrPseudoView::Header(n)) => if n == content_length() {
                    request_sets_of(req, sets, i + 1)
                } else if is_header_value(hv.raw_value@) {
                    request_sets_of(
                        RequestView { method: req.method, uri: req.uri, headers: req.headers.insert(n, seq![hv.raw_value@]) },
                        sets,
                        i + 1,
                    )
                } else {
                    (req, Some(Error::InvalidHeaderValue))
                },
                Some(p) => request_sets_of(request_with(req, p, hv.raw_value@).0, sets, i + 1),
            },
        }
    }
}

/// The response after the headers to set from position `i` on, and the
/// error that stopped them, if any, as `request_sets_of` says for requests.
pub open spec fn response_sets_of(resp: ResponseView, sets: Seq<HeaderValueOption>, i: int) -> (ResponseView, Option<Error>)
    decreases sets.len() - i,
{
    if i < 0 || i >= sets.len() {
        (resp, None)
    } else {
        match sets[i].header {
            None => response_sets_of(resp, sets, i + 1),
            Some(hv) => match header_or_pseudo_of(hv.key@) {
                None => response_sets_of(resp, sets, i + 1),
                Some(HeaderOrPseudoView::Header(n)) => if n == content_length() {
                    response_sets_of(resp, sets, i + 1)
                } else if is_header_value(hv.raw_value@) {
                    response_sets_of(ResponseView { status: resp.status, headers: resp.headers.insert(n, seq![hv.raw_value@]) }, sets, i + 1)
                } else {
                    (resp, Some(Error::InvalidHeaderValue))
                },
                Some(p) => response_sets_of(response_with(resp, p, hv.raw_value@).0, sets, i + 1),
            },
        }
    }
}

/// The request after its headers lost the removed ones.
pub open spec fn request_removals(req: RequestView, names: Seq<String>) -> RequestView {
    RequestView { method: req.method, uri: req.uri, headers: removals_of(req.headers, names, 0) }
}

/// Applies the processor's header mutation to a request: the removals, then
/// the headers and pseudo-headers to set.
pub fn apply_header_mutations_request(req: &mut RequestHead, h: Option<&HeaderMutation>) -> (r: Result<(), Error>)
    ensures
        h is None ==> r is Ok && final(req)@ == old(req)@,
        h matches Some(m) ==> {
            let out = request_sets_of(request_removals(old(req)@, m.remove_headers@), m.set_headers@, 0);
            final(req)@ == out.0 && r == outcome(out.1)
        },
{
    match h {
        None => Ok(()),
        Some(m) => {
            remove_headers(&mut req.headers, &m.remove_headers);
            assert(req@ == request_removals(old(req)@, m.remove_headers@));
            let ghost r1 = req@;
            let mut i: usize = 0;
            while i < m.set_headers.len()
                invariant
                    i <= m.set_headers@.len(),
                    h == Some(m),
                    r1 == request_removals(old(req)@, m.remove_headers@),
                    request_sets_of(req@, m.set_headers@, i as int) == request_sets_of(r1, m.set_headers@, 0),
                decreases m.set_headers@.len() - i,
            {
                match &m.set_headers[i].header {
                    None => {},
                    Some(hv) => match HeaderOrPseudo::try_from_str(hv.key.as_str()) {
                        Ok(HeaderOrPseudo::Header(name)) => {
                            if !is_content_length(&name) {
                                if !valid_header_value(hv.raw_value.as_slice()) {
                                    return Err(Error::InvalidHeaderValue);
                                }
                                req.headers.insert(name.as_str(), hv.raw_value.clone());
                            }
                        },
                        Ok(pseudo) => {
                            apply_header_or_pseudo_request(req, &pseudo, hv.raw_value.as_slice());
                        },
                        Err(_) => {},
                    },
                }
                i += 1;
            }
            Ok(())
        },
    }
}

/// Applies the processor's header mutation to a response: the removals,
/// then the headers and the `:status` to set.
pub fn apply_header_mutations_response(resp: &mut ResponseHead, h: Option<&HeaderMutation>) -> (r: Result<(), Error>)
    ensures
        h is None ==> r is Ok && final(resp)@ == old(resp)@,
        h matches Some(m) ==> {
            let out = response_sets_of(
                ResponseView { status: old(resp)@.status, headers: removals_of(old(resp)@.headers, m.remove_headers@, 0) },
                m.set_headers@,
                0,
            );
            final(resp)@ == out.0 && r == outcome(out.1)
        },
{
    match h {
        None => Ok(()),
        Some(m) => {
            remove_headers(&mut resp.headers, &m.remove_headers);
            let ghost r1 = resp@;
            let mut i: usize = 0;
            while i < m.set_headers.len()
                invariant
                    i <= m.set_headers@.len(),
                    h == Some(m),
                    r1 == (ResponseView { status: old(resp)@.status, headers: removals_of(old(resp)@.headers, m.remove_headers@, 0) }),
                    response_sets_of(resp@, m.set_headers@, i as int) == response_sets_of(r1, m.set_headers@, 0),
                decreases m.set_headers@.len() - i,
            {
                match &m.set_headers[i].header {
                    None => {},
                    Some(hv) => match HeaderOrPseudo::try_from_str(hv.key.as_str()) {
                        Ok(HeaderOrPseudo::Header(name)) => {
                            if !is_content_length(&name) {
                                if !valid_header_value(hv.raw_value.as_slice()) {
                                    return Err(Error::InvalidHeaderValue);
                                }
                                resp.headers.insert(name.as_str(), hv.raw_value.clone());
                            }
                        },
                        Ok(pseudo) => {
                            apply_header_or_pseudo_response(resp, &pseudo, hv.raw_value.as_slice());
                        },
                        Err(_) => {},
                    },
                }
                i += 1;
            }
            Ok(())
        },
    }
}

/// What the processor asks of the body, in streaming mode.
#[derive(Debug, Clone)]
pub enum BodyMutation {
    /// A chunk of the new body, and whether it is the last one.
    StreamedResponse { body: Vec<u8>, end_of_stream: bool },
    /// A whole new body (not valid in streaming mode).
    Body(Vec<u8>),
    /// Clear the body (not valid in streaming mode).
    ClearBody(bool),
}

/// The processor's answer to headers or a body chunk.
#[derive(Debug, Clone)]
pub struct CommonResponse {
    pub header_mutation: Option<HeaderMutation>,
    pub body_mutation: Option<BodyMutation>,
}

/// A response that the processor sends in place of the upstream's.
#[derive(Debug, Clone)]
pub struct ImmediateResponse {
    pub status: Option<i32>,
    pub headers: Option<HeaderMutation>,
    pub body: Vec<u8>,
    pub grpc_status: Option<u32>,
}

/// A message of the processor.
#[derive(Debug, Clone)]
pub enum ProcessingResponse {
    RequestHeaders(Option<CommonResponse>),
    RequestBody(Option<CommonResponse>),
    RequestTrailers,
    ResponseHeaders(Option<CommonResponse>),
    ResponseBody(Option<CommonResponse>),
    ResponseTrailers,
    ImmediateResponse(ImmediateResponse),
    Empty,
}

/// Which task a message of the processor goes to.
#[derive(Debug, Clone, Copy, PartialEq, Eq, Structural)]
pub enum Dispatch {
    /// The task that mutates the request.
    ToRequest,
    /// The task that mutates the response.
    ToResponse,
    /// Both: an immediate response may end either.
    ToBoth,
    /// Neither: a message without content.
    Dropped,
}

/// Where the processor's messages go: answers about the request to the
/// request's task, answers about the response to the response's task, an
/// immediate response to both, and an empty message nowhere.
pub fn dispatch_of(msg: &ProcessingResponse) -> (r: Dispatch)
    ensures
        r == match msg {
            ProcessingResponse::RequestHeaders(_) | ProcessingResponse::RequestBody(_) | ProcessingResponse::RequestTrailers => Dispatch::ToRequest,
            ProcessingResponse::ResponseHeaders(_) | ProcessingResponse::ResponseBody(_) | ProcessingResponse::ResponseTrailers => Dispatch::ToResponse,
            ProcessingResponse::ImmediateResponse(_) => Dispatch::ToBoth,
            ProcessingResponse::Empty => Dispatch::Dropped,
        },
{
    match msg {
        ProcessingResponse::RequestHeaders(_) | ProcessingResponse::RequestBody(_) | ProcessingResponse::RequestTrailers => Dispatch::ToRequest,
        ProcessingResponse::ResponseHeaders(_) | ProcessingResponse::ResponseBody(_) | ProcessingResponse::ResponseTrailers => Dispatch::ToResponse,
        ProcessingResponse::ImmediateResponse(_) => Dispatch::ToBoth,
        ProcessingResponse::Empty => Dispatch::Dropped,
    }
}

/// Where a mutation stands after one message: whether the headers are
/// done, whether the body ended, and the body chunk to pass on.
#[derive(Debug)]
pub struct MutationProgress {
    pub headers_done: bool,
    pub end_of_stream: bool,
    pub chunk: Option<Vec<u8>>,
}

pub open spec fn opt_request_view(o: Option<RequestHead>) -> Option<RequestView> {
    match o {
        Some(r) => Some(r@),
        None => None,
    }
}

pub open spec fn opt_bytes(o: Option<Vec<u8>>) -> Option<Seq<u8>> {
    match o {
        Some(b) => Some(b@),
        None => None,
    }
}

/// What a mutation's progress holds.
pub struct ProgressView {
    pub headers_done: bool,
    pub end_of_stream: bool,
    pub chunk: Option<Seq<u8>>,
}

pub open spec fn progress_view(r: Result<MutationProgress, Error>) -> Result<ProgressView, Error> {
    match r {
        Ok(p) => Ok(ProgressView { headers_done: p.headers_done, end_of_stream: p.end_of_stream, chunk: opt_bytes(p.chunk) }),
        Err(e) => Err(e),
    }
}

/// The progress that a message gives once its answer was applied: a
/// streamed chunk is passed on and may end the body; another body mutation
/// changes nothing; no body mutation ends the exchange when there is no
/// body.
pub open spec fn body_progress(headers_done: bool, had_body: bool, cr: CommonResponse) -> ProgressView {
    match cr.body_mutation {
        Some(BodyMutation::StreamedResponse { body, end_of_stream }) => ProgressView {
            headers_done,
            end_of_stream,
            chunk: Some(body@),
        },
        Some(_) => ProgressView { headers_done, end_of_stream: false, chunk: None },
        None => ProgressView { headers_done, end_of_stream: !had_body, chunk: None },
    }
}

/// One message of the processor while a request is mutated: an answer to
/// the request headers or body is applied to the request (if it is still
/// held) and to the body; an empty answer to the headers changes nothing,
/// an empty answer to the body ends it; other messages are ignored.
/// `headers_done` says whether the message answered the headers. Gives the
/// request after it and the progress, or the error that stopped it.
pub open spec fn request_message(had_body: bool, before: Option<RequestView>, presp: ProcessingResponse) -> (
    Option<RequestView>,
    Result<ProgressView, Error>,
) {
    let headers_done = presp is RequestHeaders;
    let cr = match presp {
        ProcessingResponse::RequestHeaders(Some(c)) => Some(c),
        ProcessingResponse::RequestBody(Some(c)) => Some(c),
        _ => None,
    };
    match cr {
        None => (
            before,
            Ok(
                ProgressView {
                    headers_done,
                    end_of_stream: presp matches ProcessingResponse::RequestBody(None),
                    chunk: None,
                },
            ),
        ),
        Some(c) => match before {
            Some(req) => {
                let applied = match c.header_mutation {
                    Some(m) => request_sets_of(request_removals(req, m.remove_headers@), m.set_headers@, 0),
                    None => (req, None),
                };
                (
                    Some(applied.0),
                    match applied.1 {
                        Some(e) => Err(e),
                        None => Ok(body_progress(headers_done, had_body, c)),
                    },
                )
            },
            None => (None, Ok(body_progress(headers_done, had_body, c))),
        },
    }
}

fn progress_of(headers_done: bool, had_body: bool, cr: &CommonResponse) -> (r: MutationProgress)
    ensures
        progress_view(Ok(r)) == Ok::<ProgressView, Error>(body_progress(headers_done, had_body, *cr)),
{
    match &cr.body_mutation {
        Some(BodyMutation::StreamedResponse { body, end_of_stream }) => MutationProgress {
            headers_done,
            end_of_stream: *end_of_stream,
            chunk: Some(body.clone()),
        },
        Some(_) => MutationProgress { headers_done, end_of_stream: false, chunk: None },
        None => MutationProgress { headers_done, end_of_stream: !had_body, chunk: None },
    }
}

/// Handles one message of the processor while a request is mutated.
pub fn handle_response_for_request_mutation(had_body: bool, req: &mut Option<RequestHead>, presp: ProcessingResponse) -> (r:
    Result<MutationProgress, Error>)
    ensures
        (opt_request_view(*final(req)), progress_view(r)) == request_message(had_body, opt_request_view(*old(req)), presp),
{
    let headers_done = match &presp {
        ProcessingResponse::RequestHeaders(_) => true,
        _ => false,
    };
    let cr = match presp {
        ProcessingResponse::RequestHeaders(None) => {
            return Ok(MutationProgress { headers_done, end_of_stream: false, chunk: None });
        },
        ProcessingResponse::RequestHeaders(Some(c)) => c,
        ProcessingResponse::RequestBody(None) => {
            return Ok(MutationProgress { headers_done, end_of_stream: true, chunk: None });
        },
        ProcessingResponse::RequestBody(Some(c)) => c,
        _ => {
            return Ok(MutationProgress { headers_done, end_of_stream: false, chunk: None });
        },
    };
    match req {
        Some(r) => {
            apply_header_mutations_request(r, cr.header_mutation.as_ref())?;
        },
        None => {},
    }
    Ok(progress_of(headers_done, had_body, &cr))
}

pub open spec fn opt_response_view(o: Option<ResponseHead>) -> Option<ResponseView> {
    match o {
        Some(r) => Some(r@),
        None => None,
    }
}

/// One message of the processor while a response is mutated, as
/// `request_message` says for requests.
pub open spec fn response_message(had_body: bool, before: Option<ResponseView>, presp: ProcessingResponse) -> (
    Option<ResponseView>,
    Result<ProgressView, Error>,
) {
    let headers_done = presp is ResponseHeaders;
    let cr = match presp {
        ProcessingResponse::ResponseHeaders(Some(c)) => Some(c),
        ProcessingResponse::ResponseBody(Some(c)) => Some(c),
        _ => None,
    };
    match cr {
        None => (
            before,
            Ok(
                ProgressView {
                    headers_done,
                    end_of_stream: presp matches ProcessingResponse::ResponseBody(None),
                    chunk: None,
                },
            ),
        ),
        Some(c) => match before {
            Some(resp) => {
                let applied = match c.header_mutation {
                    Some(m) => response_sets_of(
                        ResponseView { status: resp.status, headers: removals_of(resp.headers, m.remove_headers@, 0) },
                        m.set_headers@,
                        0,
                    ),
                    None => (resp, None),
                };
                (
                    Some(applied.0),
                    match applied.1 {
                        Some(e) => Err(e),
                        None => Ok(body_progress(headers_done, had_body, c)),
                    },
                )
            },
            None => (None, Ok(body_progress(headers_done, had_body, c))),
        },
    }
}

/// Handles one message of the processor while a response is mutated.
pub fn handle_response_for_response_mutation(had_body: bool, resp: &mut Option<ResponseHead>, presp: ProcessingResponse) -> (r:
    Result<MutationProgress, Error>)
    ensures
        (opt_response_view(*final(resp)), progress_view(r)) == response_message(had_body, opt_response_view(*old(resp)), presp),
{
    let headers_done = match &presp {
        ProcessingResponse::ResponseHeaders(_) => true,
        _ => false,
    };
    let cr = match presp {
        ProcessingResponse::ResponseHeaders(None) => {
            return Ok(MutationProgress { headers_done, end_of_stream: false, chunk: None });
        },
        ProcessingResponse::ResponseHeaders(Some(c)) => c,
        ProcessingResponse::ResponseBody(Some(c)) => c,
        ProcessingResponse::ResponseBody(None) => {
            return Ok(MutationProgress { headers_done, end_of_stream: true, chunk: None });
        },
        _ => {
            return Ok(MutationProgress { headers_done, end_of_stream: false, chunk: None });
        },
    };
    match resp {
        Some(r) => {
            apply_header_mutations_response(r, cr.header_mutation.as_ref())?;
        },
        None => {},
    }
    Ok(progress_of(headers_done, had_body, &cr))
}

/// What a message makes of the response to send at once.
pub enum ImmediateView {
    /// The message is not an immediate response.
    NotImmediate,
    /// Its status is not a valid status code: building the response fails
    /// (the task that handles it ends there).
    InvalidStatus,
    /// The response: its status (200 when none is given, cut to 16 bits),
    /// the headers that its mutation sets, and its body.
    Response(ResponseView, Seq<u8>),
}

/// The immediate response that a message stands for.
pub open spec fn immediate_of(presp: ProcessingResponse) -> ImmediateView {
    match presp {
        ProcessingResponse::ImmediateResponse(ir) => {
            let code = (match ir.status {
                Some(c) => c,
                None => 200i32,
            }) as u16;
            if is_status_code(code) {
                ImmediateView::Response(
                    ResponseView {
                        status: code,
                        headers: match ir.headers {
                            Some(m) => sets_of(removals_of(Map::empty(), m.remove_headers@, 0), m.set_headers@, 0).0,
                            None => Map::empty(),
                        },
                    },
                    ir.body@,
                )
            } else {
                ImmediateView::InvalidStatus
            }
        },
        _ => ImmediateView::NotImmediate,
    }
}

/// The response that a message asks to send at once.
pub enum ImmediateOutcome {
    NotImmediate,
    InvalidStatus,
    Response(ResponseHead, Vec<u8>),
}

/// Builds the response that a message asks to send at once; a header
/// mutation that fails part way leaves the headers set before it.
pub fn to_immediate_response(presp: &ProcessingResponse) -> (r: ImmediateOutcome)
    ensures
        match immediate_of(*presp) {
            ImmediateView::NotImmediate => r is NotImmediate,
            ImmediateView::InvalidStatus => r is InvalidStatus,
            ImmediateView::Response(h, b) => r matches ImmediateOutcome::Response(head, body) && head@ == h && body@ == b,
        },
{
    match presp {
        ProcessingResponse::ImmediateResponse(ir) => {
            let code: i32 = match ir.status {
                Some(c) => c,
                None => 200,
            };
            let status = code as u16;
            if !valid_status_code(status) {
                return ImmediateOutcome::InvalidStatus;
            }
            let mut headers = HeaderMap::new();
            let _ = apply_header_mutations(&mut headers, ir.headers.as_ref());
            ImmediateOutcome::Response(ResponseHead { status, headers }, ir.body.clone())
        },
        _ => ImmediateOutcome::NotImmediate,
    }
}

/// What the task that mutates a request receives.
pub enum TaskEvent {
    /// The processor's stream ended.
    Closed,
    /// A message of the processor.
    Message(ProcessingResponse),
}

/// What the task hands back in place of the request.
pub enum RequestReply {
    /// The mutated request.
    Mutated(RequestHead),
    /// A response to send at once.
    Immediate(ResponseHead, Vec<u8>),
    /// The request as it stands, to go on with its buffered body.
    Restored(RequestHead),
}

/// What the task does after an event.
pub struct TaskStep<R> {
    /// The reply to hand back, at most once.
    pub reply: Option<R>,
    /// A chunk of the new body to pass on.
    pub chunk: Option<Vec<u8>>,
    /// Whether the new body ends.
    pub close_body: bool,
    /// Whether the task ends.
    pub finished: bool,
    /// Whether the processor was skipped (fail-open).
    pub skipped: bool,
}

/// The state of the task that mutates a request.
pub struct RequestTask {
    /// The request, until its headers are done.
    pub req: Option<RequestHead>,
    /// Whether the reply is still owed.
    pub reply_pending: bool,
    /// Whether the new body is still open.
    pub body_open: bool,
    /// Whether the request has a body.
    pub had_body: bool,
    pub failure_mode: FailureMode,
}

/// The task's decision for an event:
/// - the stream ends: with fail-open, a request still held and a reply
///   owed, the request goes on as it stands and the processor counts as
///   skipped; the task ends;
/// - an immediate response is the reply (if still owed), the body closes
///   and the task ends; one with an invalid status ends the task;
/// - with the body closed, the task ends;
/// - else the message is handled: its chunk is passed on; once the headers
///   are done the request is handed back; the body closes at its end or
///   when there is none; an error ends the task.
pub open spec fn request_step_ok(
    t: (Option<RequestView>, bool, bool, bool, FailureMode),
    event: TaskEvent,
    after: (Option<RequestView>, bool, bool),
    out: (Option<RequestReplyView>, Option<Seq<u8>>, bool, bool, bool),
) -> bool {
    let (req, reply_pending, body_open, had_body, failure_mode) = t;
    let (req2, reply_pending2, body_open2) = after;
    let (reply, chunk, close_body, finished, skipped) = out;
    match event {
        TaskEvent::Closed => if failure_mode == FailureMode::FailOpen && req is Some && reply_pending {
            reply == Some(RequestReplyView::Restored(req->0)) && req2 is None && !reply_pending2 && !body_open2
                && close_body && finished && skipped && chunk is None
        } else {
            reply is None && req2 == req && reply_pending2 == reply_pending && body_open2 == body_open && !close_body
                && finished && !skipped && chunk is None
        },
        TaskEvent::Message(presp) => match immediate_of(presp) {
            ImmediateView::Response(h, b) => {
                &&& reply == (if reply_pending {
                    Some(RequestReplyView::Immediate(h, b))
                } else {
                    None
                })
                &&& !reply_pending2 && !body_open2 && close_body && finished && !skipped && chunk is None
                &&& req2 == req
            },
            ImmediateView::InvalidStatus => reply is None && finished && close_body && !body_open2 && !skipped
                && chunk is None && req2 == req && reply_pending2 == reply_pending,
            ImmediateView::NotImmediate => if !body_open {
                reply is None && finished && !close_body && !skipped && chunk is None && req2 == req && reply_pending2
                    == reply_pending && body_open2 == body_open
            } else {
                let (mid, r) = request_message(had_body, req, presp);
                match r {
                    Err(_) => reply is None && finished && !skipped && chunk is None && req2 == mid && reply_pending2
                        == reply_pending && body_open2 == body_open && !close_body,
                    Ok(p) => {
                        let hand_back = p.headers_done && mid is Some;
                        &&& chunk == p.chunk
                        &&& !finished && !skipped
                        &&& reply == (if hand_back && reply_pending {
                            Some(RequestReplyView::Mutated(mid->0))
                        } else {
                            None
                        })
                        &&& req2 == (if p.headers_done {
                            None
                        } else {
                            mid
                        })
                        &&& reply_pending2 == (reply_pending && !hand_back)
                        &&& close_body == (p.end_of_stream || !had_body)
                        &&& body_open2 == (body_open && !close_body)
                    },
                }
            },
        },
    }
}

/// What a reply holds.
pub enum RequestReplyView {
    Mutated(RequestView),
    Immediate(ResponseView, Seq<u8>),
    Restored(RequestView),
}

pub open spec fn reply_view(r: Option<RequestReply>) -> Option<RequestReplyView> {
    match r {
        Some(RequestReply::Mutated(q)) => Some(RequestReplyView::Mutated(q@)),
        Some(RequestReply::Immediate(h, b)) => Some(RequestReplyView::Immediate(h@, b@)),
        Some(RequestReply::Restored(q)) => Some(RequestReplyView::Restored(q@)),
        None => None,
    }
}

impl RequestTask {
    /// Decides what the task does after an event.
    pub fn step(&mut self, event: TaskEvent) -> (r: TaskStep<RequestReply>)
        ensures
            final(self).had_body == old(self).had_body,
            final(self).failure_mode == old(self).failure_mode,
            request_step_ok(
                (opt_request_view(old(self).req), old(self).reply_pending, old(self).body_open, old(self).had_body, old(self).failure_mode),
                event,
                (opt_request_view(final(self).req), final(self).reply_pending, final(self).body_open),
                (reply_view(r.reply), opt_bytes(r.chunk), r.close_body, r.finished, r.skipped),
            ),
    {
        match event {
            TaskEvent::Closed => {
                if self.failure_mode == FailureMode::FailOpen && self.req.is_some() && self.reply_pending {
                    let mut taken: Option<RequestHead> = None;
                    std::mem::swap(&mut taken, &mut self.req);
                    let req = match taken {
                        Some(q) => q,
                        None => {
                            proof {
                                assert(false);
                            }
                            return TaskStep { reply: None, chunk: None, close_body: false, finished: true, skipped: false };
                        },
                    };
                    self.reply_pending = false;
                    self.body_open = false;
                    TaskStep { reply: Some(RequestReply::Restored(req)), chunk: None, close_body: true, finished: true, skipped: true }
                } else {
                    TaskStep { reply: None, chunk: None, close_body: false, finished: true, skipped: false }
                }
            },
            TaskEvent::Message(presp) => {
                match to_immediate_response(&presp) {
                    ImmediateOutcome::Response(head, body) => {
                        let reply = if self.reply_pending {
                            Some(RequestReply::Immediate(head, body))
                        } else {
                            None
                        };
                        self.reply_pending = false;
                        self.body_open = false;
                        TaskStep { reply, chunk: None, close_body: true, finished: true, skipped: false }
                    },
                    ImmediateOutcome::InvalidStatus => {
                        self.body_open = false;
                        TaskStep { reply: None, chunk: None, close_body: true, finished: true, skipped: false }
                    },
                    ImmediateOutcome::NotImmediate => {
                        if !self.body_open {
                            return TaskStep { reply: None, chunk: None, close_body: false, finished: true, skipped: false };
                        }
                        let ghost before = opt_request_view(self.req);
                        let ghost presp_v = presp;
                        let outcome = handle_response_for_request_mutation(self.had_body, &mut self.req, presp);
                        let ghost mid = opt_request_view(self.req);
                        match outcome {
                            Ok(p) => {
                                let mut reply: Option<RequestReply> = None;
                                if p.headers_done {
                                    let mut taken: Option<RequestHead> = None;
                                    std::mem::swap(&mut taken, &mut self.req);
                                    match taken {
                                        Some(q) => {
                                            if self.reply_pending {
                                                self.reply_pending = false;
                                                reply = Some(RequestReply::Mutated(q));
                                            }
                                        },
                                        None => {},
                                    }
                                }
                                let close_body = p.end_of_stream || !self.had_body;
                                if close_body {
                                    self.body_open = false;
                                }
                                let ghost pv = p;
                                let step = TaskStep { reply, chunk: p.chunk, close_body, finished: false, skipped: false };
                                assert(opt_request_view(self.req) == (if pv.headers_done { None } else { mid }));
                                assert(reply_view(step.reply) == (if pv.headers_done && mid is Some && old(self).reply_pending {
                                    Some(RequestReplyView::Mutated(mid->0))
                                } else {
                                    None
                                }));
                                step
                            },
                            Err(_) => TaskStep { reply: None, chunk: None, close_body: false, finished: true, skipped: false },
                        }
                    },
                }
            },
        }
    }
}

/// What the task that mutates a response hands back in place of it.
pub enum ResponseReply {
    /// The mutated response.
    Mutated(ResponseHead),
    /// A response to send at once.
    Immediate(ResponseHead, Vec<u8>),
}

/// What a response reply holds.
pub enum ResponseReplyView {
    Mutated(ResponseView),
    Immediate(ResponseView, Seq<u8>),
}

pub open spec fn response_reply_view(r: Option<ResponseReply>) -> Option<ResponseReplyView> {
    match r {
        Some(ResponseReply::Mutated(q)) => Some(ResponseReplyView::Mutated(q@)),
        Some(ResponseReply::Immediate(h, b)) => Some(ResponseReplyView::Immediate(h@, b@)),
        None => None,
    }
}

/// The state of the task that mutates a response.
pub struct ResponseTask {
    /// The response, until its headers are done.
    pub resp: Option<ResponseHead>,
    /// Whether the reply is still owed.
    pub reply_pending: bool,
    /// Whether the new body is still open.
    pub body_open: bool,
    /// Whether the response has a body.
    pub had_body: bool,
}

/// The response task's decision for an event, as `request_step_ok` says
/// for requests, without fail-open: when the stream ends, the task ends.
pub open spec fn response_step_ok(
    t: (Option<ResponseView>, bool, bool, bool),
    event: TaskEvent,
    after: (Option<ResponseView>, bool, bool),
    out: (Option<ResponseReplyView>, Option<Seq<u8>>, bool, bool),
) -> bool {
    let (resp, reply_pending, body_open, had_body) = t;
    let (resp2, reply_pending2, body_open2) = after;
    let (reply, chunk, close_body, finished) = out;
    match event {
        TaskEvent::Closed => reply is None && resp2 == resp && reply_pending2 == reply_pending && body_open2 == body_open
            && !close_body && finished && chunk is None,
        TaskEvent::Message(presp) => match immediate_of(presp) {
            ImmediateView::Response(h, b) => {
                &&& reply == (if reply_pending {
                    Some(ResponseReplyView::Immediate(h, b))
                } else {
                    None
                })
                &&& !reply_pending2 && !body_open2 && close_body && finished && chunk is None
                &&& resp2 == resp
            },
            ImmediateView::InvalidStatus => reply is None && finished && close_body && !body_open2 && chunk is None
                && resp2 == resp && reply_pending2 == reply_pending,
            ImmediateView::NotImmediate => if !body_open {
                reply is None && finished && !close_body && chunk is None && resp2 == resp && reply_pending2 == reply_pending
                    && body_open2 == body_open
            } else {
                let (mid, r) = response_message(had_body, resp, presp);
                match r {
                    Err(_) => reply is None && finished && chunk is None && resp2 == mid && reply_pending2 == reply_pending
                        && body_open2 == body_open && !close_body,
                    Ok(p) => {
                        let hand_back = p.headers_done && mid is Some;
                        &&& chunk == p.chunk
                        &&& !finished
                        &&& reply == (if hand_back && reply_pending {
                            Some(ResponseReplyView::Mutated(mid->0))
                        } else {
                            None
                        })
                        &&& resp2 == (if p.headers_done {
                            None
                        } else {
                            mid
                        })
                        &&& reply_pending2 == (reply_pending && !hand_back)
                        &&& close_body == (p.end_of_stream || !had_body)
                        &&& body_open2 == (body_open && !close_body)
                    },
                }
            },
        },
    }
}

impl ResponseTask {
    /// Decides what the task does after an event.
    pub fn step(&mut self, event: TaskEvent) -> (r: TaskStep<ResponseReply>)
        ensures
            final(self).had_body == old(self).had_body,
            !r.skipped,
            response_step_ok(
                (opt_response_view(old(self).resp), old(self).reply_pending, old(self).body_open, old(self).had_body),
                event,
                (opt_response_view(final(self).resp), final(self).reply_pending, final(self).body_open),
                (response_reply_view(r.reply), opt_bytes(r.chunk), r.close_body, r.finished),
            ),
    {
        match event {
            TaskEvent::Closed => TaskStep { reply: None, chunk: None, close_body: false, finished: true, skipped: false },
            TaskEvent::Message(presp) => {
                match to_immediate_response(&presp) {
                    ImmediateOutcome::Response(head, body) => {
                        let reply = if self.reply_pending {
                            Some(ResponseReply::Immediate(head, body))
                        } else {
                            None
                        };
                        self.reply_pending = false;
                        self.body_open = false;
                        TaskStep { reply, chunk: None, close_body: true, finished: true, skipped: false }
                    },
                    ImmediateOutcome::InvalidStatus => {
                        self.body_open = false;
                        TaskStep { reply: None, chunk: None, close_body: true, finished: true, skipped: false }
                    },
                    ImmediateOutcome::NotImmediate => {
                        if !self.body_open {
                            return TaskStep { reply: None, chunk: None, close_body: false, finished: true, skipped: false };
                        }
                        let outcome = handle_response_for_response_mutation(self.had_body, &mut self.resp, presp);
                        let ghost mid = opt_response_view(self.resp);
                        match outcome {
                            Ok(p) => {
                                let mut reply: Option<ResponseReply> = None;
                                if p.headers_done {
                                    let mut taken: Option<ResponseHead> = None;
                                    std::mem::swap(&mut taken, &mut self.resp);
                                    match taken {
                                        Some(q) => {
                                            if self.reply_pending {
                                                self.reply_pending = false;
                                                reply = Some(ResponseReply::Mutated(q));
                                            }
                                        },
                                        None => {},
                                    }
                                }
                                let close_body = p.end_of_stream || !self.had_body;
                                if close_body {
                                    self.body_open = false;
                                }
                                let ghost pv = p;
                                let step = TaskStep { reply, chunk: p.chunk, close_body, finished: false, skipped: false };
                                assert(opt_response_view(self.resp) == (if pv.headers_done { None } else { mid }));
                                step
                            },
                            Err(_) => TaskStep { reply: None, chunk: None, close_body: false, finished: true, skipped: false },
                        }
                    },
                }
            },
        }
    }
}

/// The pseudo-headers of a request, in this order: `:method`, `:scheme`
/// and `:authority` when they have a value, `:path`.
pub open spec fn request_pseudo_list(req: RequestView) -> Seq<(HeaderOrPseudoView, Seq<char>)> {
    seq![(HeaderOrPseudoView::Method, req.method)] + match req.uri.scheme {
        Some(s) => seq![(HeaderOrPseudoView::Scheme, s)],
        None => Seq::empty(),
    } + match pseudo_value(HeaderOrPseudoView::Authority, req) {
        Some(a) => seq![(HeaderOrPseudoView::Authority, a)],
        None => Seq::empty(),
    } + seq![(HeaderOrPseudoView::Path, path_text(req.uri))]
}

pub open spec fn pseudo_pair_view(p: (HeaderOrPseudo, String)) -> (HeaderOrPseudoView, Seq<char>) {
    (p.0@, p.1@)
}

/// The pseudo-headers of a request with their values.
pub fn get_request_pseudo_headers(req: &RequestHead) -> (r: Vec<(HeaderOrPseudo, String)>)
    ensures
        r@.map_values(|p: (HeaderOrPseudo, String)| pseudo_pair_view(p)) == request_pseudo_list(req@),
{
    let mut out: Vec<(HeaderOrPseudo, String)> = Vec::new();
    let ghost l0 = out@.map_values(|p: (HeaderOrPseudo, String)| pseudo_pair_view(p));
    let ghost empty = Seq::<(HeaderOrPseudoView, Seq<char>)>::empty();
    match get_pseudo_header_value(&HeaderOrPseudo::Method, req) {
        Some(v) => out.push((HeaderOrPseudo::Method, v)),
        None => {},
    }
    let ghost l1 = out@.map_values(|p: (HeaderOrPseudo, String)| pseudo_pair_view(p));
    assert(l1 =~= seq![(HeaderOrPseudoView::Method, req@.method)]);
    match get_pseudo_header_value(&HeaderOrPseudo::Scheme, req) {
        Some(v) => out.push((HeaderOrPseudo::Scheme, v)),
        None => {},
    }
    let ghost l2 = out@.map_values(|p: (HeaderOrPseudo, String)| pseudo_pair_view(p));
    assert(l2 =~= l1 + match req@.uri.scheme {
        Some(s) => seq![(HeaderOrPseudoView::Scheme, s)],
        None => empty,
    });
    match get_pseudo_header_value(&HeaderOrPseudo::Authority, req) {
        Some(v) => out.push((HeaderOrPseudo::Authority, v)),
        None => {},
    }
    let ghost l3 = out@.map_values(|p: (HeaderOrPseudo, String)| pseudo_pair_view(p));
    assert(l3 =~= l2 + match pseudo_value(HeaderOrPseudoView::Authority, req@) {
        Some(a) => seq![(HeaderOrPseudoView::Authority, a)],
        None => empty,
    });
    match get_pseudo_header_value(&HeaderOrPseudo::Path, req) {
        Some(v) => out.push((HeaderOrPseudo::Path, v)),
        None => {},
    }
    let ghost l4 = out@.map_values(|p: (HeaderOrPseudo, String)| pseudo_pair_view(p));
    assert(l4 =~= l3 + seq![(HeaderOrPseudoView::Path, path_text(req@.uri))]);
    assert(l4 =~= request_pseudo_list(req@));
    out
}

/// A header as the processor receives it: its name, its bytes, and their
/// text (ill-formed UTF-8 replaced).
pub open spec fn service_header(name: Seq<char>, raw: Seq<u8>) -> (Seq<char>, Seq<char>, Seq<u8>) {
    (name, utf8_lossy(raw), raw)
}

pub open spec fn header_value_view(h: HeaderValue) -> (Seq<char>, Seq<char>, Seq<u8>) {
    (h.key@, h.value@, h.raw_value@)
}

/// The headers that the processor receives: each header with each value,
/// then the additional ones, in order.
pub open spec fn service_headers(
    names: Seq<Seq<char>>,
    headers: Map<Seq<char>, Seq<Seq<u8>>>,
    additional: Seq<(Seq<char>, Seq<char>)>,
) -> Seq<(Seq<char>, Seq<char>, Seq<u8>)> {
    pairs_of(names, headers).map_values(|p: (Seq<char>, Seq<u8>)| service_header(p.0, p.1)) + additional.map_values(
        |p: (Seq<char>, Seq<char>)| (p.0, p.1, encode_utf8(p.1)),
    )
}

/// The headers that the processor receives for a map of headers and
/// additional name-value pairs.
pub fn to_header_map_extra(headers: &HeaderMap, additional: &Vec<(String, String)>) -> (r: Vec<HeaderValue>)
    ensures
        r@.map_values(|h: HeaderValue| header_value_view(h)) == service_headers(
            headers.names(),
            headers@,
            additional@.map_values(|p: (String, String)| (p.0@, p.1@)),
        ),
{
    let pairs = headers.pairs();
    let ghost pv = pairs@.map_values(|p: (String, Vec<u8>)| pair_view(p));
    let ghost first = pv.map_values(|p: (Seq<char>, Seq<u8>)| service_header(p.0, p.1));
    let mut out: Vec<HeaderValue> = Vec::new();
    let mut i: usize = 0;
    while i < pairs.len()
        invariant
            i <= pairs@.len(),
            pv == pairs@.map_values(|p: (String, Vec<u8>)| pair_view(p)),
            first == pv.map_values(|p: (Seq<char>, Seq<u8>)| service_header(p.0, p.1)),
            out@.map_values(|h: HeaderValue| header_value_view(h)) =~= first.subrange(0, i as int),
        decreases pairs@.len() - i,
    {
        let (name, raw) = (&pairs[i].0, &pairs[i].1);
        let value = lossy_string(raw.as_slice());
        let hv = HeaderValue { key: name.clone(), value, raw_value: raw.clone() };
        let ghost prev = out@.map_values(|h: HeaderValue| header_value_view(h));
        out.push(hv);
        assert(out@.map_values(|h: HeaderValue| header_value_view(h)) =~= prev.push(first[i as int]));
        assert(first.subrange(0, i + 1) =~= first.subrange(0, i as int).push(first[i as int]));
        i += 1;
    }
    assert(first.subrange(0, i as int) =~= first);
    let ghost av = additional@.map_values(|p: (String, String)| (p.0@, p.1@));
    let ghost second = av.map_values(|p: (Seq<char>, Seq<char>)| (p.0, p.1, encode_utf8(p.1)));
    let mut j: usize = 0;
    while j < additional.len()
        invariant
            j <= additional@.len(),
            av == additional@.map_values(|p: (String, String)| (p.0@, p.1@)),
            second == av.map_values(|p: (Seq<char>, Seq<char>)| (p.0, p.1, encode_utf8(p.1))),
            out@.map_values(|h: HeaderValue| header_value_view(h)) =~= first + second.subrange(0, j as int),
        decreases additional@.len() - j,
    {
        let (k, v) = (&additional[j].0, &additional[j].1);
        let raw = vstd::slice::slice_to_vec(v.as_str().as_bytes());
        let value = lossy_string(v.as_str().as_bytes());
        proof {
            vstd::utf8::encode_utf8_valid_utf8(v@);
            vstd::utf8::encode_utf8_decode_utf8(v@);
        }
        let hv = HeaderValue { key: k.clone(), value, raw_value: raw };
        let ghost prev = out@.map_values(|h: HeaderValue| header_value_view(h));
        out.push(hv);
        assert(out@.map_values(|h: HeaderValue| header_value_view(h)) =~= prev.push(second[j as int]));
        assert(second.subrange(0, j + 1) =~= second.subrange(0, j as int).push(second[j as int]));
        j += 1;
    }
    assert(second.subrange(0, j as int) =~= second);
    out
}

/// The headers that the processor receives for a map of headers alone.
pub fn to_header_map(headers: &HeaderMap) -> (r: Vec<HeaderValue>)
    ensures
        r@.map_values(|h: HeaderValue| header_value_view(h)) == service_headers(headers.names(), headers@, Seq::empty()),
{
    let none: Vec<(String, String)> = Vec::new();
    assert(none@.map_values(|p: (String, String)| (p.0@, p.1@)) =~= Seq::<(Seq<char>, Seq<char>)>::empty());
    to_header_map_extra(headers, &none)
}

/// The pseudo-headers that the processor receives for a request, by name
/// and value: those of `request_pseudo_list`, and `:scheme` set to `http`
/// (last) when the request has no scheme.
pub open spec fn request_pseudo_pairs(req: RequestView) -> Seq<(Seq<char>, Seq<char>)> {
    let l = request_pseudo_list(req);
    let l2 = if req.uri.scheme is Some {
        l
    } else {
        l.push((HeaderOrPseudoView::Scheme, "http"@))
    };
    l2.map_values(|p: (HeaderOrPseudoView, Seq<char>)| (header_or_pseudo_text(p.0), p.1))
}

/// The headers that the processor receives for a request: its headers,
/// then its pseudo-headers.
pub fn req_to_header_map(req: &RequestHead) -> (r: Vec<HeaderValue>)
    ensures
        r@.map_values(|h: HeaderValue| header_value_view(h)) == service_headers(
            req.headers.names(),
            req.headers@,
            request_pseudo_pairs(req@),
        ),
{
    let mut pseudo = get_request_pseudo_headers(req);
    let ghost l = pseudo@.map_values(|p: (HeaderOrPseudo, String)| pseudo_pair_view(p));
    if req.scheme.is_none() {
        proof {
            reveal_strlit("http");
        }
        pseudo.push((HeaderOrPseudo::Scheme, "http".to_owned()));
        assert(pseudo@.map_values(|p: (HeaderOrPseudo, String)| pseudo_pair_view(p)) =~= l.push(
            (HeaderOrPseudoView::Scheme, "http"@),
        ));
    }
    let ghost l2 = pseudo@.map_values(|p: (HeaderOrPseudo, String)| pseudo_pair_view(p));
    let mut pairs: Vec<(String, String)> = Vec::new();
    let mut i: usize = 0;
    while i < pseudo.len()
        invariant
            i <= pseudo@.len(),
            l2 == pseudo@.map_values(|p: (HeaderOrPseudo, String)| pseudo_pair_view(p)),
            pairs@.map_values(|p: (String, String)| (p.0@, p.1@)) =~= l2.subrange(0, i as int).map_values(
                |p: (HeaderOrPseudoView, Seq<char>)| (header_or_pseudo_text(p.0), p.1),
            ),
        decreases pseudo@.len() - i,
    {
        let name = pseudo[i].0.as_text();
        let ghost prev = pairs@.map_values(|p: (String, String)| (p.0@, p.1@));
        pairs.push((name, pseudo[i].1.clone()));
        assert(pairs@.map_values(|p: (String, String)| (p.0@, p.1@)) =~= prev.push(
            (header_or_pseudo_text(l2[i as int].0), l2[i as int].1),
        ));
        assert(l2.subrange(0, i + 1) =~= l2.subrange(0, i as int).push(l2[i as int]));
        i += 1;
    }
    assert(l2.subrange(0, i as int) =~= l2);
    assert(pairs@.map_values(|p: (String, String)| (p.0@, p.1@)) =~= request_pseudo_pairs(req@));
    to_header_map_extra(&req.headers, &pairs)
}

/// The headers that the processor receives for a response: its headers,
/// then `:status` with the status code.
pub fn resp_to_header_map(resp: &ResponseHead) -> (r: Vec<HeaderValue>)
    requires
        is_status_code(resp.status),
    ensures
        r@.map_values(|h: HeaderValue| header_value_view(h)) == service_headers(
            resp.headers.names(),
            resp.headers@,
            seq![(":status"@, decimal_text(resp.status as nat))],
        ),
{
    proof {
        reveal_strlit(":status");
    }
    let mut code = String::new();
    push_decimal(&mut code, resp.status as u64);
    let mut pairs: Vec<(String, String)> = Vec::new();
    pairs.push((":status".to_owned(), code));
    assert(pairs@.map_values(|p: (String, String)| (p.0@, p.1@)) =~= seq![(":status"@, decimal_text(resp.status as nat))]);
    to_header_map_extra(&resp.headers, &pairs)
}


/// The task that mutates a request replies at most once: a reply comes
/// only while one is owed, and none is owed afterwards; a body that was
/// closed stays closed.
pub proof fn law_request_task_replies_once(
    t: (Option<RequestView>, bool, bool, bool, FailureMode),
    event: TaskEvent,
    after: (Option<RequestView>, bool, bool),
    out: (Option<RequestReplyView>, Option<Seq<u8>>, bool, bool, bool),
)
    requires
        request_step_ok(t, event, after, out),
    ensures
        out.0 is Some ==> t.1 && !after.1,
        !t.1 ==> !after.1,
        !t.2 ==> !after.2,
        out.3 ==> out.1 is None,
{
}

/// The task that mutates a response replies at most once, and a body that
/// was closed stays closed.
pub proof fn law_response_task_replies_once(
    t: (Option<ResponseView>, bool, bool, bool),
    event: TaskEvent,
    after: (Option<ResponseView>, bool, bool),
    out: (Option<ResponseReplyView>, Option<Seq<u8>>, bool, bool),
)
    requires
        response_step_ok(t, event, after, out),
    ensures
        out.0 is Some ==> t.1 && !after.1,
        !t.1 ==> !after.1,
        !t.2 ==> !after.2,
        out.3 ==> out.1 is None,
{
}

} // verus!
