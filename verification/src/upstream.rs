//! What a route does to a request before it goes upstream: the URI
//! rewrite and the `Host` header, the websocket decision, and the answer
//! to an upgrade request.

use vstd::prelude::*;
use crate::format_string::opt_chars;
use crate::headers::is_header_value;
use crate::http_parts::{uri_parts_of, uri_parts_valid, RequestHead, ResponseHead, UriPartsView};
use crate::headers::HeaderMap;
use crate::headers::valid_header_value;
use vstd::utf8::encode_utf8;

verus! {

/// Why the URI of a request cannot be rewritten.
#[derive(Debug, Clone, Copy, PartialEq, Eq, Structural)]
pub enum UriUpdateError {
    /// The new parts do not make a URI.
    InvalidUri,
    /// The new authority is not a valid `Host` header value.
    InvalidHostHeader,
}

/// The first of two optional texts that is present.
pub open spec fn either(a: Option<Seq<char>>, b: Option<Seq<char>>) -> Option<Seq<char>> {
    match a {
        Some(x) => Some(x),
        None => b,
    }
}

/// The URI parts after the replacements.
pub open spec fn replaced_parts(old: UriPartsView, path: Option<Seq<char>>, authority: Option<Seq<char>>) -> UriPartsView {
    UriPartsView { scheme: old.scheme, authority: either(authority, old.authority), path_and_query: either(path, old.path_and_query) }
}

/// The outcome of rewriting a request's URI: none without a replacement;
/// else an invalid URI or an invalid `Host` value is an error.
pub open spec fn uri_update_outcome(old: UriPartsView, path: Option<Seq<char>>, authority: Option<Seq<char>>) -> Result<(), UriUpdateError> {
    if path is None && authority is None {
        Ok(())
    } else if !uri_parts_valid(replaced_parts(old, path, authority)) {
        Err(UriUpdateError::InvalidUri)
    } else {
        match authority {
            Some(a) => if is_header_value(encode_utf8(a)) {
                Ok(())
            } else {
                Err(UriUpdateError::InvalidHostHeader)
            },
            None => Ok(()),
        }
    }
}

fn or_string(a: Option<String>, b: Option<String>) -> (r: Option<String>)
    ensures
        opt_chars(r) == either(opt_chars(a), opt_chars(b)),
{
    match a {
        Some(x) => Some(x),
        None => b,
    }
}

fn clone_opt_text(o: &Option<String>) -> (r: Option<String>)
    ensures
        opt_chars(r) == opt_chars(*o),
{
    match o {
        Some(s) => Some(s.clone()),
        None => None,
    }
}

/// Rewrites the URI of a request with the new path and authority, where
/// given, and sets the `Host` header to the new authority.
pub fn update_uri(head: &mut RequestHead, path_replacement: Option<String>, authority_replacement: Option<String>) -> (r: Result<
    (),
    UriUpdateError,
>)
    ensures
        r == uri_update_outcome(uri_parts_of(*old(head)), opt_chars(path_replacement), opt_chars(authority_replacement)),
        r is Ok ==> final(head)@.method == old(head)@.method,
        r is Ok ==> final(head)@.uri == (if path_replacement is None && authority_replacement is None {
            old(head)@.uri
        } else {
            replaced_parts(old(head)@.uri, opt_chars(path_replacement), opt_chars(authority_replacement))
        }),
        r is Ok ==> final(head)@.headers == match authority_replacement {
            Some(a) => old(head)@.headers.insert("host"@, seq![encode_utf8(a@)]),
            None => old(head)@.headers,
        },
        r is Err ==> *final(head) == *old(head),
{
    if path_replacement.is_none() && authority_replacement.is_none() {
        return Ok(());
    }
    let host = clone_opt_text(&authority_replacement);
    let authority = or_string(authority_replacement, clone_opt_text(&head.authority));
    let path = or_string(path_replacement, clone_opt_text(&head.path_and_query));
    let has_scheme = head.scheme.is_some();
    let valid = if has_scheme {
        authority.is_some() && path.is_some()
    } else {
        !(authority.is_some() && path.is_some())
    };
    if !valid {
        return Err(UriUpdateError::InvalidUri);
    }
    match host {
        Some(a) => {
            let bytes = vstd::slice::slice_to_vec(a.as_str().as_bytes());
            if !valid_header_value(bytes.as_slice()) {
                return Err(UriUpdateError::InvalidHostHeader);
            }
            head.authority = authority;
            head.path_and_query = path;
            head.headers.insert("host", bytes);
        },
        None => {
            head.authority = authority;
            head.path_and_query = path;
        },
    }
    Ok(())
}

/// What happens to a request that may ask for a websocket upgrade.
#[derive(Debug, Clone, Copy, PartialEq, Eq, Structural)]
pub enum WebsocketStep {
    /// The upgrade request is malformed: the answer is 400.
    BadRequest,
    /// The request is upgraded to a websocket.
    Upgrade,
    /// The request is forwarded as it is.
    Forward,
}

/// Whether a request is upgraded to a websocket: the route's setting, if
/// any, else the connection manager's default, enables websockets; then
/// the check of the upgrade headers decides (an error is a bad request).
pub fn websocket_step(route_setting: Option<bool>, enabled_by_default: bool, upgrade_check: Result<bool, ()>) -> (r: WebsocketStep)
    ensures
        r == (if !(match route_setting {
            Some(b) => b,
            None => enabled_by_default,
        }) {
            WebsocketStep::Forward
        } else {
            match upgrade_check {
                Err(_) => WebsocketStep::BadRequest,
                Ok(true) => WebsocketStep::Upgrade,
                Ok(false) => WebsocketStep::Forward,
            }
        }),
{
    let enabled = match route_setting {
        Some(b) => b,
        None => enabled_by_default,
    };
    if !enabled {
        return WebsocketStep::Forward;
    }
    match upgrade_check {
        Err(_) => WebsocketStep::BadRequest,
        Ok(true) => WebsocketStep::Upgrade,
        Ok(false) => WebsocketStep::Forward,
    }
}

/// The kind of upgrade a route handles.
#[derive(Debug, Clone, Copy, PartialEq, Eq, Structural)]
pub enum UpgradeKind {
    Websocket,
    Connect,
}

/// How an upgrade request is answered.
#[derive(Debug, Clone, Copy, PartialEq, Eq, Structural)]
pub enum UpgradeAnswer {
    /// The upstream switched protocols: its response is passed on and the
    /// two connections are joined.
    Switch,
    /// A synthetic response with this status.
    Status(u16),
}

/// Switching Protocols.
pub const SWITCHING_PROTOCOLS: u16 = 101;

/// The answer to an upgrade request, given whether the request is
/// HTTP/1.1 and what the upstream answered (its status, or a failure): a
/// websocket over HTTP/1.1 is switched when the upstream switches, refused
/// (405) when it answers otherwise, and a bad gateway (502) when it fails;
/// a websocket over another version is a bad request (400); CONNECT needs
/// an upgrade (426).
pub fn upgrade_answer(kind: UpgradeKind, http11: bool, upstream: Result<u16, ()>) -> (r: UpgradeAnswer)
    ensures
        r == match kind {
            UpgradeKind::Websocket => if http11 {
                match upstream {
                    Ok(s) => if s == SWITCHING_PROTOCOLS {
                        UpgradeAnswer::Switch
                    } else {
                        UpgradeAnswer::Status(405)
                    },
                    Err(_) => UpgradeAnswer::Status(502),
                }
            } else {
                UpgradeAnswer::Status(400)
            },
            UpgradeKind::Connect => UpgradeAnswer::Status(426),
        },
{
    match kind {
        UpgradeKind::Websocket => {
            if http11 {
                match upstream {
                    Ok(s) => if s == SWITCHING_PROTOCOLS {
                        UpgradeAnswer::Switch
                    } else {
                        UpgradeAnswer::Status(405)
                    },
                    Err(_) => UpgradeAnswer::Status(502),
                }
            } else {
                UpgradeAnswer::Status(400)
            }
        },
        UpgradeKind::Connect => UpgradeAnswer::Status(426),
    }
}

/// The response of a route that answers by itself: its configured status,
/// no headers, and its configured body, empty when it has none.
pub fn direct_route_response(status: u16, body: Option<Vec<u8>>) -> (r: (ResponseHead, Vec<u8>))
    ensures
        r.0@.status == status,
        r.0@.headers == Map::<Seq<char>, Seq<Seq<u8>>>::empty(),
        r.1@ == match body {
            Some(b) => b@,
            None => Seq::<u8>::empty(),
        },
{
    let content = match body {
        Some(b) => b,
        None => Vec::new(),
    };
    (ResponseHead { status, headers: HeaderMap::new() }, content)
}

} // verus!
