//! What an HTTP filter decides for a request or a response.

use vstd::prelude::*;
use crate::http_parts::{ResponseHead, ResponseView};

verus! {

/// The flag that an access log records for a synthetic response.
#[derive(Debug, Clone, Copy, PartialEq, Eq, Structural)]
pub enum ResponseFlag {
    UpstreamConnectionFailure,
    UpstreamRequestTimeout,
    NoFilterConfigFound,
    UnauthorizedExternalService,
    RbacAccessDenied,
    NoRouteFound,
}

/// A response that the proxy makes up: its status, an optional message for
/// its body, and the flag that explains it.
#[derive(Debug, Clone, PartialEq)]
pub struct SyntheticResponse {
    pub status: u16,
    pub message: Option<String>,
    pub flag: ResponseFlag,
}

/// A response sent in place of the upstream's.
#[derive(Debug)]
pub enum DirectResponse {
    /// Made up by the proxy.
    Synthetic(SyntheticResponse),
    /// Built from its head and its body.
    Built(ResponseHead, Vec<u8>),
}

/// What a direct response holds.
pub enum DirectResponseView {
    Synthetic(u16, Option<Seq<char>>, ResponseFlag),
    Built(ResponseView, Seq<u8>),
}

impl View for DirectResponse {
    type V = DirectResponseView;

    open spec fn view(&self) -> DirectResponseView {
        match self {
            DirectResponse::Synthetic(s) => DirectResponseView::Synthetic(
                s.status,
                crate::format_string::opt_chars(s.message),
                s.flag,
            ),
            DirectResponse::Built(h, b) => DirectResponseView::Built(h@, b@),
        }
    }
}

/// What a filter decides.
#[derive(Debug)]
pub enum FilterDecision {
    /// The request or response goes on.
    Continue,
    /// The route must be chosen again.
    Reroute,
    /// This response is sent at once.
    DirectResponse(DirectResponse),
}

/// What a decision holds.
pub enum DecisionView {
    Continue,
    Reroute,
    DirectResponse(DirectResponseView),
}

impl View for FilterDecision {
    type V = DecisionView;

    open spec fn view(&self) -> DecisionView {
        match self {
            FilterDecision::Continue => DecisionView::Continue,
            FilterDecision::Reroute => DecisionView::Reroute,
            FilterDecision::DirectResponse(d) => DecisionView::DirectResponse(d@),
        }
    }
}

/// The decision of the RBAC rules on a request, given whether they permit
/// it: it goes on, or it is answered `403 Forbidden` with the message
/// `RBAC: access denied`.
pub fn apply_authorization_rules(permitted: bool) -> (r: FilterDecision)
    ensures
        permitted ==> r@ == DecisionView::Continue,
        !permitted ==> r@ == DecisionView::DirectResponse(
            DirectResponseView::Synthetic(403, Some("RBAC: access denied"@), ResponseFlag::RbacAccessDenied),
        ),
{
    if permitted {
        FilterDecision::Continue
    } else {
        let message = "RBAC: access denied";
        FilterDecision::DirectResponse(
            DirectResponse::Synthetic(
                SyntheticResponse { status: 403, message: Some(message.to_owned()), flag: ResponseFlag::RbacAccessDenied },
            ),
        )
    }
}

} // verus!
