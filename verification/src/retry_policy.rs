//! Retry decisions for upstream requests.
//!
//! A request attempt ends either in an error event or in a response; a retry
//! policy lists the conditions (`retry_on`) under which it is retried.

use vstd::prelude::*;

verus! {

/// Header an upstream sets on a response refused by Envoy's rate limiter.
pub const X_ENVOY_RATELIMITED: &'static str = "x-envoy-ratelimited";

/// Header an upstream sets on a response refused by Orion's rate limiter.
pub const X_ORION_RATELIMITED: &'static str = "x-orion-ratelimited";

/// An error event that ended a request attempt, as the retry logic tells them apart.
#[derive(Debug, Clone, Copy, PartialEq, Eq, Structural)]
pub enum EventError {
    /// The attempt exceeded its per-try timeout.
    PerTryTimeout,
    /// Connecting to the upstream timed out.
    ConnectTimeout,
    /// The route timeout expired.
    RouteTimeout,
    /// The stream was reset.
    Reset,
    /// An I/O error occurred while connecting or talking to the upstream.
    IoError,
    /// The upstream refused the stream.
    RefusedStream,
    /// An HTTP/3 connection failed after it was established.
    Http3PostConnectFailure,
    /// Any other error event.
    Other,
}

/// A condition under which a request is retried.
#[derive(Debug, Clone, Copy, PartialEq, Eq, Structural)]
pub enum RetryOn {
    /// Any 5xx response.
    Err5xx,
    /// A 502, 503 or 504 response.
    GatewayError,
    /// A response that carries a rate-limited header.
    EnvoyRateLimited,
    /// A 409 response.
    Retriable4xx,
    /// A response whose status is among the policy's retriable status codes.
    RetriableStatusCodes,
    /// A response that matches the policy's retriable headers.
    RetriableHeaders,
    /// A reset stream.
    Reset,
    /// A connection failure (I/O error or connect timeout).
    ConnectFailure,
    /// A refused stream.
    RefusedStream,
    /// An HTTP/3 post-connect failure.
    Http3PostConnectFailure,
}

/// The retry condition that a `retry_on` name stands for, as Envoy names
/// them.
pub open spec fn retry_on_named(name: Seq<char>) -> Option<RetryOn> {
    if name == "5xx"@ {
        Some(RetryOn::Err5xx)
    } else if name == "gateway-error"@ {
        Some(RetryOn::GatewayError)
    } else if name == "reset"@ {
        Some(RetryOn::Reset)
    } else if name == "connect-failure"@ {
        Some(RetryOn::ConnectFailure)
    } else if name == "envoy-ratelimited"@ {
        Some(RetryOn::EnvoyRateLimited)
    } else if name == "retriable-4xx"@ {
        Some(RetryOn::Retriable4xx)
    } else if name == "refused-stream"@ {
        Some(RetryOn::RefusedStream)
    } else if name == "retriable-status-codes"@ {
        Some(RetryOn::RetriableStatusCodes)
    } else if name == "retriable-headers"@ {
        Some(RetryOn::RetriableHeaders)
    } else if name == "http3-post-connect-failure"@ {
        Some(RetryOn::Http3PostConnectFailure)
    } else {
        None
    }
}

/// A `retry_on` name that names no condition.
#[derive(Debug, Clone, PartialEq, Eq)]
pub struct UnknownRetryOn {
    pub name: String,
}

impl RetryOn {
    /// The condition a `retry_on` name stands for, if any.
    pub fn from_name(name: &str) -> (r: Option<RetryOn>)
        ensures
            r == retry_on_named(name@),
    {
        let t = name.to_owned();
        if t == "5xx".to_owned() {
            Some(RetryOn::Err5xx)
        } else if t == "gateway-error".to_owned() {
            Some(RetryOn::GatewayError)
        } else if t == "reset".to_owned() {
            Some(RetryOn::Reset)
        } else if t == "connect-failure".to_owned() {
            Some(RetryOn::ConnectFailure)
        } else if t == "envoy-ratelimited".to_owned() {
            Some(RetryOn::EnvoyRateLimited)
        } else if t == "retriable-4xx".to_owned() {
            Some(RetryOn::Retriable4xx)
        } else if t == "refused-stream".to_owned() {
            Some(RetryOn::RefusedStream)
        } else if t == "retriable-status-codes".to_owned() {
            Some(RetryOn::RetriableStatusCodes)
        } else if t == "retriable-headers".to_owned() {
            Some(RetryOn::RetriableHeaders)
        } else if t == "http3-post-connect-failure".to_owned() {
            Some(RetryOn::Http3PostConnectFailure)
        } else {
            None
        }
    }
}

impl std::str::FromStr for RetryOn {
    type Err = UnknownRetryOn;

    fn from_str(s: &str) -> (r: Result<RetryOn, UnknownRetryOn>)
        ensures
            match retry_on_named(s@) {
                Some(c) => r == Ok::<RetryOn, UnknownRetryOn>(c),
                None => r matches Err(e) && e.name@ == s@,
            },
    {
        match RetryOn::from_name(s) {
            Some(r) => Ok(r),
            None => Err(UnknownRetryOn { name: s.to_owned() }),
        }
    }
}

/// What the retry decision reads of a response: its status code, the names of
/// its headers, and whether it matches the policy's retriable header matchers.
#[derive(Debug, Clone)]
pub struct ResponseInfo {
    pub status: u16,
    pub header_names: Vec<String>,
    pub matches_retriable_headers: bool,
}

/// A retry policy: the conditions that trigger a retry, in order, and the
/// status codes that `RetriableStatusCodes` accepts.
#[derive(Debug, Clone)]
pub struct RetryPolicy {
    pub retry_on: Vec<RetryOn>,
    pub retriable_status_codes: Vec<u16>,
}

/// How a request attempt ended.
#[derive(Debug)]
pub enum RetryCondition<'a> {
    Error(EventError),
    Response(&'a ResponseInfo),
}

/// Whether a response carries one of the rate-limited headers.
pub open spec fn is_rate_limited(header_names: Seq<String>) -> bool {
    exists|i: int|
        0 <= i < header_names.len() && (#[trigger] header_names[i]@ == X_ENVOY_RATELIMITED@ || header_names[i]@
            == X_ORION_RATELIMITED@)
}

/// Whether the error event is one of those in `errors`.
pub open spec fn error_is(c: RetryCondition, e: EventError) -> bool {
    c matches RetryCondition::Error(x) && x == e
}

/// What the policy entries from position `i` on decide: `Some(b)` when an
/// entry decides, `None` when none does. Entries are examined in order; the
/// first that holds decides `true`, except that `RetriableStatusCodes` and
/// `RetriableHeaders` decide (either way) as soon as there is a response.
pub open spec fn retry_decision_from(policy: Seq<RetryOn>, codes: Seq<u16>, c: RetryCondition, i: int) -> bool
    decreases policy.len() - i,
{
    if i < 0 || i >= policy.len() {
        false
    } else {
        let rest = retry_decision_from(policy, codes, c, i + 1);
        match policy[i] {
            RetryOn::Err5xx => match c {
                RetryCondition::Response(r) => if 500 <= r.status <= 599 {
                    true
                } else {
                    rest
                },
                _ => rest,
            },
            RetryOn::GatewayError => match c {
                RetryCondition::Response(r) => if 502 <= r.status <= 504 {
                    true
                } else {
                    rest
                },
                _ => rest,
            },
            RetryOn::EnvoyRateLimited => match c {
                RetryCondition::Response(r) => if is_rate_limited(r.header_names@) {
                    true
                } else {
                    rest
                },
                _ => rest,
            },
            RetryOn::Retriable4xx => match c {
                RetryCondition::Response(r) => if r.status == 409 {
                    true
                } else {
                    rest
                },
                _ => rest,
            },
            RetryOn::RetriableStatusCodes => match c {
                RetryCondition::Response(r) => codes.contains(r.status),
                _ => rest,
            },
            RetryOn::RetriableHeaders => match c {
                RetryCondition::Response(r) => r.matches_retriable_headers,
                _ => rest,
            },
            RetryOn::Reset => if error_is(c, EventError::Reset) {
                true
            } else {
                rest
            },
            RetryOn::ConnectFailure => if error_is(c, EventError::IoError) || error_is(c, EventError::ConnectTimeout) {
                true
            } else {
                rest
            },
            RetryOn::RefusedStream => if error_is(c, EventError::RefusedStream) {
                true
            } else {
                rest
            },
            RetryOn::Http3PostConnectFailure => if error_is(c, EventError::Http3PostConnectFailure) {
                true
            } else {
                rest
            },
        }
    }
}

/// Whether a request that ended as `c` is retried under the policy: always
/// after a per-try timeout, otherwise as the policy entries decide.
pub open spec fn spec_should_retry(c: RetryCondition, policy: Seq<RetryOn>, codes: Seq<u16>) -> bool {
    if error_is(c, EventError::PerTryTimeout) {
        true
    } else {
        retry_decision_from(policy, codes, c, 0)
    }
}

fn has_rate_limited_header(header_names: &Vec<String>) -> (r: bool)
    ensures
        r == is_rate_limited(header_names@),
{
    let envoy = X_ENVOY_RATELIMITED.to_owned();
    let orion = X_ORION_RATELIMITED.to_owned();
    let mut i: usize = 0;
    while i < header_names.len()
        invariant
            i <= header_names@.len(),
            envoy@ == X_ENVOY_RATELIMITED@,
            orion@ == X_ORION_RATELIMITED@,
            forall|t: int|
                0 <= t < i ==> !(#[trigger] header_names@[t]@ == X_ENVOY_RATELIMITED@ || header_names@[t]@
                    == X_ORION_RATELIMITED@),
        decreases header_names@.len() - i,
    {
        if header_names[i] == envoy || header_names[i] == orion {
            return true;
        }
        i += 1;
    }
    false
}

fn contains_code(codes: &Vec<u16>, code: u16) -> (r: bool)
    ensures
        r == codes@.contains(code),
{
    let mut i: usize = 0;
    while i < codes.len()
        invariant
            i <= codes@.len(),
            forall|t: int| 0 <= t < i ==> codes@[t] != code,
        decreases codes@.len() - i,
    {
        if codes[i] == code {
            assert(codes@[i as int] == code);
            return true;
        }
        i += 1;
    }
    false
}

impl<'a> RetryCondition<'a> {
    /// The response, when the attempt ended in one.
    pub fn inner_response(&self) -> (r: Option<&'a ResponseInfo>)
        ensures
            match *self {
                RetryCondition::Response(resp) => r == Some(resp),
                RetryCondition::Error(_) => r is None,
            },
    {
        match self {
            RetryCondition::Response(resp) => Some(*resp),
            RetryCondition::Error(_) => None,
        }
    }

    /// Whether the attempt ended in an error event.
    pub fn is_error(&self) -> (r: bool)
        ensures
            r == (*self is Error),
    {
        match self {
            RetryCondition::Error(_) => true,
            RetryCondition::Response(_) => false,
        }
    }

    /// Whether the attempt ended by exceeding its per-try timeout.
    pub fn is_per_try_timeout(&self) -> (r: bool)
        ensures
            r == error_is(*self, EventError::PerTryTimeout),
    {
        match self {
            RetryCondition::Error(EventError::PerTryTimeout) => true,
            _ => false,
        }
    }

    /// Whether the attempt ended in a connect or route timeout.
    pub fn is_timeout(&self) -> (r: bool)
        ensures
            r == (error_is(*self, EventError::ConnectTimeout) || error_is(*self, EventError::RouteTimeout)),
    {
        match self {
            RetryCondition::Error(EventError::ConnectTimeout) | RetryCondition::Error(EventError::RouteTimeout) => true,
            _ => false,
        }
    }

    /// Whether the request is retried under the policy.
    pub fn should_retry(&self, retry_policy: &RetryPolicy) -> (r: bool)
        ensures
            r == spec_should_retry(*self, retry_policy.retry_on@, retry_policy.retriable_status_codes@),
    {
        if self.is_per_try_timeout() {
            return true;
        }
        let response = self.inner_response();
        let ghost policy = retry_policy.retry_on@;
        let ghost codes = retry_policy.retriable_status_codes@;
        let mut i: usize = 0;
        while i < retry_policy.retry_on.len()
            invariant
                i <= policy.len(),
                policy == retry_policy.retry_on@,
                codes == retry_policy.retriable_status_codes@,
                !error_is(*self, EventError::PerTryTimeout),
                match *self {
                    RetryCondition::Response(resp) => response == Some(resp),
                    RetryCondition::Error(_) => response is None,
                },
                retry_decision_from(policy, codes, *self, 0) == retry_decision_from(policy, codes, *self, i as int),
            decreases policy.len() - i,
        {
            match retry_policy.retry_on[i] {
                RetryOn::Err5xx => {
                    if let Some(resp) = response {
                        if 500 <= resp.status && resp.status <= 599 {
                            return true;
                        }
                    }
                },
                RetryOn::GatewayError => {
                    if let Some(resp) = response {
                        if 502 <= resp.status && resp.status <= 504 {
                            return true;
                        }
                    }
                },
                RetryOn::EnvoyRateLimited => {
                    if let Some(resp) = response {
                        if has_rate_limited_header(&resp.header_names) {
                            return true;
                        }
                    }
                },
                RetryOn::Retriable4xx => {
                    if let Some(resp) = response {
                        if resp.status == 409 {
                            return true;
                        }
                    }
                },
                RetryOn::RetriableStatusCodes => {
                    if let Some(resp) = response {
                        return contains_code(&retry_policy.retriable_status_codes, resp.status);
                    }
                },
                RetryOn::RetriableHeaders => {
                    if let Some(resp) = response {
                        return resp.matches_retriable_headers;
                    }
                },
                RetryOn::Reset => {
                    if let RetryCondition::Error(EventError::Reset) = self {
                        return true;
                    }
                },
                RetryOn::ConnectFailure => {
                    match self {
                        RetryCondition::Error(EventError::IoError) | RetryCondition::Error(
                            EventError::ConnectTimeout,
                        ) => {
                            return true;
                        },
                        _ => {},
                    }
                },
                RetryOn::RefusedStream => {
                    if let RetryCondition::Error(EventError::RefusedStream) = self {
                        return true;
                    }
                },
                RetryOn::Http3PostConnectFailure => {
                    if let RetryCondition::Error(EventError::Http3PostConnectFailure) = self {
                        return true;
                    }
                },
            }
            i += 1;
        }
        false
    }
}

proof fn lemma_5xx_decides<'a>(policy: Seq<RetryOn>, codes: Seq<u16>, resp: &'a ResponseInfo, i: int, j: int)
    requires
        0 <= j <= i < policy.len(),
        policy[i] == RetryOn::Err5xx,
        forall|k: int| 0 <= k < i ==> #[trigger] policy[k] != RetryOn::RetriableStatusCodes && policy[k] != RetryOn::RetriableHeaders,
        500 <= resp.status <= 599,
    ensures
        retry_decision_from(policy, codes, RetryCondition::Response(resp), j),
    decreases i - j,
{
    if j < i {
        lemma_5xx_decides(policy, codes, resp, i, j + 1);
    }
}

/// A response with a 5xx status is retried under a policy that lists
/// `5xx`, unless an entry before it decides on the response first
/// (`retriable-status-codes` or `retriable-headers`): every status from 500
/// to 599 counts.
pub proof fn law_5xx_responses_are_retried<'a>(policy: Seq<RetryOn>, codes: Seq<u16>, resp: &'a ResponseInfo, i: int)
    requires
        0 <= i < policy.len(),
        policy[i] == RetryOn::Err5xx,
        forall|k: int| 0 <= k < i ==> #[trigger] policy[k] != RetryOn::RetriableStatusCodes && policy[k] != RetryOn::RetriableHeaders,
        500 <= resp.status <= 599,
    ensures
        spec_should_retry(RetryCondition::Response(resp), policy, codes),
{
    lemma_5xx_decides(policy, codes, resp, i, 0);
}

proof fn lemma_entry_decides<'a>(policy: Seq<RetryOn>, codes: Seq<u16>, c: RetryCondition<'a>, i: int, j: int)
    requires
        0 <= j <= i < policy.len(),
        retry_decision_from(policy, codes, c, i),
        forall|k: int| 0 <= k < i ==> (c is Response ==> #[trigger] policy[k] != RetryOn::RetriableStatusCodes && policy[k]
            != RetryOn::RetriableHeaders),
    ensures
        retry_decision_from(policy, codes, c, j),
    decreases i - j,
{
    if j < i {
        lemma_entry_decides(policy, codes, c, i, j + 1);
    }
}

/// A request is retried when an entry of its policy matches how the attempt
/// ended, unless an entry before it already decided on the response
/// (`retriable-status-codes` or `retriable-headers`): `5xx` any status from
/// 500 to 599, `gateway-error` 502 to 504, `retriable-4xx` 409,
/// `retriable-status-codes` a listed status, `retriable-headers` a matching
/// response, `envoy-ratelimited` a rate-limited header, `reset` a reset
/// stream, `connect-failure` an I/O error or a connect timeout,
/// `refused-stream` a refused stream, `http3-post-connect-failure` that
/// failure.
pub proof fn law_matching_entry_retries<'a>(policy: Seq<RetryOn>, codes: Seq<u16>, c: RetryCondition<'a>, i: int)
    requires
        0 <= i < policy.len(),
        forall|k: int| 0 <= k < i ==> (c is Response ==> #[trigger] policy[k] != RetryOn::RetriableStatusCodes && policy[k]
            != RetryOn::RetriableHeaders),
        match policy[i] {
            RetryOn::Err5xx => c matches RetryCondition::Response(r) && 500 <= r.status <= 599,
            RetryOn::GatewayError => c matches RetryCondition::Response(r) && 502 <= r.status <= 504,
            RetryOn::Retriable4xx => c matches RetryCondition::Response(r) && r.status == 409,
            RetryOn::RetriableStatusCodes => c matches RetryCondition::Response(r) && codes.contains(r.status),
            RetryOn::RetriableHeaders => c matches RetryCondition::Response(r) && r.matches_retriable_headers,
            RetryOn::EnvoyRateLimited => c matches RetryCondition::Response(r) && exists|k: int|
                0 <= k < r.header_names@.len() && #[trigger] r.header_names@[k]@ == X_ENVOY_RATELIMITED@,
            RetryOn::Reset => c == RetryCondition::Error(EventError::Reset),
            RetryOn::ConnectFailure => c == RetryCondition::Error(EventError::IoError) || c == RetryCondition::Error(
                EventError::ConnectTimeout,
            ),
            RetryOn::RefusedStream => c == RetryCondition::Error(EventError::RefusedStream),
            RetryOn::Http3PostConnectFailure => c == RetryCondition::Error(EventError::Http3PostConnectFailure),
        },
    ensures
        spec_should_retry(c, policy, codes),
{
    lemma_entry_decides(policy, codes, c, i, 0);
}

/// A request whose attempt ran past its per-try timeout is always retried,
/// whatever the policy; with an empty policy nothing else is.
pub proof fn law_per_try_timeout_is_always_retried<'a>(policy: Seq<RetryOn>, codes: Seq<u16>, c: RetryCondition<'a>)
    ensures
        spec_should_retry(RetryCondition::Error(EventError::PerTryTimeout), policy, codes),
        policy.len() == 0 && c != RetryCondition::Error(EventError::PerTryTimeout) ==> !spec_should_retry(c, policy, codes),
{
}

} // verus!
