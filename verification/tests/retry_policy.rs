use orion_lib::retry_policy::{EventError, ResponseInfo, RetryCondition, RetryOn, RetryPolicy};

#[test]
fn retry_on() {
    assert_eq!("5xx".parse::<RetryOn>().unwrap(), RetryOn::Err5xx);
    assert_eq!("gateway-error".parse::<RetryOn>().unwrap(), RetryOn::GatewayError);
    assert_eq!("reset".parse::<RetryOn>().unwrap(), RetryOn::Reset);
    assert_eq!("connect-failure".parse::<RetryOn>().unwrap(), RetryOn::ConnectFailure);
    assert_eq!("envoy-ratelimited".parse::<RetryOn>().unwrap(), RetryOn::EnvoyRateLimited);
    assert_eq!("retriable-4xx".parse::<RetryOn>().unwrap(), RetryOn::Retriable4xx);
    assert_eq!("refused-stream".parse::<RetryOn>().unwrap(), RetryOn::RefusedStream);
    assert_eq!("retriable-status-codes".parse::<RetryOn>().unwrap(), RetryOn::RetriableStatusCodes);
    assert_eq!("retriable-headers".parse::<RetryOn>().unwrap(), RetryOn::RetriableHeaders);
    assert!("unknown".parse::<RetryOn>().is_err());
}

fn policy(retry_on: Vec<RetryOn>, codes: Vec<u16>) -> RetryPolicy {
    RetryPolicy { retry_on, retriable_status_codes: codes }
}

fn response(status: u16, headers: &[&str]) -> ResponseInfo {
    ResponseInfo {
        status,
        header_names: headers.iter().map(|h| h.to_string()).collect(),
        matches_retriable_headers: false,
    }
}

#[test]
fn per_try_timeout_is_always_retried() {
    let p = policy(vec![], vec![]);
    assert!(RetryCondition::Error(EventError::PerTryTimeout).should_retry(&p));
}

#[test]
fn empty_policy_retries_nothing_else() {
    let p = policy(vec![], vec![]);
    assert!(!RetryCondition::Error(EventError::Reset).should_retry(&p));
    let r = response(503, &[]);
    assert!(!RetryCondition::Response(&r).should_retry(&p));
}

#[test]
fn five_xx_covers_server_errors_only() {
    let p = policy(vec![RetryOn::Err5xx], vec![]);
    let r500 = response(500, &[]);
    let r404 = response(404, &[]);
    assert!(RetryCondition::Response(&r500).should_retry(&p));
    assert!(!RetryCondition::Response(&r404).should_retry(&p));
}

#[test]
fn gateway_error_covers_502_to_504() {
    let p = policy(vec![RetryOn::GatewayError], vec![]);
    for (status, expected) in [(501, false), (502, true), (503, true), (504, true), (505, false)] {
        let r = response(status, &[]);
        assert_eq!(RetryCondition::Response(&r).should_retry(&p), expected);
    }
}

#[test]
fn rate_limited_header_triggers_retry() {
    let p = policy(vec![RetryOn::EnvoyRateLimited], vec![]);
    let limited = response(429, &["x-envoy-ratelimited"]);
    let orion = response(429, &["x-orion-ratelimited"]);
    let plain = response(429, &["content-type"]);
    assert!(RetryCondition::Response(&limited).should_retry(&p));
    assert!(RetryCondition::Response(&orion).should_retry(&p));
    assert!(!RetryCondition::Response(&plain).should_retry(&p));
}

#[test]
fn retriable_4xx_is_conflict() {
    let p = policy(vec![RetryOn::Retriable4xx], vec![]);
    let r409 = response(409, &[]);
    let r400 = response(400, &[]);
    assert!(RetryCondition::Response(&r409).should_retry(&p));
    assert!(!RetryCondition::Response(&r400).should_retry(&p));
}

#[test]
fn retriable_status_codes_use_the_list() {
    let p = policy(vec![RetryOn::RetriableStatusCodes], vec![418, 503]);
    let r418 = response(418, &[]);
    let r500 = response(500, &[]);
    assert!(RetryCondition::Response(&r418).should_retry(&p));
    assert!(!RetryCondition::Response(&r500).should_retry(&p));
}

#[test]
fn connect_failure_covers_io_errors_and_connect_timeouts() {
    let p = policy(vec![RetryOn::ConnectFailure], vec![]);
    assert!(RetryCondition::Error(EventError::IoError).should_retry(&p));
    assert!(RetryCondition::Error(EventError::ConnectTimeout).should_retry(&p));
    assert!(!RetryCondition::Error(EventError::RouteTimeout).should_retry(&p));
}

#[test]
fn reset_and_refused_stream() {
    let p = policy(vec![RetryOn::Reset, RetryOn::RefusedStream], vec![]);
    assert!(RetryCondition::Error(EventError::Reset).should_retry(&p));
    assert!(RetryCondition::Error(EventError::RefusedStream).should_retry(&p));
    assert!(!RetryCondition::Error(EventError::Other).should_retry(&p));
}

#[test]
fn condition_classification() {
    let r = response(200, &[]);
    assert!(RetryCondition::Error(EventError::Other).is_error());
    assert!(!RetryCondition::Response(&r).is_error());
    assert!(RetryCondition::Error(EventError::RouteTimeout).is_timeout());
    assert!(!RetryCondition::Error(EventError::PerTryTimeout).is_timeout());
    assert_eq!(RetryCondition::Response(&r).inner_response().unwrap().status, 200);
}

#[test]
fn http3_name_parses() {
    assert_eq!(RetryOn::from_name("http3-post-connect-failure"), Some(RetryOn::Http3PostConnectFailure));
}
