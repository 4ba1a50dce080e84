use orion_lib::hcm::{
    first_matching_route, select_virtual_host, trace_status_code, AlpnCodecs, CodecType, HcmError, HttpConnectionManagerBuilder,
    StatusClass, TransactionPhases,
};

#[test]
fn status_classes() {
    assert_eq!(trace_status_code(Some(204)).class, Some(StatusClass::Success));
    assert!(!trace_status_code(Some(404)).error_span);
    let t = trace_status_code(Some(503));
    assert_eq!(t.class, Some(StatusClass::ServerError));
    assert!(t.error_span);
    assert_eq!(trace_status_code(Some(99)).class, None);
    let failed = trace_status_code(None);
    assert_eq!(failed.class, Some(StatusClass::ServerError));
    assert!(failed.error_span);
}

#[test]
fn best_scoring_host_wins_later_on_ties() {
    let hosts = vec![vec![Some(3), None], vec![None], vec![Some(5)], vec![Some(5)]];
    assert_eq!(select_virtual_host(&hosts), Some(3));
    assert_eq!(select_virtual_host(&vec![vec![None], vec![]]), None);
}

#[test]
fn first_route_that_matches() {
    assert_eq!(first_matching_route(&vec![false, true, true]), Some(1));
    assert_eq!(first_matching_route(&vec![false]), None);
}

#[test]
fn alpn_codecs() {
    assert_eq!(AlpnCodecs::from_codec(CodecType::Auto), vec![AlpnCodecs::Http2, AlpnCodecs::Http1]);
    assert_eq!(AlpnCodecs::Http1.as_bytes(), b"http/1.1".to_vec());
    assert_eq!(AlpnCodecs::Http2.as_bytes(), b"h2".to_vec());
}

#[test]
fn builder_needs_a_listener_name() {
    let b = HttpConnectionManagerBuilder::new(());
    assert_eq!(b.build().err(), Some(HcmError::ListenerNameNotSet));
    let m = HttpConnectionManagerBuilder::new(()).with_listener_name("l").build().unwrap();
    assert_eq!(m.get_tracing_key(), ("l".to_string(), 0));
    let m = HttpConnectionManagerBuilder::new(()).with_listener_name("l").with_filter_chain_match_hash(9).build().unwrap();
    assert_eq!(m.filter_chain_match_hash, 9);
}

#[test]
fn transaction_completes_with_second_message() {
    let mut phases = TransactionPhases::new();
    assert!(!phases.message_complete().0);
    assert!(phases.message_complete().0);
}

/// The score of a domain for a request's host, as a longest-match rule
/// gives it: an exact name (port included) beats any wildcard, and a
/// `*.suffix` wildcard matches a longer name ending in `.suffix`, scoring
/// by the length of the suffix.
fn domain_score(domain: &str, host: &str) -> Option<u64> {
    if domain == host {
        Some(1_000 + domain.len() as u64)
    } else if let Some(suffix) = domain.strip_prefix('*') {
        if host.len() > suffix.len() && host.ends_with(suffix) {
            Some(suffix.len() as u64)
        } else {
            None
        }
    } else {
        None
    }
}

fn host_scores(hosts: &[&[&str]], host: &str) -> Vec<Vec<Option<u64>>> {
    hosts.iter().map(|domains| domains.iter().map(|d| domain_score(d, host)).collect()).collect()
}

#[test]
fn test_select_virtual_hosts() {
    let vh1: &[&str] = &["domain1.com:8000", "domain1.com"];
    let vh2: &[&str] = &["domain2.com"];
    let vh3: &[&str] = &["*.domain3.com", "domain3.com"];
    let hosts = [vh1, vh2, vh3];

    assert_eq!(select_virtual_host(&host_scores(&hosts, "127.0.0.1:8000")), None);
    assert_eq!(select_virtual_host(&host_scores(&hosts, "domain1.com:8000")), Some(0));
    assert_eq!(select_virtual_host(&host_scores(&hosts, "domain1.com")), Some(0));
    assert_eq!(select_virtual_host(&host_scores(&hosts, "domain3.com")), Some(2));
    assert_eq!(select_virtual_host(&host_scores(&hosts, "blah.domain3.com")), Some(2));
    assert_eq!(select_virtual_host(&host_scores(&hosts, "blah.domain3.com:8000")), None);
    assert_eq!(select_virtual_host(&host_scores(&hosts, "domain2.com:8000")), None);

    let vh2: &[&str] = &["domain2.com:8000"];
    let hosts = [vh1, vh2, vh3];
    assert_eq!(select_virtual_host(&host_scores(&hosts, "domain2.com")), None);
}
