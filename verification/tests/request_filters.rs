use orion_lib::filter_decision::{apply_authorization_rules, DirectResponse, FilterDecision, ResponseFlag};
use orion_lib::filter_state::{FilterState, SharedWithUpstream};
use orion_lib::format_string::FormatStringEvaluator;
use orion_lib::headers::HeaderMap;
use orion_lib::http_parts::{RequestHead, ResponseHead};
use orion_lib::mutation::{
    apply_header_mutations, apply_request_header_mutations, apply_response_header_mutations, HeaderAppendAction,
    HeaderMutation, HeaderMutationError, HeaderValue, HeaderValueOption, MutationVerdicts,
};
use orion_lib::set_filter_state::{apply_set_filter_state, FilterStateValue, FormatString, SetFilterState};

fn request(path: &str, headers: &[(&str, &str)]) -> RequestHead {
    let mut h = HeaderMap::new();
    for (n, v) in headers {
        h.append(n, v.as_bytes().to_vec());
    }
    RequestHead {
        method: "CONNECT".to_string(),
        scheme: None,
        authority: None,
        path_and_query: Some(path.to_string()),
        headers: h,
    }
}

fn value(key: &str, format: &str, skip_if_empty: bool) -> FilterStateValue {
    FilterStateValue {
        object_key: key.to_string(),
        format_string: FormatString::Text(format.to_string()),
        read_only: true,
        shared_with_upstream: SharedWithUpstream::Once,
        skip_if_empty,
    }
}

fn set(name: &str, v: &str, action: HeaderAppendAction) -> HeaderValueOption {
    HeaderValueOption {
        header: Some(HeaderValue { key: name.to_string(), value: v.to_string(), raw_value: Vec::new() }),
        append_action: action,
    }
}

#[test]
fn connect_authority_is_stored_from_host() {
    let config = SetFilterState {
        on_request_headers: vec![
            value("io.istio.connect_authority", "%REQ(:authority)%", false),
            value("io.example.missing", "%REQ(x-missing)%", true),
            value("io.example.path", "%REQ_PATH%", false),
        ],
    };
    let req = request("/a/b?q=1", &[("host", "backend.default.svc.cluster.local:8080")]);
    let mut state: Option<FilterState> = None;
    let decision = apply_set_filter_state(
        &config,
        &req,
        "HTTP/1.1",
        "10.0.0.1:5000",
        "10.0.0.2:80",
        &mut state,
        &FormatStringEvaluator::new(),
    );
    assert!(matches!(decision, FilterDecision::Continue));
    let state = state.unwrap();
    assert_eq!(state.get("io.istio.connect_authority").unwrap(), "backend.default.svc.cluster.local:8080");
    assert!(!state.contains_key("io.example.missing"));
    assert_eq!(state.get("io.example.path").unwrap(), "/a/b");
}

#[test]
fn nothing_set_leaves_no_state() {
    let config = SetFilterState { on_request_headers: vec![value("k", "%REQ(x-none)%", true)] };
    let req = request("/", &[]);
    let mut state: Option<FilterState> = None;
    apply_set_filter_state(&config, &req, "HTTP/2", "a", "b", &mut state, &FormatStringEvaluator::new());
    assert!(state.is_none());
}

#[test]
fn mutation_removes_then_sets() {
    let mut h = HeaderMap::new();
    h.append("a", b"1".to_vec());
    h.append("b", b"2".to_vec());
    let m = HeaderMutation {
        set_headers: vec![
            set("a", "x", HeaderAppendAction::AppendIfExistsOrAdd),
            set("b", "y", HeaderAppendAction::AddIfAbsent),
            set("c", "z", HeaderAppendAction::OverwriteIfExists),
        ],
        remove_headers: vec!["b".to_string()],
    };
    apply_header_mutations(&mut h, &m, None).unwrap();
    assert_eq!(h.get("a").cloned(), Some(b"1".to_vec()));
    assert_eq!(h.get("b").cloned(), Some(b"y".to_vec()));
    assert!(!h.contains_key("c"));
}

#[test]
fn refused_change_is_an_error_when_rules_say_so() {
    let mut h = HeaderMap::new();
    h.append("keep", b"1".to_vec());
    let m = HeaderMutation { set_headers: vec![], remove_headers: vec!["keep".to_string()] };
    let rules = MutationVerdicts { disallow_is_error: true, removals_permitted: vec![false], sets_permitted: vec![] };
    assert_eq!(
        apply_header_mutations(&mut h, &m, Some(&rules)),
        Err(HeaderMutationError::RemovalNotPermitted("keep".to_string()))
    );
    assert!(h.contains_key("keep"));
    let lenient = MutationVerdicts { disallow_is_error: false, removals_permitted: vec![false], sets_permitted: vec![] };
    assert_eq!(apply_header_mutations(&mut h, &m, Some(&lenient)), Ok(()));
    assert!(h.contains_key("keep"));
}

#[test]
fn pseudo_headers_change_the_request_line() {
    let mut req = request("/old", &[]);
    let m = HeaderMutation {
        set_headers: vec![
            set(":method", "POST", HeaderAppendAction::OverwriteIfExistsOrAdd),
            set(":path", "/new?x=1", HeaderAppendAction::OverwriteIfExistsOrAdd),
        ],
        remove_headers: vec![],
    };
    apply_request_header_mutations(&mut req, &m, None).unwrap();
    assert_eq!(req.method, "POST");
    assert_eq!(req.path_and_query.as_deref(), Some("/new?x=1"));

    let mut bad = request("/old", &[]);
    let m = HeaderMutation {
        set_headers: vec![set(":path", "not a path", HeaderAppendAction::OverwriteIfExistsOrAdd)],
        remove_headers: vec![],
    };
    apply_request_header_mutations(&mut bad, &m, None).unwrap();
    assert_eq!(bad.path_and_query.as_deref(), Some("/old"));
}

#[test]
fn status_pseudo_header_changes_the_response() {
    let mut resp = ResponseHead { status: 200, headers: HeaderMap::new() };
    let m = HeaderMutation { set_headers: vec![set(":status", "418", HeaderAppendAction::OverwriteIfExistsOrAdd)], remove_headers: vec![] };
    apply_response_header_mutations(&mut resp, &m, None).unwrap();
    assert_eq!(resp.status, 418);
    let m = HeaderMutation { set_headers: vec![set(":status", "99", HeaderAppendAction::OverwriteIfExistsOrAdd)], remove_headers: vec![] };
    apply_response_header_mutations(&mut resp, &m, None).unwrap();
    assert_eq!(resp.status, 418);
}

#[test]
fn rbac_denial_is_forbidden() {
    assert!(matches!(apply_authorization_rules(true), FilterDecision::Continue));
    match apply_authorization_rules(false) {
        FilterDecision::DirectResponse(DirectResponse::Synthetic(s)) => {
            assert_eq!(s.status, 403);
            assert_eq!(s.message.as_deref(), Some("RBAC: access denied"));
            assert_eq!(s.flag, ResponseFlag::RbacAccessDenied);
        },
        _ => panic!("expected a direct response"),
    }
}

#[test]
fn pseudo_headers_never_become_headers() {
    let mut req = request("/a", &[("host", "example.com")]);
    let mutation = HeaderMutation {
        set_headers: vec![
            set(":path", "/b", HeaderAppendAction::OverwriteIfExistsOrAdd),
            set(":method", "GE T", HeaderAppendAction::OverwriteIfExistsOrAdd),
            set("x-ok", "1", HeaderAppendAction::AppendIfExistsOrAdd),
        ],
        remove_headers: Vec::new(),
    };
    assert_eq!(apply_request_header_mutations(&mut req, &mutation, None), Ok(()));
    assert!(!req.headers.contains_key(":path"));
    assert!(!req.headers.contains_key(":method"));
    assert_eq!(req.method, "CONNECT");
    assert_eq!(req.path_and_query.as_deref(), Some("/b"));
    assert!(req.headers.contains_key("x-ok"));
}
