use orion_lib::ag_ext_proc::{gateway_destination, to_header_map, ImmediateResponse};
use orion_lib::ext_proc::{
    apply_request_mode_overrides, apply_response_mode_overrides, build_direct_response, envoy_headers_from, envoy_headers_into,
    finish_request, on_filter_error, should_clear_route_cache, status_timeout, worker_config_from, BodyProcessingMode,
    EnvoyProcessingMode, ExtProcOverrides, ExtProcPerRoute, ExternalProcessorConfig, GrpcServiceSpecifier, ProcessingMode,
    ProcessingStatus, ReadyStatus, RouteCacheAction, TimeoutState, TrailerProcessingMode, HeaderProcessingMode,
};
use orion_lib::ext_proc::{filter_header_map, should_forward_header, ForwardRules};
use orion_lib::filter_decision::{DirectResponse, FilterDecision};
use orion_lib::headers::HeaderMap;
use orion_lib::http_parts::RequestHead;
use orion_lib::mutation::{HeaderAppendAction, HeaderMutation, HeaderValue, HeaderValueOption};

fn config() -> ExternalProcessorConfig {
    ExternalProcessorConfig {
        grpc_service: GrpcServiceSpecifier::Cluster("ext".to_string()),
        message_timeout: None,
        max_message_timeout: None,
        observability_mode: false,
        failure_mode_allow: false,
        disable_immediate_response: false,
        processing_mode: None,
        allowed_override_modes: vec![],
        allow_mode_override: false,
        route_cache_action: RouteCacheAction::Default,
        send_body_without_waiting_for_header_response: false,
    }
}

fn set_header(name: &str, value: &str) -> HeaderValueOption {
    HeaderValueOption {
        header: Some(HeaderValue { key: name.to_string(), value: value.to_string(), raw_value: Vec::new() }),
        append_action: HeaderAppendAction::OverwriteIfExistsOrAdd,
    }
}

fn request() -> RequestHead {
    let mut headers = HeaderMap::new();
    headers.insert("content-length", b"10".to_vec());
    RequestHead {
        method: "GET".to_string(),
        scheme: None,
        authority: None,
        path_and_query: Some("/".to_string()),
        headers,
    }
}

#[test]
fn worker_config_defaults_and_overrides() {
    let w = worker_config_from(config(), None);
    assert_eq!(w.message_timeout, 200_000_000);
    assert!(!w.failure_mode_allow);
    assert_eq!(w.processing_mode, ProcessingMode::default());

    let per_route = ExtProcPerRoute {
        disabled: false,
        overrides: Some(ExtProcOverrides {
            processing_mode: None,
            grpc_service: Some(GrpcServiceSpecifier::GoogleGrpc("dns:///x".to_string())),
            failure_mode_allow: Some(true),
        }),
    };
    let w = worker_config_from(config(), Some(per_route));
    assert!(w.failure_mode_allow);
    assert!(matches!(w.grpc_service_specifier, GrpcServiceSpecifier::GoogleGrpc(_)));

    let disabled = ExtProcPerRoute {
        disabled: true,
        overrides: Some(ExtProcOverrides { processing_mode: None, grpc_service: None, failure_mode_allow: Some(true) }),
    };
    assert!(!worker_config_from(config(), Some(disabled)).failure_mode_allow);
}

#[test]
fn mode_overrides_respect_the_allowed_modes() {
    let envoy = EnvoyProcessingMode {
        request_header_mode: 0,
        response_header_mode: 2,
        request_body_mode: 2,
        response_body_mode: 9,
        request_trailer_mode: 0,
        response_trailer_mode: 1,
    };
    let r = apply_request_mode_overrides(&envoy, &vec![]);
    assert_eq!(r.body, Some(BodyProcessingMode::Buffered));
    assert_eq!(r.trailer, None);
    let r = apply_response_mode_overrides(&envoy, &vec![]);
    assert_eq!(r.header, Some(HeaderProcessingMode::Skip));
    assert_eq!(r.body, None);
    assert_eq!(r.trailer, Some(TrailerProcessingMode::Send));

    let allowed = vec![ProcessingMode { request_body_mode: BodyProcessingMode::Streamed, ..ProcessingMode::default() }];
    let r = apply_request_mode_overrides(&envoy, &allowed);
    assert_eq!(r.body, None);
}

#[test]
fn route_cache_actions() {
    assert!(should_clear_route_cache(RouteCacheAction::Clear, false));
    assert!(!should_clear_route_cache(RouteCacheAction::Retain, true));
    assert!(should_clear_route_cache(RouteCacheAction::Default, true));
}

#[test]
fn timeout_is_extended_once() {
    let mut t = TimeoutState { duration: 200_000_000, active: true, extended: false };
    assert!(t.handle_timeout_extension(200_000_000, Some(1_000_000_000), 5, 0));
    assert_eq!(t.duration, 1_000_000_000);
    assert!(!t.handle_timeout_extension(200_000_000, None, 1, 0));
    let mut short = TimeoutState { duration: 1, active: true, extended: false };
    assert!(short.handle_timeout_extension(300, None, 0, 10));
    assert_eq!(short.duration, 300);
}

#[test]
fn filter_errors() {
    assert!(matches!(on_filter_error(true, None), FilterDecision::Continue));
    assert!(matches!(status_timeout(true), ProcessingStatus::HaltedOnError));
    match on_filter_error(false, Some(403)) {
        FilterDecision::DirectResponse(DirectResponse::Synthetic(r)) => assert_eq!(r.status, 403),
        other => panic!("unexpected decision {other:?}"),
    }
}

#[test]
fn ready_request_mutates_and_drops_content_length() {
    let mut req = request();
    let status = ProcessingStatus::RequestReady(ReadyStatus {
        headers_modifications: Some(HeaderMutation { set_headers: vec![set_header("x-added", "yes")], remove_headers: vec![] }),
        clear_route_cache: false,
    });
    let decision = finish_request(Some(status), &mut req, None, false);
    assert!(matches!(decision, FilterDecision::Continue));
    assert!(req.headers.contains_key("x-added"));
    assert!(!req.headers.contains_key("content-length"));

    let mut req = request();
    let status = ProcessingStatus::RequestReady(ReadyStatus { headers_modifications: None, clear_route_cache: true });
    assert!(matches!(finish_request(Some(status), &mut req, None, false), FilterDecision::Reroute));
}

#[test]
fn missing_reply_is_a_filter_error() {
    let mut req = request();
    assert!(matches!(finish_request(None, &mut req, None, true), FilterDecision::Continue));
    assert!(matches!(finish_request(None, &mut req, None, false), FilterDecision::DirectResponse(_)));
}

#[test]
fn direct_response_is_built() {
    let attempt = ImmediateResponse {
        status: Some(403),
        headers: Some(HeaderMutation { set_headers: vec![set_header("x-why", "denied")], remove_headers: vec![] }),
        body: b"no".to_vec(),
        grpc_status: Some(7),
    };
    let (head, body) = build_direct_response(&attempt, None);
    assert_eq!(head.status, 403);
    assert_eq!(body, b"no".to_vec());
    assert_eq!(head.headers.get("x-why").cloned(), Some(b"denied".to_vec()));
    assert_eq!(head.headers.get("grpc-status").cloned(), Some(b"7".to_vec()));

    let invalid = ImmediateResponse { status: Some(42), headers: None, body: vec![], grpc_status: None };
    assert_eq!(build_direct_response(&invalid, None).0.status, 200);
}

#[test]
fn envoy_headers_round_trip() {
    let mut h = HeaderMap::new();
    h.append("a", b"1".to_vec());
    h.append("a", b"2".to_vec());
    h.append("b", vec![0xff]);
    let list = envoy_headers_from(&h);
    assert_eq!(list.len(), 3);
    assert_eq!(list[0].value, "1");
    assert_eq!(list[2].value, "");
    assert_eq!(list[2].raw_value, vec![0xff]);
    let back = envoy_headers_into(&list);
    assert_eq!(back.get("a").cloned(), Some(b"1".to_vec()));
    assert_eq!(back.get("b").cloned(), Some(vec![0xff]));
}

#[test]
fn service_headers_use_lossy_text() {
    let mut h = HeaderMap::new();
    h.append("x-bin", vec![b'o', b'k', 0xff]);
    let list = to_header_map(&h);
    assert_eq!(list.len(), 1);
    assert_eq!(list[0].key, "x-bin");
    assert_eq!(list[0].value, "ok\u{fffd}");
    assert_eq!(list[0].raw_value, vec![b'o', b'k', 0xff]);
}

#[test]
fn forwarding_rules_select_headers() {
    let mut h = HeaderMap::new();
    h.append("x-keep", b"1".to_vec());
    h.append("x-drop", b"2".to_vec());
    h.append("x-keep", b"3".to_vec());
    let names = h.header_names();
    assert_eq!(names, vec!["x-keep".to_string(), "x-drop".to_string()]);
    let disallow = Some(ForwardRules { has_allowed: true, has_disallowed: true });
    let matches = vec![(false, false), (true, true)];
    let out = filter_header_map(&h, disallow, &matches);
    assert!(out.contains_key("x-keep"));
    assert!(!out.contains_key("x-drop"));
    assert_eq!(out.pairs().len(), 2);
    let allow_only = Some(ForwardRules { has_allowed: true, has_disallowed: false });
    let out = filter_header_map(&h, allow_only, &vec![(false, false), (true, false)]);
    assert!(!out.contains_key("x-keep"));
    assert!(out.contains_key("x-drop"));
    assert!(should_forward_header(None, false, true));
    assert!(should_forward_header(Some(ForwardRules { has_allowed: false, has_disallowed: false }), false, true));
}

#[test]
fn picker_destination_is_read_from_its_header() {
    let mut headers = HeaderMap::new();
    assert_eq!(gateway_destination(&headers), None);
    headers.append("x-gateway-destination-endpoint", b"10.1.2.3:8000".to_vec());
    headers.append("x-gateway-destination-endpoint", b"10.9.9.9:1".to_vec());
    assert_eq!(gateway_destination(&headers), Some("10.1.2.3:8000".to_string()));
    let mut bad = HeaderMap::new();
    bad.append("x-gateway-destination-endpoint", vec![0x31, 0x7f]);
    assert_eq!(gateway_destination(&bad), None);
}
