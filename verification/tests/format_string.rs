use orion_lib::format_string::{FormatStringEvaluator, RequestContext};

#[test]
fn test_evaluator_new() {
    let evaluator = FormatStringEvaluator::new();
    let ctx = RequestContext::new();
    let result = evaluator.evaluate("hello world", &ctx);
    assert_eq!(result, "hello world");
}

#[test]
fn test_req_header() {
    let evaluator = FormatStringEvaluator::new();
    let ctx = RequestContext::new().with_header(":authority", "example.com").with_header("user-agent", "test/1.0");

    let result = evaluator.evaluate("Host: %REQ(:authority)%", &ctx);
    assert_eq!(result, "Host: example.com");

    let result = evaluator.evaluate("UA: %REQ(user-agent)%", &ctx);
    assert_eq!(result, "UA: test/1.0");
}

#[test]
fn test_req_header_missing() {
    let evaluator = FormatStringEvaluator::new();
    let ctx = RequestContext::new();

    let result = evaluator.evaluate("Host: %REQ(:authority)%", &ctx);
    assert_eq!(result, "Host: -");
}

#[test]
fn test_req_header_case_insensitive() {
    let evaluator = FormatStringEvaluator::new();
    let ctx = RequestContext::new().with_header("Content-Type", "application/json");

    let result = evaluator.evaluate("%REQ(content-type)%", &ctx);
    assert_eq!(result, "application/json");

    let result = evaluator.evaluate("%REQ(CONTENT-TYPE)%", &ctx);
    assert_eq!(result, "application/json");
}

#[test]
fn test_downstream_remote_address() {
    let evaluator = FormatStringEvaluator::new();
    let addr = "192.168.1.100:54321";
    let ctx = RequestContext::new().with_downstream_remote_address(addr);

    let result = evaluator.evaluate("Client: %DOWNSTREAM_REMOTE_ADDRESS%", &ctx);
    assert_eq!(result, "Client: 192.168.1.100:54321");
}

#[test]
fn test_downstream_local_address() {
    let evaluator = FormatStringEvaluator::new();
    let addr = "10.0.0.1:8080";
    let ctx = RequestContext::new().with_downstream_local_address(addr);

    let result = evaluator.evaluate("Local: %DOWNSTREAM_LOCAL_ADDRESS%", &ctx);
    assert_eq!(result, "Local: 10.0.0.1:8080");
}

#[test]
fn test_upstream_host() {
    let evaluator = FormatStringEvaluator::new();
    let ctx = RequestContext::new().with_upstream_host("backend.example.com:8080");

    let result = evaluator.evaluate("Upstream: %UPSTREAM_HOST%", &ctx);
    assert_eq!(result, "Upstream: backend.example.com:8080");
}

#[test]
fn test_protocol() {
    let evaluator = FormatStringEvaluator::new();
    let ctx = RequestContext::new().with_protocol("HTTP/2");

    let result = evaluator.evaluate("Protocol: %PROTOCOL%", &ctx);
    assert_eq!(result, "Protocol: HTTP/2");
}

#[test]
fn test_req_method() {
    let evaluator = FormatStringEvaluator::new();
    let ctx = RequestContext::new().with_method("POST");

    let result = evaluator.evaluate("Method: %REQ_METHOD%", &ctx);
    assert_eq!(result, "Method: POST");
}

#[test]
fn test_req_path() {
    let evaluator = FormatStringEvaluator::new();
    let ctx = RequestContext::new().with_path("/api/v1/users");

    let result = evaluator.evaluate("Path: %REQ_PATH%", &ctx);
    assert_eq!(result, "Path: /api/v1/users");
}

#[test]
fn test_req_authority() {
    let evaluator = FormatStringEvaluator::new();
    let ctx = RequestContext::new().with_header(":authority", "api.example.com");

    let result = evaluator.evaluate("Authority: %REQ_AUTHORITY%", &ctx);
    assert_eq!(result, "Authority: api.example.com");
}

#[test]
fn test_req_authority_fallback_to_host() {
    let evaluator = FormatStringEvaluator::new();
    let ctx = RequestContext::new().with_header("host", "www.example.com");

    let result = evaluator.evaluate("Authority: %REQ_AUTHORITY%", &ctx);
    assert_eq!(result, "Authority: www.example.com");
}

#[test]
fn test_route_name() {
    let evaluator = FormatStringEvaluator::new();
    let ctx = RequestContext::new().with_route_name("my-route");

    let result = evaluator.evaluate("Route: %ROUTE_NAME%", &ctx);
    assert_eq!(result, "Route: my-route");
}

#[test]
fn test_max_length_truncation() {
    let evaluator = FormatStringEvaluator::new();
    let ctx = RequestContext::new().with_header("user-agent", "Mozilla/5.0 (Very Long User Agent String)");

    let result = evaluator.evaluate("%REQ(user-agent):10%", &ctx);
    assert_eq!(result, "Mozilla/5.");
    assert_eq!(result.len(), 10);
}

#[test]
fn test_max_length_no_truncation() {
    let evaluator = FormatStringEvaluator::new();
    let ctx = RequestContext::new().with_header("x-short", "abc");

    let result = evaluator.evaluate("%REQ(x-short):10%", &ctx);
    assert_eq!(result, "abc");
}

#[test]
fn test_multiple_operators() {
    let evaluator = FormatStringEvaluator::new();
    let addr = "192.168.1.1:54321";
    let ctx = RequestContext::new()
        .with_header(":authority", "example.com")
        .with_method("GET")
        .with_path("/api/test")
        .with_downstream_remote_address(addr);

    let result =
        evaluator.evaluate("%REQ_METHOD% %REQ_PATH% from %DOWNSTREAM_REMOTE_ADDRESS% to %REQ(:authority)%", &ctx);
    assert_eq!(result, "GET /api/test from 192.168.1.1:54321 to example.com");
}

#[test]
fn test_missing_values_default_to_dash() {
    let evaluator = FormatStringEvaluator::new();
    let ctx = RequestContext::new();

    let result = evaluator.evaluate("%REQ_METHOD% %PROTOCOL% %UPSTREAM_HOST% %ROUTE_NAME%", &ctx);
    assert_eq!(result, "- - - -");
}

#[test]
fn test_unknown_command() {
    let evaluator = FormatStringEvaluator::new();
    let ctx = RequestContext::new();

    let result = evaluator.evaluate("Test: %UNKNOWN_COMMAND%", &ctx);
    assert_eq!(result, "Test: %UNKNOWN_COMMAND%");
}

#[test]
fn format_string_test_istio_connect_authority_use_case() {
    let evaluator = FormatStringEvaluator::new();

    let ctx = RequestContext::new()
        .with_header(":authority", "backend.default.svc.cluster.local:8080")
        .with_method("CONNECT");

    let result = evaluator.evaluate("%REQ(:authority)%", &ctx);
    assert_eq!(result, "backend.default.svc.cluster.local:8080");

}

#[test]
fn test_complex_format_string() {
    let evaluator = FormatStringEvaluator::new();
    let addr = "10.244.0.5:45678";
    let ctx = RequestContext::new()
        .with_header(":authority", "my-service.ns.svc.cluster.local")
        .with_method("POST")
        .with_path("/v1/resource")
        .with_protocol("HTTP/2")
        .with_downstream_remote_address(addr)
        .with_upstream_host("10.96.1.10:8080")
        .with_route_name("default-route");

    let result = evaluator.evaluate(
        "[%ROUTE_NAME%] %PROTOCOL% %REQ_METHOD% %REQ_PATH% | Host: %REQ_AUTHORITY% | Client: %DOWNSTREAM_REMOTE_ADDRESS% | Upstream: %UPSTREAM_HOST%",
        &ctx,
    );

    assert_eq!(
        result,
        "[default-route] HTTP/2 POST /v1/resource | Host: my-service.ns.svc.cluster.local | Client: 10.244.0.5:45678 | Upstream: 10.96.1.10:8080"
    );
}

#[test]
fn test_empty_format_string() {
    let evaluator = FormatStringEvaluator::new();
    let ctx = RequestContext::new();

    let result = evaluator.evaluate("", &ctx);
    assert_eq!(result, "");
}

#[test]
fn test_only_literal_text() {
    let evaluator = FormatStringEvaluator::new();
    let ctx = RequestContext::new();

    let result = evaluator.evaluate("No operators here", &ctx);
    assert_eq!(result, "No operators here");
}

#[test]
fn truncation_keeps_whole_characters() {
    let evaluator = FormatStringEvaluator::new();
    let ctx = RequestContext::new().with_header("x-name", "héllo");
    let result = evaluator.evaluate("%REQ(x-name):2%", &ctx);
    assert_eq!(result, "hé");
}

#[test]
fn lone_percent_is_kept() {
    let evaluator = FormatStringEvaluator::new();
    let ctx = RequestContext::new();
    assert_eq!(evaluator.evaluate("100% sure", &ctx), "100% sure");
}

#[test]
fn later_header_value_wins() {
    let evaluator = FormatStringEvaluator::new();
    let ctx = RequestContext::new().with_header("x-a", "one").with_header("X-A", "two");
    assert_eq!(evaluator.evaluate("%REQ(x-a)%", &ctx), "two");
}

#[test]
fn non_ascii_literal_text_is_kept() {
    let evaluator = FormatStringEvaluator::new();
    let ctx = RequestContext::new().with_method("GET");
    assert_eq!(evaluator.evaluate("é", &ctx), "é");
    assert_eq!(evaluator.evaluate("café", &ctx), "café");
    assert_eq!(evaluator.evaluate("café %REQ_METHOD% über 100%", &ctx), "café GET über 100%");
    assert_eq!(evaluator.evaluate("日本%REQ_METHOD%語", &ctx), "日本GET語");
}

#[test]
fn length_counts_characters() {
    let evaluator = FormatStringEvaluator::new();
    let ctx = RequestContext::new().with_header("X-Name", "héllo");
    assert_eq!(evaluator.evaluate("%REQ(x-name):3%", &ctx), "hél");
    assert_eq!(evaluator.evaluate("%REQ(X-NAME):10%", &ctx), "héllo");
    assert_eq!(evaluator.evaluate("%REQ(x-other):1%", &ctx), "-");
}
