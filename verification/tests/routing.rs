use orion_lib::hcm::TransactionPhases;
use orion_lib::headers::HeaderMap;
use orion_lib::http_parts::RequestHead;
use orion_lib::listener::{select_filterchain, FilterChainError};
use orion_lib::route_filters::{per_route_http_filters, FilterOverride, FilterSource, HcmFilter, RouteFilterConfig};
use orion_lib::filter_decision::ResponseFlag;
use orion_lib::routing::{
    answer_without_route_configuration, route_not_found, route_with_configuration, RouteConfigOutcome, on_body_end, request_filters_outcome, response_filters, response_modifier_order, FiltersOutcome, LogStep, ModifierLevel,
    PendingLog, RequestFilterRun, RequestFilterVerdict, RoutingLoop, RoutingStep,
};
use orion_lib::upstream::{direct_route_response, update_uri, upgrade_answer, websocket_step, UpgradeAnswer, UpgradeKind, UriUpdateError, WebsocketStep};

fn run(disabled: bool, verdict: Option<RequestFilterVerdict>) -> RequestFilterRun {
    RequestFilterRun { disabled, verdict }
}

#[test]
fn first_deciding_filter_wins() {
    let runs = vec![
        run(false, Some(RequestFilterVerdict::Continue)),
        run(true, Some(RequestFilterVerdict::DirectResponse)),
        run(false, None),
        run(false, Some(RequestFilterVerdict::DirectResponse)),
        run(false, Some(RequestFilterVerdict::Reroute)),
    ];
    assert_eq!(request_filters_outcome(&runs), FiltersOutcome::Respond(3));
    let runs = vec![run(false, Some(RequestFilterVerdict::Reroute)), run(false, Some(RequestFilterVerdict::DirectResponse))];
    assert_eq!(request_filters_outcome(&runs), FiltersOutcome::Reroute);
    assert_eq!(request_filters_outcome(&vec![]), FiltersOutcome::Proceed);
}

#[test]
fn rerouting_to_the_same_route_is_a_loop() {
    let mut l = RoutingLoop::new();
    assert_eq!(l.on_match(None), RoutingStep::NotFound);
    assert_eq!(l.on_match(Some(7)), RoutingStep::RunFilters(7));
    l.mark_rerouted(7);
    assert_eq!(l.on_match(Some(7)), RoutingStep::LoopDetected);
    assert_eq!(l.on_match(Some(8)), RoutingStep::RunFilters(8));
}

#[test]
fn response_filters_run_last_first() {
    let disabled = vec![false, true, false, false];
    let present = vec![true, true, false, true];
    assert_eq!(response_filters(&disabled, &present), vec![3, 0]);
}

#[test]
fn modifier_order_follows_specificity() {
    assert_eq!(
        response_modifier_order(true),
        vec![ModifierLevel::RouteConfiguration, ModifierLevel::VirtualHost, ModifierLevel::Route]
    );
    assert_eq!(
        response_modifier_order(false),
        vec![ModifierLevel::Route, ModifierLevel::VirtualHost, ModifierLevel::RouteConfiguration]
    );
}

#[test]
fn access_log_written_when_second_body_ends() {
    let mut phases = TransactionPhases::new();
    let empty: PendingLog<u8> = PendingLog { bytes: 0, flags: 0, event: None };
    let first = on_body_end(&mut phases, true, &empty, 100, 1, 2, None, Some(9u8));
    let kept = match first {
        LogStep::Keep(k) => k,
        other => panic!("unexpected step {other:?}"),
    };
    assert_eq!(kept, PendingLog { bytes: 100, flags: 3, event: Some(9) });
    let second = on_body_end(&mut phases, false, &kept, 40, 4, 0, Some(5u8), None);
    assert_eq!(second, LogStep::Finish { received: 100, sent: 40, event: Some(9), flags: 7 });
}

fn head(scheme: Option<&str>, authority: Option<&str>, path: Option<&str>) -> RequestHead {
    RequestHead {
        method: "GET".to_string(),
        scheme: scheme.map(|s| s.to_string()),
        authority: authority.map(|s| s.to_string()),
        path_and_query: path.map(|s| s.to_string()),
        headers: HeaderMap::new(),
    }
}

#[test]
fn uri_update_replaces_path_and_sets_host() {
    let mut h = head(Some("http"), Some("old.example"), Some("/a"));
    update_uri(&mut h, Some("/b".to_string()), Some("new.example".to_string())).unwrap();
    assert_eq!(h.authority.as_deref(), Some("new.example"));
    assert_eq!(h.path_and_query.as_deref(), Some("/b"));
    assert_eq!(h.headers.get("host").map(|v| v.clone()), Some(b"new.example".to_vec()));
}

#[test]
fn uri_update_without_replacement_changes_nothing() {
    let mut h = head(None, None, Some("/a"));
    update_uri(&mut h, None, None).unwrap();
    assert_eq!(h.path_and_query.as_deref(), Some("/a"));
    assert!(h.headers.get("host").is_none());
}

#[test]
fn authority_without_scheme_is_not_a_uri() {
    let mut h = head(None, None, Some("/a"));
    assert_eq!(update_uri(&mut h, None, Some("x.example".to_string())), Err(UriUpdateError::InvalidUri));
}

#[test]
fn websocket_decisions() {
    assert_eq!(websocket_step(None, false, Ok(true)), WebsocketStep::Forward);
    assert_eq!(websocket_step(Some(true), false, Ok(true)), WebsocketStep::Upgrade);
    assert_eq!(websocket_step(None, true, Err(())), WebsocketStep::BadRequest);
    assert_eq!(websocket_step(Some(false), true, Ok(true)), WebsocketStep::Forward);
}

#[test]
fn upgrade_answers() {
    assert_eq!(upgrade_answer(UpgradeKind::Websocket, true, Ok(101)), UpgradeAnswer::Switch);
    assert_eq!(upgrade_answer(UpgradeKind::Websocket, true, Ok(200)), UpgradeAnswer::Status(405));
    assert_eq!(upgrade_answer(UpgradeKind::Websocket, true, Err(())), UpgradeAnswer::Status(502));
    assert_eq!(upgrade_answer(UpgradeKind::Websocket, false, Ok(101)), UpgradeAnswer::Status(400));
    assert_eq!(upgrade_answer(UpgradeKind::Connect, true, Ok(101)), UpgradeAnswer::Status(426));
}

#[test]
fn per_route_filters_apply_overrides_and_group_routes() {
    let hcm = vec![
        HcmFilter { name: "rbac".to_string(), disabled: false },
        HcmFilter { name: "ratelimit".to_string(), disabled: true },
    ];
    let routes = vec![
        RouteFilterConfig {
            route_match: 1,
            overrides: vec![FilterOverride { name: "ratelimit".to_string(), disabled: false, configured: true }],
        },
        RouteFilterConfig { route_match: 2, overrides: vec![] },
        RouteFilterConfig { route_match: 1, overrides: vec![] },
    ];
    let groups = per_route_http_filters(&routes, &hcm);
    assert_eq!(groups.len(), 2);
    let (key, filters) = &groups[0];
    assert_eq!(*key, 1);
    assert_eq!(filters.len(), 4);
    assert_eq!(filters[0].source, FilterSource::Hcm(0));
    assert_eq!(filters[1].source, FilterSource::Override { route: 0, index: 0, configured: true });
    assert!(!filters[1].disabled);
    assert_eq!(filters[3].source, FilterSource::Hcm(1));
    assert!(filters[3].disabled);
    assert_eq!(groups[1].0, 2);
}

#[test]
fn filter_chain_multiple() {
    // One chain: server names `host.test` and `*.wildcard`, destination port
    // 443, destination prefix 127.0.0.1/32, source port 3300. Its ranks for a
    // connection from 127.0.0.1:3300, criterion by criterion (destination
    // port, destination IP, server name, source IP, source port): a failed
    // match ranks 0, no rule 1, a match above that, an exact server name
    // above a wildcard.
    fn ranks(destination_port: u16, server_name: Option<&str>) -> Vec<Vec<u32>> {
        let port = if destination_port == 443 { 2 } else { 0 };
        let name = match server_name {
            Some("host.test") => 1_000,
            Some(n) if n.len() > ".wildcard".len() && n.ends_with(".wildcard") => 1 + ".wildcard".len() as u32,
            _ => 0,
        };
        vec![vec![port, 33, name, 1, 2]]
    }
    assert_eq!(select_filterchain(&ranks(443, Some("host.test"))), Ok(Some(0)));
    assert_eq!(select_filterchain(&ranks(443, Some("a.wildcard"))), Ok(Some(0)));
    assert_eq!(select_filterchain(&ranks(443, None)), Ok(None));
    assert_eq!(select_filterchain(&ranks(444, Some("host.test"))), Ok(None));
}

#[test]
fn equal_chains_are_ambiguous() {
    let ranks = vec![vec![2, 1, 1, 1, 1], vec![2, 1, 1, 1, 1]];
    assert_eq!(select_filterchain(&ranks), Err(FilterChainError::MultipleMatches));
}

/// The ranks of a connection that differs only by its server name, for the
/// chains of `most_specific_wins`: a failed match ranks 0, no rule 1, a
/// wildcard by the length of its suffix, an exact name above all.
fn server_name_ranks(name: Option<&str>) -> Vec<Vec<u32>> {
    let exact = |n: &str| if name == Some(n) { 1_000 } else { 0 };
    let suffix = |suf: &str| match name {
        Some(n) if n.len() > suf.len() && n.ends_with(suf) => 1 + suf.len() as u32,
        _ => 0,
    };
    let sni = [exact("this.is.more.specific"), suffix(".more.specific"), suffix(".specific"), 1];
    sni.iter().map(|&r| vec![1, 1, r, 1, 1]).collect()
}

#[test]
fn most_specific_wins() {
    assert_eq!(select_filterchain(&server_name_ranks(None)), Ok(Some(3)));
    assert_eq!(select_filterchain(&server_name_ranks(Some("this.is.more.specific"))), Ok(Some(0)));
    assert_eq!(select_filterchain(&server_name_ranks(Some("not.this.is.more.specific"))), Ok(Some(1)));
    assert_eq!(select_filterchain(&server_name_ranks(Some("is.more.specific"))), Ok(Some(1)));
    assert_eq!(select_filterchain(&server_name_ranks(Some("more.specific"))), Ok(Some(2)));
    assert_eq!(select_filterchain(&server_name_ranks(Some("this.is.less.specific"))), Ok(Some(2)));
    assert_eq!(select_filterchain(&server_name_ranks(Some("hello.world"))), Ok(Some(3)));
}

#[test]
fn match_fallback_sni() {
    // The first chain asks for server names and the connection names none;
    // the second has no rule at all.
    let ranks = vec![vec![1, 1, 0, 1, 1], vec![1, 1, 1, 1, 1]];
    assert_eq!(select_filterchain(&ranks), Ok(Some(1)));
}

#[test]
fn failed_match_excludes_a_chain() {
    let ranks = vec![vec![1, 0, 1, 1, 1]];
    assert_eq!(select_filterchain(&ranks), Ok(None));
    assert_eq!(select_filterchain(&vec![]), Ok(None));
}

#[test]
fn direct_route_answers_with_its_status_and_body() {
    let (head, body) = direct_route_response(404, Some(b"not here".to_vec()));
    assert_eq!(head.status, 404);
    assert_eq!(head.headers.keys_len(), 0);
    assert_eq!(body, b"not here".to_vec());
    let (head, body) = direct_route_response(204, None);
    assert_eq!(head.status, 204);
    assert!(body.is_empty());
}

#[test]
fn missing_route_configuration_is_not_found() {
    assert_eq!(answer_without_route_configuration(true), None);
    let answer = answer_without_route_configuration(false).unwrap();
    assert_eq!(answer.status, 404);
    assert_eq!(answer.message, None);
    assert_eq!(answer.flag, ResponseFlag::NoRouteFound);
    assert_eq!(route_not_found(), answer);
}

#[test]
fn failed_uri_update_leaves_the_head() {
    let mut head = RequestHead {
        method: "GET".to_string(),
        scheme: Some("http".to_string()),
        authority: Some("a.example".to_string()),
        path_and_query: Some("/x".to_string()),
        headers: HeaderMap::new(),
    };
    let r = update_uri(&mut head, None, Some("bad\u{7f}host".to_string()));
    assert!(r.is_err());
    assert_eq!(head.authority.as_deref(), Some("a.example"));
    assert_eq!(head.path_and_query.as_deref(), Some("/x"));
    assert!(!head.headers.contains_key("host"));
}

#[test]
fn reroute_onto_the_same_route_is_a_loop() {
    assert_eq!(route_with_configuration(None, None), RouteConfigOutcome::NotFound);
    assert_eq!(route_with_configuration(Some(7), None), RouteConfigOutcome::Route(7));
    assert_eq!(route_with_configuration(Some(7), Some(FiltersOutcome::Proceed)), RouteConfigOutcome::Route(7));
    assert_eq!(route_with_configuration(Some(7), Some(FiltersOutcome::Respond(2))), RouteConfigOutcome::Respond(7, 2));
    assert_eq!(route_with_configuration(Some(7), Some(FiltersOutcome::Reroute)), RouteConfigOutcome::LoopDetected);
}
