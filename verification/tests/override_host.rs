use orion_lib::load_assignment::{EndpointAddressType, HealthStatus, InternalEndpointAddress, LbEndpoint, LocalityLbEndpoints};
use orion_lib::override_host::{override_channels, HttpChannels, OverrideChoice, OverrideHostLoadBalancer, OverrideSelectionError};

fn endpoint(authority: &str, health: HealthStatus) -> LbEndpoint {
    LbEndpoint {
        name: "cluster".to_string(),
        address: EndpointAddressType::Socket(authority.to_string()),
        weight: 1,
        health_status: health,
    }
}

fn locality(endpoints: Vec<LbEndpoint>) -> LocalityLbEndpoints {
    let n = endpoints.len() as u32;
    LocalityLbEndpoints { name: "l".to_string(), endpoints, priority: 0, healthy_endpoints: n, total_endpoints: n }
}

fn balancer() -> OverrideHostLoadBalancer {
    let localities = vec![locality(vec![
        endpoint("10.0.0.1:80", HealthStatus::Healthy),
        endpoint("10.0.0.2:80", HealthStatus::Unhealthy),
        endpoint("10.0.0.3:80", HealthStatus::Healthy),
    ])];
    OverrideHostLoadBalancer::build("x-gateway-destination-endpoint".to_string(), &localities, None)
}

fn chosen(choice: OverrideChoice) -> Vec<String> {
    match choice {
        OverrideChoice::Endpoints(v) => v,
        OverrideChoice::Fallback => Vec::new(),
    }
}

#[test]
fn healthy_named_endpoints_in_order() {
    let b = balancer();
    let picked = chosen(b.select_override(b" 10.0.0.3:80 , 10.0.0.2:80,,10.0.0.1:80"));
    assert_eq!(picked, vec!["10.0.0.3:80".to_string(), "10.0.0.1:80".to_string()]);
}

#[test]
fn unknown_or_unhealthy_names_fall_back() {
    let b = balancer();
    assert!(matches!(b.select_override(b"10.0.0.2:80"), OverrideChoice::Fallback));
    assert!(matches!(b.select_override(b"10.9.9.9:80"), OverrideChoice::Fallback));
    assert!(matches!(b.select_override(b""), OverrideChoice::Fallback));
}

#[test]
fn non_text_header_falls_back() {
    let b = balancer();
    assert!(matches!(b.select_override(b"10.0.0.1:80\x01"), OverrideChoice::Fallback));
}

#[test]
fn health_updates_change_the_choice() {
    let mut b = balancer();
    b.update_health(&"10.0.0.2:80".to_string(), true);
    assert_eq!(chosen(b.select_override(b"10.0.0.2:80")), vec!["10.0.0.2:80".to_string()]);
    b.update_health(&"10.0.0.1:80".to_string(), false);
    assert!(matches!(b.select_override(b"10.0.0.1:80"), OverrideChoice::Fallback));
}

#[test]
fn rebuild_keeps_known_health() {
    let mut b = balancer();
    b.update_health(&"10.0.0.1:80".to_string(), false);
    let localities = vec![locality(vec![endpoint("10.0.0.1:80", HealthStatus::Healthy), endpoint("10.0.0.4:80", HealthStatus::Healthy)])];
    let rebuilt = OverrideHostLoadBalancer::build(b.header(), &localities, Some(&b));
    assert!(matches!(rebuilt.select_override(b"10.0.0.1:80"), OverrideChoice::Fallback));
    assert_eq!(chosen(rebuilt.select_override(b"10.0.0.4:80")), vec!["10.0.0.4:80".to_string()]);
    assert_eq!(rebuilt.header(), "x-gateway-destination-endpoint");
}

#[test]
fn named_endpoints_become_primary_and_failovers() {
    let b = balancer();
    let choice = b.select_override(b"10.0.0.3:80,10.0.0.1:80");
    assert_eq!(
        override_channels(choice, None),
        Ok(HttpChannels::MultiWithFailover {
            channel: "10.0.0.3:80".to_string(),
            failover_channels: vec!["10.0.0.1:80".to_string()],
        })
    );
}

#[test]
fn fallback_picks_or_fails() {
    let b = balancer();
    let fallback = endpoint("10.0.0.9:80", HealthStatus::Healthy);
    assert_eq!(
        override_channels(b.select_override(b"10.0.0.2:80"), Some(&fallback)),
        Ok(HttpChannels::Single("10.0.0.9:80".to_string()))
    );
    assert_eq!(
        override_channels(OverrideChoice::Fallback, None),
        Err(OverrideSelectionError::NoActiveEndpoint)
    );
    let internal = LbEndpoint {
        name: "cluster".to_string(),
        address: EndpointAddressType::Internal(InternalEndpointAddress {
            server_listener_name: "l".to_string(),
            endpoint_id: None,
        }),
        weight: 1,
        health_status: HealthStatus::Healthy,
    };
    assert_eq!(override_channels(OverrideChoice::Fallback, Some(&internal)), Err(OverrideSelectionError::NoHttpChannel));
}
