use orion_lib::clusters::{ClusterType, OriginalDstCluster, RoutingContext, RoutingRequirement};
use orion_lib::load_assignment::ClusterError;
use orion_lib::original_dst::{OriginalDstClusterBuilder, OriginalDstConfig, OriginalDstRoutingMethod};

fn build_original_dst_cluster(
    name: &str,
    routing_method: OriginalDstRoutingMethod,
    port_override: Option<u16>,
) -> OriginalDstCluster {
    let builder = OriginalDstClusterBuilder {
        name: name.to_string(),
        config: Some(OriginalDstConfig { routing_method, upstream_port_override: port_override }),
        cleanup_interval: None,
    };
    match builder.build() {
        ClusterType::OnDemand(cluster) => cluster,
        _ => unreachable!("expected OriginalDstCluster config"),
    }
}

fn by_authority(authority: &str) -> RoutingContext<()> {
    RoutingContext::Authority(authority.to_string(), String::new())
}

#[test]
fn test_http_connection_by_authority() {
    let mut cluster = build_original_dst_cluster("test-cluster", OriginalDstRoutingMethod::Default, None);

    let channel1 = cluster.get_http_connection(by_authority("localhost:52000")).unwrap();
    let channel2 = cluster.get_http_connection(by_authority("localhost:52000")).unwrap();
    assert_eq!(channel1, channel2);
    assert_eq!(cluster.endpoints.len(), 1);

    let cluster = build_original_dst_cluster(
        "test-cluster",
        OriginalDstRoutingMethod::HttpHeader { http_header_name: None },
        Some(50001),
    );
    let mut cluster = ClusterType::OnDemand(cluster);
    assert_eq!(
        cluster.get_routing_requirements(),
        RoutingRequirement::Header("x-envoy-original-dst-host".to_string())
    );
    let mut cluster = match cluster {
        ClusterType::OnDemand(c) => c,
        _ => unreachable!(),
    };

    let channel = cluster.get_http_connection(RoutingContext::<()>::Header(b"localhost:52000".to_vec())).unwrap();
    assert_eq!(channel.as_str(), "localhost:50001");

    let http_no_dest = cluster.get_http_connection(RoutingContext::<()>::NotRequired);
    assert!(http_no_dest.is_err());
}

#[test]
fn test_get_tcp_connection() {
    let mut cluster = build_original_dst_cluster("test-cluster", OriginalDstRoutingMethod::Default, Some(50002));

    let _tcp = cluster.get_tcp_connection(by_authority("localhost:52000")).unwrap();

    let mut cluster = ClusterType::OnDemand(cluster);
    let endpoints = cluster.all_tcp_channels();
    assert_eq!(endpoints.len(), 1);
    assert_eq!(endpoints[0].as_str(), "localhost:50002");

    let mut cluster = match cluster {
        ClusterType::OnDemand(c) => c,
        _ => unreachable!(),
    };
    let tcp_no_dest = cluster.get_tcp_connection(RoutingContext::<()>::NotRequired);
    assert!(tcp_no_dest.is_err());
}

#[test]
fn test_grpc_connection() {
    let mut cluster = build_original_dst_cluster("test-cluster", OriginalDstRoutingMethod::Default, None);

    let _grpc1 = cluster.get_grpc_connection(by_authority("localhost:5100")).unwrap();
    let _grpc2 = cluster.get_grpc_connection(by_authority("localhost:5101")).unwrap();

    let mut cluster = ClusterType::OnDemand(cluster);
    let grpc_channels = cluster.all_grpc_channels();
    assert_eq!(grpc_channels.len(), 2);
    for result in &grpc_channels {
        assert!(result.is_ok());
    }

    let mut cluster = match cluster {
        ClusterType::OnDemand(c) => c,
        _ => unreachable!(),
    };
    let grpc_no_dest = cluster.get_grpc_connection(RoutingContext::<()>::NotRequired);
    assert!(grpc_no_dest.is_err());
}

#[test]
fn most_recent_endpoint_comes_first() {
    let mut cluster = build_original_dst_cluster("c", OriginalDstRoutingMethod::Default, None);
    cluster.get_http_connection(by_authority("a:1")).unwrap();
    cluster.get_http_connection(by_authority("b:2")).unwrap();
    cluster.get_http_connection(by_authority("a:1")).unwrap();
    assert_eq!(cluster.endpoints.in_use(), vec!["a:1".to_string(), "b:2".to_string()]);
    // Listing used each endpoint in turn: the least recent one became the most recent.
    assert_eq!(cluster.endpoints.in_use(), vec!["b:2".to_string(), "a:1".to_string()]);
}

#[test]
fn invalid_header_authority_is_reported() {
    let mut cluster = build_original_dst_cluster(
        "c",
        OriginalDstRoutingMethod::HttpHeader { http_header_name: Some("x-dest".to_string()) },
        None,
    );
    let r = cluster.get_http_connection(RoutingContext::<()>::Header(b"bad authority".to_vec()));
    assert_eq!(r, Err(ClusterError::InvalidHeaderAuthority("c".to_string())));
    assert_eq!(cluster.endpoints.len(), 0);
}

#[test]
fn missing_destination_names_the_cluster() {
    let mut cluster = build_original_dst_cluster("c", OriginalDstRoutingMethod::Default, None);
    let r = cluster.get_http_connection(RoutingContext::<()>::NotRequired);
    assert_eq!(r, Err(ClusterError::MissingDestination("c".to_string())));
}

#[test]
fn port_override_replaces_the_port() {
    let mut cluster = build_original_dst_cluster("c", OriginalDstRoutingMethod::Default, Some(8080));
    let r = cluster.get_http_connection(by_authority("example.com:1234")).unwrap();
    assert_eq!(r, "example.com:8080");
}

#[test]
fn unused_endpoints_expire() {
    let builder = OriginalDstClusterBuilder {
        name: "c".to_string(),
        config: Some(OriginalDstConfig {
            routing_method: OriginalDstRoutingMethod::Default,
            upstream_port_override: None,
        }),
        cleanup_interval: Some(1_000),
    };
    let mut cluster = match builder.build() {
        ClusterType::OnDemand(c) => c,
        _ => unreachable!(),
    };
    cluster.get_http_connection(by_authority("a:1")).unwrap();
    let start = std::time::Instant::now();
    while start.elapsed() < std::time::Duration::from_millis(2) {}
    assert_eq!(cluster.endpoints.len(), 0);
    assert_eq!(cluster.endpoints.in_use(), Vec::<String>::new());
}

#[test]
fn least_recent_endpoint_is_pushed_out() {
    let mut cluster = build_original_dst_cluster("c", OriginalDstRoutingMethod::Default, None);
    for i in 0..=10_000u32 {
        let authority = format!("h{i}:80");
        cluster.get_http_connection(by_authority(&authority)).unwrap();
    }
    assert_eq!(cluster.endpoints.len(), 10_000);
    let in_use = cluster.endpoints.in_use();
    assert_eq!(in_use.len(), 10_000);
    assert_eq!(in_use[0], "h10000:80");
    assert_eq!(in_use[9_999], "h1:80");
    assert!(!in_use.contains(&"h0:80".to_string()));
}
