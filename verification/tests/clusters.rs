use orion_lib::clusters::{
    resolve_cluster, ClusterSpecifier, ClusterType, ClusterWeight, ClustersManager, DynamicCluster, RoutingRequirement,
    StaticCluster,
};
use orion_lib::load_assignment::{
    build_load_assignment, ClusterError, EndpointAddressType, HealthStatus, LbPolicy, PartialClusterLoadAssignment,
    PartialLbEndpoint, PartialLocalityLbEndpoints,
};

fn partial_endpoint(authority: &str, health: HealthStatus) -> PartialLbEndpoint {
    PartialLbEndpoint { address: EndpointAddressType::Socket(authority.to_string()), weight: 1, health_status: health }
}

fn assignment(authorities: &[&str]) -> PartialClusterLoadAssignment {
    PartialClusterLoadAssignment::new(vec![PartialLocalityLbEndpoints {
        endpoints: authorities.iter().map(|a| partial_endpoint(a, HealthStatus::Healthy)).collect(),
        priority: 0,
    }])
    .unwrap()
}

fn static_cluster(name: &str, authorities: &[&str]) -> ClusterType {
    let load_assignment = build_load_assignment(&name.to_string(), &assignment(authorities), LbPolicy::RoundRobin).unwrap();
    ClusterType::Static(StaticCluster {
        name: name.to_string(),
        load_assignment,
        routing_requirement: RoutingRequirement::NotRequired,
    })
}

#[test]
fn named_cluster_resolves_to_itself() {
    assert_eq!(resolve_cluster(&ClusterSpecifier::Cluster("a".to_string())), Some("a".to_string()));
}

#[test]
fn weighted_cluster_picks_a_positive_weight() {
    let choices = vec![
        ClusterWeight { cluster: "zero".to_string(), weight: 0 },
        ClusterWeight { cluster: "one".to_string(), weight: 5 },
    ];
    for _ in 0..20 {
        assert_eq!(resolve_cluster(&ClusterSpecifier::WeightedCluster(choices.clone())), Some("one".to_string()));
    }
    let zeros = vec![ClusterWeight { cluster: "zero".to_string(), weight: 0 }];
    assert_eq!(resolve_cluster(&ClusterSpecifier::WeightedCluster(zeros)), None);
    assert_eq!(resolve_cluster(&ClusterSpecifier::WeightedCluster(vec![])), None);
}

#[test]
fn added_cluster_is_found_and_removed() {
    let mut manager = ClustersManager::new();
    assert!(matches!(manager.with_cluster("c"), Err(ClusterError::ClusterNotFound(_))));
    manager.add_cluster(Ok(static_cluster("c", &["10.0.0.1:80", "10.0.0.2:80"]))).unwrap();
    assert_eq!(manager.with_cluster("c").unwrap().get_name(), "c");
    assert_eq!(
        manager.all_http_connections("c").unwrap(),
        vec!["10.0.0.1:80".to_string(), "10.0.0.2:80".to_string()]
    );
    assert_eq!(manager.get_cluster_routing_requirements("c"), RoutingRequirement::NotRequired);
    assert_eq!(manager.remove_cluster("c"), Ok(()));
    assert_eq!(manager.remove_cluster("c"), Err(ClusterError::NoSuchCluster));
}

#[test]
fn failed_build_changes_nothing() {
    let mut manager = ClustersManager::new();
    let r = manager.add_cluster(Err(ClusterError::TooManyEndpoints));
    assert!(matches!(r, Err(ClusterError::TooManyEndpoints)));
    assert!(manager.with_cluster("x").is_err());
}

#[test]
fn empty_locality_list_is_refused() {
    assert!(matches!(PartialClusterLoadAssignment::new(vec![]), Err(ClusterError::NoLocality)));
}

#[test]
fn static_cluster_assignment_is_replaced_but_not_removed() {
    let mut manager = ClustersManager::new();
    manager.add_cluster(Ok(static_cluster("s", &["10.0.0.1:80"]))).unwrap();
    manager.change_cluster_load_assignment("s", &assignment(&["10.0.0.9:80"])).unwrap();
    assert_eq!(manager.all_http_connections("s").unwrap(), vec!["10.0.0.9:80".to_string()]);
    assert!(matches!(manager.remove_cluster_load_assignment("s"), Err(ClusterError::StaticClusterAssignment(_))));
    assert!(matches!(
        manager.change_cluster_load_assignment("absent", &assignment(&["10.0.0.9:80"])),
        Err(ClusterError::NoClusterFound(_))
    ));
}

#[test]
fn dynamic_cluster_assignment_changes() {
    let mut manager = ClustersManager::new();
    manager
        .add_cluster(Ok(ClusterType::Dynamic(DynamicCluster {
            name: "d".to_string(),
            load_balancing_policy: LbPolicy::RoundRobin,
            load_assignment: None,
            routing_requirement: RoutingRequirement::NotRequired,
        })))
        .unwrap();
    assert_eq!(manager.all_tcp_connections("d").unwrap(), Vec::<String>::new());
    manager.change_cluster_load_assignment("d", &assignment(&["10.0.0.9:80"])).unwrap();
    assert_eq!(manager.all_tcp_connections("d").unwrap(), vec!["10.0.0.9:80".to_string()]);
    manager.remove_cluster_load_assignment("d").unwrap();
    assert_eq!(manager.all_tcp_connections("d").unwrap(), Vec::<String>::new());
}

#[test]
fn tls_update_reports_the_first_failure() {
    let mut manager = ClustersManager::new();
    manager.add_cluster(Ok(static_cluster("a", &["10.0.0.1:80"]))).unwrap();
    manager.add_cluster(Ok(static_cluster("b", &["10.0.0.2:80"]))).unwrap();
    assert_eq!(manager.cluster_count(), 2);
    let all = manager.update_tls_context(vec![Ok(()), Ok(())]).unwrap();
    assert_eq!(all.len(), 2);
    assert_eq!(all[0].get_name(), "a");
    assert_eq!(all[1].get_name(), "b");
    let failed = manager.update_tls_context(vec![Ok(()), Err(ClusterError::Build("bad secret".to_string()))]);
    assert!(matches!(failed, Err(ClusterError::Build(m)) if m == "bad secret"));
}

#[test]
fn tls_update_hands_clusters_back_by_name() {
    let mut manager = ClustersManager::new();
    manager.add_cluster(Ok(static_cluster("zeta", &["10.0.0.1:80"]))).unwrap();
    manager.add_cluster(Ok(static_cluster("alpha", &["10.0.0.2:80"]))).unwrap();
    manager.add_cluster(Ok(static_cluster("mid", &["10.0.0.3:80"]))).unwrap();
    manager.add_cluster(Ok(static_cluster("al", &["10.0.0.4:80"]))).unwrap();
    let all = manager.update_tls_context(vec![Ok(()), Ok(()), Ok(()), Ok(())]).unwrap();
    let names: Vec<&str> = all.iter().map(|c| c.get_name().as_str()).collect();
    assert_eq!(names, vec!["al", "alpha", "mid", "zeta"]);
    manager.remove_cluster("alpha").unwrap();
    let all = manager.update_tls_context(vec![Ok(()), Ok(()), Ok(())]).unwrap();
    let names: Vec<&str> = all.iter().map(|c| c.get_name().as_str()).collect();
    assert_eq!(names, vec!["al", "mid", "zeta"]);
}
