use orion_lib::endpoint_order::{endpoint_order, same_endpoint_address};
use orion_lib::load_assignment::{EndpointAddressType, HealthStatus, InternalEndpointAddress, LbEndpoint};
use std::cmp::Ordering;

fn socket(a: &str) -> LbEndpoint {
    LbEndpoint { name: "c".to_string(), address: EndpointAddressType::Socket(a.to_string()), weight: 1, health_status: HealthStatus::Healthy }
}

fn internal(listener: &str, id: Option<&str>) -> LbEndpoint {
    LbEndpoint {
        name: "c".to_string(),
        address: EndpointAddressType::Internal(InternalEndpointAddress {
            server_listener_name: listener.to_string(),
            endpoint_id: id.map(|s| s.to_string()),
        }),
        weight: 1,
        health_status: HealthStatus::Healthy,
    }
}

#[test]
fn sockets_order_by_authority_before_internal() {
    assert_eq!(endpoint_order(&socket("a:1"), &socket("b:1")), Ordering::Less);
    assert_eq!(endpoint_order(&socket("b:1"), &socket("a:1")), Ordering::Greater);
    assert_eq!(endpoint_order(&socket("a:1"), &socket("a:1")), Ordering::Equal);
    assert_eq!(endpoint_order(&socket("a:1"), &socket("a:10")), Ordering::Less);
    assert_eq!(endpoint_order(&socket("z:1"), &internal("a", None)), Ordering::Less);
    assert_eq!(endpoint_order(&internal("a", None), &socket("z:1")), Ordering::Greater);
    assert_eq!(endpoint_order(&internal("l1", Some("x")), &internal("l1", None)), Ordering::Equal);
}

#[test]
fn same_authority_ignores_case() {
    assert!(same_endpoint_address(&socket("Example.COM:80").address, &socket("example.com:80").address));
    assert!(!same_endpoint_address(&socket("example.com:80").address, &socket("example.com:81").address));
    assert!(!same_endpoint_address(&socket("a:1").address, &internal("a:1", None).address));
    assert!(same_endpoint_address(&internal("l", Some("x")).address, &internal("l", Some("x")).address));
    assert!(!same_endpoint_address(&internal("l", Some("x")).address, &internal("l", None).address));
}
