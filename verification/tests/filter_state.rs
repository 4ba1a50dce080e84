use orion_lib::filter_state::{FilterState, FilterStateError, SharedWithUpstream};
use std::collections::HashMap;

fn shared_map(state: &FilterState, mode: SharedWithUpstream) -> HashMap<String, String> {
    state.get_upstream_shared(mode).into_iter().collect()
}

#[test]
fn test_new_filter_state() {
    let state = FilterState::new();
    assert_eq!(state.len(), 0);
    assert!(state.is_empty());
}

#[test]
fn test_set_and_get() {
    let mut state = FilterState::new();

    state.set("test.key", "test_value", false, SharedWithUpstream::Unshared).unwrap();

    assert_eq!(state.get("test.key").unwrap(), "test_value");
    assert_eq!(state.len(), 1);
    assert!(!state.is_empty());
}

#[test]
fn test_get_nonexistent_key() {
    let state = FilterState::new();

    let result = state.get("nonexistent");
    assert!(matches!(result, Err(FilterStateError::KeyNotFound(_))));
}

#[test]
fn test_read_only_enforcement() {
    let mut state = FilterState::new();

    state.set("readonly.key", "initial", true, SharedWithUpstream::Unshared).unwrap();

    let result = state.set("readonly.key", "modified", false, SharedWithUpstream::Unshared);

    assert!(matches!(result, Err(FilterStateError::ReadOnly(_))));
    assert_eq!(state.get("readonly.key").unwrap(), "initial");
}

#[test]
fn test_overwrite_non_readonly() {
    let mut state = FilterState::new();

    state.set("mutable.key", "first", false, SharedWithUpstream::Unshared).unwrap();
    state.set("mutable.key", "second", false, SharedWithUpstream::Unshared).unwrap();

    assert_eq!(state.get("mutable.key").unwrap(), "second");
}

#[test]
fn test_contains_key() {
    let mut state = FilterState::new();

    assert!(!state.contains_key("test.key"));

    state.set("test.key", "value", false, SharedWithUpstream::Unshared).unwrap();

    assert!(state.contains_key("test.key"));
}

#[test]
fn test_get_with_metadata() {
    let mut state = FilterState::new();

    state.set("meta.key", "value", true, SharedWithUpstream::Once).unwrap();

    let (value, read_only, shared) = state.get_with_metadata("meta.key").unwrap();

    assert_eq!(value, "value");
    assert!(read_only);
    assert_eq!(shared, SharedWithUpstream::Once);
}

#[test]
fn test_upstream_shared_none() {
    let mut state = FilterState::new();

    state.set("local", "v1", false, SharedWithUpstream::Unshared).unwrap();
    state.set("once", "v2", false, SharedWithUpstream::Once).unwrap();
    state.set("trans", "v3", false, SharedWithUpstream::Transitive).unwrap();

    let shared = shared_map(&state, SharedWithUpstream::Unshared);
    assert_eq!(shared.len(), 0);
}

#[test]
fn test_upstream_shared_once() {
    let mut state = FilterState::new();

    state.set("local", "v1", false, SharedWithUpstream::Unshared).unwrap();
    state.set("once", "v2", false, SharedWithUpstream::Once).unwrap();
    state.set("trans", "v3", false, SharedWithUpstream::Transitive).unwrap();

    let shared = shared_map(&state, SharedWithUpstream::Once);
    assert_eq!(shared.len(), 2);
    assert_eq!(shared.get("once").unwrap(), "v2");
    assert_eq!(shared.get("trans").unwrap(), "v3");
}

#[test]
fn test_upstream_shared_transitive() {
    let mut state = FilterState::new();

    state.set("local", "v1", false, SharedWithUpstream::Unshared).unwrap();
    state.set("once", "v2", false, SharedWithUpstream::Once).unwrap();
    state.set("trans", "v3", false, SharedWithUpstream::Transitive).unwrap();

    let shared = shared_map(&state, SharedWithUpstream::Transitive);
    assert_eq!(shared.len(), 1);
    assert_eq!(shared.get("trans").unwrap(), "v3");
}

#[test]
fn test_clear() {
    let mut state = FilterState::new();

    state.set("key1", "v1", false, SharedWithUpstream::Unshared).unwrap();
    state.set("key2", "v2", false, SharedWithUpstream::Unshared).unwrap();

    assert_eq!(state.len(), 2);

    state.clear();

    assert_eq!(state.len(), 0);
    assert!(state.is_empty());
}

#[test]
fn filter_state_test_istio_connect_authority_use_case() {
    let mut state = FilterState::new();

    state
        .set("io.istio.connect_authority", "my-service.default.svc.cluster.local:8080", true, SharedWithUpstream::Once)
        .unwrap();

    assert_eq!(state.get("io.istio.connect_authority").unwrap(), "my-service.default.svc.cluster.local:8080");

    let shared = shared_map(&state, SharedWithUpstream::Once);
    assert!(shared.contains_key("io.istio.connect_authority"));

    let result = state.set("io.istio.connect_authority", "tampered", false, SharedWithUpstream::Unshared);
    assert!(matches!(result, Err(FilterStateError::ReadOnly(_))));
}

#[test]
fn read_only_entry_keeps_its_metadata_after_refused_set() {
    let mut state = FilterState::new();
    state.set("k", "v", true, SharedWithUpstream::Transitive).unwrap();
    assert!(state.set("k", "w", true, SharedWithUpstream::Once).is_err());
    let (value, read_only, shared) = state.get_with_metadata("k").unwrap();
    assert_eq!(value, "v");
    assert!(read_only);
    assert_eq!(shared, SharedWithUpstream::Transitive);
}

#[test]
fn setting_one_key_leaves_the_others() {
    let mut state = FilterState::new();
    state.set("a", "1", false, SharedWithUpstream::Unshared).unwrap();
    state.set("b", "2", false, SharedWithUpstream::Unshared).unwrap();
    state.set("a", "3", false, SharedWithUpstream::Unshared).unwrap();
    assert_eq!(state.get("b").unwrap(), "2");
    assert_eq!(state.get("a").unwrap(), "3");
    assert_eq!(state.len(), 2);
}

#[test]
fn missing_key_metadata_is_not_found() {
    let state = FilterState::new();
    assert_eq!(state.get_with_metadata("x"), Err(FilterStateError::KeyNotFound("x".to_string())));
}

#[test]
fn default_sharing_is_unshared() {
    assert_eq!(SharedWithUpstream::default(), SharedWithUpstream::Unshared);
}
