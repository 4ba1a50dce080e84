use orion_lib::drain::{
    drain_step_of, drain_wait_outcome, DrainError, DrainProgress, DrainScenario, DrainSignalingManager, DrainStrategy, DrainType,
    ListenerDrainContext, DEFAULT_HTTP_DRAIN_TIMEOUT,
};
use orion_lib::headers::HeaderMap;
use orion_lib::lds::{LdsManager, ListenerState};

const MS: u128 = 1_000_000;
const S: u128 = 1_000_000_000;

#[test]
fn tcp_drain_context() {
    let strategy = DrainStrategy::Tcp { global_timeout: S };
    let mut context = ListenerDrainContext::new("test-tcp".to_string(), strategy, 5);

    assert_eq!(context.get_active_connections(), 5);
    assert!(!context.is_completed());

    context.update_connection_count(0);
    assert!(context.is_completed());
}

#[test]
fn http_drain_context() {
    let strategy = DrainStrategy::Http { global_timeout: 600 * S, drain_timeout: 5000 * MS };
    let context = ListenerDrainContext::new("test-http".to_string(), strategy, 3);

    assert_eq!(context.get_active_connections(), 3);
    assert!(!context.is_completed());
    assert_eq!(context.get_http_drain_timeout(), Some(5000 * MS));
    assert!(!context.is_timeout_exceeded());
}

#[test]
fn drain_manager_basic() {
    let mut manager = DrainSignalingManager::new();
    assert!(!manager.has_draining_listeners());

    let _context = manager.initiate_listener_drain("test".to_string(), false, None, 1).unwrap();

    assert!(manager.has_draining_listeners());
    assert_eq!(manager.get_draining_listeners(), vec!["test".to_string()]);

    assert!(manager.update_connection_count("test", 0));
    assert_eq!(manager.check_drain_after("test", 0), DrainProgress::Completed);
    assert!(!manager.has_draining_listeners());
}

#[test]
fn timeout_forces_the_drain_to_end() {
    let mut manager = DrainSignalingManager::with_timeouts(50 * MS, 25 * MS);

    let context = manager.initiate_listener_drain("timeout-test".to_string(), true, None, 5).unwrap();
    assert_eq!(context.get_http_drain_timeout(), Some(25 * MS));
    assert!(context.timeout_exceeded_after(70 * MS));
    assert!(!context.timeout_exceeded_after(10 * MS));

    assert_eq!(manager.check_drain_after("timeout-test", 10 * MS), DrainProgress::Continue);
    assert!(manager.has_draining_listeners());
    assert_eq!(manager.check_drain_after("timeout-test", 70 * MS), DrainProgress::ForceCompleted);
    assert!(!manager.has_draining_listeners());
    assert_eq!(manager.check_drain_after("timeout-test", 70 * MS), DrainProgress::Untracked);
}

#[test]
fn default_http_drain_timeout_applies() {
    let mut manager = DrainSignalingManager::new();
    let context = manager.initiate_listener_drain("h".to_string(), true, None, 1).unwrap();
    assert_eq!(context.get_http_drain_timeout(), Some(DEFAULT_HTTP_DRAIN_TIMEOUT));
    assert_eq!(manager.get_http2_drain_timeout("h"), Some(DEFAULT_HTTP_DRAIN_TIMEOUT));
    assert_eq!(manager.get_http2_drain_timeout("other"), Some(DEFAULT_HTTP_DRAIN_TIMEOUT));
    manager.initiate_listener_drain("t".to_string(), false, None, 1).unwrap();
    assert_eq!(manager.get_http2_drain_timeout("t"), None);
}

#[test]
fn immediate_drain_is_past_its_timeout() {
    let context = ListenerDrainContext::new("i".to_string(), DrainStrategy::Immediate, 1);
    assert!(context.is_timeout_exceeded());
}

#[test]
fn force_complete_marks_completed() {
    let mut manager = DrainSignalingManager::new();
    manager.initiate_listener_drain("f".to_string(), false, None, 4).unwrap();
    let c = manager.force_complete_drain("f").unwrap();
    assert!(c.is_completed());
    assert!(manager.force_complete_drain("f").is_none());
}

#[test]
fn health_check_failure_drains_only_by_default() {
    assert!(DrainScenario::HealthCheckFail.should_drain(DrainType::Default));
    assert!(!DrainScenario::HealthCheckFail.should_drain(DrainType::ModifyOnly));
    assert!(DrainScenario::ListenerUpdate.should_drain(DrainType::ModifyOnly));
}

#[test]
fn http1_drain_signal_sets_connection_close() {
    let mut headers = HeaderMap::new();
    assert!(DrainSignalingManager::apply_http1_drain_signal_sync(&mut headers));
    assert_eq!(headers.get("connection").cloned(), Some(b"close".to_vec()));
}

#[test]
fn drain_steps() {
    assert_eq!(drain_step_of(true, true), DrainProgress::Completed);
    assert_eq!(drain_step_of(false, true), DrainProgress::ForceCompleted);
    assert_eq!(drain_step_of(false, false), DrainProgress::Continue);
    assert_eq!(drain_wait_outcome(true), Err(DrainError::Timeout));
    assert_eq!(drain_wait_outcome(false), Ok(()));
}

#[test]
fn lds_listener_update() {
    let mut manager: LdsManager<u32> = LdsManager::new();

    assert!(!manager.handle_lds_update("test-listener".to_string(), 1));
    assert_eq!(manager.get_listener_info("test-listener"), Some(ListenerState::Active));

    assert!(manager.handle_lds_update("test-listener".to_string(), 2));
    assert_eq!(manager.get_listener_info("test-listener"), Some(ListenerState::Active));

    let listed = manager.list_listeners();
    assert_eq!(listed.len(), 1);
    assert_eq!(listed[0].1.len(), 2);
    assert!(matches!(listed[0].1[0], ListenerState::Draining { .. }));
    assert_eq!(listed[0].1[1], ListenerState::Active);

    let closed = manager.close_draining_versions("test-listener");
    assert_eq!(closed, vec![1]);
    assert_eq!(manager.list_listeners()[0].1.len(), 1);
}

#[test]
fn lds_listener_removal() {
    let mut manager: LdsManager<u32> = LdsManager::new();
    assert!(!manager.remove_listener("absent"));
    manager.handle_lds_update("l".to_string(), 7);
    assert!(manager.remove_listener("l"));
    assert!(matches!(manager.get_listener_info("l"), Some(ListenerState::Draining { .. })));
    assert_eq!(manager.close_removed_listener("l"), vec![7]);
    assert_eq!(manager.get_listener_info("l"), None);
}

#[test]
fn copied_manager_keeps_the_drains() {
    let mut manager = DrainSignalingManager::new();
    let _context = manager.initiate_listener_drain("a".to_string(), false, None, 1).unwrap();
    let copy = manager.duplicate();
    assert_eq!(copy.get_draining_listeners(), vec!["a".to_string()]);
    manager.complete_drain("a");
    assert!(!manager.has_draining_listeners());
    assert!(copy.has_draining_listeners());
}
