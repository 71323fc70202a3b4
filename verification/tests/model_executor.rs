use agent_graph_mcp::model_executor::{BackendHandle, ExecutorHandle, TestExecutor};
use std::sync::Arc;

#[test]
fn no_executor_returns_none() {
    let handle = ExecutorHandle::none();
    assert!(!handle.is_attached());
    assert!(handle.try_acquire("r1", "n1", 0).is_none());
}

#[test]
fn test_executor_acquires_when_configured() {
    let executor = Arc::new(TestExecutor::new(true));
    let handle = ExecutorHandle::with(executor.clone());
    assert!(handle.is_attached());

    let backend = handle.try_acquire("r1", "n1", 0);
    assert!(backend.is_some());
    assert!(backend
        .unwrap()
        .lease_digest
        .starts_with("test-lease-digest"));

    // Release should be tracked.
    let backend = handle.try_acquire("r1", "n2", 1).unwrap();
    handle.release(backend);
    assert_eq!(executor.released.lock().unwrap().len(), 1);
}

#[test]
fn test_executor_declines_when_configured() {
    let executor = Arc::new(TestExecutor::new(false));
    let handle = ExecutorHandle::with(executor);
    assert!(handle.is_attached());
    assert!(handle.try_acquire("r1", "n1", 0).is_none());
}

#[test]
fn handle_is_send_sync() {
    fn assert_send_sync<T: Send + Sync>() {}
    assert_send_sync::<ExecutorHandle>();
    assert_send_sync::<BackendHandle>();
}
