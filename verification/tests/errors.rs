use takos_agent_engine::domain::loop_state::LoopStatus;
use takos_agent_engine::error::{EngineError, Result};

#[test]
fn configuration_error_display() {
    let err = EngineError::Configuration("bad config".to_string());
    assert_eq!(err.to_string(), "configuration error: bad config");
}

#[test]
fn storage_error_display() {
    let err = EngineError::Storage("disk full".to_string());
    assert_eq!(err.to_string(), "storage error: disk full");
}

#[test]
fn model_error_display() {
    let err = EngineError::Model("inference failed".to_string());
    assert_eq!(err.to_string(), "model error: inference failed");
}

#[test]
fn tool_error_display() {
    let err = EngineError::Tool("tool crashed".to_string());
    assert_eq!(err.to_string(), "tool error: tool crashed");
}

#[test]
fn timeout_error_display() {
    let err = EngineError::Timeout("model call".to_string());
    assert_eq!(err.to_string(), "timeout while executing model call");
}

#[test]
fn unsupported_error_display() {
    let err = EngineError::Unsupported("llama");
    assert_eq!(err.to_string(), "unsupported backend: llama");
}

#[test]
fn cancelled_error_display() {
    let err = EngineError::Cancelled;
    assert_eq!(err.to_string(), "operation cancelled");
}

#[test]
fn checkpoint_not_found_display() {
    let err = EngineError::CheckpointNotFound {
        session_id: "sess-1".to_string(),
        loop_id: "loop-1".to_string(),
    };
    assert_eq!(
        err.to_string(),
        "loop checkpoint not found for session=sess-1 loop=loop-1"
    );
}

#[test]
fn loop_terminated_display() {
    let err = EngineError::LoopTerminated(LoopStatus::Failed);
    assert_eq!(err.to_string(), "loop terminated with status Failed");
}

#[test]
fn result_type_alias_works() {
    let ok: Result<i32> = Ok(42);
    match ok {
        Ok(value) => assert_eq!(value, 42),
        Err(err) => panic!("expected Ok(42), got Err({err:?})"),
    }

    let err: Result<i32> = Err(EngineError::Cancelled);
    assert!(err.is_err());
}

#[test]
fn error_is_debug() {
    let err = EngineError::Storage("test".to_string());
    let debug = format!("{err:?}");
    assert!(debug.contains("Storage"));
}

#[test]
fn recovery_errors_name_their_reason() {
    let unsafe_recovery = EngineError::RecoveryUnsafe("claim expired".to_string());
    assert!(unsafe_recovery.to_string().ends_with("claim expired"));
    let unknown = EngineError::ToolOutcomeIndeterminate {
        idempotency_key: "key-1".to_string(),
        reason: "timed out".to_string(),
    };
    assert!(unknown.to_string().contains("key-1"));
    assert!(unknown.to_string().ends_with("timed out"));
}

#[test]
fn every_loop_status_has_its_name() {
    for (status, name) in [
        (LoopStatus::Running, "Running"),
        (LoopStatus::Paused, "Paused"),
        (LoopStatus::Finished, "Finished"),
        (LoopStatus::Cancelled, "Cancelled"),
        (LoopStatus::TimedOut, "TimedOut"),
        (LoopStatus::Failed, "Failed"),
    ] {
        assert_eq!(status.describe(), name);
        assert_eq!(format!("{status:?}"), name);
    }
}
