//! What can go wrong in the engine.
use vstd::prelude::*;

use crate::domain::loop_state::LoopStatus;

verus! {

/// The result of an engine operation.
pub type Result<T> = std::result::Result<T, EngineError>;

/// A failure of the engine.
#[derive(Debug)]
pub enum EngineError {
    Configuration(String),
    Storage(String),
    Model(String),
    Tool(String),
    Timeout(String),
    Unsupported(&'static str),
    Cancelled,
    CheckpointNotFound { session_id: String, loop_id: String },
    LoopTerminated(LoopStatus),
    /// Continuing an interrupted loop could repeat an effect or mix up runs.
    RecoveryUnsafe(String),
    /// A side effect was dispatched and nobody knows whether it took place.
    ToolOutcomeIndeterminate { idempotency_key: String, reason: String },
}

/// Whether an error reports a configuration fault with this message.
pub open spec fn is_configuration(error: EngineError, message: Seq<char>) -> bool {
    error matches EngineError::Configuration(text) && text@ == message
}

/// Whether an error reports a storage fault with this message.
pub open spec fn is_storage(error: EngineError, message: Seq<char>) -> bool {
    error matches EngineError::Storage(text) && text@ == message
}

/// Whether an error reports a model fault with this message.
pub open spec fn is_model(error: EngineError, message: Seq<char>) -> bool {
    error matches EngineError::Model(text) && text@ == message
}

/// Whether an error reports a tool fault with this message.
pub open spec fn is_tool(error: EngineError, message: Seq<char>) -> bool {
    error matches EngineError::Tool(text) && text@ == message
}

/// Whether an error refuses a recovery with this message.
pub open spec fn is_recovery_unsafe(error: EngineError, message: Seq<char>) -> bool {
    error matches EngineError::RecoveryUnsafe(text) && text@ == message
}

/// Whether an error reports an unknown outcome under this key for this reason.
pub open spec fn is_indeterminate(
    error: EngineError,
    key: Seq<char>,
    why: Seq<char>,
) -> bool {
    error matches EngineError::ToolOutcomeIndeterminate { idempotency_key, reason }
        && idempotency_key@ == key && reason@ == why
}

impl EngineError {
    /// What the error says.
    pub open spec fn message(self) -> Seq<char> {
        match self {
            EngineError::Configuration(text) => "configuration error: "@ + text@,
            EngineError::Storage(text) => "storage error: "@ + text@,
            EngineError::Model(text) => "model error: "@ + text@,
            EngineError::Tool(text) => "tool error: "@ + text@,
            EngineError::Timeout(text) => "timeout while executing "@ + text@,
            EngineError::Unsupported(text) => "unsupported backend: "@ + text@,
            EngineError::Cancelled => "operation cancelled"@,
            EngineError::CheckpointNotFound { session_id, loop_id } =>
                "loop checkpoint not found for session="@ + session_id@ + " loop="@ + loop_id@,
            EngineError::LoopTerminated(status) => "loop terminated with status "@ + status.name(),
            EngineError::RecoveryUnsafe(text) => "recovery is unsafe: "@ + text@,
            EngineError::ToolOutcomeIndeterminate { idempotency_key, reason } =>
                "tool outcome indeterminate for "@ + idempotency_key@ + ": "@ + reason@,
        }
    }

    /// What the error says.
    pub fn to_string(&self) -> (text: String)
        ensures
            text@ == self.message(),
    {
        match self {
            EngineError::Configuration(text) => "configuration error: ".to_string().concat(
                text.as_str(),
            ),
            EngineError::Storage(text) => "storage error: ".to_string().concat(text.as_str()),
            EngineError::Model(text) => "model error: ".to_string().concat(text.as_str()),
            EngineError::Tool(text) => "tool error: ".to_string().concat(text.as_str()),
            EngineError::Timeout(text) => "timeout while executing ".to_string().concat(
                text.as_str(),
            ),
            EngineError::Unsupported(text) => "unsupported backend: ".to_string().concat(text),
            EngineError::Cancelled => "operation cancelled".to_string(),
            EngineError::CheckpointNotFound { session_id, loop_id } =>
                "loop checkpoint not found for session=".to_string().concat(
                session_id.as_str(),
            ).concat(" loop=").concat(loop_id.as_str()),
            EngineError::LoopTerminated(status) => "loop terminated with status ".to_string().concat(
                status.describe(),
            ),
            EngineError::RecoveryUnsafe(text) => "recovery is unsafe: ".to_string().concat(
                text.as_str(),
            ),
            EngineError::ToolOutcomeIndeterminate { idempotency_key, reason } =>
                "tool outcome indeterminate for ".to_string().concat(
                idempotency_key.as_str(),
            ).concat(": ").concat(reason.as_str()),
        }
    }
}

/// What an error says tells its kind and carries what it was made of.
pub proof fn errors_say_what_happened(text: String, key: String, status: LoopStatus)
    ensures
        EngineError::Configuration(text).message() == "configuration error: "@ + text@,
        EngineError::Storage(text).message() == "storage error: "@ + text@,
        EngineError::Model(text).message() == "model error: "@ + text@,
        EngineError::Tool(text).message() == "tool error: "@ + text@,
        EngineError::Timeout(text).message() == "timeout while executing "@ + text@,
        EngineError::RecoveryUnsafe(text).message() == "recovery is unsafe: "@ + text@,
        EngineError::Cancelled.message() == "operation cancelled"@,
        EngineError::LoopTerminated(status).message() == "loop terminated with status "@ + (
        match status {
            LoopStatus::Running => "Running"@,
            LoopStatus::Paused => "Paused"@,
            LoopStatus::Finished => "Finished"@,
            LoopStatus::Cancelled => "Cancelled"@,
            LoopStatus::TimedOut => "TimedOut"@,
            LoopStatus::Failed => "Failed"@,
        }),
        (EngineError::ToolOutcomeIndeterminate { idempotency_key: key, reason: text }).message()
            == "tool outcome indeterminate for "@ + key@ + ": "@ + text@,
        (EngineError::CheckpointNotFound { session_id: key, loop_id: text }).message()
            == "loop checkpoint not found for session="@ + key@ + " loop="@ + text@,
        is_configuration(EngineError::Configuration(text), text@),
        is_storage(EngineError::Storage(text), text@),
        is_model(EngineError::Model(text), text@),
        is_tool(EngineError::Tool(text), text@),
        is_recovery_unsafe(EngineError::RecoveryUnsafe(text), text@),
        forall|other: Seq<char>| is_configuration(EngineError::Configuration(text), other) ==> other
            == text@,
        forall|other: Seq<char>| is_storage(EngineError::Storage(text), other) ==> other == text@,
        forall|other: Seq<char>| is_model(EngineError::Model(text), other) ==> other == text@,
        forall|other: Seq<char>| is_tool(EngineError::Tool(text), other) ==> other == text@,
{
}

} // verus!
