//! Status of a loop and its durable checkpoint.
use vstd::prelude::*;

use crate::engine::execution_graph::{ExecutionState, State};
use crate::ids::{LoopId, SessionId};

verus! {

/// Where a loop stands.
#[derive(Debug, Clone, Copy, PartialEq, Eq, Structural)]
pub enum LoopStatus {
    Running,
    Paused,
    Finished,
    Cancelled,
    TimedOut,
    Failed,
}

impl LoopStatus {
    /// The name of the status.
    pub open spec fn name(self) -> Seq<char> {
        match self {
            LoopStatus::Running => "Running"@,
            LoopStatus::Paused => "Paused"@,
            LoopStatus::Finished => "Finished"@,
            LoopStatus::Cancelled => "Cancelled"@,
            LoopStatus::TimedOut => "TimedOut"@,
            LoopStatus::Failed => "Failed"@,
        }
    }

    /// The name of the status.
    pub fn describe(&self) -> (text: &'static str)
        ensures
            text@ == self.name(),
    {
        match self {
            LoopStatus::Running => "Running",
            LoopStatus::Paused => "Paused",
            LoopStatus::Finished => "Finished",
            LoopStatus::Cancelled => "Cancelled",
            LoopStatus::TimedOut => "TimedOut",
            LoopStatus::Failed => "Failed",
        }
    }
}

/// A durable checkpoint of a loop: where it stands and the whole state that it
/// continues from. The envelope repeats the identity of the state so that a
/// checkpoint that was filed wrongly is noticed.
#[derive(Debug)]
pub struct LoopState {
    pub checkpoint_version: u32,
    pub graph_id: String,
    pub session_id: SessionId,
    pub loop_id: LoopId,
    pub current_node: String,
    pub status: LoopStatus,
    pub state: ExecutionState,
}

/// A checkpoint as a mathematical value.
#[verifier::ext_equal]
pub struct Checkpoint {
    pub checkpoint_version: u32,
    pub graph_id: Seq<char>,
    pub session_id: SessionId,
    pub loop_id: LoopId,
    pub current_node: Seq<char>,
    pub status: LoopStatus,
    pub state: State,
}

impl View for LoopState {
    type V = Checkpoint;

    open spec fn view(&self) -> Checkpoint {
        Checkpoint {
            checkpoint_version: self.checkpoint_version,
            graph_id: self.graph_id@,
            session_id: self.session_id,
            loop_id: self.loop_id,
            current_node: self.current_node@,
            status: self.status,
            state: self.state@,
        }
    }
}

impl Clone for LoopState {
    fn clone(&self) -> (result: Self)
        ensures
            result@ == self@,
    {
        LoopState {
            checkpoint_version: self.checkpoint_version,
            graph_id: self.graph_id.clone(),
            session_id: self.session_id,
            loop_id: self.loop_id,
            current_node: self.current_node.clone(),
            status: self.status,
            state: self.state.clone(),
        }
    }
}

} // verus!
