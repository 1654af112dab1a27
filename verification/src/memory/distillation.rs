//! What a distiller is given and what it hands back.
use vstd::prelude::*;

use crate::domain::abstract_node::AbstractNode;
use crate::domain::raw_node::RawNode;
use crate::ids::{AbstractNodeId, LoopId, RawNodeId, SessionId};
use crate::storage::records::RawLifecyclePatch;

verus! {

/// A batch of raw nodes that is distilled.
#[derive(Debug)]
pub struct DistillationInput {
    pub session_id: SessionId,
    pub loop_id: LoopId,
    pub raw_nodes: Vec<RawNode>,
    pub activated_abstract_ids: Vec<AbstractNodeId>,
}

/// What changes about one raw node of the batch.
#[derive(Debug, Clone, Copy, PartialEq, Eq, Structural)]
pub struct RawLifecycleUpdate {
    pub raw_node_id: RawNodeId,
    pub patch: RawLifecyclePatch,
}

/// What came of a distillation.
#[derive(Debug)]
pub struct DistillationOutput {
    pub new_nodes: Vec<AbstractNode>,
    pub raw_updates: Vec<RawLifecycleUpdate>,
}

impl Default for DistillationOutput {
    fn default() -> (output: Self)
        ensures
            output.new_nodes@.len() == 0,
            output.raw_updates@.len() == 0,
    {
        DistillationOutput { new_nodes: Vec::new(), raw_updates: Vec::new() }
    }
}

} // verus!
