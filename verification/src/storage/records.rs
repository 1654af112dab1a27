//! Records that travel between the engine and its repositories.
use vstd::prelude::*;

use crate::domain::abstract_node::AbstractNode;
use crate::domain::raw_node::{DistillationState, OverflowPolicy, Raw, RawNode};
use crate::float32::Float32;
use crate::ids::{AbstractNodeId, LoopId, RawNodeId, SessionId};
use crate::text;
use crate::time::Timestamp;

verus! {

/// A raw node that a search found, with its similarity.
#[derive(Debug, Clone, Copy, PartialEq, Eq, Structural)]
pub struct ScoredRawRef {
    pub id: RawNodeId,
    pub score: Float32,
}

/// An abstract node that a search found, with its similarity.
#[derive(Debug, Clone, Copy, PartialEq, Eq, Structural)]
pub struct ScoredAbstractRef {
    pub id: AbstractNodeId,
    pub score: Float32,
}

impl View for ScoredRawRef {
    type V = ScoredRawRef;

    open spec fn view(&self) -> ScoredRawRef {
        *self
    }
}

impl View for ScoredAbstractRef {
    type V = ScoredAbstractRef;

    open spec fn view(&self) -> ScoredAbstractRef {
        *self
    }
}

/// A node that a walk through the graph reached.
#[derive(Debug, PartialEq, Eq)]
pub struct GraphTraversalHit {
    pub node_id: AbstractNodeId,
    pub depth: usize,
    pub via_predicate: Option<String>,
}

/// A node that was reached, as a mathematical value.
#[verifier::ext_equal]
pub struct Hit {
    pub node_id: AbstractNodeId,
    pub depth: nat,
    pub via_predicate: Option<Seq<char>>,
}

impl View for GraphTraversalHit {
    type V = Hit;

    open spec fn view(&self) -> Hit {
        Hit {
            node_id: self.node_id,
            depth: self.depth as nat,
            via_predicate: text::opt_text(self.via_predicate),
        }
    }
}

impl Clone for GraphTraversalHit {
    fn clone(&self) -> (result: Self)
        ensures
            result == *self,
    {
        GraphTraversalHit {
            node_id: self.node_id,
            depth: self.depth,
            via_predicate: self.via_predicate.clone(),
        }
    }
}

/// What changes about a raw node.
#[derive(Debug, Clone, Copy, PartialEq, Eq, Structural)]
pub struct RawLifecyclePatch {
    pub distillation_state: Option<DistillationState>,
    pub overflow: Option<OverflowPolicy>,
}

impl Default for RawLifecyclePatch {
    fn default() -> (patch: Self)
        ensures
            patch == (RawLifecyclePatch { distillation_state: None, overflow: None }),
    {
        RawLifecyclePatch { distillation_state: None, overflow: None }
    }
}

impl RawLifecyclePatch {
    /// A node with the changes made.
    pub open spec fn applied(self, node: Raw) -> Raw {
        Raw {
            distillation_state: match self.distillation_state {
                Some(state) => state,
                None => node.distillation_state,
            },
            overflow: match self.overflow {
                Some(overflow) => overflow,
                None => node.overflow,
            },
            ..node
        }
    }

    /// Makes the changes to a node.
    pub fn apply(&self, node: RawNode) -> (result: RawNode)
        ensures
            result@ == self.applied(node@),
    {
        let mut result = node;
        if let Some(state) = self.distillation_state {
            result.distillation_state = state;
        }
        if let Some(overflow) = self.overflow {
            result.overflow = overflow;
        }
        result
    }
}

/// What came of committing a node.
#[derive(Debug, PartialEq, Eq)]
pub struct NodeCommit<T> {
    pub node: T,
    pub inserted: bool,
    /// Whether the node, its embedding and its edges were committed at once.
    pub projections_committed: bool,
}

/// What comes of committing a raw node once: the node that was committed under
/// its operation key before, or else the node itself, which is to be inserted.
pub fn commit_once(existing: Option<RawNode>, node: RawNode) -> (commit: NodeCommit<RawNode>)
    ensures
        commit.inserted == (existing is None),
        commit.node == (match existing {
            Some(earlier) => earlier,
            None => node,
        }),
        !commit.projections_committed,
{
    match existing {
        Some(earlier) => NodeCommit {
            node: earlier,
            inserted: false,
            projections_committed: false,
        },
        None => NodeCommit { node, inserted: true, projections_committed: false },
    }
}

/// What comes of committing an abstract node once: the node that was committed
/// under its operation key before, or else the node itself, which is to be
/// inserted.
pub fn commit_abstract_once(existing: Option<AbstractNode>, node: AbstractNode) -> (commit:
    NodeCommit<AbstractNode>)
    ensures
        commit.inserted == (existing is None),
        commit.node == (match existing {
            Some(earlier) => earlier,
            None => node,
        }),
        !commit.projections_committed,
{
    match existing {
        Some(earlier) => NodeCommit {
            node: earlier,
            inserted: false,
            projections_committed: false,
        },
        None => NodeCommit { node, inserted: true, projections_committed: false },
    }
}

/// A lease on the distillation of one batch.
#[derive(Debug, PartialEq, Eq)]
pub struct DistillationClaim {
    pub session_id: SessionId,
    pub loop_id: LoopId,
    pub input_digest: String,
    pub lease_id: String,
    pub expires_at: Timestamp,
}

impl Clone for DistillationClaim {
    fn clone(&self) -> (result: Self)
        ensures
            result == *self,
    {
        DistillationClaim {
            session_id: self.session_id,
            loop_id: self.loop_id,
            input_digest: self.input_digest.clone(),
            lease_id: self.lease_id.clone(),
            expires_at: self.expires_at,
        }
    }
}

/// A lease as a mathematical value.
#[verifier::ext_equal]
pub struct Claim {
    pub session_id: SessionId,
    pub loop_id: LoopId,
    pub input_digest: Seq<char>,
    pub lease_id: Seq<char>,
    pub expires_at: Timestamp,
}

impl View for DistillationClaim {
    type V = Claim;

    open spec fn view(&self) -> Claim {
        Claim {
            session_id: self.session_id,
            loop_id: self.loop_id,
            input_digest: self.input_digest@,
            lease_id: self.lease_id@,
            expires_at: self.expires_at,
        }
    }
}

/// A change of lifecycle changes what it says and nothing else of a node.
pub proof fn patches_change_what_they_say(patch: RawLifecyclePatch, node: Raw)
    ensures
        ({
            let after = patch.applied(node);
            &&& patch.distillation_state matches Some(state) ==> after.distillation_state == state
            &&& patch.distillation_state is None ==> after.distillation_state
                == node.distillation_state
            &&& patch.overflow matches Some(overflow) ==> after.overflow == overflow
            &&& patch.overflow is None ==> after.overflow == node.overflow
            &&& after == (Raw {
                distillation_state: after.distillation_state,
                overflow: after.overflow,
                ..node
            })
        }),
{
}

} // verus!
