//! Committing what a batch was distilled into, piece by piece, each under a
//! claim that was found current just before.
use vstd::prelude::*;

use crate::domain::abstract_node::AbstractNode;
use crate::engine::distillation;
use crate::engine::distillation::{
    check_updates, key_distilled_node, require_claim, BatchClaim, CommitStage,
    DistillationBatchResult,
};
use crate::engine::operation_keys;
use crate::error;
use crate::error::Result;
use crate::ids::{LoopId, SessionId};
use crate::memory::distillation::{DistillationOutput, RawLifecycleUpdate};

verus! {

/// What a commit does next.
#[derive(Debug)]
pub enum CommitStep {
    /// Find out whether the claim is current.
    Check,
    /// Persist this node.
    Node(AbstractNode),
    /// Make this change.
    Update(RawLifecycleUpdate),
    /// All is committed.
    Over,
}

/// The commit of a batch: the new nodes, then the changes of raw nodes.
#[derive(Debug)]
pub struct BatchCommit {
    pub session_id: SessionId,
    pub loop_id: LoopId,
    pub input_digest: String,
    pub nodes: Vec<AbstractNode>,
    pub updates: Vec<RawLifecycleUpdate>,
    /// Whether the claim was current when the commit started.
    pub started: bool,
    /// Whether the claim was found current since the last piece.
    pub checked: bool,
    pub nodes_done: usize,
    pub updates_done: usize,
    pub result: DistillationBatchResult,
}

impl BatchCommit {
    /// Whether the counts agree with each other.
    pub open spec fn well_formed(self) -> bool {
        &&& self.nodes_done <= self.nodes@.len()
        &&& self.updates_done <= self.updates@.len()
        &&& self.checked ==> self.started
        &&& !self.started ==> self.nodes_done == 0 && self.updates_done == 0
        &&& self.updates_done > 0 ==> self.nodes_done == self.nodes@.len()
        &&& self.result.updated_raw_nodes == self.updates_done
        &&& self.result.new_abstract_ids@.len() <= self.nodes_done
    }

    /// At which point of the commit the claim is checked next.
    pub open spec fn stage(self) -> CommitStage {
        if !self.started {
            CommitStage::Start
        } else if self.nodes_done < self.nodes@.len() {
            CommitStage::Node
        } else {
            CommitStage::Lifecycle
        }
    }

    /// Whether all pieces are handed out.
    pub open spec fn is_over(self) -> bool {
        &&& self.started
        &&& self.nodes_done == self.nodes@.len()
        &&& self.updates_done == self.updates@.len()
    }

    /// Starts to commit what the distiller handed back. Changes beyond the
    /// batch are refused before anything is committed.
    pub fn begin(
        batch: &BatchClaim,
        session_id: SessionId,
        loop_id: LoopId,
        distilled: DistillationOutput,
    ) -> (result: Result<BatchCommit>)
        ensures
            if distillation::updates_stay_in_batch(batch.input_ids@, distilled.raw_updates@) {
                &&& result is Ok
                &&& result->Ok_0.well_formed()
                &&& result->Ok_0.session_id == session_id
                &&& result->Ok_0.loop_id == loop_id
                &&& result->Ok_0.input_digest@ == batch.input_digest@
                &&& result->Ok_0.nodes == distilled.new_nodes
                &&& result->Ok_0.updates == distilled.raw_updates
                &&& !result->Ok_0.started
                &&& result->Ok_0.result.new_abstract_ids@.len() == 0
            } else {
                result is Err && error::is_storage(
                    result->Err_0,
                    "distiller returned an out-of-batch or duplicate raw update"@,
                )
            },
    {
        match check_updates(batch.input_ids.as_slice(), distilled.raw_updates.as_slice()) {
            Ok(()) => {},
            Err(failure) => return Err(failure),
        }
        Ok(
            BatchCommit {
                session_id,
                loop_id,
                input_digest: batch.input_digest.clone(),
                nodes: distilled.new_nodes,
                updates: distilled.raw_updates,
                started: false,
                checked: false,
                nodes_done: 0,
                updates_done: 0,
                result: DistillationBatchResult { new_abstract_ids: Vec::new(), updated_raw_nodes: 0 },
            },
        )
    }

    /// Takes note of whether the claim is current. A claim that was lost ends
    /// the commit.
    pub fn note_claim(&mut self, is_current: bool) -> (result: Result<()>)
        requires
            old(self).well_formed(),
        ensures
            final(self).well_formed(),
            if is_current {
                &&& result is Ok
                &&& *final(self) == (BatchCommit {
                    started: true,
                    checked: old(self).started,
                    ..*old(self)
                })
            } else {
                &&& result is Err
                &&& error::is_recovery_unsafe(
                    result->Err_0,
                    distillation::lost_claim_message(old(self).stage()),
                )
                &&& *final(self) == *old(self)
            },
    {
        let stage = if !self.started {
            CommitStage::Start
        } else if self.nodes_done < self.nodes.len() {
            CommitStage::Node
        } else {
            CommitStage::Lifecycle
        };
        match require_claim(is_current, stage) {
            Ok(()) => {},
            Err(failure) => return Err(failure),
        }
        self.checked = self.started;
        self.started = true;
        Ok(())
    }

    /// What to do next. A piece is handed out only after the claim was found
    /// current, and each piece needs a check of its own.
    pub fn next_step(&mut self) -> (step: CommitStep)
        requires
            old(self).well_formed(),
        ensures
            final(self).well_formed(),
            final(self).session_id == old(self).session_id,
            final(self).loop_id == old(self).loop_id,
            final(self).input_digest == old(self).input_digest,
            final(self).nodes == old(self).nodes,
            final(self).updates == old(self).updates,
            final(self).started == old(self).started,
            final(self).result.new_abstract_ids == old(self).result.new_abstract_ids,
            step is Node || step is Update ==> old(self).checked && !final(self).checked,
            if old(self).is_over() {
                step is Over && *final(self) == *old(self)
            } else if !old(self).checked {
                step is Check && *final(self) == *old(self)
            } else if old(self).nodes_done < old(self).nodes@.len() {
                &&& step matches CommitStep::Node(node) && node@
                    == old(self).nodes@[old(self).nodes_done as int]@.keyed(
                    operation_keys::distillation_key(
                        old(self).session_id,
                        old(self).loop_id,
                        old(self).input_digest@,
                        old(self).nodes_done as nat,
                    ),
                )
                &&& final(self).nodes_done == old(self).nodes_done + 1
                &&& final(self).updates_done == old(self).updates_done
            } else {
                &&& step matches CommitStep::Update(update) && update
                    == old(self).updates@[old(self).updates_done as int]
                &&& final(self).nodes_done == old(self).nodes_done
                &&& final(self).updates_done == old(self).updates_done + 1
            },
    {
        if self.started && self.nodes_done >= self.nodes.len() && self.updates_done
            >= self.updates.len() {
            return CommitStep::Over;
        }
        if !self.checked {
            return CommitStep::Check;
        }
        self.checked = false;
        if self.nodes_done < self.nodes.len() {
            let index: usize = self.nodes_done;
            self.nodes_done = index + 1;
            return CommitStep::Node(
                key_distilled_node(
                    self.nodes[index].clone(),
                    self.session_id,
                    self.loop_id,
                    self.input_digest.as_str(),
                    index,
                ),
            );
        }
        let index: usize = self.updates_done;
        self.updates_done = index + 1;
        self.result.updated_raw_nodes = index + 1;
        CommitStep::Update(self.updates[index])
    }

    /// Notes a node that was persisted; one that was there before is not new.
    pub fn note_node(&mut self, inserted: Option<AbstractNode>)
        requires
            old(self).well_formed(),
            old(self).result.new_abstract_ids@.len() < old(self).nodes_done,
        ensures
            final(self).well_formed(),
            final(self).session_id == old(self).session_id,
            final(self).loop_id == old(self).loop_id,
            final(self).input_digest == old(self).input_digest,
            final(self).nodes == old(self).nodes,
            final(self).updates == old(self).updates,
            final(self).started == old(self).started,
            final(self).checked == old(self).checked,
            final(self).nodes_done == old(self).nodes_done,
            final(self).updates_done == old(self).updates_done,
            final(self).result.new_abstract_ids@ == match inserted {
                Some(node) => old(self).result.new_abstract_ids@.push(node.id),
                None => old(self).result.new_abstract_ids@,
            },
    {
        if let Some(node) = inserted {
            self.result.new_abstract_ids.push(node.id);
        }
    }

    /// What the batch was distilled into.
    pub fn finish(self) -> (result: DistillationBatchResult)
        requires
            self.well_formed(),
        ensures
            result == self.result,
            result.updated_raw_nodes == self.updates_done,
    {
        self.result
    }
}

/// A commit is over only when every node and every change was handed out, and
/// then at once; it counts every change that it made.
pub proof fn finished_commits_leave_nothing(commit: BatchCommit)
    requires
        commit.well_formed(),
    ensures
        commit.is_over() <==> commit.started && commit.nodes_done + commit.updates_done
            == commit.nodes@.len() + commit.updates@.len(),
        commit.is_over() ==> commit.nodes_done == commit.nodes@.len() && commit.updates_done
            == commit.updates@.len() && commit.result.updated_raw_nodes == commit.updates@.len(),
        commit.stage() == CommitStage::Start <==> !commit.started,
        commit.stage() == CommitStage::Node <==> commit.started && commit.nodes_done
            < commit.nodes@.len(),
{
}

} // verus!
