//! A batch from its claim to its release: it is distilled only under a claim,
//! and a claim that was granted is given back once, after all that was written.
use vstd::prelude::*;

use crate::domain::abstract_node::{Abstract, AbstractNode};
use crate::engine::batch_commit::{BatchCommit, CommitStep};
use crate::engine::distillation;
use crate::engine::distillation::{settle_batch, BatchClaim, DistillationBatchResult};
use crate::engine::operation_keys;
use crate::error;
use crate::error::{EngineError, Result};
use crate::ids::{LoopId, SessionId};
use crate::memory::distillation::{DistillationOutput, RawLifecycleUpdate};

verus! {

/// What a batch does next.
#[derive(Debug)]
pub enum BatchStep {
    /// Claim the loop.
    Claim,
    /// Hand the batch to the distiller.
    Distill,
    /// Find out whether the claim is current.
    Check,
    /// Persist this node.
    Node(AbstractNode),
    /// Make this change.
    Update(RawLifecycleUpdate),
    /// Give the claim back.
    Release,
    /// The batch is over.
    Over,
}

/// How far a batch is.
#[derive(Debug)]
pub enum BatchStage {
    /// The loop is to be claimed.
    Claiming,
    /// The claim is held and the batch is to be distilled.
    Distilling,
    /// What it was distilled into is committed.
    Committing(BatchCommit),
    /// The work came to an end and the claim is to be given back.
    Releasing(Result<DistillationBatchResult>),
    /// The claim is being given back.
    Released(Result<DistillationBatchResult>),
    /// The batch is over.
    Over(Result<Option<DistillationBatchResult>>),
}

/// What happened to the claim of a batch, and under it.
pub enum BatchEvent {
    /// The claim was granted.
    Granted,
    /// Another worker holds the loop.
    Refused,
    /// A node or a change was handed out to be written.
    Wrote,
    /// The claim was handed out to be given back.
    Released,
}

/// A number of writes in a row.
pub open spec fn writes(count: nat) -> Seq<BatchEvent> {
    Seq::new(count, |i: int| BatchEvent::Wrote)
}

/// What happens under a claim until it is given back.
pub open spec fn under_claim(count: nat) -> Seq<BatchEvent> {
    seq![BatchEvent::Granted] + writes(count)
}

/// Whether a claim was granted and is still held.
pub open spec fn is_held(events: Seq<BatchEvent>) -> bool {
    exists|count: nat| events == #[trigger] under_claim(count)
}

/// Whether a claim was granted and then given back.
pub open spec fn is_returned(events: Seq<BatchEvent>) -> bool {
    exists|count: nat| events == (#[trigger] under_claim(count)).push(BatchEvent::Released)
}

/// A batch that is claimed, distilled, committed and released.
pub struct ClaimedBatch {
    pub session_id: SessionId,
    pub loop_id: LoopId,
    pub batch: BatchClaim,
    pub stage: BatchStage,
    /// What happened so far.
    pub events: Ghost<Seq<BatchEvent>>,
}

impl ClaimedBatch {
    /// Whether what happened agrees with how far the batch is.
    pub open spec fn well_formed(self) -> bool {
        match self.stage {
            BatchStage::Claiming => self.events@.len() == 0,
            BatchStage::Distilling => self.events@ == under_claim(0),
            BatchStage::Committing(commit) => {
                &&& commit.well_formed()
                &&& commit.session_id == self.session_id
                &&& commit.loop_id == self.loop_id
                &&& commit.input_digest@ == self.batch.input_digest@
                &&& self.events@ == under_claim((commit.nodes_done + commit.updates_done) as nat)
            },
            BatchStage::Releasing(_) => is_held(self.events@),
            BatchStage::Released(_) => is_returned(self.events@),
            BatchStage::Over(result) => {
                ||| self.events@.len() == 0 && result is Err
                ||| self.events@ == seq![BatchEvent::Refused] && result
                    == Ok::<Option<DistillationBatchResult>, EngineError>(None)
                ||| is_returned(self.events@) && !(result matches Ok(None))
            },
        }
    }

    /// Whether another batch is this one but for how far it is.
    pub open spec fn is_same_batch(self, other: ClaimedBatch) -> bool {
        &&& self.session_id == other.session_id
        &&& self.loop_id == other.loop_id
        &&& self.batch == other.batch
    }

    /// Whether the work of the batch has not come to its end.
    pub open spec fn works(self) -> bool {
        self.stage is Claiming || self.stage is Distilling || self.stage is Committing
    }

    /// A batch that nothing happened to yet.
    pub fn begin(batch: BatchClaim, session_id: SessionId, loop_id: LoopId) -> (claimed: Self)
        ensures
            claimed.well_formed(),
            claimed.session_id == session_id,
            claimed.loop_id == loop_id,
            claimed.batch == batch,
            claimed.stage is Claiming,
            claimed.events@.len() == 0,
    {
        ClaimedBatch {
            session_id,
            loop_id,
            batch,
            stage: BatchStage::Claiming,
            events: Ghost(Seq::empty()),
        }
    }

    /// Takes note of whether the claim was granted. Without it the batch is over
    /// and nothing came of it.
    pub fn note_lease(&mut self, granted: bool)
        requires
            old(self).well_formed(),
            old(self).stage is Claiming,
        ensures
            final(self).well_formed(),
            final(self).is_same_batch(*old(self)),
            granted ==> final(self).stage is Distilling && final(self).events@ == seq![
                BatchEvent::Granted,
            ],
            !granted ==> final(self).stage == BatchStage::Over(Ok(None)) && final(self).events@
                == seq![BatchEvent::Refused],
    {
        if granted {
            self.stage = BatchStage::Distilling;
            proof {
                self.events@ = seq![BatchEvent::Granted];
                assert(under_claim(0) =~= seq![BatchEvent::Granted]);
            }
        } else {
            self.stage = BatchStage::Over(Ok(None));
            proof {
                self.events@ = seq![BatchEvent::Refused];
            }
        }
    }

    /// Takes what the distiller handed back. Changes beyond the batch end the
    /// work before anything is committed.
    pub fn note_distilled(&mut self, distilled: DistillationOutput)
        requires
            old(self).well_formed(),
            old(self).stage is Distilling,
        ensures
            final(self).well_formed(),
            final(self).is_same_batch(*old(self)),
            final(self).events@ == old(self).events@,
            if distillation::updates_stay_in_batch(
                old(self).batch.input_ids@,
                distilled.raw_updates@,
            ) {
                &&& final(self).stage matches BatchStage::Committing(commit)
                &&& commit.nodes == distilled.new_nodes
                &&& commit.updates == distilled.raw_updates
                &&& !commit.started
                &&& commit.result.new_abstract_ids@.len() == 0
            } else {
                final(self).stage matches BatchStage::Releasing(Err(failure)) && error::is_storage(
                    failure,
                    "distiller returned an out-of-batch or duplicate raw update"@,
                )
            },
    {
        assert(is_held(self.events@));
        match BatchCommit::begin(&self.batch, self.session_id, self.loop_id, distilled) {
            Ok(commit) => {
                self.stage = BatchStage::Committing(commit);
            },
            Err(failure) => {
                self.stage = BatchStage::Releasing(Err(failure));
            },
        }
    }

    /// Takes note of whether the claim is current. A claim that was lost ends
    /// the work.
    pub fn note_claim(&mut self, is_current: bool)
        requires
            old(self).well_formed(),
            old(self).stage is Committing,
        ensures
            final(self).well_formed(),
            final(self).is_same_batch(*old(self)),
            final(self).events@ == old(self).events@,
            match old(self).stage {
                BatchStage::Committing(commit) => if is_current {
                    final(self).stage == BatchStage::Committing(
                        (BatchCommit { started: true, checked: commit.started, ..commit }),
                    )
                } else {
                    final(self).stage matches BatchStage::Releasing(Err(failure))
                        && error::is_recovery_unsafe(
                        failure,
                        distillation::lost_claim_message(commit.stage()),
                    )
                },
                _ => false,
            },
    {
        let mut stage = BatchStage::Claiming;
        std::mem::swap(&mut stage, &mut self.stage);
        if let BatchStage::Committing(mut commit) = stage {
            assert(is_held(self.events@));
            match commit.note_claim(is_current) {
                Ok(()) => {
                    self.stage = BatchStage::Committing(commit);
                },
                Err(failure) => {
                    self.stage = BatchStage::Releasing(Err(failure));
                },
            }
        }
    }

    /// Notes a node that was persisted; one that was there before is not new.
    pub fn note_node(&mut self, inserted: Option<AbstractNode>)
        requires
            old(self).well_formed(),
            old(self).stage matches BatchStage::Committing(commit)
                && commit.result.new_abstract_ids@.len() < commit.nodes_done,
        ensures
            final(self).well_formed(),
            final(self).is_same_batch(*old(self)),
            final(self).events@ == old(self).events@,
            match (old(self).stage, final(self).stage) {
                (BatchStage::Committing(before), BatchStage::Committing(after)) => {
                    &&& after.nodes == before.nodes
                    &&& after.updates == before.updates
                    &&& after.started == before.started
                    &&& after.checked == before.checked
                    &&& after.nodes_done == before.nodes_done
                    &&& after.updates_done == before.updates_done
                    &&& after.result.new_abstract_ids@ == match inserted {
                        Some(node) => before.result.new_abstract_ids@.push(node.id),
                        None => before.result.new_abstract_ids@,
                    }
                },
                _ => false,
            },
    {
        let mut stage = BatchStage::Claiming;
        std::mem::swap(&mut stage, &mut self.stage);
        if let BatchStage::Committing(mut commit) = stage {
            commit.note_node(inserted);
            self.stage = BatchStage::Committing(commit);
        }
    }

    /// Ends the work with a failure. A claim that is held is still given back.
    pub fn fail(&mut self, failure: EngineError)
        requires
            old(self).well_formed(),
            old(self).works(),
        ensures
            final(self).well_formed(),
            final(self).is_same_batch(*old(self)),
            final(self).events@ == old(self).events@,
            final(self).stage == if old(self).stage is Claiming {
                BatchStage::Over(Err(failure))
            } else {
                BatchStage::Releasing(Err(failure))
            },
    {
        let unclaimed = match &self.stage {
            BatchStage::Claiming => true,
            _ => false,
        };
        if unclaimed {
            self.stage = BatchStage::Over(Err(failure));
        } else {
            assert(is_held(self.events@));
            self.stage = BatchStage::Releasing(Err(failure));
        }
    }

    /// What to do next. Nothing is handed out to be written unless the claim was
    /// found current just before, and the claim is handed out to be given back
    /// once the work came to its end, well or not.
    pub fn next_step(&mut self) -> (step: BatchStep)
        requires
            old(self).well_formed(),
            !(old(self).stage is Released),
        ensures
            final(self).well_formed(),
            final(self).is_same_batch(*old(self)),
            match old(self).stage {
                BatchStage::Claiming => step is Claim && *final(self) == *old(self),
                BatchStage::Distilling => step is Distill && *final(self) == *old(self),
                BatchStage::Committing(commit) => if commit.is_over() {
                    &&& step is Release
                    &&& final(self).stage == BatchStage::Released(Ok(commit.result))
                    &&& final(self).events@ == old(self).events@.push(BatchEvent::Released)
                } else if !commit.checked {
                    &&& step is Check
                    &&& final(self).stage == old(self).stage
                    &&& final(self).events@ == old(self).events@
                } else {
                    &&& final(self).events@ == old(self).events@.push(BatchEvent::Wrote)
                    &&& final(self).stage matches BatchStage::Committing(after)
                    &&& is_piece(commit, step, after)
                },
                BatchStage::Releasing(work) => {
                    &&& step is Release
                    &&& final(self).stage == BatchStage::Released(work)
                    &&& final(self).events@ == old(self).events@.push(BatchEvent::Released)
                },
                BatchStage::Released(_) => true,
                BatchStage::Over(_) => step is Over && *final(self) == *old(self),
            },
    {
        let ghost before = *self;
        let mut stage = BatchStage::Claiming;
        std::mem::swap(&mut stage, &mut self.stage);
        match stage {
            BatchStage::Claiming => BatchStep::Claim,
            BatchStage::Distilling => {
                self.stage = BatchStage::Distilling;
                BatchStep::Distill
            },
            BatchStage::Committing(mut commit) => {
                let ghost count = (commit.nodes_done + commit.updates_done) as nat;
                assert(writes(count).push(BatchEvent::Wrote) =~= writes(count + 1));
                assert(under_claim(count).push(BatchEvent::Wrote) =~= under_claim(count + 1));
                match commit.next_step() {
                    CommitStep::Check => {
                        self.stage = BatchStage::Committing(commit);
                        BatchStep::Check
                    },
                    CommitStep::Node(node) => {
                        proof {
                            self.events@ = before.events@.push(BatchEvent::Wrote);
                        }
                        self.stage = BatchStage::Committing(commit);
                        BatchStep::Node(node)
                    },
                    CommitStep::Update(update) => {
                        proof {
                            self.events@ = before.events@.push(BatchEvent::Wrote);
                        }
                        self.stage = BatchStage::Committing(commit);
                        BatchStep::Update(update)
                    },
                    CommitStep::Over => {
                        proof {
                            self.events@ = before.events@.push(BatchEvent::Released);
                        }
                        self.stage = BatchStage::Released(Ok(commit.finish()));
                        BatchStep::Release
                    },
                }
            },
            BatchStage::Releasing(work) => {
                proof {
                    self.events@ = before.events@.push(BatchEvent::Released);
                }
                self.stage = BatchStage::Released(work);
                BatchStep::Release
            },
            BatchStage::Released(work) => {
                self.stage = BatchStage::Released(work);
                BatchStep::Over
            },
            BatchStage::Over(result) => {
                self.stage = BatchStage::Over(result);
                BatchStep::Over
            },
        }
    }

    /// Takes note of how giving the claim back came out, which ends the batch.
    pub fn note_release(&mut self, release: Result<()>)
        requires
            old(self).well_formed(),
            old(self).stage is Released,
        ensures
            final(self).well_formed(),
            final(self).is_same_batch(*old(self)),
            final(self).events@ == old(self).events@,
            old(self).stage matches BatchStage::Released(work) && final(self).stage
                == BatchStage::Over(settled(work, release)),
    {
        let mut stage = BatchStage::Claiming;
        std::mem::swap(&mut stage, &mut self.stage);
        if let BatchStage::Released(work) = stage {
            self.stage = BatchStage::Over(settle_batch(work, release));
        }
    }

    /// What came of the batch: nothing where another worker holds the loop.
    pub fn finish(self) -> (result: Result<Option<DistillationBatchResult>>)
        requires
            self.well_formed(),
            self.stage is Over,
        ensures
            self.stage == BatchStage::Over(result),
            result == Ok::<Option<DistillationBatchResult>, EngineError>(None) <==> self.events@
                == seq![BatchEvent::Refused],
    {
        proof {
            claims_are_returned_once(self);
        }
        match self.stage {
            BatchStage::Over(result) => result,
            _ => Ok(None),
        }
    }
}

/// What a batch amounts to once its claim is released.
pub open spec fn settled(
    work: Result<DistillationBatchResult>,
    release: Result<()>,
) -> Result<Option<DistillationBatchResult>> {
    match work {
        Err(failure) => Err(failure),
        Ok(done) => match release {
            Err(failure) => Err(failure),
            Ok(()) => Ok(Some(done)),
        },
    }
}

/// Whether a step hands out the next piece of a commit: the nodes under their
/// keys, then the changes.
pub open spec fn is_piece(before: BatchCommit, step: BatchStep, after: BatchCommit) -> bool {
    &&& after.nodes == before.nodes
    &&& after.updates == before.updates
    &&& after.started == before.started
    &&& !after.checked
    &&& after.result.new_abstract_ids == before.result.new_abstract_ids
    &&& if before.nodes_done < before.nodes@.len() {
        &&& step matches BatchStep::Node(node) && node@ == before.nodes@[before.nodes_done as int]@.keyed(
            operation_keys::distillation_key(
                before.session_id,
                before.loop_id,
                before.input_digest@,
                before.nodes_done as nat,
            ),
        )
        &&& after.nodes_done == before.nodes_done + 1
        &&& after.updates_done == before.updates_done
    } else {
        &&& step matches BatchStep::Update(update) && update
            == before.updates@[before.updates_done as int]
        &&& after.nodes_done == before.nodes_done
        &&& after.updates_done == before.updates_done + 1
    }
}

/// However far a batch is, everything that was written was written after the
/// claim was granted and before it was given back, and the claim was given back
/// at most once.
pub proof fn writes_stay_under_the_claim(batch: ClaimedBatch, i: int)
    requires
        batch.well_formed(),
        0 <= i < batch.events@.len(),
    ensures
        batch.events@[i] is Wrote ==> 0 < i && batch.events@[0] is Granted,
        batch.events@[i] is Granted || batch.events@[i] is Refused ==> i == 0,
        batch.events@[i] is Released ==> 0 < i && batch.events@[0] is Granted && i
            == batch.events@.len() - 1,
{
}

/// When a batch is over, a claim that was granted was given back exactly once,
/// after all that was written. Where the claim was refused, or could not be
/// asked for, nothing was written and nothing given back, and nothing comes of
/// the batch exactly where it was refused.
pub proof fn claims_are_returned_once(batch: ClaimedBatch)
    requires
        batch.well_formed(),
        batch.stage is Over,
    ensures
        ({
            let events = batch.events@;
            &&& events.contains(BatchEvent::Granted) ==> {
                &&& events.last() is Released
                &&& forall|i: int|
                    0 <= i < events.len() - 1 ==> !((#[trigger] events[i]) is Released)
                &&& forall|i: int|
                    0 < i < events.len() - 1 ==> (#[trigger] events[i]) is Wrote
            }
            &&& !events.contains(BatchEvent::Granted) ==> forall|i: int|
                0 <= i < events.len() ==> (#[trigger] events[i]) is Refused
            &&& batch.stage matches BatchStage::Over(result) && (result
                == Ok::<Option<DistillationBatchResult>, EngineError>(None) <==> events == seq![
                BatchEvent::Refused,
            ])
        }),
{
    let events = batch.events@;
    if is_returned(events) {
        assert(events[0] is Granted);
        assert(events.contains(BatchEvent::Granted));
    }
}

/// Each piece that is handed out is the next one: no node and no change is left
/// out or handed out twice, all nodes come before all changes, and each node has
/// the key of its place. What comes of the batch is what its work came to, unless
/// the claim could not be given back.
pub proof fn pieces_come_in_order(
    before: BatchCommit,
    step: BatchStep,
    after: BatchCommit,
    work: Result<DistillationBatchResult>,
    release: Result<()>,
)
    requires
        before.well_formed(),
        !before.is_over(),
        before.started,
        is_piece(before, step, after),
    ensures
        after.nodes_done + after.updates_done == before.nodes_done + before.updates_done + 1,
        step matches BatchStep::Node(node) ==> {
            &&& before.nodes_done < before.nodes@.len()
            &&& after.nodes_done == before.nodes_done + 1
            &&& node@.operation_key == Some(
                operation_keys::distillation_key(
                    before.session_id,
                    before.loop_id,
                    before.input_digest@,
                    before.nodes_done as nat,
                ),
            )
            &&& node@ == (Abstract {
                operation_key: node@.operation_key,
                ..before.nodes@[before.nodes_done as int]@
            })
        },
        step matches BatchStep::Update(update) ==> {
            &&& before.nodes_done == before.nodes@.len()
            &&& after.updates_done == before.updates_done + 1
            &&& update == before.updates@[before.updates_done as int]
        },
        step is Node || step is Update,
        settled(work, release) is Ok <==> work is Ok && release is Ok,
        work matches Ok(done) ==> release is Ok ==> settled(work, release)
            == Ok::<Option<DistillationBatchResult>, EngineError>(Some(done)),
        work matches Err(failure) ==> settled(work, release) == Err::<
            Option<DistillationBatchResult>,
            EngineError,
        >(failure),
        work is Ok ==> (release matches Err(failure) ==> settled(work, release) == Err::<
            Option<DistillationBatchResult>,
            EngineError,
        >(failure)),
{
}

} // verus!
