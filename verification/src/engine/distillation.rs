//! Distilling a batch of raw nodes once, under a claim.
use vstd::prelude::*;

use crate::config::EngineConfig;
use crate::domain::abstract_node;
use crate::domain::abstract_node::{Abstract, AbstractNode};
use crate::domain::raw_node;
use crate::domain::raw_node::{Raw, RawNode};
use crate::domain::relation;
use crate::domain::relation::Link;
use crate::engine::context_assembler;
use crate::engine::execution_graph::{ExecutionState, NodeOutcome, State};
use crate::engine::operation_keys;
use crate::engine::operation_keys::distillation_operation_key;
use crate::engine::tool_results::contains_id;
use crate::error;
use crate::error::{EngineError, Result};
use crate::ids;
use crate::ids::{
    AbstractNodeId, AbstractNodeIdOrder, LoopId, RawNodeId, RawNodeIdOrder, SessionId, Uuid,
};
use crate::memory::activation::RankedAbstract;
use crate::memory::distillation::RawLifecycleUpdate;
use crate::order;
use crate::order::{dedup, sort_by};
use crate::storage::in_memory;
use crate::storage::records::NodeCommit;
use crate::table;
use crate::table::Pair;
use crate::text;
use crate::text::{join, size_text};
use crate::time;
use crate::time::Duration;

verus! {

/// Whether a node belongs to a loop of a session.
pub open spec fn belongs(node: Raw, session_id: SessionId, loop_id: LoopId) -> bool {
    node.session_id == Some(session_id) && node.loop_id == Some(loop_id)
}

/// Whether every node belongs to a loop of a session.
pub open spec fn all_belong(nodes: Seq<Raw>, session_id: SessionId, loop_id: LoopId) -> bool {
    forall|i: int| 0 <= i < nodes.len() ==> belongs(#[trigger] nodes[i], session_id, loop_id)
}

/// The order of raw identifiers.
pub open spec fn raw_id_order() -> spec_fn(RawNodeId, RawNodeId) -> bool {
    |left: RawNodeId, right: RawNodeId| left.0.bits < right.0.bits
}

/// The order of abstract identifiers.
pub open spec fn abstract_id_order() -> spec_fn(AbstractNodeId, AbstractNodeId) -> bool {
    |left: AbstractNodeId, right: AbstractNodeId| left.0.bits < right.0.bits
}

/// Raw identifiers in order, each once.
pub open spec fn distinct_raw_ids(ids: Seq<RawNodeId>) -> Seq<RawNodeId> {
    order::deduped(order::ordered(raw_id_order(), ids))
}

/// Abstract identifiers in order, each once.
pub open spec fn distinct_abstract_ids(ids: Seq<AbstractNodeId>) -> Seq<AbstractNodeId> {
    order::deduped(order::ordered(abstract_id_order(), ids))
}

/// Puts raw identifiers in order and drops repetitions.
pub fn sort_raw_ids(ids: Vec<RawNodeId>) -> (result: Vec<RawNodeId>)
    ensures
        result@ == distinct_raw_ids(ids@),
{
    let ghost given = ids@;
    assert(order::views(ids@) =~= given);
    let sorted = sort_by(ids, &RawNodeIdOrder);
    assert(order::order_of::<RawNodeId, RawNodeIdOrder>(&RawNodeIdOrder) =~= raw_id_order());
    assert(order::views(sorted@) =~= sorted@);
    let result = dedup(sorted);
    assert(order::views(result@) =~= result@);
    result
}

/// Puts abstract identifiers in order and drops repetitions.
pub fn sort_abstract_ids(ids: Vec<AbstractNodeId>) -> (result: Vec<AbstractNodeId>)
    ensures
        result@ == distinct_abstract_ids(ids@),
{
    let ghost given = ids@;
    assert(order::views(ids@) =~= given);
    let sorted = sort_by(ids, &AbstractNodeIdOrder);
    assert(order::order_of::<AbstractNodeId, AbstractNodeIdOrder>(&AbstractNodeIdOrder)
        =~= abstract_id_order());
    assert(order::views(sorted@) =~= sorted@);
    let result = dedup(sorted);
    assert(order::views(result@) =~= result@);
    result
}

/// The notation of raw identifiers.
pub open spec fn raw_id_texts(ids: Seq<RawNodeId>) -> Seq<Seq<char>> {
    ids.map_values(|id: RawNodeId| ids::hyphenated(id.0.bits))
}

/// The digest of a batch, which depends on its identifiers alone.
pub open spec fn batch_digest(ids: Seq<RawNodeId>) -> Seq<char> {
    ids::hyphenated(
        ids::uuid_of_name(text::joined(raw_id_texts(distinct_raw_ids(ids)), ":"@)),
    )
}

/// For how long a batch is claimed: twice the time that its distillation may
/// take and five seconds, in nanoseconds.
pub open spec fn lease_nanos(timeout: Duration) -> nat {
    2 * timeout.total() + 5_000_000_000
}

/// The longest span in nanoseconds.
pub open spec fn longest_nanos() -> nat {
    (u64::MAX * 1_000_000_000 + 999_999_999) as nat
}

/// Why a batch is refused, if it is.
pub enum BatchFault {
    Configuration(Seq<char>),
    Storage(Seq<char>),
}

/// Why a batch is refused, if it is.
pub open spec fn batch_fault(
    nodes: Seq<Raw>,
    max_loop_nodes: nat,
    session_id: SessionId,
    loop_id: LoopId,
    timeout: Duration,
) -> Option<BatchFault> {
    let ids = context_assembler::raw_ids(nodes);
    if nodes.len() > max_loop_nodes {
        Some(
            BatchFault::Configuration(
                "distillation batch contains "@ + text::decimal(nodes.len())
                    + " raw nodes, exceeding max_loop_nodes="@ + text::decimal(max_loop_nodes),
            ),
        )
    } else if !all_belong(nodes, session_id, loop_id) {
        Some(
            BatchFault::Storage(
                "distillation batch contains a cross-session or cross-loop raw node"@,
            ),
        )
    } else if distinct_raw_ids(ids).len() != nodes.len() {
        Some(BatchFault::Storage("distillation batch contains duplicate raw node ids"@))
    } else if lease_nanos(timeout) > longest_nanos() {
        Some(BatchFault::Configuration("distillation timeout is too large"@))
    } else {
        None
    }
}

/// Whether an error reports a fault of a batch.
pub open spec fn reports_fault(failure: EngineError, fault: BatchFault) -> bool {
    match fault {
        BatchFault::Configuration(message) => error::is_configuration(failure, message),
        BatchFault::Storage(message) => error::is_storage(failure, message),
    }
}

/// What is claimed before a batch is distilled.
#[derive(Debug)]
pub struct BatchClaim {
    pub input_ids: Vec<RawNodeId>,
    pub input_digest: String,
    pub lease_for: Duration,
}

/// How a batch starts.
#[derive(Debug)]
pub enum BatchStart {
    /// There is nothing to distill.
    Empty,
    /// The batch is to be claimed.
    Claim(BatchClaim),
}

/// Opens a batch: checks that it is one batch of one loop, and says what is to
/// be claimed.
pub fn open_batch(
    config: &EngineConfig,
    session_id: SessionId,
    loop_id: LoopId,
    raw_nodes: &[RawNode],
    distillation_timeout: Duration,
) -> (result: Result<BatchStart>)
    requires
        distillation_timeout.well_formed(),
    ensures
        ({
            let nodes = raw_node::raws(raw_nodes@);
            let ids = context_assembler::raw_ids(nodes);
            if nodes.len() == 0 {
                result == Ok::<BatchStart, EngineError>(BatchStart::Empty)
            } else {
                match batch_fault(
                    nodes,
                    config.runtime.max_loop_nodes as nat,
                    session_id,
                    loop_id,
                    distillation_timeout,
                ) {
                    Some(fault) => result is Err && reports_fault(result->Err_0, fault),
                    None => result matches Ok(BatchStart::Claim(claim)) && claim.input_ids@
                        == distinct_raw_ids(ids) && claim.input_digest@ == batch_digest(ids)
                        && claim.lease_for.well_formed() && claim.lease_for.total()
                        == lease_nanos(distillation_timeout),
                }
            }
        }),
{
    let ghost nodes = raw_node::raws(raw_nodes@);
    if raw_nodes.len() == 0 {
        return Ok(BatchStart::Empty);
    }
    if raw_nodes.len() > config.runtime.max_loop_nodes {
        return Err(
            EngineError::Configuration(
                "distillation batch contains ".to_string().concat(
                    size_text(raw_nodes.len()).as_str(),
                ).concat(" raw nodes, exceeding max_loop_nodes=").concat(
                    size_text(config.runtime.max_loop_nodes).as_str(),
                ),
            ),
        );
    }
    let mut given: Vec<RawNodeId> = Vec::new();
    let mut index: usize = 0;
    while index < raw_nodes.len()
        invariant
            index <= raw_nodes.len(),
            nodes == raw_node::raws(raw_nodes@),
            nodes.len() > 0,
            raw_nodes.len() <= config.runtime.max_loop_nodes,
            given@ == context_assembler::raw_ids(nodes.take(index as int)),
            forall|i: int|
                0 <= i < index ==> belongs(#[trigger] nodes[i], session_id, loop_id),
        decreases raw_nodes.len() - index,
    {
        let node = &raw_nodes[index];
        assert(nodes[index as int] == node@);
        let same_session = match node.session_id {
            Some(id) => id == session_id,
            None => false,
        };
        let same_loop = match node.loop_id {
            Some(id) => id == loop_id,
            None => false,
        };
        if !same_session || !same_loop {
            assert(!all_belong(nodes, session_id, loop_id));
            return Err(
                EngineError::Storage(
                    "distillation batch contains a cross-session or cross-loop raw node".to_string(),
                ),
            );
        }
        given.push(node.id);
        assert(context_assembler::raw_ids(nodes.take(index + 1)) =~= context_assembler::raw_ids(
            nodes.take(index as int),
        ).push(node@.id));
        index = index + 1;
    }
    assert(nodes.take(nodes.len() as int) =~= nodes);
    let input_ids = sort_raw_ids(given);
    if input_ids.len() != raw_nodes.len() {
        return Err(
            EngineError::Storage("distillation batch contains duplicate raw node ids".to_string()),
        );
    }
    let lease = match distillation_timeout.checked_double() {
        Some(doubled) => doubled.checked_add(Duration::from_secs(5)),
        None => None,
    };
    let lease_for = match lease {
        Some(span) => span,
        None => return Err(
            EngineError::Configuration("distillation timeout is too large".to_string()),
        ),
    };
    let input_digest = digest_ids(input_ids.as_slice());
    Ok(BatchStart::Claim(BatchClaim { input_ids, input_digest, lease_for }))
}

fn digest_ids(ids: &[RawNodeId]) -> (digest: String)
    ensures
        digest@ == ids::hyphenated(ids::uuid_of_name(text::joined(raw_id_texts(ids@), ":"@))),
{
    let mut parts: Vec<String> = Vec::new();
    let mut index: usize = 0;
    while index < ids.len()
        invariant
            index <= ids.len(),
            text::texts(parts@) == raw_id_texts(ids@.take(index as int)),
        decreases ids.len() - index,
    {
        let ghost before = text::texts(parts@);
        let part = ids[index].to_string();
        parts.push(part);
        proof {
            assert(text::texts(parts@) =~= before.push(part@));
            assert(raw_id_texts(ids@.take(index + 1)) =~= before.push(part@));
        }
        index = index + 1;
    }
    assert(ids@.take(ids@.len() as int) =~= ids@);
    Uuid::of_name(join(parts.as_slice(), ":").as_str()).to_string()
}

/// One batch has one digest, in whatever order its nodes are read, so that it
/// is claimed and distilled once.
pub proof fn digests_forget_order(left: Seq<RawNodeId>, right: Seq<RawNodeId>)
    requires
        left.to_multiset() == right.to_multiset(),
    ensures
        batch_digest(left) == batch_digest(right),
        distinct_raw_ids(left) == distinct_raw_ids(right),
{
    let before = raw_id_order();
    assert(order::is_weak_order(before, |value: RawNodeId| true));
    assert forall|a: RawNodeId, b: RawNodeId| !#[trigger] before(a, b) && !before(
        b,
        a,
    ) implies a == b by {
        assert(a.0.bits == b.0.bits);
    }
    order::sorting_forgets_arrival(before, left, right);
}

/// The identifiers of an accepted batch are those of its nodes, in strict
/// order.
pub proof fn batch_ids_are_strict(ids: Seq<RawNodeId>)
    ensures
        order::is_strictly_ordered(raw_id_order(), distinct_raw_ids(ids)),
        forall|id: RawNodeId| #[trigger] distinct_raw_ids(ids).contains(id) <==> ids.contains(id),
{
    broadcast use vstd::seq_lib::group_to_multiset_ensures;

    let before = raw_id_order();
    let kind = |value: RawNodeId| true;
    assert(order::is_weak_order(before, kind));
    assert forall|a: RawNodeId, b: RawNodeId| !#[trigger] before(a, b) && !before(
        b,
        a,
    ) implies a == b by {
        assert(a.0.bits == b.0.bits);
    }
    order::ordered_is_ordered(before, kind, ids);
    order::ordered_keeps_values(before, ids);
    let sorted = order::ordered(before, ids);
    order::sorted_unique(before, sorted);
    assert forall|id: RawNodeId| #[trigger] distinct_raw_ids(ids).contains(
        id,
    ) <==> ids.contains(id) by {
        assert(sorted.contains(id) <==> sorted.to_multiset().count(id) > 0);
        assert(ids.contains(id) <==> ids.to_multiset().count(id) > 0);
    }
}

/// Whether updates name nodes of a batch only, and each at most once.
pub open spec fn updates_stay_in_batch(
    inputs: Seq<RawNodeId>,
    updates: Seq<RawLifecycleUpdate>,
) -> bool {
    &&& forall|i: int|
        0 <= i < updates.len() ==> inputs.contains((#[trigger] updates[i]).raw_node_id)
    &&& forall|i: int, j: int|
        0 <= i < j < updates.len() ==> (#[trigger] updates[i]).raw_node_id != (
        #[trigger] updates[j]).raw_node_id
}

/// Checks that a distiller changes nodes of the batch only, and each once.
pub fn check_updates(input_ids: &[RawNodeId], updates: &[RawLifecycleUpdate]) -> (result: Result<
    (),
>)
    ensures
        updates_stay_in_batch(input_ids@, updates@) ==> result is Ok,
        !updates_stay_in_batch(input_ids@, updates@) ==> result is Err && error::is_storage(
            result->Err_0,
            "distiller returned an out-of-batch or duplicate raw update"@,
        ),
{
    let mut seen: Vec<RawNodeId> = Vec::new();
    let mut index: usize = 0;
    while index < updates.len()
        invariant
            index <= updates.len(),
            seen.len() == index,
            forall|i: int| 0 <= i < index ==> #[trigger] seen@[i] == updates@[i].raw_node_id,
            updates_stay_in_batch(input_ids@, updates@.take(index as int)),
        decreases updates.len() - index,
    {
        let id = updates[index].raw_node_id;
        let inside = contains_id(input_ids, id);
        let repeated = contains_id(seen.as_slice(), id);
        if !inside || repeated {
            proof {
                if repeated {
                    let k = choose|k: int| 0 <= k < seen@.len() && seen@[k] == id;
                    assert(updates@[k].raw_node_id == updates@[index as int].raw_node_id);
                } else {
                    assert(!input_ids@.contains(updates@[index as int].raw_node_id));
                }
            }
            return Err(
                EngineError::Storage(
                    "distiller returned an out-of-batch or duplicate raw update".to_string(),
                ),
            );
        }
        seen.push(id);
        proof {
            let grown = updates@.take(index + 1);
            assert forall|i: int, j: int| 0 <= i < j < grown.len() implies (
            #[trigger] grown[i]).raw_node_id != (#[trigger] grown[j]).raw_node_id by {
                assert(grown[i] == updates@[i] && grown[j] == updates@[j]);
                if j < index {
                    assert(updates@.take(index as int)[i] == updates@[i]);
                    assert(updates@.take(index as int)[j] == updates@[j]);
                } else {
                    assert(seen@[i] == updates@[i].raw_node_id);
                }
            }
            assert forall|i: int| 0 <= i < grown.len() implies input_ids@.contains(
                (#[trigger] grown[i]).raw_node_id,
            ) by {
                assert(grown[i] == updates@[i]);
                if i < index {
                    assert(updates@.take(index as int)[i] == updates@[i]);
                }
            }
        }
        index = index + 1;
    }
    assert(updates@.take(updates@.len() as int) =~= updates@);
    Ok(())
}

/// At which point of a commit a claim is checked.
#[derive(Debug, Clone, Copy, PartialEq, Eq, Structural)]
pub enum CommitStage {
    Start,
    Node,
    Lifecycle,
}

/// How a lost claim is reported.
pub open spec fn lost_claim_message(stage: CommitStage) -> Seq<char> {
    match stage {
        CommitStage::Start => "distillation claim expired before commit"@,
        CommitStage::Node => "distillation claim was replaced during commit"@,
        CommitStage::Lifecycle => "distillation claim was replaced during lifecycle commit"@,
    }
}

/// Nothing is committed without a current claim.
pub fn require_claim(is_current: bool, stage: CommitStage) -> (result: Result<()>)
    ensures
        is_current ==> result is Ok,
        !is_current ==> result is Err && error::is_recovery_unsafe(
            result->Err_0,
            lost_claim_message(stage),
        ),
{
    if is_current {
        return Ok(());
    }
    let message = match stage {
        CommitStage::Start => "distillation claim expired before commit",
        CommitStage::Node => "distillation claim was replaced during commit",
        CommitStage::Lifecycle => "distillation claim was replaced during lifecycle commit",
    };
    Err(EngineError::RecoveryUnsafe(message.to_string()))
}

/// What a batch was distilled into.
#[derive(Debug)]
pub struct DistillationBatchResult {
    pub new_abstract_ids: Vec<AbstractNodeId>,
    pub updated_raw_nodes: usize,
}

impl Default for DistillationBatchResult {
    fn default() -> (result: Self)
        ensures
            result.new_abstract_ids@.len() == 0,
            result.updated_raw_nodes == 0,
    {
        DistillationBatchResult { new_abstract_ids: Vec::new(), updated_raw_nodes: 0 }
    }
}

/// What a batch amounts to once its claim is released: a failure of the work
/// comes before a failure of the release.
pub fn settle_batch(
    work: Result<DistillationBatchResult>,
    release: Result<()>,
) -> (result: Result<Option<DistillationBatchResult>>)
    ensures
        match work {
            Err(failure) => result == Err::<Option<DistillationBatchResult>, EngineError>(failure),
            Ok(done) => match release {
                Err(failure) => result == Err::<Option<DistillationBatchResult>, EngineError>(
                    failure,
                ),
                Ok(()) => result == Ok::<Option<DistillationBatchResult>, EngineError>(Some(done)),
            },
        },
{
    match work {
        Err(failure) => Err(failure),
        Ok(done) => match release {
            Err(failure) => Err(failure),
            Ok(()) => Ok(Some(done)),
        },
    }
}

/// The node of a batch under its key.
pub fn key_distilled_node(
    node: AbstractNode,
    session_id: SessionId,
    loop_id: LoopId,
    input_digest: &str,
    index: usize,
) -> (keyed: AbstractNode)
    ensures
        keyed@ == node@.keyed(
            operation_keys::distillation_key(session_id, loop_id, input_digest@, index as nat),
        ),
{
    node.with_operation_key(distillation_operation_key(session_id, loop_id, input_digest, index))
}

/// The node under the session whose runs may read it.
pub fn assign_session(node: AbstractNode, session_id: Option<SessionId>) -> (assigned: AbstractNode)
    ensures
        assigned@ == (Abstract { session_id, ..node@ }),
{
    let mut assigned = node;
    assigned.session_id = session_id;
    assigned
}

/// The node of a commit, if the commit put it in.
pub fn inserted_node(commit: NodeCommit<AbstractNode>) -> (node: Option<AbstractNode>)
    ensures
        commit.inserted ==> node == Some(commit.node),
        !commit.inserted ==> node is None,
{
    if commit.inserted {
        Some(commit.node)
    } else {
        None
    }
}

/// The raw nodes that relations rest on.
pub open spec fn link_provenance(links: Seq<Link>) -> Seq<RawNodeId>
    decreases links.len(),
{
    if links.len() == 0 {
        Seq::empty()
    } else {
        link_provenance(links.drop_last()) + links.last().provenance
    }
}

/// The raw nodes that an abstract node rests on, in order, each once.
pub open spec fn raw_provenance(node: Abstract) -> Seq<RawNodeId> {
    distinct_raw_ids(node.raw_references + link_provenance(node.links))
}

/// The raw nodes that an abstract node rests on.
pub fn raw_provenance_ids(node: &AbstractNode) -> (result: Vec<RawNodeId>)
    ensures
        result@ == raw_provenance(node@),
{
    let mut found: Vec<RawNodeId> = node.references.raw_node_ids.clone();
    assert(found@ =~= node@.raw_references);
    let ghost links = node@.links;
    let mut index: usize = 0;
    assert(links.take(0) =~= Seq::<Link>::empty());
    assert(found@ =~= node@.raw_references + link_provenance(links.take(0)));
    while index < node.graph.relations.len()
        invariant
            index <= node.graph.relations.len(),
            links == relation::links(node.graph.relations@),
            links == node@.links,
            found@ == node@.raw_references + link_provenance(links.take(index as int)),
        decreases node.graph.relations.len() - index,
    {
        let mut more: Vec<RawNodeId> = node.graph.relations[index].provenance_raw_node_ids.clone();
        let ghost added = more@;
        let ghost before = found@;
        assert(added =~= node.graph.relations@[index as int]@.provenance);
        found.append(&mut more);
        proof {
            assert(links.take(index + 1).drop_last() =~= links.take(index as int));
            assert(links.take(index + 1).last() == node.graph.relations@[index as int]@);
            assert(found@ =~= before + added);
            assert(before + added =~= node@.raw_references + (link_provenance(
                links.take(index as int),
            ) + added));
        }
        index = index + 1;
    }
    assert(links.take(links.len() as int) =~= links);
    sort_raw_ids(found)
}

/// The abstract nodes that an abstract node rests on.
pub fn abstract_provenance_ids(node: &AbstractNode) -> (result: Vec<AbstractNodeId>)
    ensures
        result@ == distinct_abstract_ids(node@.abstract_references),
{
    let ids = node.references.abstract_node_ids.clone();
    assert(ids@ =~= node@.abstract_references);
    sort_abstract_ids(ids)
}

/// Whether every node found belongs to a session.
pub open spec fn all_in_session(nodes: Seq<Raw>, session_id: SessionId) -> bool {
    forall|i: int| 0 <= i < nodes.len() ==> (#[trigger] nodes[i]).session_id == Some(session_id)
}

/// Whether every abstract node found belongs to a session.
pub open spec fn all_abstract_in_session(nodes: Seq<Abstract>, session_id: SessionId) -> bool {
    forall|i: int| 0 <= i < nodes.len() ==> (#[trigger] nodes[i]).session_id == Some(session_id)
}

/// Refuses raw provenance that is missing or of another session.
pub fn check_raw_provenance(
    session_id: SessionId,
    wanted: usize,
    found: &[RawNode],
) -> (result: Result<()>)
    ensures
        ({
            let sound = found@.len() == wanted && all_in_session(
                raw_node::raws(found@),
                session_id,
            );
            &&& sound ==> result is Ok
            &&& !sound ==> result is Err && error::is_storage(
                result->Err_0,
                "abstract node contains missing or cross-session raw provenance"@,
            )
        }),
{
    let ghost nodes = raw_node::raws(found@);
    let mut sound = found.len() == wanted;
    let mut index: usize = 0;
    while sound && index < found.len()
        invariant
            index <= found.len(),
            nodes == raw_node::raws(found@),
            sound ==> found@.len() == wanted && forall|i: int|
                0 <= i < index ==> (#[trigger] nodes[i]).session_id == Some(session_id),
            !sound ==> found@.len() != wanted || !all_in_session(nodes, session_id),
        decreases found.len() - index,
    {
        assert(nodes[index as int] == found@[index as int]@);
        sound = match found[index].session_id {
            Some(id) => id == session_id,
            None => false,
        };
        index = index + 1;
    }
    if sound {
        Ok(())
    } else {
        Err(
            EngineError::Storage(
                "abstract node contains missing or cross-session raw provenance".to_string(),
            ),
        )
    }
}

/// Refuses abstract provenance that is missing or of another session.
pub fn check_abstract_provenance(
    session_id: SessionId,
    wanted: usize,
    found: &[AbstractNode],
) -> (result: Result<()>)
    ensures
        ({
            let sound = found@.len() == wanted && all_abstract_in_session(
                abstract_node::abstracts(found@),
                session_id,
            );
            &&& sound ==> result is Ok
            &&& !sound ==> result is Err && error::is_storage(
                result->Err_0,
                "abstract node contains missing or cross-session abstract provenance"@,
            )
        }),
{
    let ghost nodes = abstract_node::abstracts(found@);
    let mut sound = found.len() == wanted;
    let mut index: usize = 0;
    while sound && index < found.len()
        invariant
            index <= found.len(),
            nodes == abstract_node::abstracts(found@),
            sound ==> found@.len() == wanted && forall|i: int|
                0 <= i < index ==> (#[trigger] nodes[i]).session_id == Some(session_id),
            !sound ==> found@.len() != wanted || !all_abstract_in_session(nodes, session_id),
        decreases found.len() - index,
    {
        assert(nodes[index as int] == found@[index as int]@);
        sound = match found[index].session_id {
            Some(id) => id == session_id,
            None => false,
        };
        index = index + 1;
    }
    if sound {
        Ok(())
    } else {
        Err(
            EngineError::Storage(
                "abstract node contains missing or cross-session abstract provenance".to_string(),
            ),
        )
    }
}

/// What a node of a session rests on.
#[derive(Debug)]
pub struct Provenance {
    pub session_id: SessionId,
    pub raw_ids: Vec<RawNodeId>,
    pub abstract_ids: Vec<AbstractNodeId>,
}

/// What a node rests on, where that is confined to a session; a node of no
/// session may rest on anything.
pub fn provenance_to_check(node: &AbstractNode) -> (result: Option<Provenance>)
    ensures
        match node@.session_id {
            Some(session_id) => {
                &&& result is Some
                &&& result->0.session_id == session_id
                &&& result->0.raw_ids@ == raw_provenance(node@)
                &&& result->0.abstract_ids@ == distinct_abstract_ids(node@.abstract_references)
            },
            None => result is None,
        },
{
    match node.session_id {
        Some(session_id) => Some(
            Provenance {
                session_id,
                raw_ids: raw_provenance_ids(node),
                abstract_ids: abstract_provenance_ids(node),
            },
        ),
        None => None,
    }
}

/// A node whose raw provenance is accepted rests on nodes that are stored and
/// belong to its session, whether it names them itself or by a relation.
pub proof fn accepted_provenance_exists(
    stored: Seq<Pair<RawNodeId, Raw>>,
    node: Abstract,
    session_id: SessionId,
    id: RawNodeId,
)
    requires
        in_memory::present(stored, raw_provenance(node)).len() == raw_provenance(node).len(),
        all_in_session(in_memory::present(stored, raw_provenance(node)), session_id),
        (node.raw_references + link_provenance(node.links)).contains(id),
    ensures
        table::lookup(stored, id) is Some,
        table::lookup(stored, id)->0.session_id == Some(session_id),
{
    let named = node.raw_references + link_provenance(node.links);
    let ids = raw_provenance(node);
    batch_ids_are_strict(named);
    assert(ids.contains(id));
    let i = choose|i: int| 0 <= i < ids.len() && ids[i] == id;
    in_memory::complete_lists_miss_nothing(stored, ids);
    assert(in_memory::present(stored, ids)[i].session_id == Some(session_id));
}

/// The text that an abstract node is embedded by.
pub open spec fn embedding_text(node: Abstract) -> Seq<char> {
    node.title + " "@ + node.summary
}

/// The text that an abstract node is embedded by.
pub fn abstract_embedding_text(node: &AbstractNode) -> (text: String)
    ensures
        text@ == embedding_text(node@),
{
    node.title.clone().concat(" ").concat(node.summary.as_str())
}

/// What is left to index after a commit.
#[derive(Debug, Clone, Copy, PartialEq, Eq, Structural)]
pub enum Projection {
    /// Nothing is left to index.
    Done,
    /// The node is indexed with the embedding at hand.
    Given,
    /// The node was there before and is indexed with an embedding of its own.
    Recomputed,
}

/// What is left to index after the commit of a raw node. One that was there
/// before is indexed again.
pub fn projection_after(inserted: bool, projections_committed: bool) -> (projection: Projection)
    ensures
        projection == if projections_committed {
            Projection::Done
        } else if inserted {
            Projection::Given
        } else {
            Projection::Recomputed
        },
{
    if projections_committed {
        Projection::Done
    } else if inserted {
        Projection::Given
    } else {
        Projection::Recomputed
    }
}

/// What is left to index after the commit of an abstract node. For one that was
/// there before nothing is written.
pub fn abstract_projection_after(inserted: bool, projections_committed: bool) -> (projection:
    Projection)
    ensures
        projection == if projections_committed || !inserted {
            Projection::Done
        } else {
            Projection::Given
        },
{
    if projections_committed || !inserted {
        Projection::Done
    } else {
        Projection::Given
    }
}

/// How many nodes of a loop are read: one more than may be distilled, so that
/// an overlong loop is noticed.
pub fn loop_read_limit(config: &EngineConfig) -> (limit: usize)
    ensures
        limit == if config.runtime.max_loop_nodes == usize::MAX {
            usize::MAX as int
        } else {
            config.runtime.max_loop_nodes + 1
        },
{
    config.runtime.max_loop_nodes.saturating_add(1)
}

/// Refuses a loop with more nodes than are distilled at once.
pub fn check_loop_size(config: &EngineConfig, loop_id: LoopId, raw_nodes: &[RawNode]) -> (result:
    Result<()>)
    ensures
        if raw_nodes@.len() > config.runtime.max_loop_nodes {
            result is Err && error::is_configuration(
                result->Err_0,
                "loop "@ + ids::hyphenated(loop_id.0.bits) + " exceeds max_loop_nodes="@
                    + text::decimal(config.runtime.max_loop_nodes as nat)
                    + "; split the turn before distillation"@,
            )
        } else {
            result is Ok
        },
{
    if raw_nodes.len() > config.runtime.max_loop_nodes {
        return Err(
            EngineError::Configuration(
                "loop ".to_string().concat(loop_id.to_string().as_str()).concat(
                    " exceeds max_loop_nodes=",
                ).concat(size_text(config.runtime.max_loop_nodes).as_str()).concat(
                    "; split the turn before distillation",
                ),
            ),
        );
    }
    Ok(())
}

/// The failure of a distillation that took too long.
pub fn distillation_timed_out(timeout: Duration) -> (failure: EngineError)
    requires
        timeout.well_formed(),
    ensures
        error::is_tool(
            failure,
            "distillation exceeded the configured timeout of "@ + time::duration_text(
                timeout.secs,
                timeout.nanos,
            ),
        ),
{
    EngineError::Tool(
        "distillation exceeded the configured timeout of ".to_string().concat(
            timeout.describe().as_str(),
        ),
    )
}

/// The identifiers of the abstract memories that a run activated.
pub fn activated_abstract_ids(state: &ExecutionState) -> (result: Vec<AbstractNodeId>)
    ensures
        result@ == state@.activated_memory.abstract_nodes.map_values(
            |ranked: RankedAbstract| ranked.node.id,
        ),
{
    let ghost all = state@.activated_memory.abstract_nodes;
    let ghost pick = |ranked: RankedAbstract| ranked.node.id;
    let mut result: Vec<AbstractNodeId> = Vec::new();
    let mut index: usize = 0;
    assert(result@ =~= all.take(0).map_values(pick));
    while index < state.activated_memory.abstract_nodes.len()
        invariant
            index <= state.activated_memory.abstract_nodes.len(),
            all == state@.activated_memory.abstract_nodes,
            pick == (|ranked: RankedAbstract| ranked.node.id),
            result@ == all.take(index as int).map_values(pick),
        decreases state.activated_memory.abstract_nodes.len() - index,
    {
        let id = state.activated_memory.abstract_nodes[index].node.id;
        result.push(id);
        assert(all[index as int].node.id == id);
        assert(all.take(index + 1).map_values(pick) =~= all.take(index as int).map_values(
            pick,
        ).push(id));
        index = index + 1;
    }
    assert(all.take(all.len() as int) =~= all);
    result
}

/// Notes what the distillation of the loop made and ends the run; a batch that
/// another run had claimed made nothing.
pub fn note_distillation(
    state: &mut ExecutionState,
    result: Option<DistillationBatchResult>,
) -> (outcome: NodeOutcome)
    ensures
        outcome == NodeOutcome::Finish,
        final(state)@ == (State {
            new_abstract_ids: match result {
                Some(made) => old(state)@.new_abstract_ids + made.new_abstract_ids@,
                None => old(state)@.new_abstract_ids,
            },
            ..old(state)@
        }),
{
    let ghost before = state@;
    if let Some(made) = result {
        let mut ids = made.new_abstract_ids;
        state.new_abstract_ids.append(&mut ids);
        assert(state@ =~= (State {
            new_abstract_ids: before.new_abstract_ids + made.new_abstract_ids@,
            ..before
        }));
    }
    NodeOutcome::Finish
}

proof fn few_distinct_ids_are_repeated(ids: Seq<RawNodeId>)
    ensures
        distinct_raw_ids(ids).len() == ids.len() <==> forall|i: int, j: int|
            0 <= i < j < ids.len() ==> #[trigger] ids[i] != #[trigger] ids[j],
{
    batch_ids_are_strict(ids);
    let kept = distinct_raw_ids(ids);
    assert(kept.no_duplicates()) by {
        assert forall|i: int, j: int| 0 <= i < kept.len() && 0 <= j < kept.len() && i != j implies
            kept[i] != kept[j] by {
            if i < j {
                assert(raw_id_order()(kept[i], kept[j]));
            } else {
                assert(raw_id_order()(kept[j], kept[i]));
            }
        }
    }
    assert(kept.to_set() =~= ids.to_set());
    kept.unique_seq_to_set();
    if distinct_raw_ids(ids).len() == ids.len() {
        ids.lemma_no_dup_set_cardinality();
    }
    if forall|i: int, j: int|
        0 <= i < j < ids.len() ==> #[trigger] ids[i] != #[trigger] ids[j] {
        assert(ids.no_duplicates());
        ids.unique_seq_to_set();
    }
}

/// A batch is opened exactly where it is no larger than a batch may be, all of
/// its nodes are of its loop, none occurs twice, and its lease can be told. A
/// lease lasts twice as long as distilling may take, and five seconds.
pub proof fn batches_are_opened_when_sound(
    nodes: Seq<Raw>,
    max_loop_nodes: nat,
    session_id: SessionId,
    loop_id: LoopId,
    timeout: Duration,
)
    ensures
        batch_fault(nodes, max_loop_nodes, session_id, loop_id, timeout) is None <==> {
            &&& nodes.len() <= max_loop_nodes
            &&& forall|i: int|
                0 <= i < nodes.len() ==> (#[trigger] nodes[i]).session_id == Some(session_id)
                    && nodes[i].loop_id == Some(loop_id)
            &&& forall|i: int, j: int|
                0 <= i < j < nodes.len() ==> (#[trigger] nodes[i]).id != (#[trigger] nodes[j]).id
            &&& lease_nanos(timeout) / 1_000_000_000 <= u64::MAX
        },
        lease_nanos(timeout) == timeout.total() + timeout.total() + 5 * 1_000_000_000,
{
    let ids = context_assembler::raw_ids(nodes);
    few_distinct_ids_are_repeated(ids);
    if forall|i: int, j: int|
        0 <= i < j < nodes.len() ==> (#[trigger] nodes[i]).id != (#[trigger] nodes[j]).id {
        assert forall|i: int, j: int| 0 <= i < j < ids.len() implies #[trigger] ids[i]
            != #[trigger] ids[j] by {
            assert(nodes[i].id != nodes[j].id);
        }
    } else {
        let (i, j) = choose|i: int, j: int|
            0 <= i < j < nodes.len() && (#[trigger] nodes[i]).id == (#[trigger] nodes[j]).id;
        assert(ids[i] == ids[j]);
    }
    if all_belong(nodes, session_id, loop_id) {
        assert forall|i: int| 0 <= i < nodes.len() implies (#[trigger] nodes[i]).session_id == Some(
            session_id,
        ) && nodes[i].loop_id == Some(loop_id) by {
            assert(belongs(nodes[i], session_id, loop_id));
        }
    }
}

/// The provenance of a node is all that it rests on and nothing else: the raw
/// nodes that it refers to and those that its relations come from, each once, in
/// order.
pub proof fn provenance_is_whole(node: Abstract, id: RawNodeId)
    ensures
        raw_provenance(node).contains(id) <==> node.raw_references.contains(id) || exists|k: int|
            0 <= k < node.links.len() && (#[trigger] node.links[k]).provenance.contains(id),
        forall|i: int, j: int|
            0 <= i < j < raw_provenance(node).len() ==> (
            #[trigger] raw_provenance(node)[i]).0.bits < (#[trigger] raw_provenance(
                node,
            )[j]).0.bits,
{
    let all = node.raw_references + link_provenance(node.links);
    batch_ids_are_strict(all);
    link_provenance_is_whole(node.links, id);
    let linked = link_provenance(node.links);
    if node.raw_references.contains(id) {
        let k = choose|k: int| 0 <= k < node.raw_references.len() && node.raw_references[k] == id;
        assert(all[k] == id);
    }
    if linked.contains(id) {
        let k = choose|k: int| 0 <= k < linked.len() && linked[k] == id;
        assert(all[node.raw_references.len() + k] == id);
    }
    if all.contains(id) && !node.raw_references.contains(id) {
        let k = choose|k: int| 0 <= k < all.len() && all[k] == id;
        if k < node.raw_references.len() {
            assert(node.raw_references[k] == id);
        } else {
            assert(linked[k - node.raw_references.len()] == id);
        }
    }
    let kept = raw_provenance(node);
    assert forall|i: int, j: int| 0 <= i < j < kept.len() implies (#[trigger] kept[i]).0.bits < (
    #[trigger] kept[j]).0.bits by {
        assert(raw_id_order()(kept[i], kept[j]));
    }
}

proof fn link_provenance_is_whole(links: Seq<Link>, id: RawNodeId)
    ensures
        link_provenance(links).contains(id) <==> exists|k: int|
            0 <= k < links.len() && (#[trigger] links[k]).provenance.contains(id),
    decreases links.len(),
{
    if links.len() > 0 {
        let rest = links.drop_last();
        link_provenance_is_whole(rest, id);
        let earlier = link_provenance(rest);
        let last = links.last().provenance;
        let all = link_provenance(links);
        if earlier.contains(id) {
            let k = choose|k: int| 0 <= k < earlier.len() && earlier[k] == id;
            assert(all[k] == id);
            let m = choose|m: int|
                0 <= m < rest.len() && (#[trigger] rest[m]).provenance.contains(id);
            assert(links[m] == rest[m]);
        }
        if last.contains(id) {
            let k = choose|k: int| 0 <= k < last.len() && last[k] == id;
            assert(all[earlier.len() + k] == id);
            assert(links[links.len() - 1].provenance.contains(id));
        }
        if all.contains(id) && !earlier.contains(id) {
            let k = choose|k: int| 0 <= k < all.len() && all[k] == id;
            if k < earlier.len() {
                assert(earlier[k] == id);
            } else {
                assert(last[k - earlier.len()] == id);
            }
        }
        if exists|k: int| 0 <= k < links.len() && (#[trigger] links[k]).provenance.contains(id) {
            let k = choose|k: int|
                0 <= k < links.len() && (#[trigger] links[k]).provenance.contains(id);
            if k < rest.len() {
                assert(rest[k] == links[k]);
            }
        }
    }
}

/// Abstract references are asked for each once, in order, and the text that an
/// abstract node is found by is its title and its summary.
pub proof fn abstract_references_are_whole(ids: Seq<AbstractNodeId>, node: Abstract)
    ensures
        forall|id: AbstractNodeId| #[trigger]
            distinct_abstract_ids(ids).contains(id) <==> ids.contains(id),
        forall|i: int, j: int|
            0 <= i < j < distinct_abstract_ids(ids).len() ==> (#[trigger] distinct_abstract_ids(
                ids,
            )[i]).0.bits < (#[trigger] distinct_abstract_ids(ids)[j]).0.bits,
        embedding_text(node) == node.title.push(' ') + node.summary,
{
    assert(forall|a: AbstractNodeId, b: AbstractNodeId|
        !#[trigger] abstract_id_order()(a, b) && !abstract_id_order()(b, a) ==> a == b);
    order::distinct_is_strict(abstract_id_order(), ids);
    assert(distinct_abstract_ids(ids) == order::distinct(abstract_id_order(), ids));
    let kept = distinct_abstract_ids(ids);
    assert forall|i: int, j: int| 0 <= i < j < kept.len() implies (#[trigger] kept[i]).0.bits < (
    #[trigger] kept[j]).0.bits by {
        assert(abstract_id_order()(kept[i], kept[j]));
    }
    reveal_strlit(" ");
    assert(embedding_text(node) =~= node.title.push(' ') + node.summary);
}

/// What a distiller may change is what it was given, each node once.
pub proof fn updates_are_of_the_batch(inputs: Seq<RawNodeId>, updates: Seq<RawLifecycleUpdate>)
    ensures
        updates_stay_in_batch(inputs, updates) <==> {
            let ids = updates.map_values(|update: RawLifecycleUpdate| update.raw_node_id);
            &&& ids.no_duplicates()
            &&& forall|i: int| 0 <= i < ids.len() ==> inputs.contains(#[trigger] ids[i])
        },
{
    let ids = updates.map_values(|update: RawLifecycleUpdate| update.raw_node_id);
    if updates_stay_in_batch(inputs, updates) {
        assert forall|i: int, j: int| 0 <= i < ids.len() && 0 <= j < ids.len() && i != j implies
            ids[i] != ids[j] by {
            if i < j {
                assert(updates[i].raw_node_id != updates[j].raw_node_id);
            } else {
                assert(updates[j].raw_node_id != updates[i].raw_node_id);
            }
        }
        assert forall|i: int| 0 <= i < ids.len() implies inputs.contains(#[trigger] ids[i]) by {
            assert(inputs.contains(updates[i].raw_node_id));
        }
    } else if ids.no_duplicates() && (forall|i: int|
        0 <= i < ids.len() ==> inputs.contains(#[trigger] ids[i])) {
        assert forall|i: int| 0 <= i < updates.len() implies inputs.contains(
            (#[trigger] updates[i]).raw_node_id,
        ) by {
            assert(inputs.contains(ids[i]));
        }
        assert forall|i: int, j: int| 0 <= i < j < updates.len() implies (
        #[trigger] updates[i]).raw_node_id != (#[trigger] updates[j]).raw_node_id by {
            assert(ids[i] != ids[j]);
        }
    }
}

/// The digest of a batch is that of its nodes and of nothing else: the names that
/// are digested are the same only for the same nodes.
pub proof fn digests_name_the_nodes(left: Seq<RawNodeId>, right: Seq<RawNodeId>)
    ensures
        batch_digest(left) == ids::hyphenated(
            ids::uuid_of_name(
                text::joined(
                    distinct_raw_ids(left).map_values(
                        |id: RawNodeId| ids::hyphenated(id.0.bits),
                    ),
                    ":"@,
                ),
            ),
        ),
        text::joined(raw_id_texts(left), ":"@) == text::joined(raw_id_texts(right), ":"@) ==> left
            == right,
{
    if text::joined(raw_id_texts(left), ":"@) == text::joined(raw_id_texts(right), ":"@) {
        joined_ids_are_apart(left, right);
    }
}

proof fn joined_ids_are_long(ids: Seq<RawNodeId>)
    ensures
        ids.len() > 0 ==> text::joined(raw_id_texts(ids), ":"@).len() == 37 * ids.len() - 1,
        ids.len() == 0 ==> text::joined(raw_id_texts(ids), ":"@).len() == 0,
    decreases ids.len(),
{
    reveal_strlit(":");
    if ids.len() > 1 {
        joined_ids_are_long(ids.drop_last());
        assert(raw_id_texts(ids).drop_last() =~= raw_id_texts(ids.drop_last()));
    }
}

proof fn joined_ids_are_apart(left: Seq<RawNodeId>, right: Seq<RawNodeId>)
    requires
        text::joined(raw_id_texts(left), ":"@) == text::joined(raw_id_texts(right), ":"@),
    ensures
        left == right,
    decreases left.len(),
{
    reveal_strlit(":");
    joined_ids_are_long(left);
    joined_ids_are_long(right);
    assert(left.len() == right.len());
    if left.len() == 0 {
        assert(left =~= right);
    } else {
        let all = text::joined(raw_id_texts(left), ":"@);
        let last = left.len() - 1;
        assert(raw_id_texts(left).drop_last() =~= raw_id_texts(left.drop_last()));
        assert(raw_id_texts(right).drop_last() =~= raw_id_texts(right.drop_last()));
        assert(all.skip(all.len() - 36) =~= ids::hyphenated(left[last].0.bits));
        assert(all.skip(all.len() - 36) =~= ids::hyphenated(right[last].0.bits));
        ids::hyphenated_is_injective(left[last].0.bits, right[last].0.bits);
        if left.len() > 1 {
            joined_ids_are_long(left.drop_last());
            joined_ids_are_long(right.drop_last());
            let count = 37 * last - 1;
            assert(all.take(count) =~= text::joined(raw_id_texts(left.drop_last()), ":"@));
            assert(all.take(count) =~= text::joined(raw_id_texts(right.drop_last()), ":"@));
            joined_ids_are_apart(left.drop_last(), right.drop_last());
        }
        assert(left =~= right) by {
            assert forall|i: int| 0 <= i < left.len() implies left[i] == right[i] by {
                if i < last {
                    assert(left.drop_last()[i] == right.drop_last()[i]);
                }
            }
        }
    }
}

} // verus!
