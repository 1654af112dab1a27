//! Where turns start, continue and recover, and how maintenance works through
//! its backlog.
use std::sync::Arc;
use vstd::prelude::*;

use crate::config::EngineConfig;
use crate::domain::loop_state::{LoopState, LoopStatus};
use crate::domain::raw_node;
use crate::domain::raw_node::{Raw, RawNode};
use crate::engine::conversation;
use crate::engine::conversation::trim_conversation_history;
use crate::engine::distillation::DistillationBatchResult;
use crate::engine::estimator::TokenEstimator;
use crate::engine::execution_graph;
use crate::engine::execution_graph::{
    ExecutionState, ResolvedRunOptions, RunOptions, SessionRequest, State,
};
use crate::engine::graph_runner;
use crate::engine::graph_runner::GraphRunner;
use crate::engine::graph_spec;
use crate::engine::graph_spec::{graph_for_profile, EXECUTE_TOOLS_NODE};
use crate::error;
use crate::error::{EngineError, Result};
use crate::ids;
use crate::ids::{LoopId, LoopKey, LoopKeyOrder, SessionId};
use crate::model::runner;
use crate::model::runner::{clone_calls, ToolCall, ToolCallRequest};
use crate::order;
use crate::order::{dedup, sort_by, Order};
use crate::text;
use crate::text::{same_text, starts_with};

verus! {

/// A run that is ready to go on at a node.
#[derive(Debug)]
pub struct PreparedRun {
    pub state: ExecutionState,
    pub options: ResolvedRunOptions,
    pub runner: GraphRunner,
    pub node: String,
}

/// Whether a run is ready for a first turn of a request.
pub open spec fn is_first_run(
    run: PreparedRun,
    config: EngineConfig,
    request: SessionRequest,
    options: RunOptions,
    history: Seq<runner::Message>,
) -> bool {
    &&& run.options.resolves(config.runtime, options)
    &&& run.options.fault() is None
    &&& run.runner.graph@ == graph_spec::profile_graph(options.execution_profile)
    &&& run.node@ == graph_spec::profile_graph(options.execution_profile).start
    &&& request.session_id matches Some(id) ==> run.state.session_id == id
    &&& options.loop_id matches Some(id) ==> run.state.loop_id == id
    &&& run.state@ == (State {
        conversation_history: history,
        execution_profile: options.execution_profile,
        ..State::initial(
            run.state.session_id,
            run.state.loop_id,
            request.user_message@,
            text::opt_text(request.plan),
        )
    })
}

/// Starts a turn: under a valid configuration and with a history that is
/// trimmed to fit, the run stands at the first node of its profile's graph.
pub fn begin_turn<E: TokenEstimator + ?Sized>(
    config: &EngineConfig,
    estimator: &E,
    request: SessionRequest,
    options: RunOptions,
) -> (result: Result<PreparedRun>)
    requires
        options.well_formed(),
    ensures
        match config.fault() {
            Some(message) => result is Err && error::is_configuration(result->Err_0, message),
            None => match conversation::trimmed(
                estimator,
                *config,
                runner::messages_view(options.conversation_history@),
                request.user_message@,
                text::opt_text(request.plan),
            ) {
                None => result is Err && error::is_configuration(
                    result->Err_0,
                    conversation::fixed_prompt_message(),
                ),
                Some(history) => match result {
                    Ok(run) => is_first_run(run, *config, request, options, history),
                    Err(failure) => exists|guards: ResolvedRunOptions|
                        #[trigger] guards.resolves(config.runtime, options) && (guards.fault()
                            matches Some(message) && error::is_configuration(failure, message)),
                },
            },
        },
{
    match config.validate() {
        Ok(()) => {},
        Err(failure) => return Err(failure),
    }
    let session_id = match request.session_id {
        Some(id) => id,
        None => SessionId::default(),
    };
    let loop_id = match options.loop_id {
        Some(id) => id,
        None => LoopId::default(),
    };
    let history = match trim_conversation_history(
        options.conversation_history.as_slice(),
        config,
        estimator,
        request.user_message.as_str(),
        match &request.plan {
            Some(plan) => Some(plan.as_str()),
            None => None,
        },
    ) {
        Ok(history) => history,
        Err(failure) => return Err(failure),
    };
    let profile = options.execution_profile;
    let resolved = ResolvedRunOptions::from_config(config, options);
    let runner = GraphRunner::new(Arc::new(graph_for_profile(profile)));
    let mut state = ExecutionState::from_request(request, session_id, loop_id);
    state.conversation_history = history;
    match runner.run(&mut state, &resolved) {
        Ok(node) => Ok(PreparedRun { state, options: resolved, runner, node }),
        Err(failure) => {
            assert(resolved.resolves(config.runtime, options));
            Err(failure)
        },
    }
}

/// Whether a loop that was checkpointed continues.
pub open spec fn is_continued(
    result: Result<PreparedRun>,
    config: EngineConfig,
    checkpoint: LoopState,
    options: RunOptions,
    needed: LoopStatus,
) -> bool {
    exists|guards: ResolvedRunOptions|
        #[trigger] guards.resolves(config.runtime, options) && match result {
            Ok(run) => run.options == guards && graph_runner::continuation_refusal(
                checkpoint,
                guards,
                needed,
            ) is None && run.state == checkpoint.state && run.node == checkpoint.current_node
                && run.runner.graph@ == graph_spec::profile_graph(options.execution_profile),
            Err(failure) => graph_runner::continuation_refusal(
                checkpoint,
                guards,
                needed,
            ) matches Some(refusal) && graph_runner::is_refusal(failure, refusal),
        }
}

/// Resumes a paused loop from the checkpoint that was found, if one was.
pub fn resume_loop(
    config: &EngineConfig,
    checkpoint: Option<LoopState>,
    session_id: SessionId,
    loop_id: LoopId,
    options: RunOptions,
) -> (result: Result<PreparedRun>)
    requires
        options.well_formed(),
    ensures
        match config.fault() {
            Some(message) => result is Err && error::is_configuration(result->Err_0, message),
            None => match checkpoint {
                None => result is Err && is_not_found(result->Err_0, session_id, loop_id),
                Some(found) => is_continued(result, *config, found, options, LoopStatus::Paused),
            },
        },
{
    match config.validate() {
        Ok(()) => {},
        Err(failure) => return Err(failure),
    }
    let checkpoint = match checkpoint {
        Some(checkpoint) => checkpoint,
        None => return Err(
            EngineError::CheckpointNotFound {
                session_id: session_id.to_string(),
                loop_id: loop_id.to_string(),
            },
        ),
    };
    let profile = options.execution_profile;
    let resolved = ResolvedRunOptions::from_config(config, options);
    assert(resolved.resolves(config.runtime, options));
    let runner = GraphRunner::new(Arc::new(graph_for_profile(profile)));
    match runner.resume(checkpoint, &resolved) {
        Ok((state, node)) => Ok(PreparedRun { state, options: resolved, runner, node }),
        Err(failure) => Err(failure),
    }
}

/// Whether an error says that no checkpoint was found.
pub open spec fn is_not_found(failure: EngineError, session: SessionId, run: LoopId) -> bool {
    failure matches EngineError::CheckpointNotFound { session_id, loop_id } && session_id@
        == ids::hyphenated(session.0.bits) && loop_id@ == ids::hyphenated(run.0.bits)
}

/// Whether a call may be made again.
pub open spec fn may_repeat(idempotent: Seq<bool>, index: int) -> bool {
    index < idempotent.len() && idempotent[index]
}

/// The first call that may not be made again, from a position on.
pub open spec fn first_unrepeatable(
    calls: Seq<ToolCall>,
    idempotent: Seq<bool>,
    start: int,
) -> Option<ToolCall>
    decreases calls.len() - start,
{
    if start < 0 || start >= calls.len() {
        None
    } else if !may_repeat(idempotent, start) {
        Some(calls[start])
    } else {
        first_unrepeatable(calls, idempotent, start + 1)
    }
}

/// Why an interrupted loop is not recovered, if it is not: a model may have
/// answered already, and a side effect may have taken place.
pub open spec fn recovery_fault(checkpoint: LoopState, idempotent: Seq<bool>) -> Option<
    Seq<char>,
> {
    let node = checkpoint.current_node@;
    if text::has_prefix(node, "run_model"@) {
        Some("model node "@ + node + " may already have produced a billable completion"@)
    } else if node == EXECUTE_TOOLS_NODE@ {
        match execution_graph::checkpoint_fault(checkpoint) {
            Some(message) => Some(message),
            None => match first_unrepeatable(
                checkpoint.state@.pending_tool_calls,
                idempotent,
                0,
            ) {
                Some(call) => Some(
                    "side-effecting tool "@ + call.name
                        + " does not guarantee recovery with the engine idempotency key"@,
                ),
                None => None,
            },
        }
    } else {
        None
    }
}

/// The calls that recovery of a loop would make again, which have to be asked
/// about first.
pub fn calls_to_repeat(checkpoint: &LoopState) -> (calls: Vec<ToolCallRequest>)
    ensures
        runner::calls_view(calls@) == if checkpoint.current_node@ == EXECUTE_TOOLS_NODE@ {
            checkpoint.state@.pending_tool_calls
        } else {
            Seq::empty()
        },
{
    if same_text(checkpoint.current_node.as_str(), EXECUTE_TOOLS_NODE) {
        clone_calls(checkpoint.state.pending_tool_calls.as_slice())
    } else {
        let calls: Vec<ToolCallRequest> = Vec::new();
        assert(runner::calls_view(calls@) =~= Seq::<ToolCall>::empty());
        calls
    }
}

/// Recovers a loop that was interrupted while a node was running, given
/// whether each of its pending calls may be made again.
pub fn recover_interrupted_loop(
    config: &EngineConfig,
    checkpoint: LoopState,
    idempotent: &[bool],
    options: RunOptions,
) -> (result: Result<PreparedRun>)
    requires
        options.well_formed(),
    ensures
        match config.fault() {
            Some(message) => result is Err && error::is_configuration(result->Err_0, message),
            None => match recovery_fault(checkpoint, idempotent@) {
                Some(message) => result is Err && error::is_recovery_unsafe(
                    result->Err_0,
                    message,
                ),
                None => is_continued(result, *config, checkpoint, options, LoopStatus::Running),
            },
        },
{
    match config.validate() {
        Ok(()) => {},
        Err(failure) => return Err(failure),
    }
    if starts_with(checkpoint.current_node.as_str(), "run_model") {
        return Err(
            EngineError::RecoveryUnsafe(
                "model node ".to_string().concat(checkpoint.current_node.as_str()).concat(
                    " may already have produced a billable completion",
                ),
            ),
        );
    }
    if same_text(checkpoint.current_node.as_str(), EXECUTE_TOOLS_NODE) {
        match check_repeatable(&checkpoint, idempotent) {
            Ok(()) => {},
            Err(failure) => return Err(failure),
        }
    }
    let profile = options.execution_profile;
    let resolved = ResolvedRunOptions::from_config(config, options);
    assert(resolved.resolves(config.runtime, options));
    let runner = GraphRunner::new(Arc::new(graph_for_profile(profile)));
    match runner.recover_running(checkpoint, &resolved) {
        Ok((state, node)) => Ok(PreparedRun { state, options: resolved, runner, node }),
        Err(failure) => Err(failure),
    }
}

fn check_repeatable(checkpoint: &LoopState, idempotent: &[bool]) -> (result: Result<()>)
    requires
        checkpoint.current_node@ == EXECUTE_TOOLS_NODE@,
        !text::has_prefix(checkpoint.current_node@, "run_model"@),
    ensures
        match recovery_fault(*checkpoint, idempotent@) {
            Some(message) => result is Err && error::is_recovery_unsafe(result->Err_0, message),
            None => result is Ok,
        },
{
    match ExecutionState::from_checkpoint(checkpoint.clone()) {
        Ok(_) => {},
        Err(failure) => return Err(failure),
    }
    let ghost calls = checkpoint.state@.pending_tool_calls;
    let mut index: usize = 0;
    while index < checkpoint.state.pending_tool_calls.len()
        invariant
            index <= checkpoint.state.pending_tool_calls.len(),
            calls == runner::calls_view(checkpoint.state.pending_tool_calls@),
            calls == checkpoint.state@.pending_tool_calls,
            checkpoint.current_node@ == EXECUTE_TOOLS_NODE@,
            !text::has_prefix(checkpoint.current_node@, "run_model"@),
            execution_graph::checkpoint_fault(*checkpoint) is None,
            first_unrepeatable(calls, idempotent@, index as int) == first_unrepeatable(
                calls,
                idempotent@,
                0,
            ),
        decreases checkpoint.state.pending_tool_calls.len() - index,
    {
        let repeatable = index < idempotent.len() && idempotent[index];
        if !repeatable {
            assert(calls[index as int]
                == checkpoint.state.pending_tool_calls@[index as int]@);
            return Err(
                EngineError::RecoveryUnsafe(
                    "side-effecting tool ".to_string().concat(
                        checkpoint.state.pending_tool_calls[index].name.as_str(),
                    ).concat(" does not guarantee recovery with the engine idempotency key"),
                ),
            );
        }
        index = index + 1;
    }
    Ok(())
}

/// An interrupted model node is never run again: its answer may have been
/// billed already.
pub proof fn model_nodes_are_not_recovered(checkpoint: LoopState, idempotent: Seq<bool>)
    requires
        text::has_prefix(checkpoint.current_node@, "run_model"@),
    ensures
        recovery_fault(checkpoint, idempotent) is Some,
{
}

/// The loop of a node, if it belongs to one.
pub open spec fn loop_of(node: Raw) -> Option<LoopKey> {
    match (node.session_id, node.loop_id) {
        (Some(session_id), Some(loop_id)) => Some(LoopKey { session_id, loop_id }),
        _ => None,
    }
}

/// The loops of nodes, in the order in which they come.
pub open spec fn loops_of(nodes: Seq<Raw>) -> Seq<LoopKey>
    decreases nodes.len(),
{
    if nodes.len() == 0 {
        Seq::empty()
    } else {
        match loop_of(nodes.last()) {
            Some(key) => loops_of(nodes.drop_last()).push(key),
            None => loops_of(nodes.drop_last()),
        }
    }
}

/// The nodes of a loop, in the order in which they come.
pub open spec fn nodes_of(nodes: Seq<Raw>, key: LoopKey) -> Seq<Raw>
    decreases nodes.len(),
{
    if nodes.len() == 0 {
        Seq::empty()
    } else if loop_of(nodes.last()) == Some(key) {
        nodes_of(nodes.drop_last(), key).push(nodes.last())
    } else {
        nodes_of(nodes.drop_last(), key)
    }
}

/// The order of loops.
pub open spec fn loop_order() -> spec_fn(LoopKey, LoopKey) -> bool {
    |left: LoopKey, right: LoopKey| LoopKeyOrder.before(left, right)
}

/// The loops of a backlog, in order, each once.
pub open spec fn backlog_loops(nodes: Seq<Raw>) -> Seq<LoopKey> {
    order::deduped(order::ordered(loop_order(), loops_of(nodes)))
}

/// A batch of maintenance.
#[derive(Debug)]
pub struct LoopBatch {
    pub key: LoopKey,
    pub raw_nodes: Vec<RawNode>,
}

/// A batch as a mathematical value.
#[verifier::ext_equal]
pub struct Batch {
    pub key: LoopKey,
    pub nodes: Seq<Raw>,
}

impl View for LoopBatch {
    type V = Batch;

    open spec fn view(&self) -> Batch {
        Batch { key: self.key, nodes: raw_node::raws(self.raw_nodes@) }
    }
}

/// The batch of a loop: its nodes, as many as a batch may have.
pub open spec fn batch_of(nodes: Seq<Raw>, key: LoopKey, most: nat) -> Batch {
    let all = nodes_of(nodes, key);
    Batch {
        key,
        nodes: if most < all.len() {
            all.take(most as int)
        } else {
            all
        },
    }
}

/// The batches of a backlog.
pub open spec fn batches(nodes: Seq<Raw>, most: nat) -> Seq<Batch> {
    if most == 0 {
        Seq::empty()
    } else {
        backlog_loops(nodes).map_values(|key: LoopKey| batch_of(nodes, key, most))
    }
}

fn collect_loops(nodes: &[RawNode]) -> (keys: Vec<LoopKey>)
    ensures
        keys@ == loops_of(raw_node::raws(nodes@)),
{
    let ghost all = raw_node::raws(nodes@);
    let mut keys: Vec<LoopKey> = Vec::new();
    let mut index: usize = 0;
    assert(all.take(0) =~= Seq::<Raw>::empty());
    while index < nodes.len()
        invariant
            index <= nodes.len(),
            all == raw_node::raws(nodes@),
            keys@ == loops_of(all.take(index as int)),
        decreases nodes.len() - index,
    {
        proof {
            assert(all.take(index + 1).drop_last() =~= all.take(index as int));
            assert(all.take(index + 1).last() == nodes@[index as int]@);
        }
        if let Some(session_id) = nodes[index].session_id {
            if let Some(loop_id) = nodes[index].loop_id {
                keys.push(LoopKey { session_id, loop_id });
            }
        }
        index = index + 1;
    }
    assert(all.take(all.len() as int) =~= all);
    keys
}

fn collect_nodes(nodes: &[RawNode], key: LoopKey, most: usize) -> (batch: LoopBatch)
    ensures
        batch@ == batch_of(raw_node::raws(nodes@), key, most as nat),
{
    let ghost all = raw_node::raws(nodes@);
    let mut found: Vec<RawNode> = Vec::new();
    let mut index: usize = 0;
    assert(all.take(0) =~= Seq::<Raw>::empty());
    assert(raw_node::raws(found@) =~= Seq::<Raw>::empty());
    while index < nodes.len()
        invariant
            index <= nodes.len(),
            all == raw_node::raws(nodes@),
            raw_node::raws(found@) == nodes_of(all.take(index as int), key),
        decreases nodes.len() - index,
    {
        let ghost before = raw_node::raws(found@);
        proof {
            assert(all.take(index + 1).drop_last() =~= all.take(index as int));
            assert(all.take(index + 1).last() == nodes@[index as int]@);
        }
        let same_session = match nodes[index].session_id {
            Some(id) => id == key.session_id,
            None => false,
        };
        let same_loop = match nodes[index].loop_id {
            Some(id) => id == key.loop_id,
            None => false,
        };
        if same_session && same_loop {
            let copy = nodes[index].clone();
            found.push(copy);
            assert(raw_node::raws(found@) =~= before.push(copy@));
        }
        index = index + 1;
    }
    assert(all.take(all.len() as int) =~= all);
    let ghost whole = raw_node::raws(found@);
    found.truncate(most);
    proof {
        if most < whole.len() {
            assert(raw_node::raws(found@) =~= whole.take(most as int));
        } else {
            assert(raw_node::raws(found@) =~= whole);
        }
    }
    LoopBatch { key, raw_nodes: found }
}

/// Groups a backlog by loop. Only what was read is grouped: a loop with more
/// nodes is worked off in later passes.
pub fn group_backlog(backlog: &[RawNode], max_loop_nodes: usize) -> (result: Vec<LoopBatch>)
    ensures
        order::views(result@) == batches(raw_node::raws(backlog@), max_loop_nodes as nat),
{
    let ghost nodes = raw_node::raws(backlog@);
    let mut result: Vec<LoopBatch> = Vec::new();
    if max_loop_nodes == 0 {
        assert(order::views(result@) =~= Seq::<Batch>::empty());
        return result;
    }
    let keys = collect_loops(backlog);
    assert(order::views(keys@) =~= keys@);
    let sorted = sort_by(keys, &LoopKeyOrder);
    assert(order::order_of::<LoopKey, LoopKeyOrder>(&LoopKeyOrder) =~= loop_order());
    assert(order::views(sorted@) =~= sorted@);
    let keys = dedup(sorted);
    assert(order::views(keys@) =~= keys@);
    let mut index: usize = 0;
    while index < keys.len()
        invariant
            index <= keys.len(),
            nodes == raw_node::raws(backlog@),
            keys@ == backlog_loops(nodes),
            order::views(result@) == keys@.take(index as int).map_values(
                |key: LoopKey| batch_of(nodes, key, max_loop_nodes as nat),
            ),
        decreases keys.len() - index,
    {
        let ghost before = order::views(result@);
        let batch = collect_nodes(backlog, keys[index], max_loop_nodes);
        result.push(batch);
        proof {
            assert(order::views(result@) =~= before.push(batch@));
            assert(keys@.take(index + 1).map_values(
                |key: LoopKey| batch_of(nodes, key, max_loop_nodes as nat),
            ) =~= before.push(batch@));
        }
        index = index + 1;
    }
    assert(keys@.take(keys@.len() as int) =~= keys@);
    result
}

/// Batches hold nodes of their own loop only, and no more than a batch may.
pub proof fn batches_are_of_one_loop(nodes: Seq<Raw>, most: nat, b: int, k: int)
    requires
        0 <= b < batches(nodes, most).len(),
        0 <= k < batches(nodes, most)[b].nodes.len(),
    ensures
        loop_of(batches(nodes, most)[b].nodes[k]) == Some(batches(nodes, most)[b].key),
        batches(nodes, most)[b].nodes.len() <= most,
{
    let key = batches(nodes, most)[b].key;
    nodes_of_belong(nodes, key, k);
}

proof fn nodes_of_belong(nodes: Seq<Raw>, key: LoopKey, k: int)
    requires
        0 <= k < nodes_of(nodes, key).len(),
    ensures
        loop_of(nodes_of(nodes, key)[k]) == Some(key),
    decreases nodes.len(),
{
    if nodes.len() > 0 && k < nodes_of(nodes.drop_last(), key).len() {
        nodes_of_belong(nodes.drop_last(), key, k);
    }
}

proof fn nodes_of_are_filtered(nodes: Seq<Raw>, key: LoopKey)
    ensures
        nodes_of(nodes, key) == nodes.filter(
            |node: Raw|
                node.session_id == Some(key.session_id) && node.loop_id == Some(key.loop_id),
        ),
    decreases nodes.len(),
{
    reveal(Seq::filter);
    if nodes.len() > 0 {
        nodes_of_are_filtered(nodes.drop_last(), key);
    }
}

proof fn loops_of_are_those_of_nodes(nodes: Seq<Raw>, key: LoopKey)
    ensures
        loops_of(nodes).contains(key) <==> nodes_of(nodes, key).len() > 0,
    decreases nodes.len(),
{
    if nodes.len() > 0 {
        let rest = nodes.drop_last();
        loops_of_are_those_of_nodes(rest, key);
        let all = loops_of(nodes);
        let earlier = loops_of(rest);
        if earlier.contains(key) {
            let k = choose|k: int| 0 <= k < earlier.len() && earlier[k] == key;
            assert(all[k] == key);
        }
        if loop_of(nodes.last()) == Some(key) {
            assert(all[all.len() - 1] == key);
        }
        if all.contains(key) && !earlier.contains(key) {
            let k = choose|k: int| 0 <= k < all.len() && all[k] == key;
            if k < earlier.len() {
                assert(earlier[k] == key);
            }
        }
    }
}

/// Grouping loses nothing but what is over the size of a batch: a loop that has
/// nodes in a backlog has exactly one batch, and a loop without nodes has none.
/// A batch holds the first nodes of its loop, in the order of the backlog: all
/// of them where the loop has no more than a batch may have. Batches stand in
/// the order of their sessions, and within a session of their loops.
pub proof fn backlogs_are_grouped_whole(nodes: Seq<Raw>, most: nat, key: LoopKey)
    requires
        most > 0,
    ensures
        ({
            let grouped = batches(nodes, most);
            let own = nodes.filter(
                |node: Raw|
                    node.session_id == Some(key.session_id) && node.loop_id == Some(key.loop_id),
            );
            &&& own.len() > 0 ==> exists|b: int|
                0 <= b < grouped.len() && (#[trigger] grouped[b]).key == key
            &&& own.len() == 0 ==> forall|b: int|
                0 <= b < grouped.len() ==> (#[trigger] grouped[b]).key != key
            &&& forall|b: int|
                0 <= b < grouped.len() && (#[trigger] grouped[b]).key == key ==> grouped[b].nodes
                    == own.take(
                    if own.len() <= most {
                        own.len() as int
                    } else {
                        most as int
                    },
                )
            &&& forall|b: int, c: int|
                0 <= b < c < grouped.len() ==> ({
                    let left = (#[trigger] grouped[b]).key;
                    let right = (#[trigger] grouped[c]).key;
                    left.session_id.0.bits < right.session_id.0.bits || (left.session_id
                        == right.session_id && left.loop_id.0.bits < right.loop_id.0.bits)
                })
        }),
{
    let grouped = batches(nodes, most);
    let own = nodes_of(nodes, key);
    let loops = loops_of(nodes);
    let keys = backlog_loops(nodes);
    nodes_of_are_filtered(nodes, key);
    loops_of_are_those_of_nodes(nodes, key);
    assert(forall|a: LoopKey, b: LoopKey|
        !#[trigger] loop_order()(a, b) && !loop_order()(b, a) ==> a == b);
    order::distinct_is_strict(loop_order(), loops);
    assert(keys == order::distinct(loop_order(), loops));
    if own.len() > 0 {
        assert(keys.contains(key));
        let b = choose|b: int| 0 <= b < keys.len() && keys[b] == key;
        assert(grouped[b].key == key);
    }
    assert forall|b: int| 0 <= b < grouped.len() && (#[trigger] grouped[b]).key == key implies
        own.len() > 0 && grouped[b].nodes == own.take(
        if own.len() <= most {
            own.len() as int
        } else {
            most as int
        },
    ) by {
        assert(keys[b] == key);
        assert(keys.contains(key));
        assert(own.take(own.len() as int) =~= own);
    }
    assert forall|b: int, c: int| 0 <= b < c < grouped.len() implies ({
        let left = (#[trigger] grouped[b]).key;
        let right = (#[trigger] grouped[c]).key;
        left.session_id.0.bits < right.session_id.0.bits || (left.session_id == right.session_id
            && left.loop_id.0.bits < right.loop_id.0.bits)
    }) by {
        assert(loop_order()(keys[b], keys[c]));
    }
}

/// How many nodes a pass reads: what is asked for, but at least one and no
/// more than a batch.
pub open spec fn backlog_size(asked: nat, batch: nat) -> nat {
    let least = if asked < 1 {
        1
    } else {
        asked
    };
    if least < batch {
        least
    } else {
        batch
    }
}

/// How many nodes a pass of maintenance reads, under a valid configuration.
pub fn begin_maintenance(config: &EngineConfig, limit: usize) -> (result: Result<
    (usize, ResolvedRunOptions),
>)
    ensures
        match config.fault() {
            Some(message) => result is Err && error::is_configuration(result->Err_0, message),
            None => result is Ok && result->Ok_0.0 == backlog_size(
                limit as nat,
                config.runtime.maintenance_batch_size as nat,
            ) && result->Ok_0.1.is_configured(config.runtime),
        },
{
    match config.validate() {
        Ok(()) => {},
        Err(failure) => return Err(failure),
    }
    let resolved = ResolvedRunOptions::from_config(config, RunOptions::default());
    let least: usize = if limit < 1 {
        1
    } else {
        limit
    };
    let size: usize = if least < resolved.maintenance_batch_size {
        least
    } else {
        resolved.maintenance_batch_size
    };
    Ok((size, resolved))
}

/// What a pass of maintenance did.
#[derive(Debug, Clone, Copy, PartialEq, Eq, Structural)]
pub struct MaintenanceReport {
    pub processed_loops: usize,
    pub skipped_loops: usize,
    pub new_abstract_nodes: usize,
    pub updated_raw_nodes: usize,
}

impl Default for MaintenanceReport {
    fn default() -> (report: Self)
        ensures
            report == (MaintenanceReport {
                processed_loops: 0,
                skipped_loops: 0,
                new_abstract_nodes: 0,
                updated_raw_nodes: 0,
            }),
    {
        MaintenanceReport {
            processed_loops: 0,
            skipped_loops: 0,
            new_abstract_nodes: 0,
            updated_raw_nodes: 0,
        }
    }
}

/// New abstract nodes of a batch; none where it was claimed elsewhere.
pub open spec fn new_nodes(outcome: Option<DistillationBatchResult>) -> nat {
    match outcome {
        Some(done) => done.new_abstract_ids@.len(),
        None => 0,
    }
}

/// Updated raw nodes of a batch; none where it was claimed elsewhere.
pub open spec fn updated_nodes(outcome: Option<DistillationBatchResult>) -> nat {
    match outcome {
        Some(done) => done.updated_raw_nodes as nat,
        None => 0,
    }
}

impl MaintenanceReport {
    /// Whether one more batch can be counted.
    pub open spec fn has_room(self, outcome: Option<DistillationBatchResult>) -> bool {
        &&& self.processed_loops < usize::MAX
        &&& self.skipped_loops < usize::MAX
        &&& self.new_abstract_nodes + new_nodes(outcome) <= usize::MAX
        &&& self.updated_raw_nodes + updated_nodes(outcome) <= usize::MAX
    }

    /// Counts a batch: it was processed when something new came of it, and
    /// otherwise skipped.
    pub fn record(&mut self, outcome: &Option<DistillationBatchResult>)
        requires
            old(self).has_room(*outcome),
        ensures
            final(self).new_abstract_nodes == old(self).new_abstract_nodes + new_nodes(*outcome),
            final(self).updated_raw_nodes == old(self).updated_raw_nodes + updated_nodes(*outcome),
            final(self).processed_loops == old(self).processed_loops + if new_nodes(*outcome) > 0 {
                1int
            } else {
                0
            },
            final(self).skipped_loops == old(self).skipped_loops + if new_nodes(*outcome) > 0 {
                0int
            } else {
                1
            },
    {
        match outcome {
            Some(done) => {
                self.new_abstract_nodes = self.new_abstract_nodes + done.new_abstract_ids.len();
                self.updated_raw_nodes = self.updated_raw_nodes + done.updated_raw_nodes;
                if done.new_abstract_ids.len() == 0 {
                    self.skipped_loops = self.skipped_loops + 1;
                } else {
                    self.processed_loops = self.processed_loops + 1;
                }
            },
            None => {
                self.skipped_loops = self.skipped_loops + 1;
            },
        }
    }
}

/// An interrupted loop is recovered exactly where nothing can happen twice: no
/// model was running, and where tools were running, the checkpoint is sound and
/// every pending call is known to be repeatable. Otherwise the first call that is
/// not is named.
pub proof fn recoveries_repeat_only_what_may_be(checkpoint: LoopState, idempotent: Seq<bool>)
    ensures
        ({
            let calls = checkpoint.state@.pending_tool_calls;
            let asked = Seq::new(calls.len(), |i: int| i < idempotent.len() && idempotent[i]);
            let model = "run_model"@.is_prefix_of(checkpoint.current_node@);
            let tools = checkpoint.current_node@ == EXECUTE_TOOLS_NODE@;
            &&& recovery_fault(checkpoint, idempotent) is None <==> {
                &&& !model
                &&& tools ==> execution_graph::checkpoint_fault(checkpoint) is None
                &&& tools ==> !asked.contains(false)
            }
            &&& !model && tools && execution_graph::checkpoint_fault(checkpoint) is None
                && asked.contains(false) ==> recovery_fault(checkpoint, idempotent) == Some(
                "side-effecting tool "@ + calls[asked.index_of_first(false)->0].name
                    + " does not guarantee recovery with the engine idempotency key"@,
            )
        }),
{
    let calls = checkpoint.state@.pending_tool_calls;
    let asked = Seq::new(calls.len(), |i: int| i < idempotent.len() && idempotent[i]);
    first_unrepeatable_is_first(calls, idempotent, asked, 0);
    asked.index_of_first_ensures(false);
}

proof fn first_unrepeatable_is_first(
    calls: Seq<ToolCall>,
    idempotent: Seq<bool>,
    asked: Seq<bool>,
    start: int,
)
    requires
        0 <= start <= calls.len(),
        asked == Seq::new(calls.len(), |i: int| i < idempotent.len() && idempotent[i]),
        forall|i: int| 0 <= i < start ==> #[trigger] asked[i],
    ensures
        match first_unrepeatable(calls, idempotent, start) {
            None => !asked.contains(false),
            Some(call) => asked.contains(false) && call == calls[asked.index_of_first(false)->0],
        },
    decreases calls.len() - start,
{
    asked.index_of_first_ensures(false);
    if start < calls.len() {
        if may_repeat(idempotent, start) {
            assert(asked[start]);
            first_unrepeatable_is_first(calls, idempotent, asked, start + 1);
        } else {
            assert(!asked[start]);
            assert(asked.contains(false));
            let k = asked.index_of_first(false)->0;
            assert(!asked[k]);
            if k < start {
                assert(asked[k]);
            }
        }
    } else if asked.contains(false) {
        let k = choose|k: int| 0 <= k < asked.len() && asked[k] == false;
        assert(asked[k]);
    }
}

/// A pass of maintenance reads what it is asked to, as long as that is at least
/// one node and no more than a batch, and otherwise the nearer of the two bounds.
pub proof fn passes_read_what_they_are_asked_to(asked: nat, batch: nat)
    requires
        batch > 0,
    ensures
        1 <= backlog_size(asked, batch) <= batch,
        1 <= asked <= batch ==> backlog_size(asked, batch) == asked,
        asked > batch ==> backlog_size(asked, batch) == batch,
        asked == 0 ==> backlog_size(asked, batch) == 1,
{
}

/// A turn starts at the first step of its profile, in the session and the loop
/// that it is asked for, with the message, the plan and the history that it is
/// given, and with nothing else.
pub proof fn first_runs_start_with_the_request(
    run: PreparedRun,
    config: EngineConfig,
    request: SessionRequest,
    options: RunOptions,
    history: Seq<runner::Message>,
)
    requires
        is_first_run(run, config, request, options, history),
    ensures
        run.node@ == run.runner.graph@.start,
        run.runner.graph@ == graph_spec::profile_graph(options.execution_profile),
        run.options.execution_profile == options.execution_profile,
        run.options.max_graph_steps <= config.runtime.max_graph_steps,
        run.state@.execution_profile == options.execution_profile,
        request.session_id matches Some(id) ==> run.state@.session_id == id,
        options.loop_id matches Some(id) ==> run.state@.loop_id == id,
        run.state@.user_message == request.user_message@,
        run.state@.plan == text::opt_text(request.plan),
        run.state@.conversation_history == history,
        run.state@.turn_messages.len() == 0,
        run.state@.pending_tool_calls.len() == 0,
        run.state@.tool_results.len() == 0,
        run.state@.iteration == 0,
        run.state@.tool_rounds_completed == 0,
        run.state@.model_invocations == 0,
{
}

/// A loop that continues does so with the state and at the node of its
/// checkpoint, in the graph of its profile, under guards that are no wider than
/// what is configured.
pub proof fn continued_runs_go_on_where_they_stood(
    run: PreparedRun,
    config: EngineConfig,
    checkpoint: LoopState,
    options: RunOptions,
    needed: LoopStatus,
)
    requires
        is_continued(Ok::<PreparedRun, EngineError>(run), config, checkpoint, options, needed),
    ensures
        checkpoint.status == needed,
        execution_graph::checkpoint_fault(checkpoint) is None,
        run.state@ == checkpoint.state@,
        run.node@ == checkpoint.current_node@,
        run.runner.graph@ == graph_spec::profile_graph(options.execution_profile),
        checkpoint.state@.execution_profile == options.execution_profile,
        run.options.max_graph_steps <= config.runtime.max_graph_steps,
        run.options.max_tool_rounds <= config.runtime.max_tool_rounds,
{
}

/// A pass counts what a batch came to, and nothing for one that another worker
/// holds.
pub proof fn batches_count_what_they_came_to(outcome: Option<DistillationBatchResult>)
    ensures
        outcome matches Some(done) ==> new_nodes(outcome) == done.new_abstract_ids@.len()
            && updated_nodes(outcome) == done.updated_raw_nodes,
        outcome is None ==> new_nodes(outcome) == 0 && updated_nodes(outcome) == 0,
{
}

} // verus!
