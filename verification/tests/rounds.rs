use takos_agent_engine::config::EngineConfig;
use takos_agent_engine::domain::abstract_node::{
    AbstractNode, AbstractNodeMetadata, GraphFragment, References,
};
use takos_agent_engine::domain::raw_node::{
    DistillationState, RawContent, RawNode, RawNodeKind,
};
use takos_agent_engine::engine::batch_commit::{BatchCommit, CommitStep};
use takos_agent_engine::engine::claimed_batch::{BatchStep, ClaimedBatch};
use takos_agent_engine::engine::distillation::{
    abstract_projection_after, inserted_node, open_batch, settle_batch, BatchClaim, BatchStart,
    DistillationBatchResult, Projection,
};
use takos_agent_engine::engine::estimator::{estimate_conversation_message, TokenEstimator};
use takos_agent_engine::engine::execution_graph::{
    ExecutionProfile, ExecutionState, SessionRequest,
};
use takos_agent_engine::engine::operation_keys::tool_result_operation_key;
use takos_agent_engine::engine::session_engine::{
    begin_maintenance, group_backlog, LoopBatch, MaintenanceReport,
};
use takos_agent_engine::engine::tool_execution::{Keeping, RoundOpening, RoundRun};
use takos_agent_engine::engine::tool_phases::TimedToolOutcome;
use takos_agent_engine::engine::tool_results::tool_result_node;
use takos_agent_engine::error::{EngineError, Result};
use takos_agent_engine::float32::Float32;
use takos_agent_engine::ids::{LoopId, RawNodeId, SessionId};
use takos_agent_engine::json::JsonValue;
use takos_agent_engine::memory::distillation::{DistillationOutput, RawLifecycleUpdate};
use takos_agent_engine::model::runner::{ConversationRole, ToolCallRequest};
use takos_agent_engine::storage::claims::DistillationClaims;
use takos_agent_engine::storage::in_memory::InMemoryNodeRepository;
use takos_agent_engine::storage::records::{DistillationClaim, RawLifecyclePatch};
use takos_agent_engine::time::{Duration, Timestamp};
use takos_agent_engine::tools::executor::{ToolCallResult, ToolExecutionKind};

/// One token for each character.
#[derive(Debug, Clone, Copy)]
struct CharEstimator;

impl TokenEstimator for CharEstimator {
    fn estimate_text(&self, text: &str) -> usize {
        text.chars().count()
    }
}

fn call(id: Option<&str>, name: &str, arguments: &str) -> ToolCallRequest {
    ToolCallRequest {
        id: id.map(|text| text.to_string()),
        name: name.to_string(),
        arguments: JsonValue::parse(arguments).unwrap(),
    }
}

fn done(name: &str, content: &str) -> TimedToolOutcome {
    TimedToolOutcome::Completed(Ok(ToolCallResult {
        tool_call_id: Some("executor-wrong-id".to_string()),
        name: name.to_string(),
        content: JsonValue::parse(content).unwrap(),
        summary: format!("{name} output=ok"),
    }))
}

fn state(calls: Vec<ToolCallRequest>) -> ExecutionState {
    let session_id = SessionId::new();
    let mut state = ExecutionState::from_request(
        SessionRequest {
            session_id: Some(session_id),
            user_message: "hello".to_string(),
            plan: None,
        },
        session_id,
        LoopId::new(),
    );
    state.pending_tool_calls = calls;
    state
}

/// Prepares all calls; names that begin with `write` may change something.
fn opened(
    state: &ExecutionState,
    config: &EngineConfig,
    profile: ExecutionProfile,
    repository: &InMemoryNodeRepository,
) -> Result<RoundOpening> {
    let mut opening = RoundOpening::open(state, config, profile)?;
    while opening.next_call(config, false)? {
        let waiting = opening.waiting.as_ref().unwrap();
        let kind = if waiting.call.name.starts_with("write") {
            ToolExecutionKind::SideEffecting
        } else {
            ToolExecutionKind::ReadOnly
        };
        let found = if opening.keeps_records() {
            repository.get_raw_by_operation_key(&waiting.operation_key)
        } else {
            None
        };
        opening.take_in(kind, found);
    }
    Ok(opening)
}

/// Takes every result, keeps its record, and closes the round.
fn closed(
    run: RoundRun,
    state: &mut ExecutionState,
    config: &EngineConfig,
    repository: &mut InMemoryNodeRepository,
) -> Result<()> {
    let mut closing = run.into_returns();
    while let Some(keeping) = closing.next_result(&CharEstimator, config)? {
        let record = match keeping {
            Keeping::Kept(node) => Some(node),
            Keeping::Keep(node) => Some(repository.insert_raw_once(node).node),
            Keeping::Nothing => None,
        };
        closing.note_result(state, record);
    }
    closing.close(&CharEstimator, state, config)
}

fn limit() -> Duration {
    Duration::from_secs(5)
}

#[test]
fn rounds_record_failures_and_results() {
    let config = EngineConfig::default();
    let mut repository = InMemoryNodeRepository::default();
    let mut state = state(vec![
        call(Some("call-fail"), "fails", "{}"),
        call(Some("call-success"), "succeeds", "{}"),
    ]);
    let opening = opened(&state, &config, ExecutionProfile::MemoryAware, &repository).unwrap();
    let mut run = opening.plan(&CharEstimator, &state, &config).unwrap();
    assert_eq!(run.next_phase(), Some(&vec![0, 1]));
    let failure = EngineError::Tool("intentional failure".to_string());
    run.complete_call(1, done("succeeds", "{\"ok\":true}"), limit());
    run.complete_call(0, TimedToolOutcome::Completed(Err(failure)), limit());
    run.end_phase();
    assert_eq!(run.next_phase(), None);
    closed(run, &mut state, &config, &mut repository).unwrap();

    assert_eq!(state.tool_results.len(), 2);
    assert_eq!(state.tool_result_ids.len(), 2);
    assert_eq!(state.tool_rounds_completed, 1);
    assert!(state.pending_tool_calls.is_empty());
    let answers: Vec<_> =
        state.turn_messages.iter().filter(|item| item.role == ConversationRole::Tool).collect();
    assert_eq!(answers.len(), 2);
    assert_eq!(answers[0].content, "{\"error\":\"tool error: intentional failure\"}");
    assert_eq!(answers[0].tool_call_id.as_deref(), Some("call-fail"));
    assert_eq!(answers[1].content, "{\"ok\":true}");
    assert_eq!(answers[1].tool_call_id.as_deref(), Some("call-success"));
}

#[test]
fn results_answer_the_calls_of_the_provider() {
    let config = EngineConfig::default();
    let mut repository = InMemoryNodeRepository::default();
    let mut state = state(vec![call(Some("provider-call-1"), "lookup", "{\"limit\":1}")]);
    let opening = opened(&state, &config, ExecutionProfile::ExternalContext, &repository).unwrap();
    let mut run = opening.plan(&CharEstimator, &state, &config).unwrap();
    run.complete_call(0, done("executor-wrong-name", "{\"ok\":true}"), limit());
    run.end_phase();
    closed(run, &mut state, &config, &mut repository).unwrap();

    assert_eq!(state.turn_messages.len(), 2);
    assert_eq!(state.turn_messages[0].role, ConversationRole::Assistant);
    assert_eq!(state.turn_messages[0].tool_calls[0].id.as_deref(), Some("provider-call-1"));
    assert_eq!(state.turn_messages[1].tool_call_id.as_deref(), Some("provider-call-1"));
    assert_eq!(state.tool_results[0].name, "lookup");
    assert!(repository.raw_for_loop(&state.loop_id).is_empty());
    assert!(state.persisted_raw_ids.is_empty());
}

#[test]
fn disabled_tools_are_not_prepared() {
    let mut config = EngineConfig::default();
    config.tools.memory_search = false;
    let repository = InMemoryNodeRepository::default();
    let state = state(vec![call(None, "semantic_search_memory", "{\"query\":\"blocked\"}")]);
    match opened(&state, &config, ExecutionProfile::MemoryAware, &repository) {
        Err(EngineError::Tool(message)) => assert!(message.contains("disabled")),
        other => panic!("unexpected {other:?}"),
    }
}

#[test]
fn cancelled_reads_leave_the_round_open() {
    let config = EngineConfig::default();
    let mut repository = InMemoryNodeRepository::default();
    let mut state = state(vec![call(None, "lookup", "{}"), call(None, "write", "{}")]);
    let opening = opened(&state, &config, ExecutionProfile::MemoryAware, &repository).unwrap();
    let mut run = opening.plan(&CharEstimator, &state, &config).unwrap();
    assert_eq!(run.next_phase(), Some(&vec![0]));
    run.complete_call(0, TimedToolOutcome::Cancelled, limit());
    run.end_phase();
    assert_eq!(run.next_phase(), None);
    let ended = closed(run, &mut state, &config, &mut repository);
    assert!(matches!(ended, Err(EngineError::Cancelled)));
    assert_eq!(state.pending_tool_calls.len(), 2);
    assert_eq!(state.tool_rounds_completed, 0);
}

#[test]
fn calls_are_not_prepared_after_cancellation() {
    let config = EngineConfig::default();
    let state = state(vec![call(None, "lookup", "{}")]);
    let mut opening =
        RoundOpening::open(&state, &config, ExecutionProfile::MemoryAware).unwrap();
    assert!(matches!(opening.next_call(&config, true), Err(EngineError::Cancelled)));
    assert!(opening.waiting.is_none());
}

#[test]
fn cut_off_side_effects_stop_the_round() {
    let config = EngineConfig::default();
    let mut repository = InMemoryNodeRepository::default();
    let mut state = state(vec![
        call(None, "read", "{}"),
        call(None, "write-1", "{}"),
        call(None, "write-2", "{}"),
    ]);
    let opening = opened(&state, &config, ExecutionProfile::MemoryAware, &repository).unwrap();
    let mut run = opening.plan(&CharEstimator, &state, &config).unwrap();
    run.complete_call(0, done("read", "{\"n\":1}"), limit());
    run.end_phase();
    assert_eq!(run.next_phase(), Some(&vec![1]));
    run.complete_call(1, TimedToolOutcome::TimedOut, limit());
    run.end_phase();
    assert_eq!(run.next_phase(), None);
    let key = tool_result_operation_key(state.loop_id, 1, 1, "write-1");
    match closed(run, &mut state, &config, &mut repository) {
        Err(EngineError::ToolOutcomeIndeterminate { idempotency_key, .. }) => {
            assert_eq!(idempotency_key, key);
        }
        other => panic!("unexpected {other:?}"),
    }
    // The read was recorded; a second attempt does not run it again.
    assert_eq!(repository.raw_for_loop(&state.loop_id).len(), 1);
    let opening = opened(&state, &config, ExecutionProfile::MemoryAware, &repository).unwrap();
    let run = opening.plan(&CharEstimator, &state, &config).unwrap();
    assert_eq!(run.next_phase(), Some(&vec![1]));
}

#[test]
fn recorded_results_do_not_hide_why_a_round_ended() {
    let config = EngineConfig::default();
    let mut repository = InMemoryNodeRepository::default();
    let mut state = state(vec![
        call(None, "read", "{}"),
        call(None, "write-1", "{}"),
        call(None, "write-2", "{}"),
    ]);
    // The first write was recorded by an earlier attempt.
    let key = tool_result_operation_key(state.loop_id, 1, 1, "write-1");
    let recorded = tool_result_node(
        state.session_id,
        state.loop_id,
        &ToolCallResult {
            tool_call_id: None,
            name: "write-1".to_string(),
            content: JsonValue::parse("{\"n\":1}").unwrap(),
            summary: "recorded".to_string(),
        },
        &key,
    );
    repository.insert_raw_once(recorded);
    let opening = opened(&state, &config, ExecutionProfile::MemoryAware, &repository).unwrap();
    let mut run = opening.plan(&CharEstimator, &state, &config).unwrap();
    assert_eq!(run.next_phase(), Some(&vec![0]));
    run.complete_call(0, TimedToolOutcome::Cancelled, limit());
    run.end_phase();
    assert_eq!(run.next_phase(), None);
    let ended = closed(run, &mut state, &config, &mut repository);
    assert!(matches!(ended, Err(EngineError::Cancelled)));

    let opening = opened(&state, &config, ExecutionProfile::MemoryAware, &repository).unwrap();
    let mut run = opening.plan(&CharEstimator, &state, &config).unwrap();
    run.complete_call(0, done("read", "{\"n\":1}"), limit());
    run.end_phase();
    assert_eq!(run.next_phase(), Some(&vec![2]));
    run.complete_call(2, TimedToolOutcome::Cancelled, limit());
    run.end_phase();
    let key = tool_result_operation_key(state.loop_id, 1, 2, "write-2");
    let mut closing = run.into_returns();
    let mut kept = Vec::new();
    let error = loop {
        match closing.next_result(&CharEstimator, &config) {
            Ok(Some(keeping)) => {
                kept.push(matches!(keeping, Keeping::Kept(_)));
                closing.note_result(&mut state, None);
            }
            Ok(None) => panic!("the last call has no result"),
            Err(error) => break error,
        }
    };
    assert_eq!(kept, vec![false, true]);
    match error {
        EngineError::ToolOutcomeIndeterminate { idempotency_key, .. } => {
            assert_eq!(idempotency_key, key);
        }
        other => panic!("unexpected {other:?}"),
    }
}

#[test]
fn refused_rounds_leave_their_transcript() {
    let mut config = EngineConfig::default();
    let mut repository = InMemoryNodeRepository::default();
    let mut state = state(vec![call(Some("a"), "one", "{}")]);
    let opening = opened(&state, &config, ExecutionProfile::ExternalContext, &repository).unwrap();
    let mut run = opening.plan(&CharEstimator, &state, &config).unwrap();
    run.complete_call(0, done("one", "{\"n\":1}"), limit());
    run.end_phase();
    // The reserve shrinks after the round was planned.
    config.context_budget.reserve_tools = 1;
    match closed(run, &mut state, &config, &mut repository) {
        Err(EngineError::Configuration(message)) => {
            assert!(message.starts_with("bounded tool transcript used "));
            assert!(message.ends_with(" tokens, exceeding reserve_tools=1 "));
        }
        other => panic!("unexpected {other:?}"),
    }
    assert_eq!(state.turn_messages.len(), 2);
    assert_eq!(state.tool_rounds_completed, 0);
    assert_eq!(state.pending_tool_calls.len(), 1);
}

#[test]
fn long_results_are_kept_whole_and_shown_in_part() {
    let mut config = EngineConfig::default();
    config.context_budget.reserve_tools = 300;
    let mut repository = InMemoryNodeRepository::default();
    let mut state = state(vec![call(Some("a"), "one", "{}"), call(Some("b"), "two", "{}")]);
    let opening = opened(&state, &config, ExecutionProfile::MemoryAware, &repository).unwrap();
    let mut run = opening.plan(&CharEstimator, &state, &config).unwrap();
    let long = format!("\"{}\"", "z".repeat(900));
    run.complete_call(0, done("one", &long), limit());
    run.complete_call(1, done("two", &long), limit());
    run.end_phase();
    closed(run, &mut state, &config, &mut repository).unwrap();

    let tokens: usize = state
        .turn_messages
        .iter()
        .map(|message| estimate_conversation_message(&CharEstimator, message))
        .sum();
    assert!(tokens <= 300);
    let kept = repository.raw_for_loop(&state.loop_id);
    assert_eq!(kept.len(), 2);
    for node in &kept {
        match &node.content {
            RawContent::Json(value) => assert!(value.as_str().contains(&"z".repeat(900))),
            RawContent::Text(_) => panic!("a record is JSON"),
        }
    }
    assert!(state.recent_session.iter().all(|node| node.content_text().len() < 900));
}

#[test]
fn results_that_cannot_be_stored_are_refused() {
    let mut config = EngineConfig::default();
    config.tools.max_tool_result_bytes = 10;
    let mut repository = InMemoryNodeRepository::default();
    let mut state = state(vec![call(Some("a"), "one", "{}")]);
    let opening = opened(&state, &config, ExecutionProfile::MemoryAware, &repository).unwrap();
    let mut run = opening.plan(&CharEstimator, &state, &config).unwrap();
    run.complete_call(0, done("one", "{\"n\":1}"), limit());
    run.end_phase();
    match closed(run, &mut state, &config, &mut repository) {
        Err(EngineError::Configuration(message)) => assert_eq!(
            message,
            "max_tool_result_bytes=10 is too small for the validated tool result envelope"
        ),
        other => panic!("unexpected {other:?}"),
    }
}

fn note(session_id: SessionId, loop_id: LoopId, text: &str) -> RawNode {
    let mut node = RawNode::text(
        RawNodeKind::Note,
        Some(session_id),
        Some(loop_id),
        "system",
        text,
        Float32::from_bits(0.5f32.to_bits()),
        Vec::new(),
    );
    node.overflow.was_pushed_out_of_session = true;
    node
}

fn concept(raw_ids: Vec<RawNodeId>) -> AbstractNode {
    AbstractNode::new(
        "Topic",
        "What was said",
        References { abstract_node_ids: Vec::new(), raw_node_ids: raw_ids },
        GraphFragment { entities: Vec::new(), relations: Vec::new() },
        AbstractNodeMetadata {
            abstraction_level: 1,
            confidence: Float32::from_bits(0.9f32.to_bits()),
            importance: Float32::from_bits(0.5f32.to_bits()),
            tags: Vec::new(),
        },
    )
}

fn distilled(raw_nodes: &[RawNode]) -> DistillationOutput {
    let patch = RawLifecyclePatch {
        distillation_state: Some(DistillationState::Distilled),
        overflow: None,
    };
    DistillationOutput {
        new_nodes: vec![concept(raw_nodes.iter().map(|node| node.id).collect())],
        raw_updates: raw_nodes
            .iter()
            .map(|node| RawLifecycleUpdate { raw_node_id: node.id, patch })
            .collect(),
    }
}

fn claimed(
    session_id: SessionId,
    loop_id: LoopId,
    raw_nodes: &[RawNode],
    timeout: Duration,
) -> BatchClaim {
    let config = EngineConfig::default();
    match open_batch(&config, session_id, loop_id, raw_nodes, timeout).unwrap() {
        BatchStart::Claim(batch) => batch,
        BatchStart::Empty => panic!("the batch is not empty"),
    }
}

/// Commits a batch to the repository under a claim that stays current.
fn committed(
    repository: &mut InMemoryNodeRepository,
    batch: &BatchClaim,
    session_id: SessionId,
    loop_id: LoopId,
    output: DistillationOutput,
) -> Result<DistillationBatchResult> {
    let mut commit = BatchCommit::begin(batch, session_id, loop_id, output)?;
    loop {
        match commit.next_step() {
            CommitStep::Check => commit.note_claim(true)?,
            CommitStep::Node(node) => {
                let stored = repository.insert_abstract_once(node);
                commit.note_node(if stored.inserted { Some(stored.node) } else { None });
            }
            CommitStep::Update(update) => {
                repository.update_raw_lifecycle(&[update.raw_node_id], &update.patch);
            }
            CommitStep::Over => return Ok(commit.finish()),
        }
    }
}

/// The start of a pass over the backlog: what to read, and what it is told of.
struct Pass {
    batches: Vec<LoopBatch>,
    timeout: Duration,
    report: MaintenanceReport,
}

fn begin_pass(repository: &InMemoryNodeRepository, limit: usize) -> Pass {
    let config = EngineConfig::default();
    let (limit, options) = begin_maintenance(&config, limit).unwrap();
    let backlog = repository.undistilled_raw(limit, true);
    Pass {
        batches: group_backlog(&backlog, config.runtime.max_loop_nodes),
        timeout: options.distillation_timeout,
        report: MaintenanceReport::default(),
    }
}

fn lease(
    claims: &mut DistillationClaims,
    batch: &LoopBatch,
    timeout: Duration,
) -> Option<(BatchClaim, DistillationClaim)> {
    let key = &batch.key;
    let claim = claimed(key.session_id, key.loop_id, &batch.raw_nodes, timeout);
    let granted = claims
        .try_claim_distillation(
            key.session_id,
            key.loop_id,
            claim.input_digest.clone(),
            claim.lease_for,
            Timestamp { secs: 1_000, nanos: 0 },
            "lease".to_string(),
        )
        .unwrap();
    granted.map(|lease| (claim, lease))
}

/// One whole pass.
fn maintenance_pass(
    repository: &mut InMemoryNodeRepository,
    claims: &mut DistillationClaims,
    limit: usize,
) -> MaintenanceReport {
    let mut pass = begin_pass(repository, limit);
    for batch in &pass.batches {
        let (session_id, loop_id) = (batch.key.session_id, batch.key.loop_id);
        let Some((claim, held)) = lease(claims, batch, pass.timeout) else {
            pass.report.record(&None);
            continue;
        };
        let output = distilled(&batch.raw_nodes);
        let work = committed(repository, &claim, session_id, loop_id, output);
        claims.release_distillation_claim(&held);
        pass.report.record(&settle_batch(work, Ok(())).unwrap());
    }
    pass.report
}

#[test]
fn maintenance_pass_distills_pushed_out_raw_without_duplication() {
    let mut repository = InMemoryNodeRepository::default();
    let mut claims = DistillationClaims::default();
    repository.insert_raw(note(SessionId::new(), LoopId::new(), "backlog item"));
    let first = maintenance_pass(&mut repository, &mut claims, 10);
    let second = maintenance_pass(&mut repository, &mut claims, 10);
    assert_eq!(first.processed_loops, 1);
    assert_eq!(first.new_abstract_nodes, 1);
    assert_eq!(first.updated_raw_nodes, 1);
    assert_eq!(second.processed_loops, 0);
}

#[test]
fn concurrent_maintenance_claims_each_batch_once() {
    let mut repository = InMemoryNodeRepository::default();
    let mut claims = DistillationClaims::default();
    repository.insert_raw(note(SessionId::new(), LoopId::new(), "claim once"));
    let mut left = begin_pass(&repository, 8);
    let mut right = begin_pass(&repository, 8);
    assert_eq!((left.batches.len(), right.batches.len()), (1, 1));
    let mut distiller_calls = 0;
    let mut work = Vec::new();
    for pass in [&mut left, &mut right] {
        match lease(&mut claims, &pass.batches[0], pass.timeout) {
            Some((claim, _)) => {
                distiller_calls += 1;
                work.push((pass, claim));
            }
            None => pass.report.record(&None),
        }
    }
    for (pass, claim) in work {
        let batch = &pass.batches[0];
        let output = distilled(&batch.raw_nodes);
        let (session_id, loop_id) = (batch.key.session_id, batch.key.loop_id);
        let made = committed(&mut repository, &claim, session_id, loop_id, output).unwrap();
        pass.report.record(&Some(made));
    }
    assert_eq!(distiller_calls, 1);
    assert_eq!(left.report.processed_loops + right.report.processed_loops, 1);
    assert_eq!(left.report.skipped_loops + right.report.skipped_loops, 1);
}

#[test]
fn maintenance_distills_large_loop_in_bounded_batches() {
    let mut repository = InMemoryNodeRepository::default();
    let mut claims = DistillationClaims::default();
    let (session_id, loop_id) = (SessionId::new(), LoopId::new());
    for i in 0..5 {
        repository.insert_raw(note(session_id, loop_id, &format!("backlog item {i}")));
    }
    let first = maintenance_pass(&mut repository, &mut claims, 2);
    assert_eq!(first.processed_loops, 1);
    assert_eq!(first.new_abstract_nodes, 1);
    assert_eq!(repository.undistilled_raw(100, true).len(), 3);
    let second = maintenance_pass(&mut repository, &mut claims, 2);
    assert_eq!(second.processed_loops, 1);
    assert_eq!(repository.undistilled_raw(100, true).len(), 1);
    let third = maintenance_pass(&mut repository, &mut claims, 2);
    assert_eq!(third.processed_loops, 1);
    assert!(repository.undistilled_raw(100, true).is_empty());
    let fourth = maintenance_pass(&mut repository, &mut claims, 2);
    assert_eq!(fourth.processed_loops, 0);
    assert_eq!(fourth.new_abstract_nodes, 0);
}

#[test]
fn batches_that_are_distilled_again_commit_their_nodes_once() {
    let mut repository = InMemoryNodeRepository::default();
    let (session_id, loop_id) = (SessionId::new(), LoopId::new());
    let nodes = vec![note(session_id, loop_id, "backlog item")];
    let batch = claimed(session_id, loop_id, &nodes, limit());
    let first = committed(&mut repository, &batch, session_id, loop_id, distilled(&nodes)).unwrap();
    let again = committed(&mut repository, &batch, session_id, loop_id, distilled(&nodes)).unwrap();
    assert_eq!(first.new_abstract_ids.len(), 1);
    assert!(again.new_abstract_ids.is_empty());
    let key = format!(
        "distill:{}:{}:{}:0",
        session_id.to_string(),
        loop_id.to_string(),
        batch.input_digest
    );
    let stored = repository.get_abstract_by_operation_key(&key).unwrap();
    assert_eq!(vec![stored.id], first.new_abstract_ids);
}

#[test]
fn every_piece_of_a_commit_needs_a_current_claim() {
    let (session_id, loop_id) = (SessionId::new(), LoopId::new());
    let nodes = vec![note(session_id, loop_id, "backlog item")];
    let batch = claimed(session_id, loop_id, &nodes, limit());
    let lost = |passed: usize| {
        let mut commit =
            BatchCommit::begin(&batch, session_id, loop_id, distilled(&nodes)).unwrap();
        let mut pieces = 0;
        let mut checks = 0;
        loop {
            match commit.next_step() {
                CommitStep::Check if checks == passed => {
                    return (pieces, commit.note_claim(false).unwrap_err().to_string());
                }
                CommitStep::Check => {
                    commit.note_claim(true).unwrap();
                    checks += 1;
                }
                CommitStep::Node(_) => {
                    commit.note_node(None::<AbstractNode>);
                    pieces += 1;
                }
                CommitStep::Update(_) => pieces += 1,
                CommitStep::Over => return (pieces, String::new()),
            }
        }
    };
    assert_eq!(lost(0).0, 0);
    assert!(lost(0).1.ends_with("distillation claim expired before commit"));
    assert_eq!(lost(1).0, 0);
    assert!(lost(1).1.ends_with("distillation claim was replaced during commit"));
    assert_eq!(lost(2).0, 1);
    assert!(lost(2).1.ends_with("distillation claim was replaced during lifecycle commit"));
    assert_eq!(lost(3), (2, String::new()));
}

#[test]
fn foreign_updates_are_refused_before_a_commit() {
    let (session_id, loop_id) = (SessionId::new(), LoopId::new());
    let nodes = vec![note(session_id, loop_id, "backlog item")];
    let batch = claimed(session_id, loop_id, &nodes, limit());
    let mut output = distilled(&nodes);
    output.raw_updates[0].raw_node_id = RawNodeId::new();
    match BatchCommit::begin(&batch, session_id, loop_id, output) {
        Err(EngineError::Storage(message)) => assert_eq!(
            message,
            "distiller returned an out-of-batch or duplicate raw update"
        ),
        other => panic!("unexpected {other:?}"),
    }
}

/// Takes a batch from its claim to its end, and notes what it asks for. The
/// claim is granted or not, and is current for a number of checks; the distiller
/// and the release come out as told.
fn driven(
    granted: bool,
    checks: usize,
    found: Result<()>,
    release: Result<()>,
) -> (Vec<&'static str>, Result<Option<DistillationBatchResult>>) {
    let (session_id, loop_id) = (SessionId::new(), LoopId::new());
    let nodes = vec![note(session_id, loop_id, "backlog item")];
    let mut output = Some(found.map(|()| distilled(&nodes)));
    let mut release = Some(release);
    let batch = claimed(session_id, loop_id, &nodes, limit());
    let mut repository = InMemoryNodeRepository::default();
    let mut run = ClaimedBatch::begin(batch, session_id, loop_id);
    let mut asked = Vec::new();
    let mut checked = 0;
    loop {
        match run.next_step() {
            BatchStep::Claim => {
                asked.push("claim");
                run.note_lease(granted);
            }
            BatchStep::Distill => {
                asked.push("distill");
                match output.take().unwrap() {
                    Ok(made) => run.note_distilled(made),
                    Err(failure) => run.fail(failure),
                }
            }
            BatchStep::Check => {
                asked.push("check");
                run.note_claim(checked < checks);
                checked += 1;
            }
            BatchStep::Node(node) => {
                asked.push("node");
                run.note_node(inserted_node(repository.insert_abstract_once(node)));
            }
            BatchStep::Update(update) => {
                asked.push("update");
                repository.update_raw_lifecycle(&[update.raw_node_id], &update.patch);
            }
            BatchStep::Release => {
                asked.push("release");
                run.note_release(release.take().unwrap());
            }
            BatchStep::Over => return (asked, run.finish()),
        }
    }
}

#[test]
fn granted_claims_are_given_back_once_after_all_writes() {
    let (asked, result) = driven(true, 9, Ok(()), Ok(()));
    assert_eq!(
        asked,
        vec!["claim", "distill", "check", "check", "node", "check", "update", "release"]
    );
    let made = result.unwrap().unwrap();
    assert_eq!(made.new_abstract_ids.len(), 1);
    assert_eq!(made.updated_raw_nodes, 1);
}

#[test]
fn refused_claims_end_with_nothing() {
    let (asked, result) = driven(false, 9, Ok(()), Ok(()));
    assert_eq!(asked, vec!["claim"]);
    assert!(result.unwrap().is_none());
}

#[test]
fn failed_work_still_gives_its_claim_back() {
    let (asked, result) =
        driven(true, 9, Err(EngineError::Model("down".to_string())), Ok(()));
    assert_eq!(asked, vec!["claim", "distill", "release"]);
    assert!(matches!(result, Err(EngineError::Model(text)) if text == "down"));

    let (asked, result) = driven(true, 2, Ok(()), Ok(()));
    assert_eq!(asked, vec!["claim", "distill", "check", "check", "node", "check", "release"]);
    match result {
        Err(EngineError::RecoveryUnsafe(text)) => {
            assert_eq!(text, "distillation claim was replaced during lifecycle commit");
        }
        other => panic!("unexpected {other:?}"),
    }

    let lost = EngineError::Storage("lost".to_string());
    let (asked, result) = driven(true, 9, Ok(()), Err(lost));
    assert_eq!(asked.iter().filter(|step| **step == "release").count(), 1);
    assert!(matches!(result, Err(EngineError::Storage(text)) if text == "lost"));
}

#[test]
fn abstract_nodes_that_are_there_leave_nothing_to_index() {
    let mut repository = InMemoryNodeRepository::default();
    let (session_id, loop_id) = (SessionId::new(), LoopId::new());
    let nodes = vec![note(session_id, loop_id, "backlog item")];
    let batch = claimed(session_id, loop_id, &nodes, limit());
    let mut indexed = Vec::new();
    let mut stored = Vec::new();
    for _ in 0..2 {
        let mut commit =
            BatchCommit::begin(&batch, session_id, loop_id, distilled(&nodes)).unwrap();
        loop {
            match commit.next_step() {
                CommitStep::Check => commit.note_claim(true).unwrap(),
                CommitStep::Node(node) => {
                    let done = repository.insert_abstract_once(node);
                    if abstract_projection_after(done.inserted, done.projections_committed)
                        != Projection::Done
                    {
                        indexed.push(done.node.id);
                    }
                    stored.push(done.node.id);
                    let inserted = inserted_node(done);
                    assert_eq!(inserted.is_some(), stored.len() == 1);
                    commit.note_node(inserted);
                }
                CommitStep::Update(_) => {}
                CommitStep::Over => break,
            }
        }
    }
    assert_eq!(stored.len(), 2);
    assert_eq!(stored[0], stored[1]);
    assert_eq!(indexed, vec![stored[0]]);
}
