use std::sync::Arc;

use takos_agent_engine::config::EngineConfig;
use takos_agent_engine::domain::abstract_node::{
    AbstractNode, AbstractNodeMetadata, GraphFragment, References,
};
use takos_agent_engine::domain::loop_state::{LoopState, LoopStatus};
use takos_agent_engine::domain::raw_node::{
    DistillationState, OverflowPolicy, RawNode, RawNodeKind,
};
use takos_agent_engine::domain::relation::Relation;
use takos_agent_engine::engine::context_assembler::ContextAssembler;
use takos_agent_engine::engine::conversation::{
    coherent_conversation_groups, trim_conversation_history,
};
use takos_agent_engine::engine::distillation::{
    abstract_embedding_text, abstract_projection_after, abstract_provenance_ids,
    activated_abstract_ids, assign_session, check_abstract_provenance, check_loop_size, check_raw_provenance, check_updates,
    distillation_timed_out, inserted_node, key_distilled_node, loop_read_limit,
    note_distillation, open_batch, projection_after, provenance_to_check,
    raw_provenance_ids, require_claim, settle_batch, sort_raw_ids, BatchClaim, BatchStart,
    CommitStage, DistillationBatchResult, Projection,
};
use takos_agent_engine::engine::estimator::TokenEstimator;
use takos_agent_engine::engine::execution_graph::{
    ExecutionGraph, ExecutionProfile, ExecutionState, GraphRunResult, NodeOutcome,
    NodeRuntimeClass, ResolvedRunOptions, RunOptions, SessionRequest, DEFAULT_EDGE,
};
use takos_agent_engine::engine::graph_runner::{
    GraphRunner, NodeExecutionResult, NodeStart, NodeStep,
};
use takos_agent_engine::engine::graph_spec::{
    build_default_execution_graph, build_external_context_execution_graph, EXECUTE_TOOLS_NODE,
    NEEDS_TOOLS_BRANCH,
};
use takos_agent_engine::engine::nodes::{
    activation_input, answer_text, assemble_context, assemble_external_context,
    assistant_output_node, build_activation_query, build_response, finalize_external_response,
    mark_session_overflow, note_activation, note_answer, settle_model_output, to_model_input,
    user_input_node,
};
use takos_agent_engine::engine::session_engine::{
    begin_maintenance, begin_turn, calls_to_repeat, group_backlog, recover_interrupted_loop,
    resume_loop, MaintenanceReport,
};
use takos_agent_engine::error::{EngineError, Result};
use takos_agent_engine::float32::Float32;
use takos_agent_engine::ids::{AbstractNodeId, LoopId, RawNodeId, SessionId};
use takos_agent_engine::json::JsonValue;
use takos_agent_engine::memory::activation::{ActivatedMemory, RankedAbstractNode};
use takos_agent_engine::memory::distillation::RawLifecycleUpdate;
use takos_agent_engine::model::embedding::Embedding;
use takos_agent_engine::model::runner::{
    ConversationMessage, ConversationRole, ModelOutput, ToolCallRequest,
};
use takos_agent_engine::storage::records::{NodeCommit, RawLifecyclePatch};
use takos_agent_engine::time::{Duration, Timestamp};

/// One token for each word.
#[derive(Debug, Clone, Copy)]
struct WordEstimator;

impl TokenEstimator for WordEstimator {
    fn estimate_text(&self, text: &str) -> usize {
        text.split_whitespace().count()
    }
}

fn float(value: f32) -> Float32 {
    Float32::from_bits(value.to_bits())
}

fn request(text: &str) -> SessionRequest {
    SessionRequest {
        session_id: Some(SessionId::new()),
        user_message: text.to_string(),
        plan: None,
    }
}

fn state() -> ExecutionState {
    ExecutionState::from_request(request("hello"), SessionId::new(), LoopId::new())
}

fn call(name: &str) -> ToolCallRequest {
    ToolCallRequest {
        id: Some(format!("id-{name}")),
        name: name.to_string(),
        arguments: JsonValue::empty_object(),
    }
}

fn output(message: Option<&str>, calls: Vec<ToolCallRequest>) -> ModelOutput {
    ModelOutput {
        assistant_message: message.map(|text| text.to_string()),
        tool_calls: calls,
        usage: None,
    }
}

fn message(role: ConversationRole, content: &str) -> ConversationMessage {
    ConversationMessage {
        role,
        content: content.to_string(),
        tool_call_id: None,
        tool_calls: Vec::new(),
    }
}

fn note(session_id: SessionId, loop_id: LoopId) -> RawNode {
    RawNode::text(
        RawNodeKind::Note,
        Some(session_id),
        Some(loop_id),
        "system",
        "text",
        float(0.5),
        Vec::new(),
    )
}

fn guards() -> ResolvedRunOptions {
    ResolvedRunOptions::from_config(&EngineConfig::default(), RunOptions::default())
}

/// Two nodes in a row.
fn small_graph() -> Arc<ExecutionGraph> {
    let mut graph = ExecutionGraph::new("first");
    graph.add_node("first", NodeRuntimeClass::Standard);
    graph.add_node("second", NodeRuntimeClass::Standard);
    graph.add_edge("first", DEFAULT_EDGE, "second");
    Arc::new(graph)
}

/// What comes of a run whose nodes do as told.
enum Ran {
    Ended(GraphRunResult, Option<LoopState>),
    Failed(EngineError, LoopState),
}

fn drive(
    runner: &GraphRunner,
    mut node: String,
    state: &mut ExecutionState,
    options: &ResolvedRunOptions,
    mut run: impl FnMut(&str, &mut ExecutionState) -> (NodeExecutionResult, bool),
) -> Ran {
    loop {
        let class = match runner.begin_node(&node, state, options, false).unwrap() {
            NodeStart::Stop(end) => return Ran::Ended(end.result, Some(end.checkpoint)),
            NodeStart::Run { checkpoint, class } => {
                assert_eq!(checkpoint.status, LoopStatus::Running);
                assert_eq!(checkpoint.current_node, node);
                class
            }
        };
        let (execution, cancelled) = run(&node, state);
        match runner.settle_node(&node, class, state, execution, cancelled).unwrap() {
            NodeStep::Stop(end) => return Ran::Ended(end.result, Some(end.checkpoint)),
            NodeStep::Fail { checkpoint, error } => return Ran::Failed(error, checkpoint),
            NodeStep::Finish(result) => return Ran::Ended(result, None),
            NodeStep::Proceed(next) => node = next,
        }
    }
}

fn completed(outcome: NodeOutcome) -> (NodeExecutionResult, bool) {
    (NodeExecutionResult::Completed(Ok(outcome)), false)
}

fn ended(ran: Ran) -> (GraphRunResult, Option<LoopState>) {
    match ran {
        Ran::Ended(result, checkpoint) => (result, checkpoint),
        Ran::Failed(error, _) => panic!("unexpected {error:?}"),
    }
}

#[test]
fn paused_runs_go_on_where_they_stopped() {
    let runner = GraphRunner::new(small_graph());
    let options = guards();
    let mut state = state();
    let start = runner.run(&mut state, &options).unwrap();
    assert_eq!(start, "first");
    let (result, checkpoint) = ended(drive(&runner, start, &mut state, &options, |node, _| {
        completed(if node == "first" { NodeOutcome::Continue } else { NodeOutcome::Pause })
    }));
    assert_eq!(result.status, LoopStatus::Paused);
    assert_eq!(result.last_node.as_deref(), Some("second"));
    let checkpoint = checkpoint.unwrap();
    assert_eq!(checkpoint.status, LoopStatus::Paused);
    let (mut resumed, node) = runner.resume(checkpoint, &options).unwrap();
    assert_eq!(node, "second");
    let (result, kept) = ended(drive(&runner, node, &mut resumed, &options, |_, _| {
        completed(NodeOutcome::Finish)
    }));
    assert_eq!(result.status, LoopStatus::Finished);
    assert_eq!(result.completed_steps, 3);
    assert!(kept.is_none());
}

#[test]
fn first_checkpoints_carry_the_profile() {
    let runner = GraphRunner::new(Arc::new(build_external_context_execution_graph()));
    let options = ResolvedRunOptions {
        execution_profile: ExecutionProfile::ExternalContext,
        ..guards()
    };
    let mut state = state();
    let start = runner.run(&mut state, &options).unwrap();
    match runner.begin_node(&start, &mut state, &options, false).unwrap() {
        NodeStart::Run { checkpoint, .. } => {
            assert_eq!(checkpoint.state.execution_profile, ExecutionProfile::ExternalContext);
        }
        other => panic!("unexpected {other:?}"),
    }
}

#[test]
fn only_paused_checkpoints_resume() {
    let runner = GraphRunner::new(small_graph());
    for status in [LoopStatus::Running, LoopStatus::Failed, LoopStatus::Cancelled] {
        let checkpoint = state().checkpoint("first".to_string(), status);
        match runner.resume(checkpoint, &guards()) {
            Err(EngineError::LoopTerminated(found)) => assert_eq!(found, status),
            other => panic!("unexpected {other:?}"),
        }
    }
}

#[test]
fn checkpoints_keep_their_profile() {
    let runner = GraphRunner::new(small_graph());
    let checkpoint = state().checkpoint("first".to_string(), LoopStatus::Paused);
    let options = ResolvedRunOptions {
        execution_profile: ExecutionProfile::ExternalContext,
        ..guards()
    };
    assert!(matches!(
        runner.resume(checkpoint, &options),
        Err(EngineError::Configuration(_))
    ));
}

#[test]
fn cancelled_runs_start_no_node() {
    let runner = GraphRunner::new(small_graph());
    let mut state = state();
    match runner.begin_node("first", &mut state, &guards(), true).unwrap() {
        NodeStart::Stop(end) => {
            assert_eq!(end.result.status, LoopStatus::Cancelled);
            assert_eq!(end.checkpoint.status, LoopStatus::Cancelled);
        }
        other => panic!("unexpected {other:?}"),
    }
    assert_eq!(state.iteration, 0);
    let end = runner.cancelled("first", &state);
    assert_eq!(end.result.status, LoopStatus::Cancelled);
}

#[test]
fn cancelled_nodes_stop_the_run() {
    let runner = GraphRunner::new(small_graph());
    let mut state = state();
    let (result, checkpoint) = ended(drive(
        &runner,
        "first".to_string(),
        &mut state,
        &guards(),
        |_, _| (NodeExecutionResult::Cancelled, true),
    ));
    assert_eq!(result.status, LoopStatus::Cancelled);
    assert_eq!(checkpoint.unwrap().current_node, "first");
}

#[test]
fn finished_tool_rounds_survive_cancellation() {
    let mut graph = ExecutionGraph::new("tools");
    graph.add_node("tools", NodeRuntimeClass::ToolExecution);
    graph.add_node("other", NodeRuntimeClass::Standard);
    graph.add_edge("tools", DEFAULT_EDGE, "other");
    graph.add_edge("other", DEFAULT_EDGE, "tools");
    let runner = GraphRunner::new(Arc::new(graph));
    let mut state = state();
    let outcome = || NodeExecutionResult::Completed(Ok(NodeOutcome::Continue));
    let kept = runner.settle_node(
        "tools",
        NodeRuntimeClass::ToolExecution,
        &mut state,
        outcome(),
        true,
    );
    assert!(matches!(kept, Ok(NodeStep::Proceed(next)) if next == "other"));
    let dropped = runner.settle_node(
        "other",
        NodeRuntimeClass::Standard,
        &mut state,
        outcome(),
        true,
    );
    assert!(matches!(dropped, Ok(NodeStep::Stop(end)) if end.result.status == LoopStatus::Cancelled));
    assert_eq!(state.last_completed_node.as_deref(), Some("tools"));
}

#[test]
fn runs_stop_when_their_steps_are_spent() {
    let runner = GraphRunner::new(small_graph());
    let options = ResolvedRunOptions { max_graph_steps: 1, ..guards() };
    let mut state = state();
    let (result, checkpoint) = ended(drive(
        &runner,
        "first".to_string(),
        &mut state,
        &options,
        |_, _| completed(NodeOutcome::Continue),
    ));
    assert_eq!(result.status, LoopStatus::TimedOut);
    assert_eq!(result.completed_steps, 1);
    assert_eq!(checkpoint.unwrap().current_node, "second");
}

#[test]
fn slow_nodes_stop_the_run() {
    let runner = GraphRunner::new(small_graph());
    let mut state = state();
    let (result, checkpoint) = ended(drive(
        &runner,
        "first".to_string(),
        &mut state,
        &guards(),
        |_, _| (NodeExecutionResult::TimedOut, false),
    ));
    assert_eq!(result.status, LoopStatus::TimedOut);
    assert_eq!(checkpoint.unwrap().status, LoopStatus::TimedOut);
}

#[test]
fn failures_are_checkpointed() {
    let runner = GraphRunner::new(small_graph());
    let mut state = state();
    let ran = drive(&runner, "first".to_string(), &mut state, &guards(), |_, _| {
        (
            NodeExecutionResult::Completed(Err(EngineError::Model("down".to_string()))),
            false,
        )
    });
    match ran {
        Ran::Failed(EngineError::Model(text), checkpoint) => {
            assert_eq!(text, "down");
            assert_eq!(checkpoint.status, LoopStatus::Failed);
        }
        _ => panic!("expected a failure"),
    }
    let (result, _) = ended(drive(&runner, "first".to_string(), &mut state, &guards(), |_, _| {
        (NodeExecutionResult::Completed(Err(EngineError::Cancelled)), false)
    }));
    assert_eq!(result.status, LoopStatus::Cancelled);
}

#[test]
fn missing_edges_are_reported() {
    let runner = GraphRunner::new(small_graph());
    let mut state = state();
    let settle = |state: &mut ExecutionState, outcome: NodeOutcome| {
        match runner.settle_node(
            "second",
            NodeRuntimeClass::Standard,
            state,
            NodeExecutionResult::Completed(Ok(outcome)),
            false,
        ) {
            Err(EngineError::Configuration(text)) => text,
            other => panic!("unexpected {other:?}"),
        }
    };
    assert_eq!(
        settle(&mut state, NodeOutcome::Continue),
        "missing default edge from execution node second"
    );
    assert_eq!(
        settle(&mut state, NodeOutcome::Branch("left".to_string())),
        "missing branch edge left from execution node second"
    );
}

/// Runs a profile in memory: the model asks for tools as often as told.
fn converse(profile: ExecutionProfile, rounds_asked: u32) -> (ExecutionState, GraphRunResult) {
    let config = EngineConfig::default();
    let options = RunOptions { execution_profile: profile, ..RunOptions::default() };
    let run = begin_turn(&config, &WordEstimator, request("hi there"), options).unwrap();
    let assembler = ContextAssembler::new(Arc::new(WordEstimator));
    let mut state = run.state;
    let limit = run.options.max_tool_rounds;
    let ran = drive(&run.runner, run.node, &mut state, &run.options, |node, state| {
        let outcome = match node {
            "ingest_user_input" => {
                let node = user_input_node(state);
                state.recent_session.push(node);
                NodeOutcome::Continue
            }
            "build_activation_query" => {
                build_activation_query(state);
                NodeOutcome::Continue
            }
            "assemble_external_context" => {
                assemble_external_context(state, &config, &WordEstimator).unwrap()
            }
            name if name.starts_with("assemble_context") => {
                assemble_context(state, &config, &assembler)
            }
            name if name.starts_with("run_model") => {
                to_model_input(state).unwrap();
                let answer = if state.model_invocations < rounds_asked {
                    output(Some("let me look"), vec![call(&format!("t{}", state.model_invocations))])
                } else {
                    output(Some("done"), Vec::new())
                };
                settle_model_output(state, &config, limit, answer).unwrap()
            }
            "execute_tools" => {
                state.tool_rounds_completed += 1;
                state.pending_tool_calls.clear();
                NodeOutcome::Continue
            }
            "persist_assistant_output" => {
                let node = assistant_output_node(state);
                note_answer(state, node)
            }
            "finalize_external_response" => finalize_external_response(state),
            "distill_current_loop" => NodeOutcome::Finish,
            _ => NodeOutcome::Continue,
        };
        completed(outcome)
    });
    let (result, _) = ended(ran);
    (state, result)
}

#[test]
fn plain_turns_run_to_their_end() {
    let (state, result) = converse(ExecutionProfile::MemoryAware, 0);
    assert_eq!(result.status, LoopStatus::Finished);
    assert_eq!(state.assistant_message.as_deref(), Some("done"));
    assert_eq!(state.recent_session.len(), 2);
    assert_eq!(state.recent_session[0].kind, RawNodeKind::UserUtterance);
    assert_eq!(state.recent_session[1].content_text(), "done");
    let response = build_response(state, result);
    assert_eq!(response.status, LoopStatus::Finished);
    assert_eq!(response.assistant_message.as_deref(), Some("done"));
    assert_eq!(response.tool_rounds_completed, 0);
}

#[test]
fn external_turns_touch_no_memory() {
    let (state, result) = converse(ExecutionProfile::ExternalContext, 2);
    assert_eq!(result.status, LoopStatus::Finished);
    assert_eq!(state.assistant_message.as_deref(), Some("done"));
    assert_eq!(state.tool_rounds_completed, 2);
    assert!(state.recent_session.is_empty());
    assert!(state.activation_query.is_none());
}

#[test]
fn tool_rounds_end_at_the_limit() {
    let config = EngineConfig::default();
    let limit = config.runtime.max_tool_rounds;
    let (state, result) = converse(ExecutionProfile::MemoryAware, u32::MAX);
    assert_eq!(result.status, LoopStatus::Finished);
    assert_eq!(state.tool_rounds_completed, limit);
    assert_eq!(
        state.assistant_message.unwrap(),
        format!("Tool round limit reached after {limit} rounds without a final assistant message.")
    );
}

#[test]
fn turns_take_the_given_identities() {
    let loop_id = LoopId::new();
    let options = RunOptions { loop_id: Some(loop_id), ..RunOptions::default() };
    let asked = request("hi");
    let session_id = asked.session_id.unwrap();
    let run = begin_turn(&EngineConfig::default(), &WordEstimator, asked, options).unwrap();
    assert_eq!(run.state.loop_id, loop_id);
    assert_eq!(run.state.session_id, session_id);
    assert_eq!(run.node, "ingest_user_input");
}

#[test]
fn turns_start_only_under_sound_guards() {
    let mut config = EngineConfig::default();
    config.runtime.max_graph_steps = 0;
    assert!(matches!(
        begin_turn(&config, &WordEstimator, request("hi"), RunOptions::default()),
        Err(EngineError::Configuration(_))
    ));
    let options = RunOptions { max_tool_rounds: Some(0), ..RunOptions::default() };
    let outcome = begin_turn(&EngineConfig::default(), &WordEstimator, request("hi"), options);
    match outcome {
        Ok(run) => assert!(run.options.validate().is_ok()),
        Err(error) => assert!(matches!(error, EngineError::Configuration(_))),
    }
}

#[test]
fn only_the_last_answer_counts() {
    let config = EngineConfig::default();
    let mut state = state();
    let asked = settle_model_output(
        &mut state,
        &config,
        3,
        output(Some("let me look"), vec![call("t")]),
    );
    assert!(matches!(asked, Ok(NodeOutcome::Branch(branch)) if branch == NEEDS_TOOLS_BRANCH));
    assert_eq!(state.assistant_message, None);
    assert_eq!(state.pending_tool_calls.len(), 1);
    let answered = settle_model_output(&mut state, &config, 3, output(Some("final"), Vec::new()));
    assert!(matches!(answered, Ok(NodeOutcome::Continue)));
    assert_eq!(answer_text(&state), "final");
    assert_eq!(state.model_invocations, 2);
    let silent = settle_model_output(&mut state, &config, 3, output(None, Vec::new()));
    assert!(silent.is_ok());
    assert_eq!(answer_text(&state), "No assistant message generated.");
}

#[test]
fn answers_with_too_many_calls_are_refused() {
    let mut config = EngineConfig::default();
    config.runtime.max_tool_calls_per_round = 1;
    let mut state = state();
    let refused =
        settle_model_output(&mut state, &config, 3, output(None, vec![call("a"), call("b")]));
    match refused {
        Err(EngineError::Tool(text)) => assert_eq!(
            text,
            "model returned 2 tool calls, exceeding max_tool_calls_per_round=1"
        ),
        other => panic!("unexpected {other:?}"),
    }
    assert_eq!(state.model_invocations, 0);
    let long = settle_model_output(&mut state, &config, 3, output(None, vec![call(&"n".repeat(300))]));
    assert!(matches!(long, Err(EngineError::Tool(_))));
}

#[test]
fn repeated_calls_must_be_idempotent() {
    let config = EngineConfig::default();
    let mut state = state();
    state.pending_tool_calls = vec![call("write")];
    let checkpoint = state.checkpoint(EXECUTE_TOOLS_NODE.to_string(), LoopStatus::Running);
    let pending = calls_to_repeat(&checkpoint);
    assert_eq!(pending.len(), 1);
    assert_eq!(pending[0].name, "write");
    let refused =
        recover_interrupted_loop(&config, checkpoint.clone(), &[false], RunOptions::default());
    match refused {
        Err(EngineError::RecoveryUnsafe(text)) => assert_eq!(
            text,
            "side-effecting tool write does not guarantee recovery with the engine idempotency key"
        ),
        other => panic!("unexpected {other:?}"),
    }
    let run = recover_interrupted_loop(&config, checkpoint, &[true], RunOptions::default()).unwrap();
    assert_eq!(run.node, EXECUTE_TOOLS_NODE);
    assert_eq!(run.state.pending_tool_calls.len(), 1);
}

#[test]
fn interrupted_model_calls_are_not_repeated() {
    let config = EngineConfig::default();
    let checkpoint = state().checkpoint("run_model".to_string(), LoopStatus::Running);
    assert!(calls_to_repeat(&checkpoint).is_empty());
    match recover_interrupted_loop(&config, checkpoint, &[], RunOptions::default()) {
        Err(EngineError::RecoveryUnsafe(text)) => assert_eq!(
            text,
            "model node run_model may already have produced a billable completion"
        ),
        other => panic!("unexpected {other:?}"),
    }
}

#[test]
fn loops_resume_from_their_checkpoint() {
    let config = EngineConfig::default();
    let paused = state().checkpoint("load_session_view".to_string(), LoopStatus::Paused);
    let (session_id, loop_id) = (paused.session_id, paused.loop_id);
    let run = resume_loop(&config, Some(paused), session_id, loop_id, RunOptions::default()).unwrap();
    assert_eq!(run.node, "load_session_view");
    assert_eq!(run.state.loop_id, loop_id);
    match resume_loop(&config, None, session_id, loop_id, RunOptions::default()) {
        Err(EngineError::CheckpointNotFound { session_id: session, loop_id: found }) => {
            assert_eq!(session, session_id.to_string());
            assert_eq!(found, loop_id.to_string());
        }
        other => panic!("unexpected {other:?}"),
    }
}

#[test]
fn histories_are_trimmed_in_groups() {
    let mut asking = message(ConversationRole::Assistant, "calling");
    asking.tool_calls = vec![call("t")];
    let mut answering = message(ConversationRole::Tool, "result");
    answering.tool_call_id = Some("id-t".to_string());
    let mut stray = message(ConversationRole::Tool, "stray");
    stray.tool_call_id = Some("unknown".to_string());
    let history = vec![
        message(ConversationRole::User, "old"),
        asking.clone(),
        answering.clone(),
        stray,
        message(ConversationRole::User, "new"),
    ];
    let groups = coherent_conversation_groups(&history);
    let sizes: Vec<_> = groups.iter().map(|group| group.len()).collect();
    assert_eq!(sizes, vec![1, 2, 1]);
    assert_eq!(groups[1], vec![asking.clone(), answering.clone()]);

    let config = EngineConfig::default();
    let kept = trim_conversation_history(&history, &config, &WordEstimator, "question", None).unwrap();
    assert_eq!(kept.len(), 4);
    assert_eq!(kept[1], asking);
    assert_eq!(kept[2], answering);

    let long = vec![message(ConversationRole::User, &"word ".repeat(1_000_000)), history[4].clone()];
    let kept = trim_conversation_history(&long, &config, &WordEstimator, "question", None).unwrap();
    assert_eq!(kept, vec![history[4].clone()]);
    let question = "word ".repeat(1_000_000);
    assert!(matches!(
        trim_conversation_history(&[], &config, &WordEstimator, &question, None),
        Err(EngineError::Configuration(_))
    ));
}

#[test]
fn trimmed_histories_stay_as_they_are() {
    let mut config = EngineConfig::default();
    let mut asking = message(ConversationRole::Assistant, "calling");
    asking.tool_calls = vec![call("t")];
    let mut answering = message(ConversationRole::Tool, "result");
    answering.tool_call_id = Some("id-t".to_string());
    let history = vec![
        message(ConversationRole::User, "one two three four five"),
        asking,
        answering,
        message(ConversationRole::Tool, "stray"),
        message(ConversationRole::User, "six seven"),
    ];
    let mut sizes = Vec::new();
    for total in 181..421 {
        config.context_budget.total_tokens = total;
        config.context_budget.reserve_system = 100;
        config.context_budget.reserve_tools = 100;
        config.context_budget.reserve_working = 80;
        let trim = |history: &[ConversationMessage]| {
            trim_conversation_history(history, &config, &WordEstimator, "question", None)
        };
        let Ok(kept) = trim(&history) else { continue };
        assert_eq!(trim(&kept).unwrap(), kept);
        sizes.push(kept.len());
    }
    sizes.dedup();
    assert_eq!(sizes.last(), Some(&4));
    assert!(sizes.len() > 1);
}

#[test]
fn contexts_and_queries_are_built_in_turn() {
    let config = EngineConfig::default();
    let mut state = state();
    state.plan = Some("the plan".to_string());
    assert!(matches!(activation_input(&state), Err(EngineError::Configuration(_))));
    assert!(matches!(to_model_input(&state), Err(EngineError::Configuration(_))));
    let (session_id, loop_id) = (state.session_id, state.loop_id);
    for _ in 0..20 {
        state.recent_session.push(note(session_id, loop_id));
    }
    build_activation_query(&mut state);
    let query = state.activation_query.clone().unwrap();
    assert_eq!(query.recent_context.len(), 12);
    assert_eq!(query.recent_context[0], "Note: text");
    assert!(activation_input(&state).unwrap().contains("hello"));
    note_activation(&mut state, Embedding(vec![float(1.0)]), ActivatedMemory::default());
    assert_eq!(state.query_embedding, Some(Embedding(vec![float(1.0)])));
    let assembler = ContextAssembler::new(Arc::new(WordEstimator));
    assemble_context(&mut state, &config, &assembler);
    assert_eq!(state.session_window_ids.len() + state.pushed_out_raw_ids.len(), 20);
    let input = to_model_input(&state).unwrap();
    assert_eq!(input.system_prompt, config.system_prompt);
    assert_eq!(input.user_message, "hello");
    assert_eq!(input.plan.as_deref(), Some("the plan"));
    assert_eq!(input.session_context.len(), state.session_window_ids.len());
}

#[test]
fn records_of_a_turn_are_keyed_and_ranked() {
    let mut state = state();
    let asked = user_input_node(&state);
    assert_eq!(asked.kind, RawNodeKind::UserUtterance);
    assert_eq!(asked.metadata.importance, float(0.85));
    assert_eq!(asked.metadata.tags, vec!["input".to_string()]);
    assert_eq!(
        asked.operation_key,
        Some(format!("loop:{}:user_input", state.loop_id.to_string()))
    );
    state.assistant_message = Some("answer".to_string());
    let answered = assistant_output_node(&state);
    assert_eq!(answered.content_text(), "answer");
    assert_eq!(answered.metadata.importance, float(0.78));
    assert_eq!(answered.metadata.source, "assistant");
    assert!(matches!(finalize_external_response(&mut state), NodeOutcome::Finish));
}

#[test]
fn overflow_marks_are_set_once_and_taken_off() {
    let mut state = state();
    let now = Timestamp { secs: 1_000, nanos: 7 };
    let (session_id, loop_id) = (state.session_id, state.loop_id);
    let back = {
        let mut node = note(session_id, loop_id);
        node.overflow.was_pushed_out_of_session = true;
        node
    };
    let fallen = note(session_id, loop_id);
    let dated = {
        let mut node = note(session_id, loop_id);
        node.overflow = OverflowPolicy {
            was_pushed_out_of_session: true,
            relax_retrieval_until: Some(now),
        };
        node
    };
    let distilled = {
        let mut node = note(session_id, loop_id);
        node.distillation_state = DistillationState::Distilled;
        node
    };
    state.session_window_ids = vec![back.id];
    state.pushed_out_raw_ids = vec![fallen.id, dated.id, distilled.id];
    state.recent_session = vec![back.clone(), fallen.clone(), dated, distilled];
    let update = mark_session_overflow(&state, now);
    assert_eq!(update.cleared, vec![back.id]);
    assert_eq!(update.marked, vec![fallen.id]);
    assert_eq!(update.clear_patch.apply(back).overflow, OverflowPolicy::default());
    let marked = update.mark_patch.apply(fallen);
    assert_eq!(
        marked.overflow.relax_retrieval_until,
        Some(Timestamp { secs: 1_000 + 86_400, nanos: 7 })
    );
    state.recent_session = vec![marked];
    assert!(mark_session_overflow(&state, now).marked.is_empty());
}

fn opened(start: Result<BatchStart>) -> BatchClaim {
    match start.unwrap() {
        BatchStart::Claim(claim) => claim,
        BatchStart::Empty => panic!("expected a claim"),
    }
}

#[test]
fn batches_are_checked_before_they_are_claimed() {
    let mut config = EngineConfig::default();
    let session_id = SessionId::new();
    let loop_id = LoopId::new();
    let timeout = Duration::from_secs(30);
    let nodes = vec![note(session_id, loop_id), note(session_id, loop_id)];
    let claim = opened(open_batch(&config, session_id, loop_id, &nodes, timeout));
    assert_eq!(claim.lease_for, Duration::from_secs(65));
    assert_eq!(claim.input_ids, sort_raw_ids(vec![nodes[0].id, nodes[1].id]));
    let reversed: Vec<_> = nodes.iter().rev().cloned().collect();
    let again = opened(open_batch(&config, session_id, loop_id, &reversed, timeout));
    assert_eq!(again.input_digest, claim.input_digest);
    assert_eq!(again.input_digest.len(), 36);
    let single = opened(open_batch(&config, session_id, loop_id, &nodes[..1], timeout));
    assert_ne!(single.input_digest, claim.input_digest);

    assert!(matches!(
        open_batch(&config, session_id, loop_id, &[], timeout),
        Ok(BatchStart::Empty)
    ));
    let storage = |outcome: Result<BatchStart>| match outcome {
        Err(EngineError::Storage(text)) => text,
        other => panic!("unexpected {other:?}"),
    };
    assert_eq!(
        storage(open_batch(&config, session_id, LoopId::new(), &nodes, timeout)),
        "distillation batch contains a cross-session or cross-loop raw node"
    );
    let twice = vec![nodes[0].clone(), nodes[0].clone()];
    assert_eq!(
        storage(open_batch(&config, session_id, loop_id, &twice, timeout)),
        "distillation batch contains duplicate raw node ids"
    );
    match open_batch(&config, session_id, loop_id, &nodes, Duration::longest()) {
        Err(EngineError::Configuration(text)) => {
            assert_eq!(text, "distillation timeout is too large")
        }
        other => panic!("unexpected {other:?}"),
    }
    config.runtime.max_loop_nodes = 1;
    match open_batch(&config, session_id, loop_id, &nodes, timeout) {
        Err(EngineError::Configuration(text)) => assert_eq!(
            text,
            "distillation batch contains 2 raw nodes, exceeding max_loop_nodes=1"
        ),
        other => panic!("unexpected {other:?}"),
    }
}

#[test]
fn updates_stay_within_the_batch() {
    let a = RawNodeId::new();
    let b = RawNodeId::new();
    let ids = sort_raw_ids(vec![a, b, a]);
    assert_eq!(ids.len(), 2);
    let update = |id: RawNodeId| RawLifecycleUpdate {
        raw_node_id: id,
        patch: RawLifecyclePatch::default(),
    };
    assert!(check_updates(&ids, &[update(a), update(b)]).is_ok());
    for refused in [vec![update(a), update(a)], vec![update(RawNodeId::new())]] {
        match check_updates(&ids, &refused) {
            Err(EngineError::Storage(text)) => assert_eq!(
                text,
                "distiller returned an out-of-batch or duplicate raw update"
            ),
            other => panic!("unexpected {other:?}"),
        }
    }
}

#[test]
fn lost_claims_stop_a_commit() {
    for (stage, expected) in [
        (CommitStage::Start, "distillation claim expired before commit"),
        (CommitStage::Node, "distillation claim was replaced during commit"),
        (CommitStage::Lifecycle, "distillation claim was replaced during lifecycle commit"),
    ] {
        assert!(require_claim(true, stage).is_ok());
        match require_claim(false, stage) {
            Err(error) => assert!(error.to_string().ends_with(expected), "{error:?}"),
            Ok(()) => panic!("expected an error"),
        }
    }
    let done = || {
        Ok(DistillationBatchResult { new_abstract_ids: Vec::new(), updated_raw_nodes: 2 })
    };
    assert_eq!(settle_batch(done(), Ok(())).unwrap().unwrap().updated_raw_nodes, 2);
    let lost = || EngineError::Storage("lost".to_string());
    assert!(settle_batch(done(), Err(lost())).is_err());
    assert!(settle_batch(Err(EngineError::Cancelled), Err(lost())).is_err());
}

#[test]
fn distilled_nodes_keep_their_provenance() {
    let session_id = SessionId::new();
    let loop_id = LoopId::new();
    let raw = note(session_id, loop_id);
    let mut node = AbstractNode::new(
        "title",
        "summary",
        References::default(),
        GraphFragment::default(),
        AbstractNodeMetadata::default(),
    );
    assert_eq!(abstract_embedding_text(&node), "title summary");
    node.references.raw_node_ids = vec![raw.id, raw.id];
    let related = RawNodeId::new();
    node.graph.relations.push(Relation {
        subject: "s".to_string(),
        predicate: "p".to_string(),
        object: "o".to_string(),
        weight: float(1.0),
        provenance_raw_node_ids: vec![related],
    });
    let linked = AbstractNodeId::new();
    node.references.abstract_node_ids = vec![linked, linked];
    assert_eq!(raw_provenance_ids(&node), sort_raw_ids(vec![raw.id, related]));
    assert_eq!(abstract_provenance_ids(&node), vec![linked]);
    assert!(check_raw_provenance(session_id, 1, &[raw.clone()]).is_ok());
    assert!(check_raw_provenance(session_id, 2, &[raw.clone()]).is_err());
    assert!(check_raw_provenance(SessionId::new(), 1, &[raw]).is_err());
    let keyed = key_distilled_node(node.clone(), session_id, loop_id, "digest", 4);
    assert_eq!(
        keyed.operation_key,
        Some(format!("distill:{}:{}:digest:4", session_id.to_string(), loop_id.to_string()))
    );
    assert!(provenance_to_check(&keyed).is_none());
    let keyed = assign_session(keyed, Some(session_id));
    assert_eq!(keyed.session_id, Some(session_id));
    let wanted = provenance_to_check(&keyed).unwrap();
    assert_eq!(wanted.session_id, session_id);
    assert_eq!(wanted.raw_ids, raw_provenance_ids(&keyed));
    assert_eq!(wanted.abstract_ids, vec![linked]);
    let commit = |inserted: bool| NodeCommit {
        node: keyed.clone(),
        inserted,
        projections_committed: false,
    };
    assert_eq!(inserted_node(commit(true)).unwrap().id, keyed.id);
    assert!(inserted_node(commit(false)).is_none());
    assert!(check_abstract_provenance(session_id, 1, &[keyed.clone()]).is_ok());
    assert!(check_abstract_provenance(SessionId::new(), 1, &[keyed]).is_err());
    assert!(matches!(projection_after(true, true), Projection::Done));
    assert!(matches!(projection_after(true, false), Projection::Given));
    assert!(matches!(projection_after(false, false), Projection::Recomputed));
    assert!(matches!(abstract_projection_after(true, true), Projection::Done));
    assert!(matches!(abstract_projection_after(true, false), Projection::Given));
    assert!(matches!(abstract_projection_after(false, false), Projection::Done));
    assert!(matches!(abstract_projection_after(false, true), Projection::Done));
}

#[test]
fn backlogs_are_grouped_by_loop() {
    let session_id = SessionId::new();
    let loop_id = LoopId::new();
    let other_loop = LoopId::new();
    let mut backlog: Vec<RawNode> = (0..5).map(|_| note(session_id, loop_id)).collect();
    backlog.push(note(session_id, other_loop));
    backlog.push(RawNode::text(
        RawNodeKind::Note,
        None,
        None,
        "system",
        "loose",
        float(0.5),
        Vec::new(),
    ));
    let batches = group_backlog(&backlog, 3);
    assert_eq!(batches.len(), 2);
    for batch in &batches {
        let expected = if batch.key.loop_id == loop_id { 3 } else { 1 };
        assert_eq!(batch.raw_nodes.len(), expected);
        assert!(batch.raw_nodes.iter().all(|node| node.loop_id == Some(batch.key.loop_id)));
    }
    let config = EngineConfig::default();
    let (limit, options) = begin_maintenance(&config, usize::MAX).unwrap();
    assert_eq!(limit, config.runtime.maintenance_batch_size);
    assert_eq!(options, guards());
    assert!(options.validate().is_ok());
    let mut report = MaintenanceReport::default();
    report.record(&None);
    report.record(&Some(DistillationBatchResult {
        new_abstract_ids: vec![AbstractNodeId::new()],
        updated_raw_nodes: 3,
    }));
    assert_eq!(report.processed_loops, 1);
    assert_eq!(report.skipped_loops, 1);
    assert_eq!(report.new_abstract_nodes, 1);
    assert_eq!(report.updated_raw_nodes, 3);
}

#[test]
fn both_graphs_start_where_their_profile_says() {
    assert_eq!(build_default_execution_graph().start_node(), "ingest_user_input");
    assert_eq!(
        build_external_context_execution_graph().start_node(),
        "assemble_external_context"
    );
}

#[test]
fn finished_loops_are_distilled_whole() {
    let mut config = EngineConfig::default();
    config.runtime.max_loop_nodes = 2;
    assert_eq!(loop_read_limit(&config), 3);
    let mut state = state();
    let nodes: Vec<RawNode> = (0..3).map(|_| note(state.session_id, state.loop_id)).collect();
    assert!(check_loop_size(&config, state.loop_id, &nodes[..2]).is_ok());
    match check_loop_size(&config, state.loop_id, &nodes) {
        Err(EngineError::Configuration(text)) => assert_eq!(
            text,
            format!(
                "loop {} exceeds max_loop_nodes=2; split the turn before distillation",
                state.loop_id.to_string()
            )
        ),
        other => panic!("unexpected {other:?}"),
    }
    config.runtime.max_loop_nodes = usize::MAX;
    assert_eq!(loop_read_limit(&config), usize::MAX);
    assert_eq!(
        distillation_timed_out(Duration::from_secs(3)).to_string(),
        "tool error: distillation exceeded the configured timeout of 3s"
    );
    let memory = AbstractNode::new(
        "title",
        "summary",
        References::default(),
        GraphFragment::default(),
        AbstractNodeMetadata::default(),
    );
    state.activated_memory.abstract_nodes.push(RankedAbstractNode {
        node: memory.clone(),
        score: float(0.5),
    });
    assert_eq!(activated_abstract_ids(&state), vec![memory.id]);
    let made = DistillationBatchResult {
        new_abstract_ids: vec![memory.id],
        updated_raw_nodes: 1,
    };
    assert!(matches!(note_distillation(&mut state, Some(made)), NodeOutcome::Finish));
    assert!(matches!(note_distillation(&mut state, None), NodeOutcome::Finish));
    assert_eq!(state.new_abstract_ids, vec![memory.id]);
}
