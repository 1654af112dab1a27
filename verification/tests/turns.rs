//! Whole turns: each node of a run does its work at once, with a model and
//! tools that do as told.
use std::cell::{Cell, RefCell};
use std::sync::Arc;

use takos_agent_engine::config::{ContextBudgetConfig, EngineConfig};
use takos_agent_engine::domain::loop_state::LoopStatus;
use takos_agent_engine::domain::raw_node::{RawNode, RawNodeKind};
use takos_agent_engine::engine::context_assembler::{AssembledContext, ContextAssembler};
use takos_agent_engine::engine::estimator::TokenEstimator;
use takos_agent_engine::engine::execution_graph::{
    ExecutionGraph, ExecutionProfile, ExecutionState, GraphRunResult, NodeOutcome,
    NodeRuntimeClass, ResolvedRunOptions, RunOptions, SessionRequest, DEFAULT_EDGE,
};
use takos_agent_engine::engine::graph_runner::{
    GraphRunner, NodeExecutionResult, NodeStart, NodeStep,
};
use takos_agent_engine::engine::nodes::{
    activation_input, assemble_context, assemble_external_context, assistant_output_node,
    build_activation_query, build_response, finalize_external_response, note_activation,
    note_answer, settle_model_output, to_model_input, user_input_node, SessionResponse,
};
use takos_agent_engine::engine::operation_keys::tool_result_operation_key;
use takos_agent_engine::engine::session_engine::{
    begin_turn, calls_to_repeat, recover_interrupted_loop, PreparedRun,
};
use takos_agent_engine::engine::tool_execution::{Keeping, RoundOpening};
use takos_agent_engine::engine::tool_phases::{PreparedToolCall, TimedToolOutcome};
use takos_agent_engine::engine::tool_results::push_raw_node_into_state;
use takos_agent_engine::error::{EngineError, Result};
use takos_agent_engine::ids::{LoopId, SessionId};
use takos_agent_engine::json::JsonValue;
use takos_agent_engine::memory::activation::ActivatedMemory;
use takos_agent_engine::model::embedding::Embedding;
use takos_agent_engine::model::runner::{
    ConversationMessage, ConversationRole, ModelInput, ModelOutput, ToolCallRequest,
};
use takos_agent_engine::storage::in_memory::{InMemoryLoopStateRepository, InMemoryNodeRepository};
use takos_agent_engine::time::Duration;
use takos_agent_engine::tools::executor::{ToolCallResult, ToolExecutionKind};

/// One token for each word.
#[derive(Debug, Clone, Copy)]
struct WordEstimator;

impl TokenEstimator for WordEstimator {
    fn estimate_text(&self, text: &str) -> usize {
        text.split_whitespace().count()
    }
}

/// One token for each character.
#[derive(Debug, Clone, Copy)]
struct CharacterEstimator;

impl TokenEstimator for CharacterEstimator {
    fn estimate_text(&self, text: &str) -> usize {
        text.chars().count()
    }
}

/// What becomes of a piece of outside work.
enum Work<T> {
    Done(T),
    /// It takes this long.
    Late(Duration, T),
    /// It is still going on when the run is cancelled.
    Hangs,
}

type Model<'a> = Box<dyn FnMut(usize, ModelInput) -> Work<ModelOutput> + 'a>;
type Tools<'a> = Box<dyn FnMut(&PreparedToolCall) -> Work<Result<ToolCallResult>> + 'a>;

/// A run with all that it needs.
struct Desk<'a> {
    config: EngineConfig,
    estimator: Arc<dyn TokenEstimator>,
    model: Model<'a>,
    tools: Tools<'a>,
    is_read_only: fn(&str) -> bool,
    repository: InMemoryNodeRepository,
    checkpoints: InMemoryLoopStateRepository,
    /// How often the model was asked.
    asked: usize,
    /// The names of the calls that ran side by side, in the order they ran.
    phases: Vec<Vec<String>>,
    cancelled: bool,
}

impl<'a> Desk<'a> {
    fn new(
        model: impl FnMut(usize, ModelInput) -> Work<ModelOutput> + 'a,
        tools: impl FnMut(&PreparedToolCall) -> Work<Result<ToolCallResult>> + 'a,
    ) -> Self {
        Desk {
            config: EngineConfig::default(),
            estimator: Arc::new(WordEstimator),
            model: Box::new(model),
            tools: Box::new(tools),
            is_read_only: |_| true,
            repository: InMemoryNodeRepository::default(),
            checkpoints: InMemoryLoopStateRepository::default(),
            asked: 0,
            phases: Vec::new(),
            cancelled: false,
        }
    }

    fn run_turn(&mut self, message: &str, options: RunOptions) -> Result<SessionResponse> {
        self.run_request(request(None, message), options)
    }

    fn run_request(
        &mut self,
        request: SessionRequest,
        options: RunOptions,
    ) -> Result<SessionResponse> {
        let run = begin_turn(&self.config, self.estimator.as_ref(), request, options)?;
        self.finish(run)
    }

    fn finish(&mut self, run: PreparedRun) -> Result<SessionResponse> {
        let PreparedRun { mut state, options, runner, mut node } = run;
        loop {
            let class = match runner.begin_node(&node, &mut state, &options, self.cancelled)? {
                NodeStart::Stop(end) => {
                    self.checkpoints.save_checkpoint(end.checkpoint);
                    return Ok(build_response(state, end.result));
                }
                NodeStart::Run { checkpoint, class } => {
                    self.checkpoints.save_checkpoint(checkpoint);
                    class
                }
            };
            let execution = self.execute(&node, class, &mut state, &options);
            match runner.settle_node(&node, class, &mut state, execution, self.cancelled)? {
                NodeStep::Stop(end) => {
                    self.checkpoints.save_checkpoint(end.checkpoint);
                    return Ok(build_response(state, end.result));
                }
                NodeStep::Fail { checkpoint, error } => {
                    self.checkpoints.save_checkpoint(checkpoint);
                    return Err(error);
                }
                NodeStep::Finish(result) => {
                    self.checkpoints.clear_checkpoint(&state.session_id, &state.loop_id);
                    return Ok(build_response(state, result));
                }
                NodeStep::Proceed(next) => node = next,
            }
        }
    }

    fn execute(
        &mut self,
        node: &str,
        class: NodeRuntimeClass,
        state: &mut ExecutionState,
        options: &ResolvedRunOptions,
    ) -> NodeExecutionResult {
        if node.starts_with("run_model") {
            assert_eq!(class, NodeRuntimeClass::Model);
            return self.ask(state, options);
        }
        let outcome = match node {
            "ingest_user_input" => {
                let kept = self.repository.insert_raw_once(user_input_node(state)).node;
                push_raw_node_into_state(state, kept);
                Ok(NodeOutcome::Continue)
            }
            "load_session_view" => {
                let limit = self.config.runtime.max_session_nodes;
                state.recent_session =
                    self.repository.recent_session_raw(&state.session_id, limit);
                Ok(NodeOutcome::Continue)
            }
            "build_activation_query" | "build_followup_activation_query" => {
                build_activation_query(state);
                Ok(NodeOutcome::Continue)
            }
            "activate_memory" | "reactivate_memory" => {
                assert!(activation_input(state).is_ok());
                note_activation(state, Embedding(Vec::new()), ActivatedMemory::default());
                Ok(NodeOutcome::Continue)
            }
            "assemble_context" | "reassemble_context" => {
                let assembler = ContextAssembler::new(self.estimator.clone());
                Ok(assemble_context(state, &self.config, &assembler))
            }
            "assemble_external_context" => {
                assemble_external_context(state, &self.config, self.estimator.as_ref())
            }
            "execute_tools" => self.call_tools(state, options),
            "persist_assistant_output" => {
                let kept = self.repository.insert_raw_once(assistant_output_node(state)).node;
                Ok(note_answer(state, kept))
            }
            "finalize_external_response" => Ok(finalize_external_response(state)),
            "mark_session_overflow" => Ok(NodeOutcome::Continue),
            "distill_current_loop" => Ok(NodeOutcome::Finish),
            other => panic!("unknown node {other}"),
        };
        NodeExecutionResult::Completed(outcome)
    }

    fn ask(
        &mut self,
        state: &mut ExecutionState,
        options: &ResolvedRunOptions,
    ) -> NodeExecutionResult {
        let input = match to_model_input(state) {
            Ok(input) => input,
            Err(error) => return NodeExecutionResult::Completed(Err(error)),
        };
        let round = self.asked;
        self.asked += 1;
        let output = match (self.model)(round, input) {
            Work::Done(output) => output,
            Work::Late(span, output) => {
                if options.timeout_for_class(NodeRuntimeClass::Model).is_shorter(&span) {
                    return NodeExecutionResult::TimedOut;
                }
                output
            }
            Work::Hangs => {
                self.cancelled = true;
                return NodeExecutionResult::Cancelled;
            }
        };
        let limit = options.max_tool_rounds;
        NodeExecutionResult::Completed(settle_model_output(state, &self.config, limit, output))
    }

    fn call_tools(
        &mut self,
        state: &mut ExecutionState,
        options: &ResolvedRunOptions,
    ) -> Result<NodeOutcome> {
        let estimator = self.estimator.clone();
        let mut opening = RoundOpening::open(state, &self.config, options.execution_profile)?;
        while opening.next_call(&self.config, self.cancelled)? {
            let waiting = opening.waiting.as_ref().unwrap();
            let kind = if (self.is_read_only)(&waiting.call.name) {
                ToolExecutionKind::ReadOnly
            } else {
                ToolExecutionKind::SideEffecting
            };
            let found = if opening.keeps_records() {
                self.repository.get_raw_by_operation_key(&waiting.operation_key)
            } else {
                None
            };
            opening.take_in(kind, found);
        }
        let mut run = opening.plan(estimator.as_ref(), state, &self.config)?;
        let limit = options.tool_timeout;
        while let Some(phase) = run.next_phase().cloned() {
            let names = phase.iter().map(|position| run.prepared[*position].call.name.clone());
            self.phases.push(names.collect());
            for position in phase {
                let outcome = match (self.tools)(&run.prepared[position]) {
                    Work::Done(result) => TimedToolOutcome::Completed(result),
                    Work::Late(span, _) if limit.is_shorter(&span) => TimedToolOutcome::TimedOut,
                    Work::Late(_, result) => TimedToolOutcome::Completed(result),
                    Work::Hangs => {
                        self.cancelled = true;
                        TimedToolOutcome::Cancelled
                    }
                };
                run.complete_call(position, outcome, limit);
            }
            run.end_phase();
        }
        let mut closing = run.into_returns();
        while let Some(keeping) = closing.next_result(estimator.as_ref(), &self.config)? {
            let record = match keeping {
                Keeping::Kept(node) => Some(node),
                Keeping::Keep(node) => Some(self.repository.insert_raw_once(node).node),
                Keeping::Nothing => None,
            };
            closing.note_result(state, record);
        }
        closing.close(estimator.as_ref(), state, &self.config)?;
        Ok(NodeOutcome::Continue)
    }
}

fn request(session_id: Option<SessionId>, message: &str) -> SessionRequest {
    SessionRequest { session_id, user_message: message.to_string(), plan: None }
}

fn external() -> RunOptions {
    RunOptions {
        execution_profile: ExecutionProfile::ExternalContext,
        ..RunOptions::default()
    }
}

fn json(text: &str) -> JsonValue {
    JsonValue::parse(text).unwrap()
}

fn call(id: Option<&str>, name: &str, arguments: &str) -> ToolCallRequest {
    ToolCallRequest {
        id: id.map(|text| text.to_string()),
        name: name.to_string(),
        arguments: json(arguments),
    }
}

fn says(text: &str) -> Work<ModelOutput> {
    Work::Done(output(Some(text), Vec::new()))
}

fn calls(tool_calls: Vec<ToolCallRequest>) -> Work<ModelOutput> {
    Work::Done(output(None, tool_calls))
}

fn output(message: Option<&str>, tool_calls: Vec<ToolCallRequest>) -> ModelOutput {
    ModelOutput {
        assistant_message: message.map(|text| text.to_string()),
        tool_calls,
        usage: None,
    }
}

/// A result that names its own call.
fn answer(call: &PreparedToolCall, content: &str, summary: &str) -> Work<Result<ToolCallResult>> {
    Work::Done(Ok(ToolCallResult {
        tool_call_id: call.call.id.clone(),
        name: call.call.name.clone(),
        content: json(content),
        summary: summary.to_string(),
    }))
}

/// A result that names another call.
fn misnamed(count: &Cell<usize>) -> Work<Result<ToolCallResult>> {
    count.set(count.get() + 1);
    Work::Done(Ok(ToolCallResult {
        tool_call_id: Some("executor-wrong-id".to_string()),
        name: "executor-wrong-name".to_string(),
        content: json("{\"ok\":true}"),
        summary: "ok".to_string(),
    }))
}

/// No call is expected.
fn no_tools(call: &PreparedToolCall) -> Work<Result<ToolCallResult>> {
    panic!("unexpected call of {}", call.call.name)
}

/// Searches where the message asks for it, then says something.
fn by_rules(round: usize, input: ModelInput) -> Work<ModelOutput> {
    if round > 0 {
        return says("Here is what was found.");
    }
    if let Some(query) = input.user_message.strip_prefix("memory: ") {
        let arguments = format!("{{\"query\":\"{query}\",\"target\":\"both\",\"top_k\":5}}");
        return calls(vec![call(None, "semantic_search_memory", &arguments)]);
    }
    if input.user_message.starts_with("timeline: ") {
        return calls(vec![call(None, "timeline_search", "{\"limit\":5}")]);
    }
    says("Understood.")
}

fn nothing_found(call: &PreparedToolCall) -> Work<Result<ToolCallResult>> {
    answer(call, "{\"results\":[]}", "0 results")
}

#[test]
fn session_engine_runs_end_to_end() {
    let mut desk = Desk::new(by_rules, nothing_found);
    let asked = SessionRequest {
        session_id: None,
        user_message: "memory: session and memory".to_string(),
        plan: Some("Demonstrate memory retrieval.".to_string()),
    };
    let response = desk.run_request(asked, RunOptions::default()).unwrap();
    assert_eq!(response.status, LoopStatus::Finished);
    assert_eq!(response.tool_results_count, 1);
    assert_eq!(response.assistant_message.as_deref(), Some("Here is what was found."));
    assert_eq!(desk.repository.raw_for_loop(&response.loop_id).len(), 3);
}

#[test]
fn caller_supplied_loop_id_is_preserved() {
    let loop_id = LoopId::new();
    let mut desk = Desk::new(by_rules, nothing_found);
    let options = RunOptions { loop_id: Some(loop_id), ..RunOptions::default() };
    let response = desk.run_turn("stable recovery identity", options).unwrap();
    assert_eq!(response.loop_id, loop_id);
}

/// Runs a graph of nodes that do as told.
fn run_graph(
    runner: &GraphRunner,
    first: String,
    state: &mut ExecutionState,
    options: &ResolvedRunOptions,
    checkpoints: &mut InMemoryLoopStateRepository,
    mut run: impl FnMut(&str, &mut ExecutionState) -> NodeExecutionResult,
) -> Result<GraphRunResult> {
    let mut node = first;
    loop {
        let class = match runner.begin_node(&node, state, options, false)? {
            NodeStart::Stop(end) => {
                checkpoints.save_checkpoint(end.checkpoint);
                return Ok(end.result);
            }
            NodeStart::Run { checkpoint, class } => {
                checkpoints.save_checkpoint(checkpoint);
                class
            }
        };
        let execution = run(&node, state);
        match runner.settle_node(&node, class, state, execution, false)? {
            NodeStep::Stop(end) => {
                checkpoints.save_checkpoint(end.checkpoint);
                return Ok(end.result);
            }
            NodeStep::Fail { error, .. } => return Err(error),
            NodeStep::Finish(result) => return Ok(result),
            NodeStep::Proceed(next) => node = next,
        }
    }
}

/// Pauses the first time, and goes on the second time.
fn pause_once(state: &mut ExecutionState) -> NodeExecutionResult {
    let outcome = if state.assistant_message.is_none() {
        state.assistant_message = Some("paused".to_string());
        NodeOutcome::Pause
    } else {
        NodeOutcome::Continue
    };
    NodeExecutionResult::Completed(Ok(outcome))
}

fn resolved(options: RunOptions) -> ResolvedRunOptions {
    ResolvedRunOptions::from_config(&EngineConfig::default(), options)
}

fn first_state(session_id: SessionId, loop_id: LoopId, message: &str) -> ExecutionState {
    ExecutionState::from_request(request(Some(session_id), message), session_id, loop_id)
}

#[test]
fn graph_runner_can_pause_and_resume() {
    let mut graph = ExecutionGraph::new("pause");
    graph.add_node("pause", NodeRuntimeClass::Standard);
    graph.add_node("finish", NodeRuntimeClass::Standard);
    graph.add_edge("pause", DEFAULT_EDGE, "finish");
    let runner = GraphRunner::new(Arc::new(graph));
    let options = resolved(RunOptions::default());
    let (session_id, loop_id) = (SessionId::new(), LoopId::new());
    let mut checkpoints = InMemoryLoopStateRepository::default();
    let step = |node: &str, state: &mut ExecutionState| {
        if node == "pause" {
            return pause_once(state);
        }
        state.assistant_message = Some("finished".to_string());
        NodeExecutionResult::Completed(Ok(NodeOutcome::Finish))
    };

    let mut state = first_state(session_id, loop_id, "pause");
    let start = runner.run(&mut state, &options).unwrap();
    let first = run_graph(&runner, start, &mut state, &options, &mut checkpoints, step).unwrap();
    assert_eq!(first.status, LoopStatus::Paused);

    let checkpoint = checkpoints.load_checkpoint(&session_id, &loop_id).expect("checkpoint");
    let (mut resumed_state, node) = runner.resume(checkpoint, &options).unwrap();
    assert_eq!(node, "pause");
    let resumed =
        run_graph(&runner, node, &mut resumed_state, &options, &mut checkpoints, step).unwrap();
    assert_eq!(resumed.status, LoopStatus::Finished);
    assert_eq!(resumed_state.assistant_message.as_deref(), Some("finished"));
}

#[test]
fn graph_runner_stamps_external_profile_before_first_checkpoint() {
    let mut graph = ExecutionGraph::new("pause");
    graph.add_node("pause", NodeRuntimeClass::Standard);
    let runner = GraphRunner::new(Arc::new(graph));
    let options = resolved(external());
    let (session_id, loop_id) = (SessionId::new(), LoopId::new());
    let mut checkpoints = InMemoryLoopStateRepository::default();
    let mut state = first_state(session_id, loop_id, "pause external");
    assert_eq!(state.execution_profile, ExecutionProfile::MemoryAware);
    let start = runner.run(&mut state, &options).unwrap();
    let result = run_graph(&runner, start, &mut state, &options, &mut checkpoints, |_, state| {
        pause_once(state)
    })
    .unwrap();
    assert_eq!(result.status, LoopStatus::Paused);
    let checkpoint =
        checkpoints.load_checkpoint(&session_id, &loop_id).expect("external checkpoint");
    assert_eq!(checkpoint.state.execution_profile, ExecutionProfile::ExternalContext);
}

#[test]
fn graph_runner_rejects_resume_when_checkpoint_is_not_paused() {
    let runner = GraphRunner::new(Arc::new(ExecutionGraph::new("finish")));
    let state = first_state(SessionId::new(), LoopId::new(), "running");
    let checkpoint = state.checkpoint("finish".to_string(), LoopStatus::Running);
    let error = runner
        .resume(checkpoint, &resolved(RunOptions::default()))
        .expect_err("running checkpoints must not resume");
    assert!(matches!(error, EngineError::LoopTerminated(LoopStatus::Running)));
}

#[test]
fn graph_runner_rejects_resume_under_a_different_execution_profile() {
    let runner = GraphRunner::new(Arc::new(ExecutionGraph::new("pause")));
    let mut state = first_state(SessionId::new(), LoopId::new(), "paused external run");
    state.execution_profile = ExecutionProfile::ExternalContext;
    let checkpoint = state.checkpoint("pause".to_string(), LoopStatus::Paused);
    let error = runner
        .resume(checkpoint, &resolved(RunOptions::default()))
        .expect_err("a checkpoint cannot switch execution profiles");
    assert!(
        matches!(error, EngineError::Configuration(message) if message.contains("execution profile"))
    );
}

#[test]
fn graph_runner_respects_cancellation() {
    let mut desk = Desk::new(by_rules, nothing_found);
    desk.cancelled = true;
    let response = desk.run_turn("cancel me", RunOptions::default()).unwrap();
    assert_eq!(response.status, LoopStatus::Cancelled);
    assert_eq!(desk.asked, 0);
}

#[test]
fn cancellation_interrupts_model_execution() {
    let mut desk = Desk::new(|_, _| Work::Hangs, no_tools);
    let options = RunOptions {
        node_timeout: Some(Duration::from_secs(5)),
        ..RunOptions::default()
    };
    let response = desk.run_turn("wait in model", options).unwrap();
    assert_eq!(desk.asked, 1);
    assert_eq!(response.status, LoopStatus::Cancelled);
}

#[test]
fn cancellation_interrupts_tool_execution() {
    let mut desk = Desk::new(by_rules, |_| Work::Hangs);
    let options = RunOptions {
        tool_timeout: Some(Duration::from_secs(5)),
        ..RunOptions::default()
    };
    let response = desk.run_turn("timeline: recent", options).unwrap();
    assert_eq!(desk.phases.len(), 1);
    assert_eq!(response.status, LoopStatus::Cancelled);
}

#[test]
fn disabled_memory_search_tool_is_rejected() {
    let mut desk = Desk::new(by_rules, no_tools);
    desk.config.tools.memory_search = false;
    let error = desk
        .run_turn("memory: blocked", RunOptions::default())
        .expect_err("disabled memory search should fail");
    assert!(matches!(error, EngineError::Tool(message) if message.contains("disabled")));
}

#[test]
fn graph_runner_respects_step_budget() {
    let mut graph = ExecutionGraph::new("loop");
    graph.add_node("loop", NodeRuntimeClass::Standard);
    graph.add_edge("loop", DEFAULT_EDGE, "loop");
    let runner = GraphRunner::new(Arc::new(graph));
    let options = resolved(RunOptions { max_graph_steps: Some(3), ..RunOptions::default() });
    let mut state = first_state(SessionId::new(), LoopId::new(), "loop");
    let start = runner.run(&mut state, &options).unwrap();
    let mut checkpoints = InMemoryLoopStateRepository::default();
    let result = run_graph(&runner, start, &mut state, &options, &mut checkpoints, |_, _| {
        NodeExecutionResult::Completed(Ok(NodeOutcome::Continue))
    })
    .unwrap();
    assert_eq!(result.status, LoopStatus::TimedOut);
    assert_eq!(result.completed_steps, 3);
}

#[test]
fn graph_runner_respects_node_timeout() {
    let mut graph = ExecutionGraph::new("slow");
    graph.add_node("slow", NodeRuntimeClass::Standard);
    let runner = GraphRunner::new(Arc::new(graph));
    let options = resolved(RunOptions {
        node_timeout: Some(Duration::from_millis(10)),
        ..RunOptions::default()
    });
    let mut state = first_state(SessionId::new(), LoopId::new(), "slow");
    let start = runner.run(&mut state, &options).unwrap();
    let mut checkpoints = InMemoryLoopStateRepository::default();
    let taken = Duration::from_millis(50);
    let result = run_graph(&runner, start, &mut state, &options, &mut checkpoints, |_, _| {
        if options.timeout_for_class(NodeRuntimeClass::Standard).is_shorter(&taken) {
            NodeExecutionResult::TimedOut
        } else {
            NodeExecutionResult::Completed(Ok(NodeOutcome::Finish))
        }
    })
    .unwrap();
    assert_eq!(result.status, LoopStatus::TimedOut);
}

#[test]
fn execute_tools_rejects_calls_over_per_round_cap() {
    let burst = |_: usize, _: ModelInput| {
        calls((0..10).map(|_| call(None, "timeline_search", "{\"limit\":1}")).collect())
    };
    let mut desk = Desk::new(burst, no_tools);
    desk.config.runtime.max_tool_calls_per_round = 3;
    let error = desk
        .run_turn("burst", RunOptions::default())
        .expect_err("over-cap model output must fail closed");
    match error {
        EngineError::Tool(message) => assert_eq!(
            message,
            "model returned 10 tool calls, exceeding max_tool_calls_per_round=3"
        ),
        other => panic!("unexpected {other:?}"),
    }
}

/// Asks for the timeline, and checks what comes back.
fn check_transcript(round: usize, input: ModelInput) -> Work<ModelOutput> {
    if round == 0 {
        assert!(input.turn_messages.is_empty());
        return Work::Done(output(
            Some("I will inspect the timeline."),
            vec![call(Some("provider-call-1"), "timeline_search", "{\"limit\":1}")],
        ));
    }
    assert_eq!(input.turn_messages.len(), 2);
    assert_eq!(input.turn_messages[0].role, ConversationRole::Assistant);
    assert_eq!(input.turn_messages[0].content, "I will inspect the timeline.");
    assert_eq!(input.turn_messages[0].tool_calls[0].id.as_deref(), Some("provider-call-1"));
    assert_eq!(input.turn_messages[1].role, ConversationRole::Tool);
    assert_eq!(input.turn_messages[1].tool_call_id.as_deref(), Some("provider-call-1"));
    says("done")
}

#[test]
fn engine_preserves_native_tool_call_correlation_for_followup_model() {
    let mut desk = Desk::new(check_transcript, nothing_found);
    let response = desk.run_turn("inspect the timeline", RunOptions::default()).unwrap();
    assert_eq!(response.status, LoopStatus::Finished);
    assert_eq!(response.tool_results_count, 1);
    assert_eq!(response.assistant_message.as_deref(), Some("done"));
}

#[test]
fn tool_ids_cannot_be_reused_across_rounds() {
    let count = Cell::new(0);
    let model = |round: usize, _: ModelInput| {
        if round < 2 {
            return calls(vec![call(
                Some("provider-reused-id"),
                &format!("remote-{round}"),
                "{}",
            )]);
        }
        says("unexpected")
    };
    let error = Desk::new(model, |_| misnamed(&count))
        .run_turn("reuse an id", external())
        .expect_err("a provider tool id must be unique for the entire turn");
    assert!(
        matches!(error, EngineError::Tool(message) if message.contains("reused correlation id"))
    );
    assert_eq!(count.get(), 1);
}

#[test]
fn executor_cannot_replace_provider_tool_correlation() {
    let count = Cell::new(0);
    let mut desk = Desk::new(check_transcript, |_| misnamed(&count));
    let response = desk.run_turn("inspect remote state", external()).unwrap();
    assert_eq!(response.status, LoopStatus::Finished);
    assert_eq!(response.turn_messages[1].tool_call_id.as_deref(), Some("provider-call-1"));
    assert_eq!(count.get(), 1);
}

#[test]
fn mixed_parallel_tool_results_are_all_recorded_before_followup() {
    let model = |round: usize, input: ModelInput| {
        if round == 0 {
            return calls(vec![
                call(Some("call-fail"), "fails", "{}"),
                call(Some("call-success"), "succeeds", "{}"),
            ]);
        }
        let answers: Vec<_> = input
            .turn_messages
            .iter()
            .filter(|message| message.role == ConversationRole::Tool)
            .map(|message| (message.tool_call_id.as_deref(), message.content.as_str()))
            .collect();
        assert_eq!(
            answers,
            vec![
                (Some("call-fail"), "{\"error\":\"tool error: intentional failure\"}"),
                (Some("call-success"), "{\"ok\":true}"),
            ]
        );
        says("reconciled")
    };
    let tools = |call: &PreparedToolCall| {
        if call.call.name == "fails" {
            return Work::Done(Err(EngineError::Tool("intentional failure".to_string())));
        }
        answer(call, "{\"ok\":true}", "succeeds output=ok")
    };
    let mut desk = Desk::new(model, tools);
    let response = desk.run_turn("run both tools", RunOptions::default()).unwrap();
    assert_eq!(response.status, LoopStatus::Finished);
    assert_eq!(response.tool_results_count, 2);
    assert_eq!(response.assistant_message.as_deref(), Some("reconciled"));
    assert_eq!(desk.phases, vec![vec!["fails".to_string(), "succeeds".to_string()]]);
}

#[test]
fn read_only_tools_overlap_but_side_effects_run_in_provider_order() {
    let write_order = RefCell::new(Vec::new());
    let model = |round: usize, _: ModelInput| {
        if round == 0 {
            let names = ["read-1", "read-2", "write-1", "write-2"];
            let asked = names.map(|name| call(Some(&format!("call-{name}")), name, "{}"));
            return calls(asked.into());
        }
        says("done")
    };
    let tools = |call: &PreparedToolCall| {
        if !call.call.name.starts_with("read-") {
            write_order.borrow_mut().push(call.call.name.clone());
        }
        answer(call, "{\"ok\":true}", "ok")
    };
    let mut desk = Desk::new(model, tools);
    desk.is_read_only = |name| name.starts_with("read-");
    let response = desk.run_turn("read and then write", RunOptions::default()).unwrap();
    assert_eq!(response.status, LoopStatus::Finished);
    assert_eq!(response.tool_results_count, 4);
    assert_eq!(desk.phases.len(), 3);
    assert_eq!(desk.phases[0], vec!["read-1".to_string(), "read-2".to_string()]);
    drop(desk);
    assert_eq!(*write_order.borrow(), vec!["write-1".to_string(), "write-2".to_string()]);
}

/// Asks for two writes, then is content.
fn two_writes(round: usize, _: ModelInput) -> Work<ModelOutput> {
    if round == 0 {
        let asked = ["write-a", "write-b"]
            .map(|name| call(Some(&format!("call-{name}")), name, "{}"));
        return calls(asked.into());
    }
    says("both writes completed")
}

fn slow_write(completed: &Cell<usize>, call: &PreparedToolCall) -> Work<Result<ToolCallResult>> {
    completed.set(completed.get() + 1);
    match answer(call, "{\"ok\":true}", "write completed") {
        Work::Done(result) => Work::Late(Duration::from_millis(70), result),
        other => other,
    }
}

#[test]
fn sequential_side_effects_each_receive_the_full_per_call_timeout() {
    let completed = Cell::new(0);
    let mut desk = Desk::new(two_writes, |call| slow_write(&completed, call));
    desk.is_read_only = |_| false;
    let options = RunOptions {
        tool_timeout: Some(Duration::from_millis(100)),
        ..RunOptions::default()
    };
    let response = desk.run_turn("perform both writes", options).unwrap();
    assert_eq!(response.status, LoopStatus::Finished);
    assert_eq!(response.tool_results_count, 2);
    assert_eq!(completed.get(), 2);
    assert_eq!(response.assistant_message.as_deref(), Some("both writes completed"));
}

#[test]
fn cancellation_after_side_effect_dispatch_is_indeterminate_and_replayable() {
    let dispatched = RefCell::new(Vec::new());
    let mut desk = Desk::new(two_writes, |call| {
        dispatched.borrow_mut().push((call.call.name.clone(), call.operation_key.clone()));
        Work::Hangs
    });
    desk.is_read_only = |_| false;
    let (session_id, loop_id) = (SessionId::new(), LoopId::new());
    let options = RunOptions {
        loop_id: Some(loop_id),
        tool_timeout: Some(Duration::from_secs(5)),
        ..external()
    };
    let error = desk
        .run_request(request(Some(session_id), "perform both writes"), options)
        .expect_err("post-dispatch cancellation must be indeterminate");
    let expected_key = tool_result_operation_key(loop_id, 1, 0, "write-a");
    match error {
        EngineError::ToolOutcomeIndeterminate { idempotency_key, .. } => {
            assert_eq!(idempotency_key, expected_key);
        }
        other => panic!("unexpected {other:?}"),
    }
    assert_eq!(
        *dispatched.borrow(),
        vec![("write-a".to_string(), expected_key.clone())],
        "a later side effect must not dispatch after an ambiguous outcome"
    );
    assert_eq!(desk.asked, 1);

    let checkpoint = desk
        .checkpoints
        .load_checkpoint(&session_id, &loop_id)
        .expect("failed checkpoint should remain");
    assert_eq!(checkpoint.status, LoopStatus::Failed);
    let (state, _, _) = ExecutionState::from_checkpoint(checkpoint).unwrap();
    assert_eq!(state.pending_tool_calls.len(), 2);
    assert_eq!(
        tool_result_operation_key(loop_id, 1, 0, &state.pending_tool_calls[0].name),
        expected_key
    );
}

#[test]
fn insufficient_tool_transcript_budget_fails_before_side_effects() {
    let completed = Cell::new(0);
    let mut desk = Desk::new(two_writes, |call| slow_write(&completed, call));
    desk.is_read_only = |_| false;
    desk.estimator = Arc::new(CharacterEstimator);
    desk.config.context_budget.reserve_tools = 1;
    let error = desk
        .run_turn("do not partially execute", external())
        .expect_err("unrecordable side effects must not execute");
    assert!(matches!(error, EngineError::Configuration(_)));
    assert_eq!(completed.get(), 0);
}

#[test]
fn interrupted_tool_node_recovers_from_its_pre_node_checkpoint() {
    let count = Cell::new(0);
    let model = |_: usize, input: ModelInput| {
        assert_eq!(input.turn_messages.len(), 2);
        assert_eq!(input.turn_messages[0].role, ConversationRole::Assistant);
        assert_eq!(input.turn_messages[1].role, ConversationRole::Tool);
        assert_eq!(input.turn_messages[1].tool_call_id.as_deref(), Some("recover-call"));
        says("recovered safely")
    };
    let mut desk = Desk::new(model, |_| misnamed(&count));
    let tool_call = call(Some("recover-call"), "remote-recover", "{\"value\":1}");
    let mut state = first_state(SessionId::new(), LoopId::new(), "recover the tool round");
    state.execution_profile = ExecutionProfile::ExternalContext;
    state.assembled_context =
        Some(AssembledContext::with_system_prompt(desk.config.system_prompt.clone()));
    state.pending_tool_calls = vec![tool_call.clone()];
    state.latest_model_output = Some(output(Some("running a tool"), vec![tool_call]));
    let checkpoint = state.checkpoint("execute_tools".to_string(), LoopStatus::Running);
    assert_eq!(calls_to_repeat(&checkpoint).len(), 1);
    let run = recover_interrupted_loop(&desk.config, checkpoint, &[true], external()).unwrap();
    let response = desk.finish(run).unwrap();
    assert_eq!(response.status, LoopStatus::Finished);
    assert_eq!(response.assistant_message.as_deref(), Some("recovered safely"));
    assert_eq!(count.get(), 1);
}

#[test]
fn interrupted_model_node_is_not_automatically_reissued() {
    let config = EngineConfig::default();
    let mut state = first_state(SessionId::new(), LoopId::new(), "do not double bill");
    state.execution_profile = ExecutionProfile::ExternalContext;
    let checkpoint =
        state.checkpoint("run_model_external_context".to_string(), LoopStatus::Running);
    assert!(calls_to_repeat(&checkpoint).is_empty());
    let error = recover_interrupted_loop(&config, checkpoint, &[], external())
        .expect_err("ambiguous model completions must not be reissued");
    match error {
        EngineError::RecoveryUnsafe(message) => assert_eq!(
            message,
            "model node run_model_external_context may already have produced a billable completion"
        ),
        other => panic!("unexpected {other:?}"),
    }
}

fn message(role: ConversationRole, content: &str) -> ConversationMessage {
    ConversationMessage {
        role,
        content: content.to_string(),
        tool_call_id: None,
        tool_calls: Vec::new(),
    }
}

/// The tool of a remote worker.
fn worker_tool(call: &PreparedToolCall) -> Work<Result<ToolCallResult>> {
    assert_eq!(call.call.id.as_deref(), Some("provider-external-call"));
    assert_eq!(call.call.name, "worker_tool");
    answer(call, "{\"source\":\"worker\",\"ok\":true}", "worker tool result")
}

#[test]
fn external_context_profile_runs_only_the_bounded_model_tool_loop() {
    let history = vec![
        message(ConversationRole::User, "durable history user"),
        message(ConversationRole::Assistant, "durable history assistant"),
    ];
    let expected_history = history.clone();
    let model = |round: usize, input: ModelInput| {
        assert_eq!(input.system_prompt, "worker-owned system prompt");
        assert_eq!(input.conversation_history, expected_history);
        assert_eq!(input.user_message, "current worker user message");
        assert!(input.session_context.is_empty());
        assert!(input.memory_context.is_empty());
        assert!(input.tool_context.is_empty());
        if round == 0 {
            assert!(input.turn_messages.is_empty());
            return calls(vec![call(
                Some("provider-external-call"),
                "worker_tool",
                "{\"query\":\"current\"}",
            )]);
        }
        assert_eq!(input.turn_messages.len(), 2);
        assert_eq!(input.turn_messages[0].role, ConversationRole::Assistant);
        assert_eq!(input.turn_messages[0].tool_calls.len(), 1);
        assert_eq!(
            input.turn_messages[0].tool_calls[0].id.as_deref(),
            Some("provider-external-call")
        );
        assert_eq!(input.turn_messages[1].role, ConversationRole::Tool);
        assert_eq!(
            input.turn_messages[1].tool_call_id.as_deref(),
            Some("provider-external-call")
        );
        assert!(input.turn_messages[1].content.contains("\"source\":\"worker\""));
        says("external context complete")
    };
    let mut desk = Desk::new(model, worker_tool);
    desk.config.system_prompt = "worker-owned system prompt".to_string();
    let options = RunOptions { conversation_history: history, ..external() };
    let asked = request(Some(SessionId::new()), "current worker user message");
    let response = desk.run_request(asked, options).unwrap();

    assert_eq!(response.status, LoopStatus::Finished);
    assert_eq!(response.assistant_message.as_deref(), Some("external context complete"));
    assert_eq!(response.activated_raw_count, 0);
    assert_eq!(response.activated_abstract_count, 0);
    assert_eq!(response.tool_results_count, 1);
    assert_eq!(response.tool_rounds_completed, 1);
    assert_eq!(response.turn_messages.len(), 2);
    assert!(desk.repository.raw_for_loop(&response.loop_id).is_empty());
    assert!(desk.repository.session_raw(&response.session_id).is_empty());
}

#[test]
fn external_history_is_recent_bounded_and_keeps_tool_groups_coherent() {
    let mut asking = message(ConversationRole::Assistant, "checking");
    asking.tool_calls = vec![call(Some("recent-call"), "lookup", "{}")];
    let mut answering = message(ConversationRole::Tool, "{\"ok\":true}");
    answering.tool_call_id = Some("recent-call".to_string());
    let recent_group =
        vec![asking, answering, message(ConversationRole::Assistant, "recent answer")];
    let mut history = vec![message(ConversationRole::User, &"o".repeat(120))];
    history.extend(recent_group.clone());

    let observed = RefCell::new(None);
    let mut desk = Desk::new(
        |_, input| {
            *observed.borrow_mut() = Some(input.conversation_history);
            says("trimmed")
        },
        no_tools,
    );
    desk.estimator = Arc::new(CharacterEstimator);
    desk.config.system_prompt = "system".to_string();
    desk.config.context_budget = ContextBudgetConfig {
        total_tokens: 260,
        reserve_system: 30,
        reserve_tools: 120,
        reserve_working: 20,
        ..ContextBudgetConfig::default()
    };
    let options = RunOptions { conversation_history: history, ..external() };
    let response = desk.run_turn("now", options).unwrap();
    assert_eq!(response.status, LoopStatus::Finished);
    assert_eq!(observed.borrow().clone().expect("captured history"), recent_group);
}

#[test]
fn intermediate_assistant_tool_content_is_not_reused_as_the_final_answer() {
    let model = |round: usize, input: ModelInput| {
        if round == 0 {
            return Work::Done(output(
                Some("I will inspect before answering."),
                vec![call(Some("provider-external-call"), "worker_tool", "{}")],
            ));
        }
        assert_eq!(input.turn_messages[0].content, "I will inspect before answering.");
        Work::Done(output(None, Vec::new()))
    };
    let mut desk = Desk::new(model, worker_tool);
    let asked = request(Some(SessionId::new()), "inspect");
    let response = desk.run_request(asked, external()).unwrap();
    assert_eq!(response.turn_messages[0].content, "I will inspect before answering.");
    assert_eq!(
        response.assistant_message.as_deref(),
        Some("No assistant message generated.")
    );
}

#[test]
fn external_context_does_not_rewrite_remote_memory_tool_name_collisions() {
    let arguments = "{\"session_id\":\"remote-schema-session\",\"limit\":999,\"custom\":true}";
    let model = |round: usize, _: ModelInput| {
        if round == 0 {
            return calls(vec![call(
                Some("remote-timeline-call"),
                "timeline_search",
                arguments,
            )]);
        }
        says("remote collision preserved")
    };
    let tools = |call: &PreparedToolCall| {
        assert_eq!(call.call.id.as_deref(), Some("remote-timeline-call"));
        assert_eq!(call.call.name, "timeline_search");
        assert_eq!(call.call.arguments, json(arguments));
        answer(call, "{\"ok\":true}", "remote timeline")
    };
    let mut desk = Desk::new(model, tools);
    desk.is_read_only = |_| false;
    let asked = request(Some(SessionId::new()), "use remote timeline");
    let response = desk.run_request(asked, external()).unwrap();
    assert_eq!(response.assistant_message.as_deref(), Some("remote collision preserved"));
}

fn tool_contents(messages: &[ConversationMessage]) -> Vec<String> {
    let answers = messages.iter().filter(|message| message.role == ConversationRole::Tool);
    answers.map(|message| message.content.clone()).collect()
}

#[test]
fn tool_result_transcript_is_aggregate_bounded_in_both_profiles() {
    let payload = format!("{{\"payload\":\"{}\"}}", "x".repeat(2_000));
    for execution_profile in [ExecutionProfile::MemoryAware, ExecutionProfile::ExternalContext] {
        let model = |round: usize, input: ModelInput| {
            if round == 0 {
                let asked = ["large-a", "large-b"]
                    .map(|name| call(Some(&format!("call-{name}")), name, "{}"));
                return calls(asked.into());
            }
            let results = tool_contents(&input.turn_messages);
            assert_eq!(results.len(), 2);
            assert!(results.iter().map(|content| content.len()).sum::<usize>() <= 160);
            for result in results {
                let content = json(&result);
                assert_eq!(content.member("truncated").unwrap().as_str(), "true");
                assert!(!content.member("preview").unwrap().as_text().unwrap().is_empty());
            }
            says("bounded")
        };
        let mut desk = Desk::new(model, |call| answer(call, &payload, "large result"));
        desk.estimator = Arc::new(CharacterEstimator);
        desk.config.context_budget.reserve_tools = 160;
        let asked = request(Some(SessionId::new()), "large tools");
        let options = RunOptions { execution_profile, ..RunOptions::default() };
        let response = desk.run_request(asked, options).unwrap();
        assert_eq!(response.assistant_message.as_deref(), Some("bounded"));
        let shown = tool_contents(&response.turn_messages);
        let bytes: usize = shown.iter().map(|content| content.len()).sum();
        assert!(bytes <= desk.config.context_budget.reserve_tools);
        if execution_profile == ExecutionProfile::MemoryAware {
            let persisted = desk.repository.raw_for_loop(&response.loop_id);
            let results: Vec<&RawNode> =
                persisted.iter().filter(|node| node.kind == RawNodeKind::ToolResult).collect();
            assert_eq!(results.len(), 2);
            assert!(results.iter().all(|node| node.content_text().contains(&"x".repeat(2_000))));
        }
    }
}

fn sleepy(_: usize, _: ModelInput) -> Work<ModelOutput> {
    Work::Late(Duration::from_millis(300), output(Some("slept and answered"), Vec::new()))
}

#[test]
fn model_node_completes_when_slower_than_node_timeout() {
    let mut desk = Desk::new(sleepy, no_tools);
    let options = RunOptions {
        node_timeout: Some(Duration::from_millis(80)),
        model_timeout: Some(Duration::from_secs(3)),
        ..RunOptions::default()
    };
    let response = desk.run_turn("answer slowly", options).unwrap();
    assert_eq!(response.status, LoopStatus::Finished);
    assert_eq!(response.assistant_message.as_deref(), Some("slept and answered"));
}

#[test]
fn model_node_is_bounded_by_model_timeout() {
    let mut desk = Desk::new(sleepy, no_tools);
    let options = RunOptions {
        node_timeout: Some(Duration::from_secs(3)),
        model_timeout: Some(Duration::from_millis(20)),
        ..RunOptions::default()
    };
    let response = desk.run_turn("answer slowly", options).unwrap();
    assert_eq!(response.status, LoopStatus::TimedOut);
}

#[test]
fn default_graph_bounds_multi_step_tool_rounds() {
    let model = |_: usize, _: ModelInput| {
        calls(vec![call(None, "timeline_search", "{\"limit\":1}")])
    };
    let mut desk = Desk::new(model, nothing_found);
    let options = RunOptions { max_tool_rounds: Some(2), ..RunOptions::default() };
    let response = desk.run_turn("keep calling tools", options).unwrap();
    assert_eq!(response.status, LoopStatus::Finished);
    assert_eq!(response.tool_rounds_completed, 2);
    assert_eq!(response.tool_results_count, 2);
    assert_eq!(
        response.assistant_message.as_deref(),
        Some("Tool round limit reached after 2 rounds without a final assistant message.")
    );
}
