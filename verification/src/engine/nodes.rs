//! What each node of the graph does to the state of a run.
use vstd::prelude::*;

use crate::config::{EngineConfig, ToolsConfig};
use crate::domain::loop_state::LoopStatus;
use crate::domain::raw_node;
use crate::domain::raw_node::{
    Content, DistillationState, OverflowPolicy, Raw, RawNode, RawNodeKind,
};
use crate::engine::context_assembler;
use crate::engine::context_assembler::{AssembledContext, Context, ContextAssembler};
use crate::engine::conversation;
use crate::engine::conversation::trim_conversation_history;
use crate::engine::estimator::TokenEstimator;
use crate::engine::execution_graph::{
    clone_raw_ids, ExecutionState, GraphRunResult, NodeOutcome, State,
};
use crate::engine::graph_spec::NEEDS_TOOLS_BRANCH;
use crate::engine::operation_keys;
use crate::engine::operation_keys::{assistant_output_operation_key, user_input_operation_key};
use crate::engine::tool_budget;
use crate::engine::tool_budget::validate_tool_call_payload;
use crate::engine::tool_results;
use crate::engine::tool_results::{contains_id, push_raw_node_into_state};
use crate::error;
use crate::error::{EngineError, Result};
use crate::float32::Float32;
use crate::ids::{LoopId, RawNodeId, SessionId};
use crate::memory::activation::ActivatedMemory;
use crate::memory::query::{ActivationQuery, Query};
use crate::model::embedding::Embedding;
use crate::model::runner;
use crate::model::runner::{
    clone_calls, clone_messages, clone_texts, Answer, ConversationMessage, ModelInput, ModelOutput,
    ToolCall,
};
use crate::storage::records::RawLifecyclePatch;
use crate::text;
use crate::text::{decimal_text, size_text};
use crate::time::{Timestamp, MAX_SECONDS, MIN_SECONDS, NANOS_PER_SECOND};
use crate::tools::executor;
use crate::tools::executor::{ToolCallResult, ToolResult};

verus! {

/// Bits of 0.85: how much a user's message matters when memories are ranked.
pub const USER_UTTERANCE_IMPORTANCE_BITS: u32 = 0x3f59_999a;

/// Bits of 0.78: how much an answer matters when memories are ranked.
pub const ASSISTANT_UTTERANCE_IMPORTANCE_BITS: u32 = 0x3f47_ae14;

/// How many recent nodes go into an activation query.
pub const QUERY_CONTEXT_NODES: usize = 12;

/// For how many hours retrieval of a node is relaxed that fell out of the
/// session window.
pub const RELAXATION_HOURS: u32 = 24;

/// The answer of a run in which nothing was said.
pub const NO_ANSWER: &'static str = "No assistant message generated.";

/// The number of some bits.
pub open spec fn importance(bits: u32) -> Float32 {
    Float32 { bits }
}

/// Messages of users matter more than answers, and answers more than results
/// of tools.
pub proof fn importance_is_ranked()
    ensures
        importance(tool_results::TOOL_RESULT_IMPORTANCE_BITS).less(
            importance(ASSISTANT_UTTERANCE_IMPORTANCE_BITS),
        ),
        importance(ASSISTANT_UTTERANCE_IMPORTANCE_BITS).less(
            importance(USER_UTTERANCE_IMPORTANCE_BITS),
        ),
{
}

/// The record of the user's message.
pub fn user_input_node(state: &ExecutionState) -> (node: RawNode)
    ensures
        node@ == Raw::fresh(
            node.id,
            node.timestamp,
            RawNodeKind::UserUtterance,
            Some(state.session_id),
            Some(state.loop_id),
            "user"@,
            Content::Text(state@.user_message),
            importance(USER_UTTERANCE_IMPORTANCE_BITS),
            seq!["input"@],
        ).keyed(operation_keys::user_input_key(state.loop_id)),
        0 <= node.timestamp.secs <= MAX_SECONDS,
        node.timestamp.nanos < NANOS_PER_SECOND,
{
    let mut tags: Vec<String> = Vec::new();
    tags.push("input".to_string());
    assert(text::texts(tags@) =~= seq!["input"@]);
    RawNode::text(
        RawNodeKind::UserUtterance,
        Some(state.session_id),
        Some(state.loop_id),
        "user",
        state.user_message.clone(),
        Float32 { bits: USER_UTTERANCE_IMPORTANCE_BITS },
        tags,
    ).with_operation_key(user_input_operation_key(state.loop_id))
}

/// The last so many values.
pub open spec fn last<V>(items: Seq<V>, count: int) -> Seq<V> {
    if count < items.len() {
        items.skip(items.len() - count)
    } else {
        items
    }
}

/// The query that a state is searched with.
pub open spec fn query_of(state: State) -> Query {
    Query {
        user_message: state.user_message,
        recent_context: context_assembler::contexts(
            last(state.recent_session, QUERY_CONTEXT_NODES as int),
        ),
        plan: state.plan,
        tool_hints: context_assembler::summaries(state.tool_results),
    }
}

/// Builds the query that memories are searched with: the message, the newest
/// nodes of the session, the plan and what the tools found.
pub fn build_activation_query(state: &mut ExecutionState)
    ensures
        final(state)@ == (State { activation_query: Some(query_of(old(state)@)), ..old(state)@ }),
{
    let ghost session = state@.recent_session;
    let ghost recent = last(session, QUERY_CONTEXT_NODES as int);
    let start: usize = state.recent_session.len().saturating_sub(QUERY_CONTEXT_NODES);
    let mut recent_context: Vec<String> = Vec::new();
    let mut index: usize = start;
    assert(session.skip(0) =~= session);
    assert(recent =~= session.skip(start as int));
    assert(text::texts(recent_context@) =~= context_assembler::contexts(recent.take(0)));
    while index < state.recent_session.len()
        invariant
            start <= index <= state.recent_session.len(),
            session == raw_node::raws(state.recent_session@),
            recent == session.skip(start as int),
            text::texts(recent_context@) == context_assembler::contexts(
                recent.take(index - start),
            ),
            state@ == old(state)@,
        decreases state.recent_session.len() - index,
    {
        let ghost before = text::texts(recent_context@);
        let line = state.recent_session[index].context_text();
        recent_context.push(line);
        proof {
            let node = state.recent_session@[index as int]@;
            assert(recent.take(index + 1 - start) =~= recent.take(index - start).push(node));
            assert(text::texts(recent_context@) =~= before.push(line@));
            assert(context_assembler::contexts(recent.take(index + 1 - start)) =~= before.push(
                node.context(),
            ));
        }
        index = index + 1;
    }
    assert(recent.take(recent.len() as int) =~= recent);
    let ghost results = state@.tool_results;
    let mut hints: Vec<String> = Vec::new();
    let mut index: usize = 0;
    assert(text::texts(hints@) =~= context_assembler::summaries(results.take(0)));
    while index < state.tool_results.len()
        invariant
            index <= state.tool_results.len(),
            results == executor::results_view(state.tool_results@),
            text::texts(hints@) == context_assembler::summaries(results.take(index as int)),
            state@ == old(state)@,
        decreases state.tool_results.len() - index,
    {
        let ghost before = text::texts(hints@);
        let line = state.tool_results[index].summary.clone();
        hints.push(line);
        proof {
            assert(text::texts(hints@) =~= before.push(line@));
            assert(context_assembler::summaries(results.take(index + 1)) =~= before.push(
                results[index as int].summary,
            ));
        }
        index = index + 1;
    }
    assert(results.take(results.len() as int) =~= results);
    let query = ActivationQuery::new(
        state.user_message.clone(),
        recent_context,
        state.plan.clone(),
        hints,
    );
    state.activation_query = Some(query);
}

/// The text that is embedded to search for memories.
pub fn activation_input(state: &ExecutionState) -> (result: Result<String>)
    ensures
        match state@.activation_query {
            Some(query) => result is Ok && result->Ok_0@ == text::joined(
                query.sections(),
                "\n"@,
            ),
            None => result is Err && error::is_configuration(
                result->Err_0,
                "activation query must exist before memory activation"@,
            ),
        },
{
    match &state.activation_query {
        Some(query) => Ok(query.as_embedding_input()),
        None => Err(
            EngineError::Configuration(
                "activation query must exist before memory activation".to_string(),
            ),
        ),
    }
}

/// Notes the activated memories in the state.
pub fn note_activation(state: &mut ExecutionState, embedding: Embedding, memory: ActivatedMemory)
    ensures
        final(state)@ == (State {
            query_embedding: Some(embedding.0@),
            activated_memory: memory@,
            ..old(state)@
        }),
{
    state.query_embedding = Some(embedding);
    state.activated_memory = memory;
}

/// Prepares a context that the caller owns: the history is trimmed, and the
/// engine adds nothing but the system prompt.
pub fn assemble_external_context<E: TokenEstimator + ?Sized>(
    state: &mut ExecutionState,
    config: &EngineConfig,
    estimator: &E,
) -> (result: Result<NodeOutcome>)
    ensures
        match conversation::trimmed(
            estimator,
            *config,
            old(state)@.conversation_history,
            old(state)@.user_message,
            old(state)@.plan,
        ) {
            None => result is Err && error::is_configuration(
                result->Err_0,
                conversation::fixed_prompt_message(),
            ) && final(state)@ == old(state)@,
            Some(kept) => result == Ok::<NodeOutcome, EngineError>(NodeOutcome::Continue)
                && final(state)@ == (State {
                conversation_history: kept,
                assembled_context: Some(context_assembler::bare_context(config.system_prompt@)),
                ..old(state)@
            }),
        },
{
    let history = match trim_conversation_history(
        state.conversation_history.as_slice(),
        config,
        estimator,
        state.user_message.as_str(),
        match &state.plan {
            Some(plan) => Some(plan.as_str()),
            None => None,
        },
    ) {
        Ok(history) => history,
        Err(failure) => return Err(failure),
    };
    state.conversation_history = history;
    state.assembled_context = Some(
        AssembledContext::with_system_prompt(config.system_prompt.clone()),
    );
    Ok(NodeOutcome::Continue)
}

/// Whether a node of the session goes into the prompt as such. The results of
/// the running loop do not once the transcript holds them.
pub open spec fn is_shown(state: State, node: Raw) -> bool {
    state.turn_messages.len() == 0 || node.loop_id != Some(state.loop_id) || node.kind
        != RawNodeKind::ToolResult
}

/// The nodes of a list that go into the prompt.
pub open spec fn shown_nodes(state: State, nodes: Seq<Raw>) -> Seq<Raw>
    decreases nodes.len(),
{
    if nodes.len() == 0 {
        Seq::empty()
    } else if is_shown(state, nodes.last()) {
        shown_nodes(state, nodes.drop_last()).push(nodes.last())
    } else {
        shown_nodes(state, nodes.drop_last())
    }
}

/// The context of a state.
pub open spec fn context_of<E: TokenEstimator + ?Sized>(
    estimator: &E,
    config: EngineConfig,
    state: State,
) -> Context {
    context_assembler::assembled(
        estimator,
        config.context_budget,
        config.system_prompt@,
        shown_nodes(state, state.recent_session),
        state.activated_memory,
        if state.turn_messages.len() == 0 {
            state.tool_results
        } else {
            Seq::empty()
        },
    )
}

/// Assembles the context of a state: session, memory and, before the first
/// round of tools, their summaries.
pub fn assemble_context<E: TokenEstimator + ?Sized>(
    state: &mut ExecutionState,
    config: &EngineConfig,
    assembler: &ContextAssembler<E>,
) -> (outcome: NodeOutcome)
    ensures
        outcome == NodeOutcome::Continue,
        ({
            let context = context_of(&*assembler.estimator, *config, old(state)@);
            final(state)@ == (State {
                session_window_ids: context.included,
                pushed_out_raw_ids: context.pushed_out,
                assembled_context: Some(context),
                ..old(state)@
            })
        }),
{
    let ghost before = state@;
    let ghost session = before.recent_session;
    let fresh = state.turn_messages.len() == 0;
    let mut shown: Vec<RawNode> = Vec::new();
    let mut index: usize = 0;
    assert(session.take(0) =~= Seq::<Raw>::empty());
    assert(raw_node::raws(shown@) =~= Seq::<Raw>::empty());
    while index < state.recent_session.len()
        invariant
            index <= state.recent_session.len(),
            session == raw_node::raws(state.recent_session@),
            state@ == before,
            fresh == (before.turn_messages.len() == 0),
            raw_node::raws(shown@) == shown_nodes(before, session.take(index as int)),
        decreases state.recent_session.len() - index,
    {
        let node = &state.recent_session[index];
        let ghost kept = raw_node::raws(shown@);
        proof {
            assert(session.take(index + 1).drop_last() =~= session.take(index as int));
            assert(session.take(index + 1).last() == node@);
        }
        let same_loop = match node.loop_id {
            Some(loop_id) => loop_id == state.loop_id,
            None => false,
        };
        if fresh || !same_loop || node.kind != RawNodeKind::ToolResult {
            let copy = node.clone();
            shown.push(copy);
            assert(raw_node::raws(shown@) =~= kept.push(copy@));
        }
        index = index + 1;
    }
    assert(session.take(session.len() as int) =~= session);
    let empty: Vec<ToolCallResult> = Vec::new();
    assert(executor::results_view(empty@) =~= Seq::<ToolResult>::empty());
    let results: &[ToolCallResult] = if fresh {
        state.tool_results.as_slice()
    } else {
        empty.as_slice()
    };
    let context = assembler.assemble(
        &config.context_budget,
        config.system_prompt.as_str(),
        shown.as_slice(),
        &state.activated_memory,
        results,
    );
    state.session_window_ids = clone_raw_ids(&context.session_window.included_raw_ids);
    state.pushed_out_raw_ids = clone_raw_ids(&context.session_window.pushed_out_raw_ids);
    state.assembled_context = Some(context);
    NodeOutcome::Continue
}

/// Whether an input is what a model is given in a state.
pub open spec fn is_model_input(input: ModelInput, state: State, context: Context) -> bool {
    &&& input.session_id == state.session_id
    &&& input.loop_id == state.loop_id
    &&& input.system_prompt@ == context.system_prompt
    &&& text::texts(input.session_context@) == context.session_context
    &&& text::texts(input.memory_context@) == context.memory_context
    &&& text::texts(input.tool_context@) == context.tool_context
    &&& runner::messages_view(input.conversation_history@) == state.conversation_history
    &&& runner::messages_view(input.turn_messages@) == state.turn_messages
    &&& input.user_message@ == state.user_message
    &&& text::opt_text(input.plan) == state.plan
}

/// What a model is given: the assembled context, the history, the message and
/// the transcript of the turn.
pub fn to_model_input(state: &ExecutionState) -> (result: Result<ModelInput>)
    ensures
        match state@.assembled_context {
            Some(context) => result is Ok && is_model_input(result->Ok_0, state@, context),
            None => result is Err && error::is_configuration(
                result->Err_0,
                "assembled context must exist before model execution"@,
            ),
        },
{
    let context = match &state.assembled_context {
        Some(context) => context,
        None => return Err(
            EngineError::Configuration(
                "assembled context must exist before model execution".to_string(),
            ),
        ),
    };
    Ok(
        ModelInput {
            session_id: state.session_id,
            loop_id: state.loop_id,
            system_prompt: context.system_prompt.clone(),
            session_context: clone_texts(context.session_context.as_slice()),
            memory_context: clone_texts(context.memory_context.as_slice()),
            tool_context: clone_texts(context.tool_context.as_slice()),
            conversation_history: clone_messages(state.conversation_history.as_slice()),
            turn_messages: clone_messages(state.turn_messages.as_slice()),
            user_message: state.user_message.clone(),
            plan: state.plan.clone(),
        },
    )
}

/// Why the calls of an answer are refused, if they are: the first fault.
pub open spec fn calls_fault(calls: Seq<ToolCall>, tools: ToolsConfig) -> Option<Seq<char>>
    decreases calls.len(),
{
    if calls.len() == 0 {
        None
    } else {
        match tool_budget::payload_fault(calls[0], tools) {
            Some(message) => Some(message),
            None => calls_fault(calls.drop_first(), tools),
        }
    }
}

/// Why an answer of a model is refused, if it is.
pub open spec fn answer_fault(answer: Answer, config: EngineConfig) -> Option<Seq<char>> {
    if answer.tool_calls.len() > config.runtime.max_tool_calls_per_round {
        Some(
            "model returned "@ + text::decimal(answer.tool_calls.len())
                + " tool calls, exceeding max_tool_calls_per_round="@ + text::decimal(
                config.runtime.max_tool_calls_per_round as nat,
            ),
        )
    } else {
        calls_fault(answer.tool_calls, config.tools)
    }
}

/// What is said when a model still asks for tools and no round is left.
pub open spec fn exhausted_message(rounds: nat) -> Seq<char> {
    "Tool round limit reached after "@ + text::decimal(rounds)
        + " rounds without a final assistant message."@
}

/// The state with an answer of a model noted.
pub open spec fn with_answer(state: State, answer: Answer) -> State {
    State {
        model_invocations: if state.model_invocations == u32::MAX {
            u32::MAX
        } else {
            (state.model_invocations + 1) as u32
        },
        pending_tool_calls: answer.tool_calls,
        latest_model_output: Some(answer),
        ..state
    }
}

/// Whether an outcome sends the run to the tools.
pub open spec fn goes_to_tools(outcome: NodeOutcome) -> bool {
    outcome matches NodeOutcome::Branch(branch) && branch@ == NEEDS_TOOLS_BRANCH@
}

/// Takes the answer of a model: the run goes on with the tools it asks for
/// while rounds are left, and otherwise with what it said.
pub fn settle_model_output(
    state: &mut ExecutionState,
    config: &EngineConfig,
    max_tool_rounds: u32,
    output: ModelOutput,
) -> (result: Result<NodeOutcome>)
    ensures
        match answer_fault(output@, *config) {
            Some(message) => result is Err && error::is_tool(result->Err_0, message)
                && final(state)@ == old(state)@,
            None => {
                let noted = with_answer(old(state)@, output@);
                if output@.tool_calls.len() == 0 {
                    result == Ok::<NodeOutcome, EngineError>(NodeOutcome::Continue)
                        && final(state)@ == (State {
                        assistant_message: output@.assistant_message,
                        ..noted
                    })
                } else if old(state).tool_rounds_completed < max_tool_rounds {
                    result is Ok && goes_to_tools(result->Ok_0) && final(state)@ == noted
                } else {
                    result == Ok::<NodeOutcome, EngineError>(NodeOutcome::Continue)
                        && final(state)@ == (State {
                        assistant_message: Some(exhausted_message(max_tool_rounds as nat)),
                        ..noted
                    })
                }
            },
        },
{
    let ghost before = state@;
    let ghost calls = runner::calls_view(output.tool_calls@);
    if output.tool_calls.len() > config.runtime.max_tool_calls_per_round {
        return Err(
            EngineError::Tool(
                "model returned ".to_string().concat(
                    size_text(output.tool_calls.len()).as_str(),
                ).concat(" tool calls, exceeding max_tool_calls_per_round=").concat(
                    size_text(config.runtime.max_tool_calls_per_round).as_str(),
                ),
            ),
        );
    }
    let mut index: usize = 0;
    assert(calls.skip(0) =~= calls);
    while index < output.tool_calls.len()
        invariant
            index <= output.tool_calls.len(),
            calls == runner::calls_view(output.tool_calls@),
            calls == output@.tool_calls,
            output.tool_calls.len() <= config.runtime.max_tool_calls_per_round,
            calls_fault(calls.skip(index as int), config.tools) == calls_fault(
                calls,
                config.tools,
            ),
            state@ == old(state)@,
        decreases output.tool_calls.len() - index,
    {
        proof {
            assert(calls.skip(index as int)[0] == output.tool_calls@[index as int]@);
            assert(calls.skip(index as int).drop_first() =~= calls.skip(index + 1));
        }
        match validate_tool_call_payload(&output.tool_calls[index], &config.tools) {
            Ok(()) => {},
            Err(failure) => return Err(failure),
        }
        index = index + 1;
    }
    state.model_invocations = state.model_invocations.saturating_add(1);
    state.pending_tool_calls = clone_calls(output.tool_calls.as_slice());
    let message = output.assistant_message.clone();
    state.latest_model_output = Some(output);
    let asks = state.pending_tool_calls.len() > 0;
    if asks && state.tool_rounds_completed < max_tool_rounds {
        return Ok(NodeOutcome::Branch(NEEDS_TOOLS_BRANCH.to_string()));
    }
    if asks {
        state.assistant_message = Some(
            "Tool round limit reached after ".to_string().concat(
                decimal_text(max_tool_rounds as u64).as_str(),
            ).concat(" rounds without a final assistant message."),
        );
    } else {
        state.assistant_message = message;
    }
    Ok(NodeOutcome::Continue)
}

/// What the latest answer of a model said.
pub open spec fn latest_said(state: State) -> Option<Seq<char>> {
    match state.latest_model_output {
        Some(answer) => answer.assistant_message,
        None => None,
    }
}

/// The answer of a run: what was settled on, or what the model said last, or
/// that nothing was said.
pub open spec fn final_answer(state: State) -> Seq<char> {
    match state.assistant_message {
        Some(message) => message,
        None => match latest_said(state) {
            Some(message) => message,
            None => NO_ANSWER@,
        },
    }
}

/// The answer of a run.
pub fn answer_text(state: &ExecutionState) -> (text: String)
    ensures
        text@ == final_answer(state@),
{
    if let Some(message) = &state.assistant_message {
        return message.clone();
    }
    if let Some(output) = &state.latest_model_output {
        if let Some(message) = &output.assistant_message {
            return message.clone();
        }
    }
    NO_ANSWER.to_string()
}

/// Ends a run whose context the caller owns.
pub fn finalize_external_response(state: &mut ExecutionState) -> (outcome: NodeOutcome)
    ensures
        outcome == NodeOutcome::Finish,
        final(state)@ == (State {
            assistant_message: Some(final_answer(old(state)@)),
            ..old(state)@
        }),
{
    let answer = answer_text(state);
    state.assistant_message = Some(answer);
    NodeOutcome::Finish
}

/// The record of the answer.
pub fn assistant_output_node(state: &ExecutionState) -> (node: RawNode)
    ensures
        node@ == Raw::fresh(
            node.id,
            node.timestamp,
            RawNodeKind::AssistantUtterance,
            Some(state.session_id),
            Some(state.loop_id),
            "assistant"@,
            Content::Text(final_answer(state@)),
            importance(ASSISTANT_UTTERANCE_IMPORTANCE_BITS),
            seq!["output"@],
        ).keyed(operation_keys::assistant_output_key(state.loop_id)),
        0 <= node.timestamp.secs <= MAX_SECONDS,
        node.timestamp.nanos < NANOS_PER_SECOND,
{
    let mut tags: Vec<String> = Vec::new();
    tags.push("output".to_string());
    assert(text::texts(tags@) =~= seq!["output"@]);
    RawNode::text(
        RawNodeKind::AssistantUtterance,
        Some(state.session_id),
        Some(state.loop_id),
        "assistant",
        answer_text(state),
        Float32 { bits: ASSISTANT_UTTERANCE_IMPORTANCE_BITS },
        tags,
    ).with_operation_key(assistant_output_operation_key(state.loop_id))
}

/// Notes the recorded answer in the state.
pub fn note_answer(state: &mut ExecutionState, node: RawNode) -> (outcome: NodeOutcome)
    ensures
        outcome == NodeOutcome::Continue,
        final(state)@ == tool_results::with_record(
            (State { assistant_message: Some(final_answer(old(state)@)), ..old(state)@ }),
            node@,
        ),
{
    let answer = answer_text(state);
    state.assistant_message = Some(answer);
    push_raw_node_into_state(state, node);
    NodeOutcome::Continue
}

/// Whether the overflow mark of a node is taken off: it is marked, not yet
/// distilled and back in the window.
pub open spec fn is_cleared(state: State, node: Raw) -> bool {
    node.distillation_state != DistillationState::Distilled
        && node.overflow.was_pushed_out_of_session && state.session_window_ids.contains(node.id)
}

/// Whether a node is marked as overflown: it fell out, is not yet distilled
/// and has no deadline. A deadline that stands is never extended.
pub open spec fn is_marked(state: State, node: Raw) -> bool {
    node.distillation_state != DistillationState::Distilled && state.pushed_out_raw_ids.contains(
        node.id,
    ) && node.overflow.relax_retrieval_until is None
}

/// The identifiers of the nodes whose mark is taken off.
pub open spec fn cleared_ids(state: State, nodes: Seq<Raw>) -> Seq<RawNodeId>
    decreases nodes.len(),
{
    if nodes.len() == 0 {
        Seq::empty()
    } else if is_cleared(state, nodes.last()) {
        cleared_ids(state, nodes.drop_last()).push(nodes.last().id)
    } else {
        cleared_ids(state, nodes.drop_last())
    }
}

/// The identifiers of the nodes that are marked.
pub open spec fn marked_ids(state: State, nodes: Seq<Raw>) -> Seq<RawNodeId>
    decreases nodes.len(),
{
    if nodes.len() == 0 {
        Seq::empty()
    } else if is_marked(state, nodes.last()) {
        marked_ids(state, nodes.drop_last()).push(nodes.last().id)
    } else {
        marked_ids(state, nodes.drop_last())
    }
}

/// The mark of a node that falls out of the window at an instant.
pub open spec fn overflow_from(now: Timestamp) -> OverflowPolicy {
    OverflowPolicy {
        was_pushed_out_of_session: true,
        relax_retrieval_until: Some(
            Timestamp {
                secs: (now.secs + RELAXATION_HOURS * 3600) as i64,
                nanos: now.nanos % NANOS_PER_SECOND,
            },
        ),
    }
}

/// The overflow marks that a turn changes.
#[derive(Debug)]
pub struct OverflowUpdate {
    pub cleared: Vec<RawNodeId>,
    pub clear_patch: RawLifecyclePatch,
    pub marked: Vec<RawNodeId>,
    pub mark_patch: RawLifecyclePatch,
}

/// Decides which overflow marks change at an instant.
pub fn mark_session_overflow(state: &ExecutionState, now: Timestamp) -> (update: OverflowUpdate)
    requires
        MIN_SECONDS <= now.secs,
        now.secs + RELAXATION_HOURS * 3600 <= MAX_SECONDS,
    ensures
        update.cleared@ == cleared_ids(state@, state@.recent_session),
        update.marked@ == marked_ids(state@, state@.recent_session),
        update.clear_patch == (RawLifecyclePatch {
            distillation_state: None,
            overflow: Some(raw_node::no_overflow()),
        }),
        update.mark_patch == (RawLifecyclePatch {
            distillation_state: None,
            overflow: Some(overflow_from(now)),
        }),
{
    let ghost view = state@;
    let ghost session = view.recent_session;
    let mut cleared: Vec<RawNodeId> = Vec::new();
    let mut marked: Vec<RawNodeId> = Vec::new();
    let mut index: usize = 0;
    assert(session.take(0) =~= Seq::<Raw>::empty());
    while index < state.recent_session.len()
        invariant
            index <= state.recent_session.len(),
            view == state@,
            session == raw_node::raws(state.recent_session@),
            cleared@ == cleared_ids(view, session.take(index as int)),
            marked@ == marked_ids(view, session.take(index as int)),
        decreases state.recent_session.len() - index,
    {
        let node = &state.recent_session[index];
        proof {
            assert(session.take(index + 1).drop_last() =~= session.take(index as int));
            assert(session.take(index + 1).last() == node@);
        }
        let open = node.distillation_state != DistillationState::Distilled;
        if open && node.overflow.was_pushed_out_of_session && contains_id(
            state.session_window_ids.as_slice(),
            node.id,
        ) {
            cleared.push(node.id);
        }
        if open && contains_id(state.pushed_out_raw_ids.as_slice(), node.id)
            && node.overflow.relax_retrieval_until.is_none() {
            marked.push(node.id);
        }
        index = index + 1;
    }
    assert(session.take(session.len() as int) =~= session);
    OverflowUpdate {
        cleared,
        clear_patch: RawLifecyclePatch {
            distillation_state: None,
            overflow: Some(OverflowPolicy::default()),
        },
        marked,
        mark_patch: RawLifecyclePatch {
            distillation_state: None,
            overflow: Some(
                OverflowPolicy {
                    was_pushed_out_of_session: true,
                    relax_retrieval_until: Some(now.plus_hours(RELAXATION_HOURS)),
                },
            ),
        },
    }
}

/// A node that is marked once is not marked again while its deadline stands,
/// so that the deadline passes however many turns go by.
pub proof fn deadlines_are_not_extended(state: State, node: Raw, patch: RawLifecyclePatch)
    requires
        patch.overflow matches Some(policy) && policy.relax_retrieval_until is Some,
    ensures
        !is_marked(state, patch.applied(node)),
{
}

/// What a turn answers.
#[derive(Debug)]
pub struct SessionResponse {
    pub session_id: SessionId,
    pub loop_id: LoopId,
    pub status: LoopStatus,
    pub assistant_message: Option<String>,
    /// The calls and results of the turn, for a caller that keeps history.
    pub turn_messages: Vec<ConversationMessage>,
    pub activated_raw_count: usize,
    pub activated_abstract_count: usize,
    pub tool_results_count: usize,
    pub completed_steps: u32,
    pub tool_rounds_completed: u32,
}

/// What a finished run answers.
pub fn build_response(state: ExecutionState, result: GraphRunResult) -> (response: SessionResponse)
    ensures
        response.session_id == state.session_id,
        response.loop_id == state.loop_id,
        response.status == result.status,
        response.assistant_message == state.assistant_message,
        response.turn_messages == state.turn_messages,
        response.activated_raw_count == state@.activated_memory.raw_nodes.len(),
        response.activated_abstract_count == state@.activated_memory.abstract_nodes.len(),
        response.tool_results_count == state@.tool_results.len(),
        response.completed_steps == result.completed_steps,
        response.tool_rounds_completed == result.tool_rounds_completed,
{
    SessionResponse {
        session_id: state.session_id,
        loop_id: state.loop_id,
        status: result.status,
        activated_raw_count: state.activated_memory.raw_nodes.len(),
        activated_abstract_count: state.activated_memory.abstract_nodes.len(),
        tool_results_count: state.tool_results.len(),
        completed_steps: result.completed_steps,
        tool_rounds_completed: result.tool_rounds_completed,
        assistant_message: state.assistant_message,
        turn_messages: state.turn_messages,
    }
}

/// A query holds what is known: the message, the plan, how the newest nodes of
/// the session read, twelve at most and in order, and the summary of every tool
/// result.
pub proof fn queries_hold_the_newest_nodes(state: State)
    ensures
        ({
            let query = query_of(state);
            let count = if state.recent_session.len() < 12 {
                state.recent_session.len()
            } else {
                12
            };
            let start = state.recent_session.len() - count;
            &&& query.user_message == state.user_message
            &&& query.plan == state.plan
            &&& query.recent_context == Seq::new(
                count,
                |i: int| state.recent_session[start + i].context(),
            )
            &&& query.tool_hints == Seq::new(
                state.tool_results.len(),
                |i: int| state.tool_results[i].summary,
            )
        }),
{
    let query = query_of(state);
    let count = if state.recent_session.len() < 12 {
        state.recent_session.len()
    } else {
        12
    };
    let start = state.recent_session.len() - count;
    assert(query.recent_context =~= Seq::new(
        count,
        |i: int| state.recent_session[start + i].context(),
    ));
    assert(query.tool_hints =~= Seq::new(
        state.tool_results.len(),
        |i: int| state.tool_results[i].summary,
    ));
}

/// The context of a turn is assembled from the session and the activated
/// memories. Once messages of the turn answer the calls, only what they already
/// tell is left out: the records of the tools of this loop and the summaries.
pub proof fn contexts_leave_out_what_the_turn_tells<E: TokenEstimator + ?Sized>(
    estimator: &E,
    config: EngineConfig,
    state: State,
)
    ensures
        context_of(estimator, config, state) == context_assembler::assembled(
            estimator,
            config.context_budget,
            config.system_prompt@,
            state.recent_session.filter(
                |node: Raw|
                    !(state.turn_messages.len() > 0 && node.loop_id == Some(state.loop_id)
                        && node.kind == RawNodeKind::ToolResult),
            ),
            state.activated_memory,
            if state.turn_messages.len() > 0 {
                Seq::empty()
            } else {
                state.tool_results
            },
        ),
{
    shown_nodes_are_filtered(state, state.recent_session);
}

proof fn shown_nodes_are_filtered(state: State, nodes: Seq<Raw>)
    ensures
        shown_nodes(state, nodes) == nodes.filter(
            |node: Raw|
                !(state.turn_messages.len() > 0 && node.loop_id == Some(state.loop_id)
                    && node.kind == RawNodeKind::ToolResult),
        ),
    decreases nodes.len(),
{
    reveal(Seq::filter);
    if nodes.len() > 0 {
        shown_nodes_are_filtered(state, nodes.drop_last());
    }
}

/// An answer is refused exactly where it makes too many calls or a call whose
/// payload is refused, and then for the first of those.
pub proof fn answers_are_refused_for_their_calls(answer: Answer, config: EngineConfig)
    ensures
        answer_fault(answer, config) is None <==> answer.tool_calls.len()
            <= config.runtime.max_tool_calls_per_round && forall|i: int|
            0 <= i < answer.tool_calls.len() ==> tool_budget::payload_fault(
                #[trigger] answer.tool_calls[i],
                config.tools,
            ) is None,
        answer.tool_calls.len() <= config.runtime.max_tool_calls_per_round && answer_fault(
            answer,
            config,
        ) is Some ==> exists|k: int|
            {
                &&& 0 <= k < answer.tool_calls.len()
                &&& tool_budget::payload_fault(#[trigger] answer.tool_calls[k], config.tools)
                    == answer_fault(answer, config)
                &&& forall|i: int|
                    0 <= i < k ==> tool_budget::payload_fault(
                        #[trigger] answer.tool_calls[i],
                        config.tools,
                    ) is None
            },
{
    first_bad_call_is_reported(answer.tool_calls, config.tools);
}

proof fn first_bad_call_is_reported(calls: Seq<ToolCall>, tools: ToolsConfig)
    ensures
        calls_fault(calls, tools) is None ==> forall|i: int|
            0 <= i < calls.len() ==> tool_budget::payload_fault(#[trigger] calls[i], tools) is None,
        calls_fault(calls, tools) is Some ==> exists|k: int|
            {
                &&& 0 <= k < calls.len()
                &&& tool_budget::payload_fault(#[trigger] calls[k], tools) == calls_fault(
                    calls,
                    tools,
                )
                &&& forall|i: int|
                    0 <= i < k ==> tool_budget::payload_fault(
                        #[trigger] calls[i],
                        tools,
                    ) is None
            },
    decreases calls.len(),
{
    if calls.len() > 0 {
        let rest = calls.drop_first();
        if tool_budget::payload_fault(calls[0], tools) is None {
            first_bad_call_is_reported(rest, tools);
            if calls_fault(calls, tools) is None {
                assert forall|i: int| 0 <= i < calls.len() implies tool_budget::payload_fault(
                    #[trigger] calls[i],
                    tools,
                ) is None by {
                    if i > 0 {
                        assert(rest[i - 1] == calls[i]);
                    }
                }
            } else {
                let k = choose|k: int|
                    {
                        &&& 0 <= k < rest.len()
                        &&& tool_budget::payload_fault(#[trigger] rest[k], tools) == calls_fault(
                            rest,
                            tools,
                        )
                        &&& forall|i: int|
                            0 <= i < k ==> tool_budget::payload_fault(
                                #[trigger] rest[i],
                                tools,
                            ) is None
                    };
                assert(calls[k + 1] == rest[k]);
                assert forall|i: int| 0 <= i < k + 1 implies tool_budget::payload_fault(
                    #[trigger] calls[i],
                    tools,
                ) is None by {
                    if i > 0 {
                        assert(rest[i - 1] == calls[i]);
                    }
                }
            }
        } else {
            assert(tool_budget::payload_fault(calls[0], tools) == calls_fault(calls, tools));
        }
    }
}

/// An answer that is noted keeps its calls pending and counts as one more
/// invocation of the model, as far as that can be counted; nothing else changes.
/// The final answer is what was settled on, or else what the model said last.
pub proof fn noted_answers_are_kept(state: State, answer: Answer)
    ensures
        ({
            let noted = with_answer(state, answer);
            &&& noted.pending_tool_calls == answer.tool_calls
            &&& noted.latest_model_output == Some(answer)
            &&& state.model_invocations < u32::MAX ==> noted.model_invocations
                == state.model_invocations + 1
            &&& state.model_invocations == u32::MAX ==> noted.model_invocations == u32::MAX
            &&& noted == (State {
                pending_tool_calls: noted.pending_tool_calls,
                latest_model_output: noted.latest_model_output,
                model_invocations: noted.model_invocations,
                ..state
            })
            &&& state.assistant_message matches Some(message) ==> final_answer(noted) == message
            &&& state.assistant_message is None ==> final_answer(noted) == (
            match answer.assistant_message {
                Some(message) => message,
                None => NO_ANSWER@,
            })
        }),
{
}

/// Of the nodes of the session that were not distilled, those in the window that
/// had fallen out are brought back, and those outside the window that have no
/// deadline yet get one a day from now. No other node changes.
pub proof fn overflow_follows_the_window(state: State, now: Timestamp)
    requires
        MIN_SECONDS <= now.secs,
        now.secs + 86_400 <= MAX_SECONDS,
        now.nanos < NANOS_PER_SECOND,
    ensures
        cleared_ids(state, state.recent_session) == state.recent_session.filter(
            |node: Raw|
                node.distillation_state != DistillationState::Distilled
                    && node.overflow.was_pushed_out_of_session && state.session_window_ids.contains(
                    node.id,
                ),
        ).map_values(|node: Raw| node.id),
        marked_ids(state, state.recent_session) == state.recent_session.filter(
            |node: Raw|
                node.distillation_state != DistillationState::Distilled
                    && node.overflow.relax_retrieval_until is None
                    && state.pushed_out_raw_ids.contains(node.id),
        ).map_values(|node: Raw| node.id),
        overflow_from(now) == (OverflowPolicy {
            was_pushed_out_of_session: true,
            relax_retrieval_until: Some(
                Timestamp { secs: (now.secs + 86_400) as i64, nanos: now.nanos },
            ),
        }),
        raw_node::no_overflow() == (OverflowPolicy {
            was_pushed_out_of_session: false,
            relax_retrieval_until: None,
        }),
{
    overflow_is_filtered(state, state.recent_session);
}

proof fn overflow_is_filtered(state: State, nodes: Seq<Raw>)
    ensures
        cleared_ids(state, nodes) == nodes.filter(
            |node: Raw|
                node.distillation_state != DistillationState::Distilled
                    && node.overflow.was_pushed_out_of_session && state.session_window_ids.contains(
                    node.id,
                ),
        ).map_values(|node: Raw| node.id),
        marked_ids(state, nodes) == nodes.filter(
            |node: Raw|
                node.distillation_state != DistillationState::Distilled
                    && node.overflow.relax_retrieval_until is None
                    && state.pushed_out_raw_ids.contains(node.id),
        ).map_values(|node: Raw| node.id),
    decreases nodes.len(),
{
    reveal(Seq::filter);
    let cleared = nodes.filter(
        |node: Raw|
            node.distillation_state != DistillationState::Distilled
                && node.overflow.was_pushed_out_of_session && state.session_window_ids.contains(
                node.id,
            ),
    ).map_values(|node: Raw| node.id);
    let marked = nodes.filter(
        |node: Raw|
            node.distillation_state != DistillationState::Distilled
                && node.overflow.relax_retrieval_until is None && state.pushed_out_raw_ids.contains(
                node.id,
            ),
    ).map_values(|node: Raw| node.id);
    if nodes.len() > 0 {
        overflow_is_filtered(state, nodes.drop_last());
    }
    assert(cleared_ids(state, nodes) =~= cleared);
    assert(marked_ids(state, nodes) =~= marked);
}

/// A model is given all that was assembled: the system prompt, the session, the
/// memories and the tools, with the history, the turn so far, the message and the
/// plan, each as it is.
pub proof fn models_are_given_what_was_assembled(
    input: ModelInput,
    state: State,
    context: Context,
)
    requires
        is_model_input(input, state, context),
    ensures
        input.session_id == state.session_id && input.loop_id == state.loop_id,
        input.system_prompt@ == context.system_prompt,
        text::texts(input.session_context@) == context.session_context,
        text::texts(input.memory_context@) == context.memory_context,
        text::texts(input.tool_context@) == context.tool_context,
        runner::messages_view(input.conversation_history@) == state.conversation_history,
        runner::messages_view(input.turn_messages@) == state.turn_messages,
        input.user_message@ == state.user_message,
        text::opt_text(input.plan) == state.plan,
{
}

/// A run goes to its tools along the edge that is named after them, and a run that
/// has made all its rounds says so.
pub proof fn tools_are_reached_by_name(branch: String, rounds: nat)
    ensures
        goes_to_tools(NodeOutcome::Branch(branch)) <==> branch@ == "needs_tools"@,
        !goes_to_tools(NodeOutcome::Continue),
        !goes_to_tools(NodeOutcome::Finish),
        !goes_to_tools(NodeOutcome::Pause),
        exhausted_message(rounds) == "Tool round limit reached after "@ + text::decimal(rounds)
            + " rounds without a final assistant message."@,
{
}

} // verus!
