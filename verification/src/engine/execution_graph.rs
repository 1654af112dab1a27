//! The execution graph, the state that runs through it and the rules by which
//! a run proceeds from node to node.
use vstd::prelude::*;

use crate::config::{EngineConfig, RuntimeConfig};
use crate::domain::loop_state::{LoopState, LoopStatus};
use crate::domain::raw_node;
use crate::domain::raw_node::{clone_raws, Raw, RawNode};
use crate::engine::context_assembler::{AssembledContext, Context};
use crate::error;
use crate::error::{EngineError, Result};
use crate::float32::Float32;
use crate::ids::{AbstractNodeId, LoopId, RawNodeId, SessionId};
use crate::memory::activation::{ActivatedMemory, Memory};
use crate::memory::query::{ActivationQuery, Query};
use crate::model::embedding::Embedding;
use crate::model::runner;
use crate::model::runner::{
    clone_calls, clone_messages, Answer, ConversationMessage, Message, ModelOutput, ToolCall,
    ToolCallRequest,
};
use crate::table;
use crate::table::{Key, Table};
use crate::text;
use crate::text::{same_text, size_text, IntoText};
use crate::time::Duration;
use crate::tools::executor;
use crate::tools::executor::{clone_results, ToolCallResult, ToolResult};

verus! {

/// The branch that a node takes unless it names another.
pub const DEFAULT_EDGE: &'static str = "__default__";

/// Which topology a run follows and whether it keeps memories of its own.
///
/// `MemoryAware` ingests the turn into the repositories, activates memory,
/// manages the session window and distills the completed loop.
/// `ExternalContext` is for wrappers that own durable history and memory: it
/// runs the bounded model and tool loop only.
#[derive(Debug, Clone, Copy, PartialEq, Eq, Structural)]
pub enum ExecutionProfile {
    MemoryAware,
    ExternalContext,
}

impl Default for ExecutionProfile {
    fn default() -> (profile: Self)
        ensures
            profile == ExecutionProfile::MemoryAware,
    {
        ExecutionProfile::MemoryAware
    }
}

impl ExecutionProfile {
    /// The name of the graph of a profile.
    pub open spec fn graph_name(self) -> Seq<char> {
        match self {
            ExecutionProfile::MemoryAware => "memory-aware-v1"@,
            ExecutionProfile::ExternalContext => "external-context-v1"@,
        }
    }

    /// The name of the profile.
    pub open spec fn name(self) -> Seq<char> {
        match self {
            ExecutionProfile::MemoryAware => "MemoryAware"@,
            ExecutionProfile::ExternalContext => "ExternalContext"@,
        }
    }

    /// Whether runs keep memories of their own.
    pub fn uses_local_memory(self) -> (result: bool)
        ensures
            result == (self == ExecutionProfile::MemoryAware),
    {
        match self {
            ExecutionProfile::MemoryAware => true,
            ExecutionProfile::ExternalContext => false,
        }
    }

    /// The name of the graph that runs follow.
    pub fn graph_id(self) -> (name: &'static str)
        ensures
            name@ == self.graph_name(),
    {
        match self {
            ExecutionProfile::MemoryAware => "memory-aware-v1",
            ExecutionProfile::ExternalContext => "external-context-v1",
        }
    }

    /// The name of the profile.
    pub fn describe(self) -> (name: &'static str)
        ensures
            name@ == self.name(),
    {
        match self {
            ExecutionProfile::MemoryAware => "MemoryAware",
            ExecutionProfile::ExternalContext => "ExternalContext",
        }
    }
}

/// Two profiles never share a graph.
pub proof fn graph_names_differ()
    ensures
        ExecutionProfile::MemoryAware.graph_name()
            != ExecutionProfile::ExternalContext.graph_name(),
{
    reveal_strlit("memory-aware-v1");
    reveal_strlit("external-context-v1");
    assert("memory-aware-v1"@[0] == 'm');
    assert("external-context-v1"@[0] == 'e');
}

/// What one turn asks for.
#[derive(Debug, PartialEq, Eq)]
pub struct SessionRequest {
    pub session_id: Option<SessionId>,
    pub user_message: String,
    pub plan: Option<String>,
}

/// Everything that a run has gathered so far.
#[derive(Debug)]
pub struct ExecutionState {
    pub session_id: SessionId,
    pub loop_id: LoopId,
    pub user_message: String,
    pub plan: Option<String>,
    pub conversation_history: Vec<ConversationMessage>,
    pub turn_messages: Vec<ConversationMessage>,
    pub recent_session: Vec<RawNode>,
    pub activation_query: Option<ActivationQuery>,
    pub query_embedding: Option<Embedding>,
    pub activated_memory: ActivatedMemory,
    pub assembled_context: Option<AssembledContext>,
    pub latest_model_output: Option<ModelOutput>,
    pub pending_tool_calls: Vec<ToolCallRequest>,
    pub tool_results: Vec<ToolCallResult>,
    pub persisted_raw_ids: Vec<RawNodeId>,
    pub tool_result_ids: Vec<RawNodeId>,
    pub new_abstract_ids: Vec<AbstractNodeId>,
    pub session_window_ids: Vec<RawNodeId>,
    pub pushed_out_raw_ids: Vec<RawNodeId>,
    pub assistant_message: Option<String>,
    pub iteration: u32,
    pub tool_rounds_completed: u32,
    pub model_invocations: u32,
    pub last_completed_node: Option<String>,
    /// The profile under which the run started; a checkpoint carries it so
    /// that the run continues under the same graph.
    pub execution_profile: ExecutionProfile,
}

/// The state of a run as a mathematical value.
#[verifier::ext_equal]
pub struct State {
    pub session_id: SessionId,
    pub loop_id: LoopId,
    pub user_message: Seq<char>,
    pub plan: Option<Seq<char>>,
    pub conversation_history: Seq<Message>,
    pub turn_messages: Seq<Message>,
    pub recent_session: Seq<Raw>,
    pub activation_query: Option<Query>,
    pub query_embedding: Option<Seq<Float32>>,
    pub activated_memory: Memory,
    pub assembled_context: Option<Context>,
    pub latest_model_output: Option<Answer>,
    pub pending_tool_calls: Seq<ToolCall>,
    pub tool_results: Seq<ToolResult>,
    pub persisted_raw_ids: Seq<RawNodeId>,
    pub tool_result_ids: Seq<RawNodeId>,
    pub new_abstract_ids: Seq<AbstractNodeId>,
    pub session_window_ids: Seq<RawNodeId>,
    pub pushed_out_raw_ids: Seq<RawNodeId>,
    pub assistant_message: Option<Seq<char>>,
    pub iteration: u32,
    pub tool_rounds_completed: u32,
    pub model_invocations: u32,
    pub last_completed_node: Option<Seq<char>>,
    pub execution_profile: ExecutionProfile,
}

/// The view of an optional value.
pub open spec fn opt_view<T: View>(value: Option<T>) -> Option<T::V> {
    match value {
        Some(inner) => Some(inner@),
        None => None,
    }
}

/// The components of an optional embedding.
pub open spec fn opt_components(value: Option<Embedding>) -> Option<Seq<Float32>> {
    match value {
        Some(embedding) => Some(embedding.0@),
        None => None,
    }
}

impl View for ExecutionState {
    type V = State;

    open spec fn view(&self) -> State {
        State {
            session_id: self.session_id,
            loop_id: self.loop_id,
            user_message: self.user_message@,
            plan: text::opt_text(self.plan),
            conversation_history: runner::messages_view(self.conversation_history@),
            turn_messages: runner::messages_view(self.turn_messages@),
            recent_session: raw_node::raws(self.recent_session@),
            activation_query: opt_view(self.activation_query),
            query_embedding: opt_components(self.query_embedding),
            activated_memory: self.activated_memory@,
            assembled_context: opt_view(self.assembled_context),
            latest_model_output: opt_view(self.latest_model_output),
            pending_tool_calls: runner::calls_view(self.pending_tool_calls@),
            tool_results: executor::results_view(self.tool_results@),
            persisted_raw_ids: self.persisted_raw_ids@,
            tool_result_ids: self.tool_result_ids@,
            new_abstract_ids: self.new_abstract_ids@,
            session_window_ids: self.session_window_ids@,
            pushed_out_raw_ids: self.pushed_out_raw_ids@,
            assistant_message: text::opt_text(self.assistant_message),
            iteration: self.iteration,
            tool_rounds_completed: self.tool_rounds_completed,
            model_invocations: self.model_invocations,
            last_completed_node: text::opt_text(self.last_completed_node),
            execution_profile: self.execution_profile,
        }
    }
}

/// Copies a list of raw identifiers.
pub fn clone_raw_ids(ids: &Vec<RawNodeId>) -> (result: Vec<RawNodeId>)
    ensures
        result@ == ids@,
{
    let result = ids.clone();
    assert(result@ =~= ids@);
    result
}

/// Copies a list of abstract identifiers.
pub fn clone_abstract_ids(ids: &Vec<AbstractNodeId>) -> (result: Vec<AbstractNodeId>)
    ensures
        result@ == ids@,
{
    let result = ids.clone();
    assert(result@ =~= ids@);
    result
}

impl Clone for ExecutionState {
    fn clone(&self) -> (result: Self)
        ensures
            result@ == self@,
    {
        let activation_query = match &self.activation_query {
            Some(query) => Some(query.clone()),
            None => None,
        };
        let query_embedding = match &self.query_embedding {
            Some(embedding) => Some(embedding.clone()),
            None => None,
        };
        let assembled_context = match &self.assembled_context {
            Some(context) => Some(context.clone()),
            None => None,
        };
        let latest_model_output = match &self.latest_model_output {
            Some(output) => Some(output.clone()),
            None => None,
        };
        ExecutionState {
            session_id: self.session_id,
            loop_id: self.loop_id,
            user_message: self.user_message.clone(),
            plan: self.plan.clone(),
            conversation_history: clone_messages(self.conversation_history.as_slice()),
            turn_messages: clone_messages(self.turn_messages.as_slice()),
            recent_session: clone_raws(self.recent_session.as_slice()),
            activation_query,
            query_embedding,
            activated_memory: self.activated_memory.clone(),
            assembled_context,
            latest_model_output,
            pending_tool_calls: clone_calls(self.pending_tool_calls.as_slice()),
            tool_results: clone_results(self.tool_results.as_slice()),
            persisted_raw_ids: clone_raw_ids(&self.persisted_raw_ids),
            tool_result_ids: clone_raw_ids(&self.tool_result_ids),
            new_abstract_ids: clone_abstract_ids(&self.new_abstract_ids),
            session_window_ids: clone_raw_ids(&self.session_window_ids),
            pushed_out_raw_ids: clone_raw_ids(&self.pushed_out_raw_ids),
            assistant_message: self.assistant_message.clone(),
            iteration: self.iteration,
            tool_rounds_completed: self.tool_rounds_completed,
            model_invocations: self.model_invocations,
            last_completed_node: self.last_completed_node.clone(),
            execution_profile: self.execution_profile,
        }
    }
}

impl State {
    /// The state in which a turn starts.
    pub open spec fn initial(
        session_id: SessionId,
        loop_id: LoopId,
        user_message: Seq<char>,
        plan: Option<Seq<char>>,
    ) -> State {
        State {
            session_id,
            loop_id,
            user_message,
            plan,
            conversation_history: Seq::empty(),
            turn_messages: Seq::empty(),
            recent_session: Seq::empty(),
            activation_query: None,
            query_embedding: None,
            activated_memory: Memory { raw_nodes: Seq::empty(), abstract_nodes: Seq::empty() },
            assembled_context: None,
            latest_model_output: None,
            pending_tool_calls: Seq::empty(),
            tool_results: Seq::empty(),
            persisted_raw_ids: Seq::empty(),
            tool_result_ids: Seq::empty(),
            new_abstract_ids: Seq::empty(),
            session_window_ids: Seq::empty(),
            pushed_out_raw_ids: Seq::empty(),
            assistant_message: None,
            iteration: 0,
            tool_rounds_completed: 0,
            model_invocations: 0,
            last_completed_node: None,
            execution_profile: ExecutionProfile::MemoryAware,
        }
    }
}

/// The version of the checkpoint layout.
pub const CHECKPOINT_VERSION: u32 = 1;

/// Whether a checkpoint holds this state at this node with this status.
pub open spec fn is_checkpoint(
    checkpoint: LoopState,
    state: State,
    node: Seq<char>,
    status: LoopStatus,
) -> bool {
    &&& checkpoint.checkpoint_version == CHECKPOINT_VERSION
    &&& checkpoint.graph_id@ == state.execution_profile.graph_name()
    &&& checkpoint.session_id == state.session_id
    &&& checkpoint.loop_id == state.loop_id
    &&& checkpoint.current_node@ == node
    &&& checkpoint.status == status
    &&& checkpoint.state@ == state
}

/// Why a checkpoint cannot be continued, if it cannot.
pub open spec fn checkpoint_fault(checkpoint: LoopState) -> Option<Seq<char>> {
    if checkpoint.checkpoint_version != CHECKPOINT_VERSION {
        Some(
            "unsupported checkpoint schema version "@ + text::decimal(
                checkpoint.checkpoint_version as nat,
            ),
        )
    } else if checkpoint.state@.session_id != checkpoint.session_id || checkpoint.state@.loop_id
        != checkpoint.loop_id {
        Some("checkpoint envelope identity does not match serialized execution state"@)
    } else if checkpoint.graph_id@ != checkpoint.state@.execution_profile.graph_name() {
        Some(
            "checkpoint graph "@ + checkpoint.graph_id@
                + " does not match execution profile graph "@
                + checkpoint.state@.execution_profile.graph_name(),
        )
    } else {
        None
    }
}

impl ExecutionState {
    /// The state in which a turn starts.
    pub fn from_request(
        request: SessionRequest,
        session_id: SessionId,
        loop_id: LoopId,
    ) -> (state: Self)
        ensures
            state@ == State::initial(
                session_id,
                loop_id,
                request.user_message@,
                text::opt_text(request.plan),
            ),
    {
        let state = ExecutionState {
            session_id,
            loop_id,
            user_message: request.user_message,
            plan: request.plan,
            conversation_history: Vec::new(),
            turn_messages: Vec::new(),
            recent_session: Vec::new(),
            activation_query: None,
            query_embedding: None,
            activated_memory: ActivatedMemory::default(),
            assembled_context: None,
            latest_model_output: None,
            pending_tool_calls: Vec::new(),
            tool_results: Vec::new(),
            persisted_raw_ids: Vec::new(),
            tool_result_ids: Vec::new(),
            new_abstract_ids: Vec::new(),
            session_window_ids: Vec::new(),
            pushed_out_raw_ids: Vec::new(),
            assistant_message: None,
            iteration: 0,
            tool_rounds_completed: 0,
            model_invocations: 0,
            last_completed_node: None,
            execution_profile: ExecutionProfile::default(),
        };
        proof {
            assert(state@.conversation_history =~= Seq::empty());
            assert(state@.turn_messages =~= Seq::empty());
            assert(state@.recent_session =~= Seq::empty());
            assert(state@.pending_tool_calls =~= Seq::empty());
            assert(state@.tool_results =~= Seq::empty());
            assert(state@.persisted_raw_ids =~= Seq::empty());
            assert(state@.tool_result_ids =~= Seq::empty());
            assert(state@.new_abstract_ids =~= Seq::empty());
            assert(state@.session_window_ids =~= Seq::empty());
            assert(state@.pushed_out_raw_ids =~= Seq::empty());
        }
        state
    }

    /// A checkpoint of the state in front of a node.
    pub fn checkpoint(&self, current_node: String, status: LoopStatus) -> (checkpoint: LoopState)
        ensures
            is_checkpoint(checkpoint, self@, current_node@, status),
    {
        LoopState {
            checkpoint_version: CHECKPOINT_VERSION,
            graph_id: self.execution_profile.graph_id().to_string(),
            session_id: self.session_id,
            loop_id: self.loop_id,
            current_node,
            status,
            state: self.clone(),
        }
    }

    /// The state, node and status of a checkpoint, unless the checkpoint does
    /// not belong to its own state.
    pub fn from_checkpoint(checkpoint: LoopState) -> (result: Result<(Self, String, LoopStatus)>)
        ensures
            match checkpoint_fault(checkpoint) {
                Some(message) => result is Err && error::is_recovery_unsafe(
                    result->Err_0,
                    message,
                ),
                None => result is Ok && result->Ok_0.0 == checkpoint.state && result->Ok_0.1
                    == checkpoint.current_node && result->Ok_0.2 == checkpoint.status,
            },
    {
        if checkpoint.checkpoint_version != CHECKPOINT_VERSION {
            return Err(
                EngineError::RecoveryUnsafe(
                    "unsupported checkpoint schema version ".to_string().concat(
                        size_text(checkpoint.checkpoint_version as usize).as_str(),
                    ),
                ),
            );
        }
        if checkpoint.state.session_id != checkpoint.session_id || checkpoint.state.loop_id
            != checkpoint.loop_id {
            return Err(
                EngineError::RecoveryUnsafe(
                    "checkpoint envelope identity does not match serialized execution state".to_string(),
                ),
            );
        }
        let expected = checkpoint.state.execution_profile.graph_id();
        if !same_text(checkpoint.graph_id.as_str(), expected) {
            return Err(
                EngineError::RecoveryUnsafe(
                    "checkpoint graph ".to_string().concat(checkpoint.graph_id.as_str()).concat(
                        " does not match execution profile graph ",
                    ).concat(expected),
                ),
            );
        }
        Ok((checkpoint.state, checkpoint.current_node, checkpoint.status))
    }
}

/// A checkpoint that was just taken can be continued, with the state, node and
/// status that went into it.
pub proof fn checkpoint_round_trip(
    checkpoint: LoopState,
    state: State,
    node: Seq<char>,
    status: LoopStatus,
)
    requires
        is_checkpoint(checkpoint, state, node, status),
    ensures
        checkpoint_fault(checkpoint) is None,
        checkpoint.state@ == state,
        checkpoint.current_node@ == node,
        checkpoint.status == status,
{
}

/// A checkpoint under another session, loop, graph or layout is refused.
pub proof fn tampered_checkpoints_are_refused(checkpoint: LoopState)
    requires
        checkpoint.checkpoint_version != CHECKPOINT_VERSION || checkpoint.session_id
            != checkpoint.state@.session_id || checkpoint.loop_id != checkpoint.state@.loop_id
            || checkpoint.graph_id@ != checkpoint.state@.execution_profile.graph_name(),
    ensures
        checkpoint_fault(checkpoint) is Some,
{
}

/// What a node decided.
#[derive(Debug, PartialEq, Eq)]
pub enum NodeOutcome {
    Continue,
    Branch(String),
    Finish,
    Pause,
}

/// Which time limit a node is under.
#[derive(Debug, Clone, Copy, PartialEq, Eq, Structural)]
pub enum NodeRuntimeClass {
    Standard,
    /// Waits for a model.
    Model,
    ToolExecution,
    Distillation,
}

/// How a run through the graph ended.
#[derive(Debug, PartialEq, Eq)]
pub struct GraphRunResult {
    pub status: LoopStatus,
    pub completed_steps: u32,
    pub tool_rounds_completed: u32,
    pub last_node: Option<String>,
}

/// What a caller may ask of one run.
#[derive(Debug)]
pub struct RunOptions {
    /// The identity of the loop, for callers that recover it later.
    pub loop_id: Option<LoopId>,
    pub max_graph_steps: Option<u32>,
    pub max_tool_rounds: Option<u32>,
    pub node_timeout: Option<Duration>,
    pub model_timeout: Option<Duration>,
    pub tool_timeout: Option<Duration>,
    pub distillation_timeout: Option<Duration>,
    pub maintenance_batch_size: Option<usize>,
    /// Durable history that the caller owns.
    pub conversation_history: Vec<ConversationMessage>,
    pub execution_profile: ExecutionProfile,
}

impl Default for RunOptions {
    fn default() -> (options: Self)
        ensures
            options.loop_id is None,
            options.max_graph_steps is None,
            options.max_tool_rounds is None,
            options.node_timeout is None,
            options.model_timeout is None,
            options.tool_timeout is None,
            options.distillation_timeout is None,
            options.maintenance_batch_size is None,
            options.conversation_history@.len() == 0,
            options.execution_profile == ExecutionProfile::MemoryAware,
    {
        RunOptions {
            loop_id: None,
            max_graph_steps: None,
            max_tool_rounds: None,
            node_timeout: None,
            model_timeout: None,
            tool_timeout: None,
            distillation_timeout: None,
            maintenance_batch_size: None,
            conversation_history: Vec::new(),
            execution_profile: ExecutionProfile::default(),
        }
    }
}

impl RunOptions {
    /// Every span that is given counts its nanoseconds within a second.
    pub open spec fn well_formed(self) -> bool {
        &&& self.node_timeout matches Some(span) ==> span.well_formed()
        &&& self.model_timeout matches Some(span) ==> span.well_formed()
        &&& self.tool_timeout matches Some(span) ==> span.well_formed()
        &&& self.distillation_timeout matches Some(span) ==> span.well_formed()
    }
}

/// The guards that one run is under.
#[derive(Debug, Clone, Copy, PartialEq, Eq, Structural)]
pub struct ResolvedRunOptions {
    pub max_graph_steps: u32,
    pub max_tool_rounds: u32,
    pub node_timeout: Duration,
    pub model_timeout: Duration,
    pub tool_timeout: Duration,
    pub distillation_timeout: Duration,
    pub maintenance_batch_size: usize,
    pub execution_profile: ExecutionProfile,
}

/// What is asked for, but never more than what is configured.
pub open spec fn limited(asked: Option<int>, configured: int) -> int {
    match asked {
        Some(value) => if value < configured {
            value
        } else {
            configured
        },
        None => configured,
    }
}

/// The nanoseconds of an optional span.
pub open spec fn opt_total(span: Option<Duration>) -> Option<int> {
    match span {
        Some(value) => Some(value.total() as int),
        None => None,
    }
}

/// An optional number of 32 bits.
pub open spec fn opt_u32(value: Option<u32>) -> Option<int> {
    match value {
        Some(number) => Some(number as int),
        None => None,
    }
}

/// An optional size.
pub open spec fn opt_usize(value: Option<usize>) -> Option<int> {
    match value {
        Some(number) => Some(number as int),
        None => None,
    }
}

fn limited_u32(asked: Option<u32>, configured: u32) -> (result: u32)
    ensures
        result == limited(opt_u32(asked), configured as int),
{
    match asked {
        Some(value) => if value < configured {
            value
        } else {
            configured
        },
        None => configured,
    }
}

fn limited_size(asked: Option<usize>, configured: usize) -> (result: usize)
    ensures
        result == limited(opt_usize(asked), configured as int),
{
    match asked {
        Some(value) => if value < configured {
            value
        } else {
            configured
        },
        None => configured,
    }
}

fn limited_span(asked: Option<Duration>, configured: Duration) -> (result: Duration)
    requires
        configured.well_formed(),
        asked matches Some(span) ==> span.well_formed(),
    ensures
        result.well_formed(),
        result.total() == limited(opt_total(asked), configured.total() as int),
{
    match asked {
        Some(value) => value.shorter(configured),
        None => configured,
    }
}

impl ResolvedRunOptions {
    /// The spans count their nanoseconds within a second.
    pub open spec fn well_formed(self) -> bool {
        &&& self.node_timeout.well_formed()
        &&& self.model_timeout.well_formed()
        &&& self.tool_timeout.well_formed()
        &&& self.distillation_timeout.well_formed()
    }

    /// Whether these are the guards that a configuration and options lead to.
    pub open spec fn resolves(self, runtime: RuntimeConfig, options: RunOptions) -> bool {
        &&& self.well_formed()
        &&& self.max_graph_steps == limited(
            opt_u32(options.max_graph_steps),
            runtime.max_graph_steps as int,
        )
        &&& self.max_tool_rounds == limited(
            opt_u32(options.max_tool_rounds),
            runtime.max_tool_rounds as int,
        )
        &&& self.node_timeout.total() == limited(
            opt_total(options.node_timeout),
            runtime.node_timeout_ms * 1_000_000,
        )
        &&& self.model_timeout.total() == limited(
            opt_total(options.model_timeout),
            runtime.model_timeout_ms * 1_000_000,
        )
        &&& self.tool_timeout.total() == limited(
            opt_total(options.tool_timeout),
            runtime.tool_timeout_ms * 1_000_000,
        )
        &&& self.distillation_timeout.total() == limited(
            opt_total(options.distillation_timeout),
            runtime.distillation_timeout_ms * 1_000_000,
        )
        &&& self.maintenance_batch_size == limited(
            opt_usize(options.maintenance_batch_size),
            runtime.maintenance_batch_size as int,
        )
        &&& self.execution_profile == options.execution_profile
    }

    /// Whether these are the guards of a run that asks for nothing: those that
    /// are configured.
    pub open spec fn is_configured(self, runtime: RuntimeConfig) -> bool {
        &&& self.well_formed()
        &&& self.max_graph_steps == runtime.max_graph_steps
        &&& self.max_tool_rounds == runtime.max_tool_rounds
        &&& self.node_timeout.total() == runtime.node_timeout_ms * 1_000_000
        &&& self.model_timeout.total() == runtime.model_timeout_ms * 1_000_000
        &&& self.tool_timeout.total() == runtime.tool_timeout_ms * 1_000_000
        &&& self.distillation_timeout.total() == runtime.distillation_timeout_ms * 1_000_000
        &&& self.maintenance_batch_size == runtime.maintenance_batch_size
        &&& self.execution_profile == ExecutionProfile::MemoryAware
    }

    /// The guards of a run: what the options ask for, but never more than
    /// what is configured.
    pub fn from_config(config: &EngineConfig, options: RunOptions) -> (resolved: Self)
        requires
            options.well_formed(),
        ensures
            resolved.resolves(config.runtime, options),
    {
        ResolvedRunOptions {
            max_graph_steps: limited_u32(options.max_graph_steps, config.runtime.max_graph_steps),
            max_tool_rounds: limited_u32(options.max_tool_rounds, config.runtime.max_tool_rounds),
            node_timeout: limited_span(options.node_timeout, config.runtime.node_timeout()),
            model_timeout: limited_span(options.model_timeout, config.runtime.model_timeout()),
            tool_timeout: limited_span(options.tool_timeout, config.runtime.tool_timeout()),
            distillation_timeout: limited_span(
                options.distillation_timeout,
                config.runtime.distillation_timeout(),
            ),
            maintenance_batch_size: limited_size(
                options.maintenance_batch_size,
                config.runtime.maintenance_batch_size,
            ),
            execution_profile: options.execution_profile,
        }
    }

    /// The time limit of a class of nodes.
    pub fn timeout_for_class(&self, class: NodeRuntimeClass) -> (span: Duration)
        ensures
            span == match class {
                NodeRuntimeClass::Standard => self.node_timeout,
                NodeRuntimeClass::Model => self.model_timeout,
                NodeRuntimeClass::ToolExecution => self.tool_timeout,
                NodeRuntimeClass::Distillation => self.distillation_timeout,
            },
    {
        match class {
            NodeRuntimeClass::Standard => self.node_timeout,
            NodeRuntimeClass::Model => self.model_timeout,
            NodeRuntimeClass::ToolExecution => self.tool_timeout,
            NodeRuntimeClass::Distillation => self.distillation_timeout,
        }
    }

    /// Why the guards are refused, if they are.
    pub open spec fn fault(self) -> Option<Seq<char>> {
        if self.max_graph_steps == 0 || self.max_tool_rounds == 0 || self.maintenance_batch_size
            == 0 {
            Some("run option budgets must be greater than zero"@)
        } else if self.node_timeout.total() == 0 || self.model_timeout.total() == 0
            || self.tool_timeout.total() == 0 || self.distillation_timeout.total() == 0 {
            Some("run option timeouts must be greater than zero"@)
        } else {
            None
        }
    }

    /// Refuses guards that would not let a run do anything.
    pub fn validate(&self) -> (result: Result<()>)
        ensures
            match self.fault() {
                Some(message) => result is Err && error::is_configuration(result->Err_0, message),
                None => result is Ok,
            },
    {
        if self.max_graph_steps == 0 || self.max_tool_rounds == 0 || self.maintenance_batch_size
            == 0 {
            return Err(
                EngineError::Configuration(
                    "run option budgets must be greater than zero".to_string(),
                ),
            );
        }
        if self.node_timeout.is_zero() || self.model_timeout.is_zero()
            || self.tool_timeout.is_zero() || self.distillation_timeout.is_zero() {
            return Err(
                EngineError::Configuration(
                    "run option timeouts must be greater than zero".to_string(),
                ),
            );
        }
        Ok(())
    }
}

/// No option lets a run go beyond what is configured.
pub proof fn options_never_expand_guards(
    resolved: ResolvedRunOptions,
    runtime: RuntimeConfig,
    options: RunOptions,
)
    requires
        resolved.resolves(runtime, options),
    ensures
        resolved.max_graph_steps <= runtime.max_graph_steps,
        resolved.max_tool_rounds <= runtime.max_tool_rounds,
        resolved.maintenance_batch_size <= runtime.maintenance_batch_size,
        resolved.node_timeout.total() <= runtime.node_timeout_ms * 1_000_000,
        resolved.model_timeout.total() <= runtime.model_timeout_ms * 1_000_000,
        resolved.tool_timeout.total() <= runtime.tool_timeout_ms * 1_000_000,
        resolved.distillation_timeout.total() <= runtime.distillation_timeout_ms * 1_000_000,
{
}

/// An edge is found by the node it leaves and the branch it stands for.
#[derive(Debug, PartialEq, Eq)]
pub struct EdgeKey {
    pub from: String,
    pub branch: String,
}

/// The name of an edge as a mathematical value.
pub struct EdgeName {
    pub from: Seq<char>,
    pub branch: Seq<char>,
}

impl View for EdgeKey {
    type V = EdgeName;

    open spec fn view(&self) -> EdgeName {
        EdgeName { from: self.from@, branch: self.branch@ }
    }
}

impl Key for EdgeKey {
    fn same_key(&self, other: &EdgeKey) -> (result: bool) {
        self.from == other.from && self.branch == other.branch
    }
}

impl View for NodeRuntimeClass {
    type V = NodeRuntimeClass;

    open spec fn view(&self) -> NodeRuntimeClass {
        *self
    }
}

/// The nodes of a run and where each goes next.
#[derive(Debug)]
pub struct ExecutionGraph {
    pub start: String,
    pub nodes: Table<String, NodeRuntimeClass>,
    pub edges: Table<EdgeKey, String>,
}

/// A graph as a mathematical value.
#[verifier::ext_equal]
pub struct Graph {
    pub start: Seq<char>,
    pub nodes: Seq<table::Pair<Seq<char>, NodeRuntimeClass>>,
    pub edges: Seq<table::Pair<EdgeName, Seq<char>>>,
}

impl View for ExecutionGraph {
    type V = Graph;

    open spec fn view(&self) -> Graph {
        Graph { start: self.start@, nodes: self.nodes@, edges: self.edges@ }
    }
}

impl Graph {
    /// The time class of a node, if it is registered.
    pub open spec fn class_of(self, node: Seq<char>) -> Option<NodeRuntimeClass> {
        table::lookup(self.nodes, node)
    }

    /// Where a branch of a node leads, if it leads anywhere.
    pub open spec fn target(self, node: Seq<char>, branch: Seq<char>) -> Option<Seq<char>> {
        table::lookup(self.edges, EdgeName { from: node, branch })
    }
}

impl Default for ExecutionGraph {
    fn default() -> (graph: Self)
        ensures
            graph@ == (Graph { start: Seq::empty(), nodes: Seq::empty(), edges: Seq::empty() }),
    {
        ExecutionGraph { start: String::new(), nodes: Table::new(), edges: Table::new() }
    }
}

impl ExecutionGraph {
    /// A graph that starts at a node and holds nothing yet.
    pub fn new<S: IntoText>(start: S) -> (graph: Self)
        ensures
            graph@ == (Graph { start: start.chars(), nodes: Seq::empty(), edges: Seq::empty() }),
    {
        ExecutionGraph { start: start.into_text(), nodes: Table::new(), edges: Table::new() }
    }

    /// Registers a node; one of the same name is replaced.
    pub fn add_node<S: IntoText>(&mut self, id: S, class: NodeRuntimeClass)
        ensures
            final(self)@ == (Graph {
                nodes: table::stored(old(self)@.nodes, id.chars(), class),
                ..old(self)@
            }),
    {
        self.nodes.insert(id.into_text(), class);
    }

    /// Registers where a branch of a node leads.
    pub fn add_edge<F: IntoText, B: IntoText, T: IntoText>(&mut self, from: F, branch: B, to: T)
        ensures
            final(self)@ == (Graph {
                edges: table::stored(
                    old(self)@.edges,
                    EdgeName { from: from.chars(), branch: branch.chars() },
                    to.chars(),
                ),
                ..old(self)@
            }),
    {
        let key = EdgeKey { from: from.into_text(), branch: branch.into_text() };
        self.edges.insert(key, to.into_text());
    }

    /// The node that a run starts at.
    pub fn start_node(&self) -> (node: &str)
        ensures
            node@ == self@.start,
    {
        self.start.as_str()
    }

    /// Number of registered nodes.
    pub fn node_count(&self) -> (count: usize)
        ensures
            count == self@.nodes.len(),
    {
        self.nodes.len()
    }

    /// Number of registered edges.
    pub fn edge_count(&self) -> (count: usize)
        ensures
            count == self@.edges.len(),
    {
        self.edges.len()
    }

    /// Where a node leads with what it decided: nowhere when it finished or
    /// paused.
    pub fn resolve_next(&self, current_node: &str, outcome: &NodeOutcome) -> (result: Result<
        Option<String>,
    >)
        ensures
            match outcome {
                NodeOutcome::Finish | NodeOutcome::Pause => result is Ok && result->Ok_0 is None,
                NodeOutcome::Continue => match self@.target(current_node@, DEFAULT_EDGE@) {
                    Some(next) => result is Ok && result->Ok_0 is Some && result->Ok_0->0@ == next,
                    None => result is Err && error::is_configuration(
                        result->Err_0,
                        "missing default edge from execution node "@ + current_node@,
                    ),
                },
                NodeOutcome::Branch(branch) => match self@.target(current_node@, branch@) {
                    Some(next) => result is Ok && result->Ok_0 is Some && result->Ok_0->0@ == next,
                    None => result is Err && error::is_configuration(
                        result->Err_0,
                        "missing branch edge "@ + branch@ + " from execution node "@
                            + current_node@,
                    ),
                },
            },
    {
        match outcome {
            NodeOutcome::Finish => Ok(None),
            NodeOutcome::Pause => Ok(None),
            NodeOutcome::Continue => {
                let key = EdgeKey {
                    from: current_node.to_string(),
                    branch: DEFAULT_EDGE.to_string(),
                };
                match self.edges.get(&key) {
                    Some(next) => Ok(Some(next.clone())),
                    None => Err(
                        EngineError::Configuration(
                            "missing default edge from execution node ".to_string().concat(
                                current_node,
                            ),
                        ),
                    ),
                }
            },
            NodeOutcome::Branch(branch) => {
                let key = EdgeKey { from: current_node.to_string(), branch: branch.clone() };
                match self.edges.get(&key) {
                    Some(next) => Ok(Some(next.clone())),
                    None => Err(
                        EngineError::Configuration(
                            "missing branch edge ".to_string().concat(branch.as_str()).concat(
                                " from execution node ",
                            ).concat(current_node),
                        ),
                    ),
                }
            },
        }
    }

    /// The time class of a node.
    pub fn node(&self, id: &str) -> (result: Result<NodeRuntimeClass>)
        ensures
            match self@.class_of(id@) {
                Some(class) => result is Ok && result->Ok_0 == class,
                None => result is Err && error::is_configuration(
                    result->Err_0,
                    unregistered_message(id@),
                ),
            },
    {
        match self.nodes.get(&id.to_string()) {
            Some(class) => Ok(*class),
            None => Err(
                EngineError::Configuration(
                    "execution graph node ".to_string().concat(id).concat(" is not registered"),
                ),
            ),
        }
    }
}

/// How the absence of a node is reported.
pub open spec fn unregistered_message(id: Seq<char>) -> Seq<char> {
    "execution graph node "@ + id + " is not registered"@
}

/// Runs have registered nodes and edges under distinct names, whatever is
/// added.
pub proof fn graph_names_stay_distinct(
    graph: Graph,
    node: Seq<char>,
    class: NodeRuntimeClass,
    edge: EdgeName,
    target: Seq<char>,
)
    requires
        table::is_table(graph.nodes),
        table::is_table(graph.edges),
    ensures
        table::is_table(table::stored(graph.nodes, node, class)),
        table::is_table(table::stored(graph.edges, edge, target)),
        table::lookup(table::stored(graph.nodes, node, class), node) == Some(class),
        table::lookup(table::stored(graph.edges, edge, target), edge) == Some(target),
{
    table::stored_is_found(graph.nodes, node, class);
    table::stored_is_found(graph.edges, edge, target);
}

/// A turn starts with what was asked and with nothing else: no history, no
/// memories, no calls, no results, and nothing counted yet.
pub proof fn turns_start_empty(
    session_id: SessionId,
    loop_id: LoopId,
    user_message: Seq<char>,
    plan: Option<Seq<char>>,
)
    ensures
        ({
            let state = State::initial(session_id, loop_id, user_message, plan);
            &&& state.session_id == session_id && state.loop_id == loop_id
            &&& state.user_message == user_message && state.plan == plan
            &&& state.conversation_history.len() == 0 && state.turn_messages.len() == 0
            &&& state.recent_session.len() == 0
            &&& state.activation_query is None && state.query_embedding is None
            &&& state.activated_memory.raw_nodes.len() == 0
            &&& state.activated_memory.abstract_nodes.len() == 0
            &&& state.assembled_context is None && state.latest_model_output is None
            &&& state.pending_tool_calls.len() == 0 && state.tool_results.len() == 0
            &&& state.persisted_raw_ids.len() == 0 && state.tool_result_ids.len() == 0
            &&& state.new_abstract_ids.len() == 0
            &&& state.session_window_ids.len() == 0 && state.pushed_out_raw_ids.len() == 0
            &&& state.assistant_message is None && state.last_completed_node is None
            &&& state.iteration == 0 && state.tool_rounds_completed == 0
            &&& state.model_invocations == 0
        }),
{
}

/// A checkpoint is taken up exactly where it has the version of this engine and
/// agrees with the state in it on session, loop and graph.
pub proof fn sound_checkpoints_are_accepted(checkpoint: LoopState)
    ensures
        checkpoint_fault(checkpoint) is None <==> {
            &&& checkpoint.checkpoint_version == 1
            &&& checkpoint.session_id == checkpoint.state@.session_id
            &&& checkpoint.loop_id == checkpoint.state@.loop_id
            &&& checkpoint.graph_id@ == (match checkpoint.state@.execution_profile {
                ExecutionProfile::MemoryAware => "memory-aware-v1"@,
                ExecutionProfile::ExternalContext => "external-context-v1"@,
            })
        },
{
}

/// What is asked for counts as long as it does not exceed what is configured;
/// otherwise, and where nothing is asked for, what is configured counts. The
/// profile is the one asked for.
pub proof fn options_tighten_guards(
    resolved: ResolvedRunOptions,
    runtime: RuntimeConfig,
    options: RunOptions,
)
    requires
        resolved.resolves(runtime, options),
    ensures
        resolved.max_graph_steps == (match options.max_graph_steps {
            Some(asked) if asked <= runtime.max_graph_steps => asked,
            _ => runtime.max_graph_steps,
        }),
        resolved.max_tool_rounds == (match options.max_tool_rounds {
            Some(asked) if asked <= runtime.max_tool_rounds => asked,
            _ => runtime.max_tool_rounds,
        }),
        resolved.maintenance_batch_size == (match options.maintenance_batch_size {
            Some(asked) if asked <= runtime.maintenance_batch_size => asked,
            _ => runtime.maintenance_batch_size,
        }),
        resolved.node_timeout.total() == (match options.node_timeout {
            Some(asked) if asked.total() <= runtime.node_timeout_ms * 1_000_000 => asked.total(),
            _ => (runtime.node_timeout_ms * 1_000_000) as nat,
        }),
        resolved.model_timeout.total() == (match options.model_timeout {
            Some(asked) if asked.total() <= runtime.model_timeout_ms * 1_000_000 => asked.total(),
            _ => (runtime.model_timeout_ms * 1_000_000) as nat,
        }),
        resolved.tool_timeout.total() == (match options.tool_timeout {
            Some(asked) if asked.total() <= runtime.tool_timeout_ms * 1_000_000 => asked.total(),
            _ => (runtime.tool_timeout_ms * 1_000_000) as nat,
        }),
        resolved.distillation_timeout.total() == (match options.distillation_timeout {
            Some(asked) if asked.total() <= runtime.distillation_timeout_ms
                * 1_000_000 => asked.total(),
            _ => (runtime.distillation_timeout_ms * 1_000_000) as nat,
        }),
        resolved.execution_profile == options.execution_profile,
        resolved.fault() is None <==> resolved.max_graph_steps > 0 && resolved.max_tool_rounds > 0
            && resolved.maintenance_batch_size > 0 && resolved.node_timeout.total() > 0
            && resolved.model_timeout.total() > 0 && resolved.tool_timeout.total() > 0
            && resolved.distillation_timeout.total() > 0,
{
}

/// States that are the same as mathematical values are the same in all that a run
/// goes on with.
pub proof fn state_views_leave_nothing_out(left: ExecutionState, right: ExecutionState)
    requires
        left@ == right@,
    ensures
        left.session_id == right.session_id && left.loop_id == right.loop_id,
        left.user_message@ == right.user_message@,
        text::opt_text(left.plan) == text::opt_text(right.plan),
        runner::messages_view(left.conversation_history@) == runner::messages_view(
            right.conversation_history@,
        ),
        runner::messages_view(left.turn_messages@) == runner::messages_view(right.turn_messages@),
        raw_node::raws(left.recent_session@) == raw_node::raws(right.recent_session@),
        left.activated_memory@ == right.activated_memory@,
        runner::calls_view(left.pending_tool_calls@) == runner::calls_view(
            right.pending_tool_calls@,
        ),
        executor::results_view(left.tool_results@) == executor::results_view(right.tool_results@),
        left.persisted_raw_ids@ == right.persisted_raw_ids@,
        left.tool_result_ids@ == right.tool_result_ids@,
        left.new_abstract_ids@ == right.new_abstract_ids@,
        left.session_window_ids@ == right.session_window_ids@,
        left.pushed_out_raw_ids@ == right.pushed_out_raw_ids@,
        text::opt_text(left.assistant_message) == text::opt_text(right.assistant_message),
        left.iteration == right.iteration,
        left.tool_rounds_completed == right.tool_rounds_completed,
        left.model_invocations == right.model_invocations,
        text::opt_text(left.last_completed_node) == text::opt_text(right.last_completed_node),
        left.execution_profile == right.execution_profile,
{
}

/// Where nothing is asked for, what is configured applies as it is.
pub proof fn configured_guards_apply_as_they_are(
    resolved: ResolvedRunOptions,
    runtime: RuntimeConfig,
)
    requires
        resolved.is_configured(runtime),
    ensures
        resolved.max_graph_steps == runtime.max_graph_steps,
        resolved.max_tool_rounds == runtime.max_tool_rounds,
        resolved.maintenance_batch_size == runtime.maintenance_batch_size,
        resolved.node_timeout.total() == runtime.node_timeout_ms * 1_000_000,
        resolved.model_timeout.total() == runtime.model_timeout_ms * 1_000_000,
        resolved.tool_timeout.total() == runtime.tool_timeout_ms * 1_000_000,
        resolved.distillation_timeout.total() == runtime.distillation_timeout_ms * 1_000_000,
        resolved.execution_profile == ExecutionProfile::MemoryAware,
{
}

} // verus!
