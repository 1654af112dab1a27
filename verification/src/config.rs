//! Engine configuration and its limits.
use vstd::prelude::*;

use crate::error;
use crate::error::{EngineError, Result};
use crate::float32;
use crate::float32::{ratios_sum_to_one, Float32, ONE_BITS};
use crate::text;
use crate::text::{is_blank, size_text};
use crate::time::Duration;

verus! {

/// Largest bound that a collection may be given.
pub const MAX_COLLECTION_BOUND: usize = 4_096;

/// Largest context, in tokens.
pub const MAX_CONTEXT_TOKENS: usize = 1_000_000;

/// Largest bound on arguments and results of a tool, in bytes.
pub const MAX_TOOL_PAYLOAD_BYTES: usize = 16_777_216;

/// Smallest bound on results of a tool, in bytes.
pub const MIN_TOOL_RESULT_BYTES: usize = 4_096;

/// Most tool calls of one round.
pub const MAX_TOOL_CALLS_PER_ROUND: usize = 256;

/// Most tool rounds of one run.
pub const MAX_TOOL_ROUNDS: u32 = 256;

/// Most steps of one run through the graph.
pub const MAX_GRAPH_STEPS: u32 = 100_000;

/// Bits of minus one.
pub const MINUS_ONE_BITS: u32 = 0xbf80_0000;

/// Bits of 0.72.
pub const RAW_THRESHOLD_BITS: u32 = 0x3f38_51ec;

/// Bits of 0.74.
pub const ABSTRACT_THRESHOLD_BITS: u32 = 0x3f3d_70a4;

/// Bits of 0.63.
pub const RELAXED_THRESHOLD_BITS: u32 = 0x3f21_47ae;

/// Bits of 0.5.
pub const EVEN_SPLIT_BITS: u32 = 0x3f00_0000;

/// How many memories of each kind are activated, as a proportion.
#[derive(Debug, Clone, Copy, PartialEq, Eq, Structural)]
pub struct ActivationTargetRatio {
    pub raw: usize,
    pub abstract_nodes: usize,
}

impl Default for ActivationTargetRatio {
    fn default() -> (ratio: Self)
        ensures
            ratio == (ActivationTargetRatio { raw: 1, abstract_nodes: 1 }),
    {
        ActivationTargetRatio { raw: 1, abstract_nodes: 1 }
    }
}

/// How memories are activated.
#[derive(Debug, Clone, Copy, PartialEq, Eq, Structural)]
pub struct ActivationConfig {
    pub target_ratio: ActivationTargetRatio,
    pub top_k_total: usize,
    pub use_time_decay: bool,
    pub overflow_raw_threshold_relaxation: bool,
}

/// The activation that applies unless another is given.
pub open spec fn default_activation() -> ActivationConfig {
    ActivationConfig {
        target_ratio: ActivationTargetRatio { raw: 1, abstract_nodes: 1 },
        top_k_total: 20,
        use_time_decay: true,
        overflow_raw_threshold_relaxation: true,
    }
}

impl Default for ActivationConfig {
    fn default() -> (config: Self)
        ensures
            config == default_activation(),
    {
        ActivationConfig {
            target_ratio: ActivationTargetRatio::default(),
            top_k_total: 20,
            use_time_decay: true,
            overflow_raw_threshold_relaxation: true,
        }
    }
}

/// How many memories of each kind are kept and how many are searched.
#[derive(Debug, Clone, Copy, PartialEq, Eq, Structural)]
pub struct ActivationBudgets {
    pub raw: usize,
    pub abstract_nodes: usize,
    pub search_window: usize,
}

impl ActivationConfig {
    /// Why the configuration is refused, if it is.
    pub open spec fn fault(self) -> Option<Seq<char>> {
        let raw = self.target_ratio.raw;
        let other = self.target_ratio.abstract_nodes;
        if raw == 0 || other == 0 {
            Some("memory.activation target ratios must both be greater than 0"@)
        } else if self.top_k_total < 2 || self.top_k_total > MAX_COLLECTION_BOUND {
            Some("memory.activation.top_k_total must be between 2 and 4096"@)
        } else if raw + other > usize::MAX {
            Some("memory.activation target ratio sum must not overflow"@)
        } else if self.top_k_total * raw > usize::MAX {
            Some("memory.activation weighted raw budget must not overflow"@)
        } else {
            None
        }
    }

    /// How many raw memories are kept: their proportion of the total, but at
    /// least one and not all.
    pub open spec fn raw_budget(self) -> int {
        let share = self.top_k_total * self.target_ratio.raw / (self.target_ratio.raw
            + self.target_ratio.abstract_nodes);
        if share < 1 {
            1
        } else if share > self.top_k_total - 1 {
            self.top_k_total - 1
        } else {
            share
        }
    }

    /// The budgets that the configuration asks for.
    pub fn validated_budgets(&self) -> (result: Result<ActivationBudgets>)
        ensures
            match self.fault() {
                Some(message) => result is Err && error::is_configuration(result->Err_0, message),
                None => result is Ok && result->Ok_0.raw == self.raw_budget()
                    && result->Ok_0.abstract_nodes == self.top_k_total - self.raw_budget()
                    && result->Ok_0.search_window == 2 * self.top_k_total,
            },
    {
        let raw_ratio: usize = self.target_ratio.raw;
        let abstract_ratio: usize = self.target_ratio.abstract_nodes;
        if raw_ratio == 0 || abstract_ratio == 0 {
            return Err(
                EngineError::Configuration(
                    "memory.activation target ratios must both be greater than 0".to_string(),
                ),
            );
        }
        if self.top_k_total < 2 || self.top_k_total > MAX_COLLECTION_BOUND {
            return Err(
                EngineError::Configuration(
                    "memory.activation.top_k_total must be between 2 and 4096".to_string(),
                ),
            );
        }
        let total_ratio: usize = match raw_ratio.checked_add(abstract_ratio) {
            Some(value) => value,
            None => return Err(
                EngineError::Configuration(
                    "memory.activation target ratio sum must not overflow".to_string(),
                ),
            ),
        };
        let weighted_raw: usize = match self.top_k_total.checked_mul(raw_ratio) {
            Some(value) => value,
            None => return Err(
                EngineError::Configuration(
                    "memory.activation weighted raw budget must not overflow".to_string(),
                ),
            ),
        };
        let share: usize = weighted_raw / total_ratio;
        let raw: usize = if share < 1 {
            1
        } else if share > self.top_k_total - 1 {
            self.top_k_total - 1
        } else {
            share
        };
        Ok(
            ActivationBudgets {
                raw,
                abstract_nodes: self.top_k_total - raw,
                search_window: self.top_k_total * 2,
            },
        )
    }
}

/// Both kinds of memory get at least one place and share the total.
pub proof fn budgets_share_the_total(config: ActivationConfig)
    requires
        config.fault() is None,
    ensures
        1 <= config.raw_budget() < config.top_k_total,
        1 <= config.top_k_total - config.raw_budget(),
        config.raw_budget() + (config.top_k_total - config.raw_budget()) == config.top_k_total,
{
}

/// Which similarity a memory needs.
#[derive(Debug, Clone, Copy, PartialEq, Eq, Structural)]
pub struct SimilarityThresholdConfig {
    pub raw: Float32,
    pub abstract_nodes: Float32,
}

/// The thresholds that apply unless others are given.
pub open spec fn default_thresholds() -> SimilarityThresholdConfig {
    SimilarityThresholdConfig {
        raw: Float32 { bits: RAW_THRESHOLD_BITS },
        abstract_nodes: Float32 { bits: ABSTRACT_THRESHOLD_BITS },
    }
}

impl Default for SimilarityThresholdConfig {
    fn default() -> (config: Self)
        ensures
            config == default_thresholds(),
    {
        SimilarityThresholdConfig {
            raw: Float32 { bits: RAW_THRESHOLD_BITS },
            abstract_nodes: Float32 { bits: ABSTRACT_THRESHOLD_BITS },
        }
    }
}

/// How memories are retrieved.
#[derive(Debug, Clone, Copy, PartialEq, Eq, Structural)]
pub struct RetrievalConfig {
    pub similarity_threshold: SimilarityThresholdConfig,
    pub relaxed_threshold_for_pushed_raw: Float32,
}

/// The retrieval that applies unless another is given.
pub open spec fn default_retrieval() -> RetrievalConfig {
    RetrievalConfig {
        similarity_threshold: default_thresholds(),
        relaxed_threshold_for_pushed_raw: Float32 { bits: RELAXED_THRESHOLD_BITS },
    }
}

impl Default for RetrievalConfig {
    fn default() -> (config: Self)
        ensures
            config == default_retrieval(),
    {
        RetrievalConfig {
            similarity_threshold: SimilarityThresholdConfig::default(),
            relaxed_threshold_for_pushed_raw: Float32 { bits: RELAXED_THRESHOLD_BITS },
        }
    }
}

/// How memories are activated and retrieved.
#[derive(Debug, Clone, Copy, PartialEq, Eq, Structural)]
pub struct MemoryConfig {
    pub activation: ActivationConfig,
    pub retrieval: RetrievalConfig,
}

impl Default for MemoryConfig {
    fn default() -> (config: Self)
        ensures
            config.retrieval == default_retrieval(),
            config.activation == default_activation(),
    {
        MemoryConfig {
            activation: ActivationConfig::default(),
            retrieval: RetrievalConfig::default(),
        }
    }
}

/// How the tokens of a prompt are divided.
#[derive(Debug, Clone, Copy, PartialEq, Eq, Structural)]
pub struct ContextBudgetConfig {
    pub total_tokens: usize,
    pub reserve_system: usize,
    pub reserve_tools: usize,
    pub reserve_working: usize,
    pub session_ratio: Float32,
    pub memory_ratio: Float32,
}

/// The budget that applies unless another is given.
pub open spec fn default_context_budget() -> ContextBudgetConfig {
    ContextBudgetConfig {
        total_tokens: 64_000,
        reserve_system: 4_000,
        reserve_tools: 12_000,
        reserve_working: 8_000,
        session_ratio: Float32 { bits: EVEN_SPLIT_BITS },
        memory_ratio: Float32 { bits: EVEN_SPLIT_BITS },
    }
}

impl Default for ContextBudgetConfig {
    fn default() -> (config: Self)
        ensures
            config == default_context_budget(),
    {
        ContextBudgetConfig {
            total_tokens: 64_000,
            reserve_system: 4_000,
            reserve_tools: 12_000,
            reserve_working: 8_000,
            session_ratio: Float32 { bits: EVEN_SPLIT_BITS },
            memory_ratio: Float32 { bits: EVEN_SPLIT_BITS },
        }
    }
}

impl ContextBudgetConfig {
    /// What the reserves take together.
    pub open spec fn reserved(self) -> nat {
        (self.reserve_system + self.reserve_tools + self.reserve_working) as nat
    }

    /// What is left of the total once the reserves are taken off.
    pub open spec fn remaining(self) -> nat {
        if self.reserved() < self.total_tokens {
            (self.total_tokens - self.reserved()) as nat
        } else {
            0
        }
    }

    /// What is left of the total once the reserves are taken off.
    pub fn remaining_tokens(&self) -> (result: usize)
        ensures
            result == self.remaining(),
    {
        self.total_tokens.saturating_sub(self.reserve_system).saturating_sub(
            self.reserve_tools,
        ).saturating_sub(self.reserve_working)
    }
}

/// Which built-in tools are offered and within which bounds.
#[derive(Debug, Clone, Copy, PartialEq, Eq, Structural)]
pub struct ToolsConfig {
    pub memory_search: bool,
    pub graph_search: bool,
    pub provenance_lookup: bool,
    pub timeline_search: bool,
    pub max_memory_search_top_k: usize,
    pub max_graph_search_depth: usize,
    pub max_graph_search_hits: usize,
    pub max_provenance_raw_nodes: usize,
    pub max_timeline_search_limit: usize,
    pub max_tool_argument_bytes: usize,
    pub max_tool_result_bytes: usize,
}

/// Memory hits unless bounded otherwise.
pub const DEFAULT_MAX_MEMORY_SEARCH_TOP_K: usize = 32;

/// Graph depth unless bounded otherwise.
pub const DEFAULT_MAX_GRAPH_SEARCH_DEPTH: usize = 4;

/// Graph hits unless bounded otherwise.
pub const DEFAULT_MAX_GRAPH_SEARCH_HITS: usize = 128;

/// Provenance nodes unless bounded otherwise.
pub const DEFAULT_MAX_PROVENANCE_RAW_NODES: usize = 128;

/// Timeline entries unless bounded otherwise.
pub const DEFAULT_MAX_TIMELINE_SEARCH_LIMIT: usize = 100;

/// Bytes of tool arguments unless bounded otherwise.
pub const DEFAULT_MAX_TOOL_ARGUMENT_BYTES: usize = 262_144;

/// Bytes of tool results unless bounded otherwise.
pub const DEFAULT_MAX_TOOL_RESULT_BYTES: usize = 1_048_576;

/// The tools that are offered unless configured otherwise.
pub open spec fn default_tools() -> ToolsConfig {
    ToolsConfig {
        memory_search: true,
        graph_search: true,
        provenance_lookup: true,
        timeline_search: true,
        max_memory_search_top_k: DEFAULT_MAX_MEMORY_SEARCH_TOP_K,
        max_graph_search_depth: DEFAULT_MAX_GRAPH_SEARCH_DEPTH,
        max_graph_search_hits: DEFAULT_MAX_GRAPH_SEARCH_HITS,
        max_provenance_raw_nodes: DEFAULT_MAX_PROVENANCE_RAW_NODES,
        max_timeline_search_limit: DEFAULT_MAX_TIMELINE_SEARCH_LIMIT,
        max_tool_argument_bytes: DEFAULT_MAX_TOOL_ARGUMENT_BYTES,
        max_tool_result_bytes: DEFAULT_MAX_TOOL_RESULT_BYTES,
    }
}

impl Default for ToolsConfig {
    fn default() -> (config: Self)
        ensures
            config == default_tools(),
    {
        ToolsConfig {
            memory_search: true,
            graph_search: true,
            provenance_lookup: true,
            timeline_search: true,
            max_memory_search_top_k: DEFAULT_MAX_MEMORY_SEARCH_TOP_K,
            max_graph_search_depth: DEFAULT_MAX_GRAPH_SEARCH_DEPTH,
            max_graph_search_hits: DEFAULT_MAX_GRAPH_SEARCH_HITS,
            max_provenance_raw_nodes: DEFAULT_MAX_PROVENANCE_RAW_NODES,
            max_timeline_search_limit: DEFAULT_MAX_TIMELINE_SEARCH_LIMIT,
            max_tool_argument_bytes: DEFAULT_MAX_TOOL_ARGUMENT_BYTES,
            max_tool_result_bytes: DEFAULT_MAX_TOOL_RESULT_BYTES,
        }
    }
}

/// Bounds on a run.
#[derive(Debug, Clone, Copy, PartialEq, Eq, Structural)]
pub struct RuntimeConfig {
    pub max_graph_steps: u32,
    pub max_tool_rounds: u32,
    pub node_timeout_ms: u64,
    /// Time for one model completion, which takes longer than other nodes.
    pub model_timeout_ms: u64,
    pub tool_timeout_ms: u64,
    pub distillation_timeout_ms: u64,
    pub maintenance_batch_size: usize,
    /// Most tool calls of one model round.
    pub max_tool_calls_per_round: usize,
    pub max_session_nodes: usize,
    pub max_loop_nodes: usize,
}

/// The bounds that apply unless others are given.
pub open spec fn default_runtime() -> RuntimeConfig {
    RuntimeConfig {
        max_graph_steps: 64,
        max_tool_rounds: 8,
        node_timeout_ms: 10_000,
        model_timeout_ms: 60_000,
        tool_timeout_ms: 30_000,
        distillation_timeout_ms: 15_000,
        maintenance_batch_size: 32,
        max_tool_calls_per_round: 16,
        max_session_nodes: 512,
        max_loop_nodes: 256,
    }
}

impl Default for RuntimeConfig {
    fn default() -> (config: Self)
        ensures
            config == default_runtime(),
    {
        RuntimeConfig {
            max_graph_steps: 64,
            max_tool_rounds: 8,
            node_timeout_ms: 10_000,
            model_timeout_ms: 60_000,
            tool_timeout_ms: 30_000,
            distillation_timeout_ms: 15_000,
            maintenance_batch_size: 32,
            max_tool_calls_per_round: 16,
            max_session_nodes: 512,
            max_loop_nodes: 256,
        }
    }
}

impl RuntimeConfig {
    /// Time for an ordinary node.
    pub fn node_timeout(&self) -> (result: Duration)
        ensures
            result.well_formed(),
            result.total() == self.node_timeout_ms * 1_000_000,
    {
        Duration::from_millis(self.node_timeout_ms)
    }

    /// Time for a model node.
    pub fn model_timeout(&self) -> (result: Duration)
        ensures
            result.well_formed(),
            result.total() == self.model_timeout_ms * 1_000_000,
    {
        Duration::from_millis(self.model_timeout_ms)
    }

    /// Time for one tool call.
    pub fn tool_timeout(&self) -> (result: Duration)
        ensures
            result.well_formed(),
            result.total() == self.tool_timeout_ms * 1_000_000,
    {
        Duration::from_millis(self.tool_timeout_ms)
    }

    /// Time for one distillation.
    pub fn distillation_timeout(&self) -> (result: Duration)
        ensures
            result.well_formed(),
            result.total() == self.distillation_timeout_ms * 1_000_000,
    {
        Duration::from_millis(self.distillation_timeout_ms)
    }
}

/// The configuration of an engine.
#[derive(Debug, PartialEq, Eq)]
pub struct EngineConfig {
    pub system_prompt: String,
    pub memory: MemoryConfig,
    pub context_budget: ContextBudgetConfig,
    pub tools: ToolsConfig,
    pub runtime: RuntimeConfig,
}

impl Clone for EngineConfig {
    fn clone(&self) -> (result: Self)
        ensures
            result == *self,
    {
        EngineConfig {
            system_prompt: self.system_prompt.clone(),
            memory: self.memory,
            context_budget: self.context_budget,
            tools: self.tools,
            runtime: self.runtime,
        }
    }
}

impl Default for EngineConfig {
    fn default() -> (config: Self)
        ensures
            config.system_prompt@ == "You are the Rust-based Takos agent engine."@,
            config.memory.retrieval == default_retrieval(),
            config.memory.activation == default_activation(),
            config.context_budget == default_context_budget(),
            config.tools == default_tools(),
            config.runtime == default_runtime(),
            config.fault() is None,
    {
        proof {
            reveal_strlit("You are the Rust-based Takos agent engine.");
            assert(!text::whitespace("You are the Rust-based Takos agent engine."@[0]));
            float32::halves_sum_to_one();
        }
        EngineConfig {
            system_prompt: "You are the Rust-based Takos agent engine.".to_string(),
            memory: MemoryConfig::default(),
            context_budget: ContextBudgetConfig::default(),
            tools: ToolsConfig::default(),
            runtime: RuntimeConfig::default(),
        }
    }
}

/// Whether a number lies between zero and one.
pub open spec fn is_ratio(value: Float32) -> bool {
    value.within(Float32 { bits: 0 }, Float32 { bits: ONE_BITS })
}

/// Whether a number is a similarity, that is, lies between minus one and one.
pub open spec fn is_similarity(value: Float32) -> bool {
    value.within(Float32 { bits: MINUS_ONE_BITS }, Float32 { bits: ONE_BITS })
}

/// Whether a bound of a collection is refused.
pub open spec fn is_bad_bound(value: usize) -> bool {
    value == 0 || value > MAX_COLLECTION_BOUND
}

/// How the refusal of a collection bound reads.
pub open spec fn bound_message(name: Seq<char>) -> Seq<char> {
    name + " must be between 1 and "@ + text::decimal(MAX_COLLECTION_BOUND as nat)
}

/// How the refusal of a threshold reads.
pub open spec fn threshold_message(name: Seq<char>) -> Seq<char> {
    name + " must be finite and between -1 and 1"@
}

/// How the refusal of a payload bound reads.
pub open spec fn payload_message(name: Seq<char>, minimum: nat) -> Seq<char> {
    name + " must be between "@ + text::decimal(minimum) + " and "@ + text::decimal(
        MAX_TOOL_PAYLOAD_BYTES as nat,
    )
}

/// How the refusal of a zero reads.
pub open spec fn zero_message(name: Seq<char>) -> Seq<char> {
    name + " must be greater than 0"@
}

/// How the refusal of a number above its limit reads.
pub open spec fn excess_message(name: Seq<char>, limit: nat) -> Seq<char> {
    name + " must not exceed "@ + text::decimal(limit)
}

impl ContextBudgetConfig {
    /// Why the proportion of session and memory is refused, if it is.
    pub open spec fn split_fault(self) -> Option<Seq<char>> {
        if !is_ratio(self.session_ratio) {
            Some("context_budget.session_ratio must be between 0 and 1"@)
        } else if !is_ratio(self.memory_ratio) {
            Some("context_budget.memory_ratio must be between 0 and 1"@)
        } else if !float32::sums_to_one(self.session_ratio, self.memory_ratio) {
            Some("context_budget.session_ratio + memory_ratio must equal 1"@)
        } else {
            None
        }
    }

    /// Why the numbers of tokens are refused, if they are.
    pub open spec fn token_fault(self) -> Option<Seq<char>> {
        if self.total_tokens == 0 || self.total_tokens > MAX_CONTEXT_TOKENS {
            Some(
                "context_budget.total_tokens must be between 1 and "@ + text::decimal(
                    MAX_CONTEXT_TOKENS as nat,
                ),
            )
        } else if self.reserved() > usize::MAX {
            Some("context_budget reserve sum must not overflow"@)
        } else if self.reserved() > self.total_tokens {
            Some("context_budget reserves must not exceed total_tokens"@)
        } else {
            None
        }
    }
}

impl RetrievalConfig {
    /// Why the thresholds are refused, if they are.
    pub open spec fn fault(self) -> Option<Seq<char>> {
        if !is_similarity(self.similarity_threshold.raw) {
            Some(threshold_message("memory.retrieval.similarity_threshold.raw"@))
        } else if !is_similarity(self.similarity_threshold.abstract_nodes) {
            Some(threshold_message("memory.retrieval.similarity_threshold.abstract"@))
        } else if !is_similarity(self.relaxed_threshold_for_pushed_raw) {
            Some(threshold_message("memory.retrieval.relaxed_threshold_for_pushed_raw"@))
        } else if self.similarity_threshold.raw.less(self.relaxed_threshold_for_pushed_raw) {
            Some(
                "memory.retrieval.relaxed_threshold_for_pushed_raw must not exceed the normal raw threshold"@,
            )
        } else {
            None
        }
    }
}

impl RuntimeConfig {
    /// Why the numbers of steps, rounds and nodes are refused, if they are.
    pub open spec fn count_fault(self) -> Option<Seq<char>> {
        if self.max_graph_steps == 0 {
            Some(zero_message("runtime.max_graph_steps"@))
        } else if self.max_graph_steps > MAX_GRAPH_STEPS {
            Some(excess_message("runtime.max_graph_steps"@, MAX_GRAPH_STEPS as nat))
        } else if self.max_tool_rounds == 0 {
            Some(zero_message("runtime.max_tool_rounds"@))
        } else if self.max_tool_rounds > MAX_TOOL_ROUNDS {
            Some(excess_message("runtime.max_tool_rounds"@, MAX_TOOL_ROUNDS as nat))
        } else if self.maintenance_batch_size == 0 {
            Some(zero_message("runtime.maintenance_batch_size"@))
        } else if is_bad_bound(self.maintenance_batch_size) {
            Some(bound_message("runtime.maintenance_batch_size"@))
        } else if is_bad_bound(self.max_tool_calls_per_round) {
            Some(bound_message("runtime.max_tool_calls_per_round"@))
        } else if is_bad_bound(self.max_session_nodes) {
            Some(bound_message("runtime.max_session_nodes"@))
        } else if is_bad_bound(self.max_loop_nodes) {
            Some(bound_message("runtime.max_loop_nodes"@))
        } else if self.max_tool_calls_per_round > MAX_TOOL_CALLS_PER_ROUND {
            Some(
                excess_message(
                    "runtime.max_tool_calls_per_round"@,
                    MAX_TOOL_CALLS_PER_ROUND as nat,
                ),
            )
        } else {
            None
        }
    }

    /// Why the timeouts are refused, if they are.
    pub open spec fn timeout_fault(self) -> Option<Seq<char>> {
        if self.model_timeout_ms == 0 {
            Some(zero_message("runtime.model_timeout_ms"@))
        } else if self.node_timeout_ms == 0 {
            Some(zero_message("runtime.node_timeout_ms"@))
        } else if self.tool_timeout_ms == 0 {
            Some(zero_message("runtime.tool_timeout_ms"@))
        } else if self.distillation_timeout_ms == 0 {
            Some(zero_message("runtime.distillation_timeout_ms"@))
        } else {
            None
        }
    }
}

impl ToolsConfig {
    /// Why the bounds of the tools are refused, if they are.
    pub open spec fn fault(self) -> Option<Seq<char>> {
        if self.max_memory_search_top_k == 0 {
            Some(zero_message("tools.max_memory_search_top_k"@))
        } else if self.max_graph_search_depth == 0 {
            Some(zero_message("tools.max_graph_search_depth"@))
        } else if self.max_timeline_search_limit == 0 {
            Some(zero_message("tools.max_timeline_search_limit"@))
        } else if is_bad_bound(self.max_memory_search_top_k) {
            Some(bound_message("tools.max_memory_search_top_k"@))
        } else if is_bad_bound(self.max_graph_search_depth) {
            Some(bound_message("tools.max_graph_search_depth"@))
        } else if is_bad_bound(self.max_graph_search_hits) {
            Some(bound_message("tools.max_graph_search_hits"@))
        } else if is_bad_bound(self.max_provenance_raw_nodes) {
            Some(bound_message("tools.max_provenance_raw_nodes"@))
        } else if is_bad_bound(self.max_timeline_search_limit) {
            Some(bound_message("tools.max_timeline_search_limit"@))
        } else if self.max_tool_argument_bytes < 1 || self.max_tool_argument_bytes
            > MAX_TOOL_PAYLOAD_BYTES {
            Some(payload_message("tools.max_tool_argument_bytes"@, 1))
        } else if self.max_tool_result_bytes < MIN_TOOL_RESULT_BYTES || self.max_tool_result_bytes
            > MAX_TOOL_PAYLOAD_BYTES {
            Some(
                payload_message("tools.max_tool_result_bytes"@, MIN_TOOL_RESULT_BYTES as nat),
            )
        } else {
            None
        }
    }
}

impl EngineConfig {
    /// The first reason for which the configuration is refused, if it is.
    pub open spec fn fault(self) -> Option<Seq<char>> {
        if text::blank(self.system_prompt@) {
            Some("system_prompt must not be empty"@)
        } else if self.context_budget.split_fault() is Some {
            self.context_budget.split_fault()
        } else if self.memory.activation.fault() is Some {
            self.memory.activation.fault()
        } else if self.memory.retrieval.fault() is Some {
            self.memory.retrieval.fault()
        } else if self.context_budget.token_fault() is Some {
            self.context_budget.token_fault()
        } else if self.runtime.count_fault() is Some {
            self.runtime.count_fault()
        } else if self.tools.fault() is Some {
            self.tools.fault()
        } else {
            self.runtime.timeout_fault()
        }
    }

    /// Checks every field against its range, in a fixed order.
    pub fn validate(&self) -> (result: Result<()>)
        ensures
            reports(result, self.fault()),
    {
        if is_blank(self.system_prompt.as_str()) {
            return refuse("system_prompt must not be empty");
        }
        match self.context_budget.check_split() {
            Ok(()) => {},
            Err(error) => return Err(error),
        }
        match self.memory.activation.validated_budgets() {
            Ok(_) => {},
            Err(error) => return Err(error),
        }
        match self.memory.retrieval.check() {
            Ok(()) => {},
            Err(error) => return Err(error),
        }
        match self.context_budget.check_tokens() {
            Ok(()) => {},
            Err(error) => return Err(error),
        }
        match self.runtime.check_counts() {
            Ok(()) => {},
            Err(error) => return Err(error),
        }
        match self.tools.check() {
            Ok(()) => {},
            Err(error) => return Err(error),
        }
        self.runtime.check_timeouts()
    }
}

/// Whether a check passes where there is no fault and otherwise reports it.
pub open spec fn reports(result: Result<()>, fault: Option<Seq<char>>) -> bool {
    match fault {
        Some(message) => result is Err && error::is_configuration(result->Err_0, message),
        None => result is Ok,
    }
}

fn refuse(message: &str) -> (result: Result<()>)
    ensures
        reports(result, Some(message@)),
{
    Err(EngineError::Configuration(message.to_string()))
}

fn refuse_zero(name: &str) -> (result: Result<()>)
    ensures
        reports(result, Some(zero_message(name@))),
{
    Err(EngineError::Configuration(name.to_string().concat(" must be greater than 0")))
}

fn refuse_excess(name: &str, limit: usize) -> (result: Result<()>)
    ensures
        reports(result, Some(excess_message(name@, limit as nat))),
{
    Err(
        EngineError::Configuration(
            name.to_string().concat(" must not exceed ").concat(size_text(limit).as_str()),
        ),
    )
}

/// Checks the bound of a collection.
pub fn validate_collection_bound(name: &str, value: usize) -> (result: Result<()>)
    ensures
        reports(
            result,
            if is_bad_bound(value) {
                Some(bound_message(name@))
            } else {
                None
            },
        ),
{
    if value == 0 || value > MAX_COLLECTION_BOUND {
        return Err(
            EngineError::Configuration(
                name.to_string().concat(" must be between 1 and ").concat(
                    size_text(MAX_COLLECTION_BOUND).as_str(),
                ),
            ),
        );
    }
    Ok(())
}

/// Checks a similarity threshold.
pub fn validate_threshold(name: &str, value: Float32) -> (result: Result<()>)
    ensures
        reports(
            result,
            if is_similarity(value) {
                None
            } else {
                Some(threshold_message(name@))
            },
        ),
{
    let low = Float32 { bits: MINUS_ONE_BITS };
    let high = Float32 { bits: ONE_BITS };
    if !value.is_finite() || !value.is_within(&low, &high) {
        return Err(
            EngineError::Configuration(
                name.to_string().concat(" must be finite and between -1 and 1"),
            ),
        );
    }
    Ok(())
}

fn validate_payload_bound(name: &str, value: usize, minimum: usize) -> (result: Result<()>)
    ensures
        reports(
            result,
            if value < minimum || value > MAX_TOOL_PAYLOAD_BYTES {
                Some(payload_message(name@, minimum as nat))
            } else {
                None
            },
        ),
{
    if value < minimum || value > MAX_TOOL_PAYLOAD_BYTES {
        return Err(
            EngineError::Configuration(
                name.to_string().concat(" must be between ").concat(
                    size_text(minimum).as_str(),
                ).concat(" and ").concat(size_text(MAX_TOOL_PAYLOAD_BYTES).as_str()),
            ),
        );
    }
    Ok(())
}

impl ContextBudgetConfig {
    fn check_split(&self) -> (result: Result<()>)
        ensures
            reports(result, self.split_fault()),
    {
        let low = Float32 { bits: 0 };
        let high = Float32 { bits: ONE_BITS };
        if !self.session_ratio.is_within(&low, &high) {
            return refuse("context_budget.session_ratio must be between 0 and 1");
        }
        if !self.memory_ratio.is_within(&low, &high) {
            return refuse("context_budget.memory_ratio must be between 0 and 1");
        }
        if !ratios_sum_to_one(&self.session_ratio, &self.memory_ratio) {
            return refuse("context_budget.session_ratio + memory_ratio must equal 1");
        }
        Ok(())
    }

    fn check_tokens(&self) -> (result: Result<()>)
        ensures
            reports(result, self.token_fault()),
    {
        if self.total_tokens == 0 || self.total_tokens > MAX_CONTEXT_TOKENS {
            return Err(
                EngineError::Configuration(
                    "context_budget.total_tokens must be between 1 and ".to_string().concat(
                        size_text(MAX_CONTEXT_TOKENS).as_str(),
                    ),
                ),
            );
        }
        let sum: Option<usize> = match self.reserve_system.checked_add(self.reserve_tools) {
            Some(value) => value.checked_add(self.reserve_working),
            None => None,
        };
        match sum {
            None => refuse("context_budget reserve sum must not overflow"),
            Some(reserved) => {
                if reserved > self.total_tokens {
                    refuse("context_budget reserves must not exceed total_tokens")
                } else {
                    Ok(())
                }
            },
        }
    }
}

impl RetrievalConfig {
    fn check(&self) -> (result: Result<()>)
        ensures
            reports(result, self.fault()),
    {
        match validate_threshold(
            "memory.retrieval.similarity_threshold.raw",
            self.similarity_threshold.raw,
        ) {
            Ok(()) => {},
            Err(error) => return Err(error),
        }
        match validate_threshold(
            "memory.retrieval.similarity_threshold.abstract",
            self.similarity_threshold.abstract_nodes,
        ) {
            Ok(()) => {},
            Err(error) => return Err(error),
        }
        match validate_threshold(
            "memory.retrieval.relaxed_threshold_for_pushed_raw",
            self.relaxed_threshold_for_pushed_raw,
        ) {
            Ok(()) => {},
            Err(error) => return Err(error),
        }
        if self.similarity_threshold.raw.is_less(&self.relaxed_threshold_for_pushed_raw) {
            return refuse(
                "memory.retrieval.relaxed_threshold_for_pushed_raw must not exceed the normal raw threshold",
            );
        }
        Ok(())
    }
}

impl RuntimeConfig {
    fn check_counts(&self) -> (result: Result<()>)
        ensures
            reports(result, self.count_fault()),
    {
        if self.max_graph_steps == 0 {
            return refuse_zero("runtime.max_graph_steps");
        }
        if self.max_graph_steps > MAX_GRAPH_STEPS {
            return refuse_excess("runtime.max_graph_steps", MAX_GRAPH_STEPS as usize);
        }
        if self.max_tool_rounds == 0 {
            return refuse_zero("runtime.max_tool_rounds");
        }
        if self.max_tool_rounds > MAX_TOOL_ROUNDS {
            return refuse_excess("runtime.max_tool_rounds", MAX_TOOL_ROUNDS as usize);
        }
        if self.maintenance_batch_size == 0 {
            return refuse_zero("runtime.maintenance_batch_size");
        }
        match validate_collection_bound(
            "runtime.maintenance_batch_size",
            self.maintenance_batch_size,
        ) {
            Ok(()) => {},
            Err(error) => return Err(error),
        }
        match validate_collection_bound(
            "runtime.max_tool_calls_per_round",
            self.max_tool_calls_per_round,
        ) {
            Ok(()) => {},
            Err(error) => return Err(error),
        }
        match validate_collection_bound("runtime.max_session_nodes", self.max_session_nodes) {
            Ok(()) => {},
            Err(error) => return Err(error),
        }
        match validate_collection_bound("runtime.max_loop_nodes", self.max_loop_nodes) {
            Ok(()) => {},
            Err(error) => return Err(error),
        }
        if self.max_tool_calls_per_round > MAX_TOOL_CALLS_PER_ROUND {
            return refuse_excess("runtime.max_tool_calls_per_round", MAX_TOOL_CALLS_PER_ROUND);
        }
        Ok(())
    }

    fn check_timeouts(&self) -> (result: Result<()>)
        ensures
            reports(result, self.timeout_fault()),
    {
        if self.model_timeout_ms == 0 {
            return refuse_zero("runtime.model_timeout_ms");
        }
        if self.node_timeout_ms == 0 {
            return refuse_zero("runtime.node_timeout_ms");
        }
        if self.tool_timeout_ms == 0 {
            return refuse_zero("runtime.tool_timeout_ms");
        }
        if self.distillation_timeout_ms == 0 {
            return refuse_zero("runtime.distillation_timeout_ms");
        }
        Ok(())
    }
}

impl ToolsConfig {
    fn check(&self) -> (result: Result<()>)
        ensures
            reports(result, self.fault()),
    {
        if self.max_memory_search_top_k == 0 {
            return refuse_zero("tools.max_memory_search_top_k");
        }
        if self.max_graph_search_depth == 0 {
            return refuse_zero("tools.max_graph_search_depth");
        }
        if self.max_timeline_search_limit == 0 {
            return refuse_zero("tools.max_timeline_search_limit");
        }
        match validate_collection_bound(
            "tools.max_memory_search_top_k",
            self.max_memory_search_top_k,
        ) {
            Ok(()) => {},
            Err(error) => return Err(error),
        }
        match validate_collection_bound(
            "tools.max_graph_search_depth",
            self.max_graph_search_depth,
        ) {
            Ok(()) => {},
            Err(error) => return Err(error),
        }
        match validate_collection_bound("tools.max_graph_search_hits", self.max_graph_search_hits) {
            Ok(()) => {},
            Err(error) => return Err(error),
        }
        match validate_collection_bound(
            "tools.max_provenance_raw_nodes",
            self.max_provenance_raw_nodes,
        ) {
            Ok(()) => {},
            Err(error) => return Err(error),
        }
        match validate_collection_bound(
            "tools.max_timeline_search_limit",
            self.max_timeline_search_limit,
        ) {
            Ok(()) => {},
            Err(error) => return Err(error),
        }
        match validate_payload_bound(
            "tools.max_tool_argument_bytes",
            self.max_tool_argument_bytes,
            1,
        ) {
            Ok(()) => {},
            Err(error) => return Err(error),
        }
        validate_payload_bound(
            "tools.max_tool_result_bytes",
            self.max_tool_result_bytes,
            MIN_TOOL_RESULT_BYTES,
        )
    }
}

/// The reserves of an accepted configuration fit into its total, and what is
/// left over is exactly the rest.
pub proof fn accepted_reserves_fit(config: EngineConfig)
    requires
        config.fault() is None,
    ensures
        config.context_budget.reserved() <= config.context_budget.total_tokens,
        config.context_budget.remaining() + config.context_budget.reserved()
            == config.context_budget.total_tokens,
        1 <= config.context_budget.total_tokens <= MAX_CONTEXT_TOKENS,
{
}

/// Every bound of an accepted configuration is positive and limited.
pub proof fn accepted_bounds_are_limited(config: EngineConfig)
    requires
        config.fault() is None,
    ensures
        1 <= config.runtime.max_graph_steps <= MAX_GRAPH_STEPS,
        1 <= config.runtime.max_tool_rounds <= MAX_TOOL_ROUNDS,
        1 <= config.runtime.max_tool_calls_per_round <= MAX_TOOL_CALLS_PER_ROUND,
        1 <= config.runtime.max_session_nodes <= MAX_COLLECTION_BOUND,
        1 <= config.runtime.max_loop_nodes <= MAX_COLLECTION_BOUND,
        1 <= config.runtime.maintenance_batch_size <= MAX_COLLECTION_BOUND,
        1 <= config.tools.max_memory_search_top_k <= MAX_COLLECTION_BOUND,
        1 <= config.tools.max_graph_search_depth <= MAX_COLLECTION_BOUND,
        1 <= config.tools.max_graph_search_hits <= MAX_COLLECTION_BOUND,
        1 <= config.tools.max_provenance_raw_nodes <= MAX_COLLECTION_BOUND,
        1 <= config.tools.max_timeline_search_limit <= MAX_COLLECTION_BOUND,
        MIN_TOOL_RESULT_BYTES <= config.tools.max_tool_result_bytes <= MAX_TOOL_PAYLOAD_BYTES,
        1 <= config.tools.max_tool_argument_bytes <= MAX_TOOL_PAYLOAD_BYTES,
        config.runtime.node_timeout_ms > 0,
        config.runtime.model_timeout_ms > 0,
        config.runtime.tool_timeout_ms > 0,
        config.runtime.distillation_timeout_ms > 0,
        2 <= config.memory.activation.top_k_total <= MAX_COLLECTION_BOUND,
{
}

/// What is left of the total is what no reserve takes.
pub proof fn reserves_are_taken_off(budget: ContextBudgetConfig)
    ensures
        ({
            let left = budget.total_tokens - budget.reserve_system - budget.reserve_tools
                - budget.reserve_working;
            budget.remaining() == if left < 0 {
                0
            } else {
                left
            }
        }),
{
}

/// A configuration is accepted exactly where it says something, its ratios and
/// thresholds lie in their ranges, its reserves leave the total intact, and every
/// bound lies between what is least and what is most for it.
pub proof fn configurations_are_accepted_when_in_range(config: EngineConfig)
    ensures
        config.fault() is None <==> {
            let budget = config.context_budget;
            let activation = config.memory.activation;
            let retrieval = config.memory.retrieval;
            let runtime = config.runtime;
            let tools = config.tools;
            let zero = Float32 { bits: 0 };
            let one = Float32 { bits: 0x3f80_0000 };
            let minus_one = Float32 { bits: 0xbf80_0000 };
            let raw = retrieval.similarity_threshold.raw;
            let other = retrieval.similarity_threshold.abstract_nodes;
            let relaxed = retrieval.relaxed_threshold_for_pushed_raw;
            &&& !text::blank(config.system_prompt@)
            &&& !budget.session_ratio.not_a_number() && !budget.memory_ratio.not_a_number()
            &&& !budget.session_ratio.less(zero) && !one.less(budget.session_ratio)
            &&& !budget.memory_ratio.less(zero) && !one.less(budget.memory_ratio)
            &&& float32::sums_to_one(budget.session_ratio, budget.memory_ratio)
            &&& 1 <= budget.total_tokens <= 1_000_000
            &&& budget.reserve_system + budget.reserve_tools + budget.reserve_working
                <= budget.total_tokens
            &&& activation.target_ratio.raw >= 1 && activation.target_ratio.abstract_nodes >= 1
            &&& 2 <= activation.top_k_total <= 4_096
            &&& activation.target_ratio.raw + activation.target_ratio.abstract_nodes <= usize::MAX
            &&& activation.top_k_total * activation.target_ratio.raw <= usize::MAX
            &&& !raw.not_a_number() && !raw.less(minus_one) && !one.less(raw)
            &&& !other.not_a_number() && !other.less(minus_one) && !one.less(other)
            &&& !relaxed.not_a_number() && !relaxed.less(minus_one) && !one.less(relaxed)
            &&& !raw.less(relaxed)
            &&& 1 <= runtime.max_graph_steps <= 100_000
            &&& 1 <= runtime.max_tool_rounds <= 256
            &&& 1 <= runtime.max_tool_calls_per_round <= 256
            &&& 1 <= runtime.max_session_nodes <= 4_096
            &&& 1 <= runtime.max_loop_nodes <= 4_096
            &&& 1 <= runtime.maintenance_batch_size <= 4_096
            &&& runtime.model_timeout_ms >= 1 && runtime.node_timeout_ms >= 1
            &&& runtime.tool_timeout_ms >= 1 && runtime.distillation_timeout_ms >= 1
            &&& 1 <= tools.max_memory_search_top_k <= 4_096
            &&& 1 <= tools.max_graph_search_depth <= 4_096
            &&& 1 <= tools.max_graph_search_hits <= 4_096
            &&& 1 <= tools.max_provenance_raw_nodes <= 4_096
            &&& 1 <= tools.max_timeline_search_limit <= 4_096
            &&& 1 <= tools.max_tool_argument_bytes <= 16_777_216
            &&& 4_096 <= tools.max_tool_result_bytes <= 16_777_216
        },
{
}

/// Raw memories get their proportion of the total, rounded down, as long as that
/// leaves each kind at least one place.
pub proof fn raw_memories_get_their_proportion(config: ActivationConfig)
    requires
        config.fault() is None,
    ensures
        ({
            let parts = config.target_ratio.raw + config.target_ratio.abstract_nodes;
            let weighted = config.top_k_total * config.target_ratio.raw;
            let budget = config.raw_budget();
            &&& 1 < budget ==> budget * parts <= weighted
            &&& budget < config.top_k_total - 1 ==> weighted < (budget + 1) * parts
        }),
{
    let parts = config.target_ratio.raw + config.target_ratio.abstract_nodes;
    let weighted = config.top_k_total * config.target_ratio.raw;
    let share = weighted / parts;
    let budget = config.raw_budget();
    vstd::arithmetic::div_mod::lemma_fundamental_div_mod(weighted as int, parts as int);
    assert(share * parts <= weighted < (share + 1) * parts) by (nonlinear_arith)
        requires
            weighted == parts * share + weighted % parts,
            0 <= weighted % parts < parts,
    ;
    assert(budget <= share ==> budget * parts <= share * parts) by (nonlinear_arith)
        requires
            parts > 0,
    ;
    assert(share <= budget ==> (share + 1) * parts <= (budget + 1) * parts) by (nonlinear_arith)
        requires
            parts > 0,
    ;
}

/// What applies unless something else is given is accepted.
pub proof fn defaults_are_in_range()
    ensures
        default_activation().fault() is None,
        default_retrieval().fault() is None,
        default_context_budget().token_fault() is None,
        default_runtime().count_fault() is None,
        default_runtime().timeout_fault() is None,
        default_tools().fault() is None,
        default_context_budget().remaining() == 40_000,
        default_activation().raw_budget() == 10,
        default_runtime().max_graph_steps == 64 && default_runtime().max_tool_rounds == 8,
        default_runtime().max_loop_nodes == 256 && default_runtime().max_session_nodes == 512,
        default_runtime().maintenance_batch_size == 32,
        default_runtime().max_tool_calls_per_round == 16,
        default_retrieval().similarity_threshold.raw.bits == 0x3f38_51ec,
        default_retrieval().similarity_threshold.abstract_nodes.bits == 0x3f3d_70a4,
        default_retrieval().relaxed_threshold_for_pushed_raw.bits == 0x3f21_47ae,
        default_context_budget().session_ratio.bits == 0x3f00_0000,
        default_context_budget().memory_ratio.bits == 0x3f00_0000,
        default_runtime().node_timeout_ms == 10_000 && default_runtime().model_timeout_ms == 60_000,
        default_runtime().tool_timeout_ms == 30_000,
        default_runtime().distillation_timeout_ms == 15_000,
        default_tools().max_tool_argument_bytes == 262_144,
        default_tools().max_tool_result_bytes == 1_048_576,
        default_tools().memory_search && default_tools().graph_search,
        default_tools().provenance_lookup && default_tools().timeline_search,
{
    let value = default_retrieval();
    assert(value.similarity_threshold.raw.rank() > value.relaxed_threshold_for_pushed_raw.rank());
    let activation = default_activation();
    assert(activation.top_k_total * activation.target_ratio.raw / (activation.target_ratio.raw
        + activation.target_ratio.abstract_nodes) == 10) by (nonlinear_arith)
        requires
            activation.top_k_total == 20,
            activation.target_ratio.raw == 1,
            activation.target_ratio.abstract_nodes == 1,
    ;
}

} // verus!
