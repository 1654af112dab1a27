use takos_agent_engine::config::{ContextBudgetConfig, EngineConfig, RuntimeConfig};
use takos_agent_engine::error::EngineError;
use takos_agent_engine::float32::{ratios_sum_to_one, scaled, Float32};

fn float(value: f32) -> Float32 {
    Float32::from_bits(value.to_bits())
}

fn refusal(config: &EngineConfig) -> String {
    match config.validate() {
        Err(EngineError::Configuration(message)) => message,
        other => panic!("expected a configuration error, got {other:?}"),
    }
}

#[test]
fn default_config_is_valid() {
    let config = EngineConfig::default();
    assert!(config.validate().is_ok());
}

#[test]
fn config_rejects_zero_tool_bounds() {
    let mut config = EngineConfig::default();
    config.tools.max_memory_search_top_k = 0;
    assert!(config.validate().is_err());

    let mut config = EngineConfig::default();
    config.tools.max_graph_search_depth = 0;
    assert!(config.validate().is_err());

    let mut config = EngineConfig::default();
    config.tools.max_timeline_search_limit = 0;
    assert!(config.validate().is_err());
}

#[test]
fn config_rejects_overflowing_activation_and_context_budgets() {
    let mut config = EngineConfig::default();
    config.memory.activation.target_ratio.raw = usize::MAX;
    assert!(config.validate().is_err());

    let mut config = EngineConfig::default();
    config.memory.activation.top_k_total = usize::MAX;
    assert!(config.validate().is_err());

    let mut config = EngineConfig::default();
    config.context_budget.total_tokens = 100;
    config.context_budget.reserve_system = usize::MAX;
    assert!(config.validate().is_err());

    let mut config = EngineConfig::default();
    config.context_budget.total_tokens = 100;
    config.context_budget.reserve_system = 40;
    config.context_budget.reserve_tools = 40;
    config.context_budget.reserve_working = 40;
    assert!(config.validate().is_err());
}

#[test]
fn config_rejects_invalid_thresholds_and_zero_timeouts() {
    let mut config = EngineConfig::default();
    config.memory.retrieval.similarity_threshold.raw = float(f32::NAN);
    assert!(config.validate().is_err());

    let mut config = EngineConfig::default();
    config.memory.retrieval.relaxed_threshold_for_pushed_raw = float(0.9);
    assert!(config.validate().is_err());

    for clear in [
        |runtime: &mut RuntimeConfig| runtime.node_timeout_ms = 0,
        |runtime: &mut RuntimeConfig| runtime.tool_timeout_ms = 0,
        |runtime: &mut RuntimeConfig| runtime.distillation_timeout_ms = 0,
    ] {
        let mut config = EngineConfig::default();
        clear(&mut config.runtime);
        assert!(config.validate().is_err());
    }
}

#[test]
fn every_refusal_reads_as_documented() {
    let cases: Vec<(fn(&mut EngineConfig), &str)> = vec![
        (|c| c.system_prompt = " \n".to_string(), "system_prompt must not be empty"),
        (
            |c| c.context_budget.session_ratio = float(1.5),
            "context_budget.session_ratio must be between 0 and 1",
        ),
        (
            |c| c.context_budget.memory_ratio = float(-0.5),
            "context_budget.memory_ratio must be between 0 and 1",
        ),
        (
            |c| c.context_budget.memory_ratio = float(0.4),
            "context_budget.session_ratio + memory_ratio must equal 1",
        ),
        (
            |c| c.memory.activation.target_ratio.raw = 0,
            "memory.activation target ratios must both be greater than 0",
        ),
        (
            |c| c.memory.activation.top_k_total = 1,
            "memory.activation.top_k_total must be between 2 and 4096",
        ),
        (
            |c| c.memory.activation.target_ratio.raw = usize::MAX,
            "memory.activation target ratio sum must not overflow",
        ),
        (
            |c| c.memory.activation.target_ratio.raw = usize::MAX - 1,
            "memory.activation weighted raw budget must not overflow",
        ),
        (
            |c| c.memory.retrieval.similarity_threshold.raw = float(f32::INFINITY),
            "memory.retrieval.similarity_threshold.raw must be finite and between -1 and 1",
        ),
        (
            |c| c.memory.retrieval.similarity_threshold.abstract_nodes = float(1.01),
            "memory.retrieval.similarity_threshold.abstract must be finite and between -1 and 1",
        ),
        (
            |c| c.memory.retrieval.relaxed_threshold_for_pushed_raw = float(-1.01),
            "memory.retrieval.relaxed_threshold_for_pushed_raw must be finite and between -1 and 1",
        ),
        (
            |c| c.memory.retrieval.relaxed_threshold_for_pushed_raw = float(0.73),
            "memory.retrieval.relaxed_threshold_for_pushed_raw must not exceed the normal raw threshold",
        ),
        (
            |c| c.context_budget.total_tokens = 0,
            "context_budget.total_tokens must be between 1 and 1000000",
        ),
        (
            |c| c.context_budget.reserve_tools = usize::MAX,
            "context_budget reserve sum must not overflow",
        ),
        (
            |c| c.context_budget.reserve_tools = 60_000,
            "context_budget reserves must not exceed total_tokens",
        ),
        (|c| c.runtime.max_graph_steps = 0, "runtime.max_graph_steps must be greater than 0"),
        (
            |c| c.runtime.max_graph_steps = 100_001,
            "runtime.max_graph_steps must not exceed 100000",
        ),
        (|c| c.runtime.max_tool_rounds = 0, "runtime.max_tool_rounds must be greater than 0"),
        (|c| c.runtime.max_tool_rounds = 257, "runtime.max_tool_rounds must not exceed 256"),
        (
            |c| c.runtime.maintenance_batch_size = 0,
            "runtime.maintenance_batch_size must be greater than 0",
        ),
        (
            |c| c.runtime.maintenance_batch_size = 4097,
            "runtime.maintenance_batch_size must be between 1 and 4096",
        ),
        (
            |c| c.runtime.max_tool_calls_per_round = 0,
            "runtime.max_tool_calls_per_round must be between 1 and 4096",
        ),
        (
            |c| c.runtime.max_tool_calls_per_round = 257,
            "runtime.max_tool_calls_per_round must not exceed 256",
        ),
        (
            |c| c.runtime.max_session_nodes = 0,
            "runtime.max_session_nodes must be between 1 and 4096",
        ),
        (
            |c| c.runtime.max_loop_nodes = 5000,
            "runtime.max_loop_nodes must be between 1 and 4096",
        ),
        (
            |c| c.tools.max_memory_search_top_k = 0,
            "tools.max_memory_search_top_k must be greater than 0",
        ),
        (
            |c| c.tools.max_graph_search_hits = 0,
            "tools.max_graph_search_hits must be between 1 and 4096",
        ),
        (
            |c| c.tools.max_tool_argument_bytes = 0,
            "tools.max_tool_argument_bytes must be between 1 and 16777216",
        ),
        (
            |c| c.tools.max_tool_result_bytes = 4095,
            "tools.max_tool_result_bytes must be between 4096 and 16777216",
        ),
        (|c| c.runtime.model_timeout_ms = 0, "runtime.model_timeout_ms must be greater than 0"),
        (|c| c.runtime.node_timeout_ms = 0, "runtime.node_timeout_ms must be greater than 0"),
    ];
    for (change, message) in cases {
        let mut config = EngineConfig::default();
        change(&mut config);
        assert_eq!(refusal(&config), message);
    }
}

#[test]
fn the_first_refusal_wins() {
    let mut config = EngineConfig::default();
    config.runtime.node_timeout_ms = 0;
    config.context_budget.total_tokens = 0;
    config.system_prompt = String::new();
    assert_eq!(refusal(&config), "system_prompt must not be empty");
}

#[test]
fn activation_budgets_follow_the_ratio() {
    let mut config = EngineConfig::default();
    let budgets = config.memory.activation.validated_budgets().unwrap();
    assert_eq!((budgets.raw, budgets.abstract_nodes, budgets.search_window), (10, 10, 40));
    config.memory.activation.target_ratio.raw = 9;
    let budgets = config.memory.activation.validated_budgets().unwrap();
    assert_eq!((budgets.raw, budgets.abstract_nodes), (18, 2));
    config.memory.activation.top_k_total = 2;
    let budgets = config.memory.activation.validated_budgets().unwrap();
    assert_eq!((budgets.raw, budgets.abstract_nodes), (1, 1));
    let window = config.memory.activation.window();
    assert_eq!((window.raw_budget, window.abstract_budget, window.search_window), (1, 1, 4));
}

#[test]
fn activation_windows_are_computed_unless_they_overflow() {
    let window = |top_k_total: usize, raw: usize, abstract_nodes: usize| {
        let mut config = EngineConfig::default().memory.activation;
        config.top_k_total = top_k_total;
        config.target_ratio.raw = raw;
        config.target_ratio.abstract_nodes = abstract_nodes;
        let window = config.checked_window()?;
        Some((window.raw_budget, window.abstract_budget, window.search_window))
    };
    assert_eq!(window(20, 9, 1), Some((18, 2, 40)));
    assert_eq!(window(0, 0, 0), Some((1, 1, 4)));
    assert_eq!(window(4, 1, usize::MAX - 1), Some((1, 3, 8)));
    assert_eq!(window(4, 1, usize::MAX), None);
    assert_eq!(window(4, usize::MAX / 2, 1), None);
    assert_eq!(window(usize::MAX / 2 + 1, 1, 1), None);
}

#[test]
fn remaining_tokens_are_what_the_reserves_leave() {
    let budget = ContextBudgetConfig::default();
    assert_eq!(budget.remaining_tokens(), 40_000);
    let mut tight = budget;
    tight.total_tokens = 10_000;
    assert_eq!(tight.remaining_tokens(), 0);
}

#[test]
fn timeouts_are_milliseconds() {
    let mut runtime = RuntimeConfig::default();
    assert_eq!(runtime.node_timeout().secs, 10);
    assert_eq!(runtime.model_timeout().secs, 60);
    assert_eq!(runtime.tool_timeout().secs, 30);
    assert_eq!(runtime.distillation_timeout().secs, 15);
    runtime.node_timeout_ms = 1_234;
    assert_eq!((runtime.node_timeout().secs, runtime.node_timeout().nanos), (1, 234_000_000));
}

#[test]
fn sums_of_ratios_round_as_single_precision_does() {
    let mut tested = 0;
    for step in 0..4_000u32 {
        for base in [0.0f32, 0.25, 0.3, 0.5, 0.7, 0.9, 1.0] {
            for target in [0.999f32, 1.001] {
                let other = target - base;
                let bits = other.to_bits().wrapping_add(step).wrapping_sub(2_000);
                let other = f32::from_bits(bits);
                if !(0.0..=1.0).contains(&other) {
                    continue;
                }
                let expected = !((base + other - 1.0).abs() > 0.001);
                assert_eq!(
                    ratios_sum_to_one(&float(base), &float(other)),
                    expected,
                    "{base} + {other}"
                );
                tested += 1;
            }
        }
    }
    assert!(tested > 10_000);
}

#[test]
fn shares_are_those_of_single_precision() {
    let ratios = [
        0.0f32,
        -0.0,
        0.1,
        0.3,
        1.0 / 3.0,
        0.5,
        0.7,
        0.999,
        1.0,
        1.5,
        -0.5,
        3.0e10,
        1.0e-20,
        1.0e-40,
        f32::MIN_POSITIVE,
        f32::MAX,
        f32::INFINITY,
        f32::NEG_INFINITY,
        f32::NAN,
    ];
    let values = [
        0usize,
        1,
        2,
        3,
        10,
        26,
        39_999,
        40_000,
        999_999,
        16_777_216,
        16_777_217,
        16_777_219,
        33_554_435,
        4_294_967_295,
        usize::MAX / 3,
        usize::MAX - 1,
        usize::MAX,
    ];
    for ratio in ratios {
        for value in values {
            let expected = ((value as f32) * ratio) as usize;
            assert_eq!(scaled(value, &float(ratio)), expected, "{value} * {ratio}");
        }
    }
}

#[test]
fn bit_patterns_compare_as_numbers_do() {
    let numbers = [
        f32::NEG_INFINITY,
        -2.0f32,
        -1.0,
        -1.0e-40,
        -0.0,
        0.0,
        1.0e-40,
        0.5,
        1.0,
        f32::INFINITY,
        f32::NAN,
    ];
    for left in numbers {
        assert_eq!(float(left).is_nan(), left.is_nan());
        assert_eq!(float(left).is_finite(), left.is_finite());
        for right in numbers {
            assert_eq!(float(left).is_less(&float(right)), left < right, "{left} < {right}");
            assert_eq!(
                float(left).is_within(&float(-1.0), &float(right)),
                (-1.0..=right).contains(&left)
            );
        }
    }
}
