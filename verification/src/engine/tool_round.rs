//! One round of tools: what is run, in which order, and what of the results is
//! kept and shown.
use vstd::prelude::*;

use crate::config::{EngineConfig, ToolsConfig};
use crate::engine::conversation;
use crate::engine::estimator;
use crate::engine::estimator::{estimate_conversation_message, TokenEstimator};
use crate::engine::execution_graph::{ExecutionProfile, ExecutionState};
use crate::engine::tool_budget;
use crate::engine::tool_budget::{
    bound_tool_calls_for_model, clone_emptied, minimum_tool_result_message_tokens,
    truncate_text_to_token_budget,
};
use crate::error;
use crate::error::{EngineError, Result};
use crate::ids;
use crate::ids::{LoopId, SessionId};
use crate::model::runner;
use crate::model::runner::{
    ConversationMessage, ConversationRole, Message, ToolCall, ToolCallRequest,
};
use crate::text;
use crate::text::{decimal_text, is_blank, size_text};
use crate::tools::memory_tools;
use crate::tools::memory_tools::prepare_tool_call_for_config;

verus! {

/// The limit on the calls of a round, at least one.
pub open spec fn call_limit(configured: nat) -> nat {
    if configured < 1 {
        1
    } else {
        configured
    }
}

/// The number of the next round.
pub open spec fn next_round(completed: u32) -> u32 {
    if completed == u32::MAX {
        u32::MAX
    } else {
        (completed + 1) as u32
    }
}

/// Opens a round: refuses more calls than a round may have, and numbers it.
pub fn open_round(state: &ExecutionState, config: &EngineConfig) -> (result: Result<u32>)
    ensures
        ({
            let count = state@.pending_tool_calls.len();
            let limit = call_limit(config.runtime.max_tool_calls_per_round as nat);
            if count > limit {
                result is Err && error::is_tool(
                    result->Err_0,
                    "checkpoint contains "@ + text::decimal(count)
                        + " tool calls, exceeding max_tool_calls_per_round="@ + text::decimal(
                        limit,
                    ),
                )
            } else {
                result is Ok && result->Ok_0 == next_round(state.tool_rounds_completed)
            }
        }),
{
    let configured: usize = config.runtime.max_tool_calls_per_round;
    let limit: usize = if configured < 1 {
        1
    } else {
        configured
    };
    if state.pending_tool_calls.len() > limit {
        return Err(
            EngineError::Tool(
                "checkpoint contains ".to_string().concat(
                    size_text(state.pending_tool_calls.len()).as_str(),
                ).concat(" tool calls, exceeding max_tool_calls_per_round=").concat(
                    size_text(limit).as_str(),
                ),
            ),
        );
    }
    Ok(state.tool_rounds_completed.saturating_add(1))
}

/// The correlation ids of calls that have one.
pub open spec fn ids_of(calls: Seq<ToolCall>) -> Seq<Seq<char>>
    decreases calls.len(),
{
    if calls.len() == 0 {
        Seq::empty()
    } else {
        match calls.last().id {
            Some(id) => ids_of(calls.drop_last()).push(id),
            None => ids_of(calls.drop_last()),
        }
    }
}

/// The correlation ids that messages have used.
pub open spec fn used_ids(messages: Seq<Message>) -> Seq<Seq<char>>
    decreases messages.len(),
{
    if messages.len() == 0 {
        Seq::empty()
    } else {
        used_ids(messages.drop_last()) + ids_of(messages.last().tool_calls)
    }
}

fn collect_ids(calls: &[ToolCallRequest], found: &mut Vec<String>)
    ensures
        text::texts(final(found)@) == text::texts(old(found)@) + ids_of(
            runner::calls_view(calls@),
        ),
{
    let ghost all = runner::calls_view(calls@);
    let ghost start = text::texts(found@);
    let mut index: usize = 0;
    assert(all.take(0) =~= Seq::<ToolCall>::empty());
    assert(start + Seq::<Seq<char>>::empty() =~= start);
    while index < calls.len()
        invariant
            index <= calls.len(),
            all == runner::calls_view(calls@),
            text::texts(found@) == start + ids_of(all.take(index as int)),
        decreases calls.len() - index,
    {
        proof {
            assert(all.take(index + 1).drop_last() =~= all.take(index as int));
            assert(all.take(index + 1).last() == calls@[index as int]@);
        }
        if let Some(id) = &calls[index].id {
            let ghost before = text::texts(found@);
            let copy = id.clone();
            found.push(copy);
            proof {
                assert(text::texts(found@) =~= before.push(copy@));
                assert(before.push(copy@) =~= start + ids_of(all.take(index as int)).push(copy@));
            }
        }
        index = index + 1;
    }
    assert(all.take(all.len() as int) =~= all);
}

/// The correlation ids that messages have used.
pub fn used_call_ids(messages: &[ConversationMessage]) -> (found: Vec<String>)
    ensures
        text::texts(found@) == used_ids(runner::messages_view(messages@)),
{
    let ghost all = runner::messages_view(messages@);
    let mut found: Vec<String> = Vec::new();
    let mut index: usize = 0;
    assert(all.take(0) =~= Seq::<Message>::empty());
    assert(text::texts(found@) =~= Seq::<Seq<char>>::empty());
    while index < messages.len()
        invariant
            index <= messages.len(),
            all == runner::messages_view(messages@),
            text::texts(found@) == used_ids(all.take(index as int)),
        decreases messages.len() - index,
    {
        collect_ids(messages[index].tool_calls.as_slice(), &mut found);
        proof {
            assert(all.take(index + 1).drop_last() =~= all.take(index as int));
            assert(all.take(index + 1).last() == messages@[index as int]@);
        }
        index = index + 1;
    }
    assert(all.take(all.len() as int) =~= all);
    found
}

/// The correlation id of a call that came without one.
pub open spec fn default_call_id(loop_id: LoopId, round: nat, index: nat) -> Seq<char> {
    "call-"@ + ids::hyphenated(loop_id.0.bits) + "-"@ + text::decimal(round) + "-"@
        + text::decimal(index)
}

/// The call with a correlation id.
pub open spec fn identified(call: ToolCall, loop_id: LoopId, round: nat, index: nat) -> ToolCall {
    match call.id {
        Some(_) => call,
        None => ToolCall { id: Some(default_call_id(loop_id, round, index)), ..call },
    }
}

/// A prepared call, or the message with which it is refused.
pub open spec fn prepared_call(
    call: ToolCall,
    profile: ExecutionProfile,
    tools: ToolsConfig,
    session_id: SessionId,
    loop_id: LoopId,
    round: nat,
    index: nat,
    used: Seq<Seq<char>>,
) -> core::result::Result<ToolCall, Seq<char>> {
    let named = identified(call, loop_id, round, index);
    match locally_prepared(named, profile, tools, session_id) {
        Err(message) => Err(message),
        Ok(ready) => {
            let id = ready.id->0;
            if text::blank(id) {
                Err("tool call "@ + ready.name + " has an empty correlation id"@)
            } else if used.contains(id) {
                Err("tool call "@ + ready.name + " reused correlation id "@ + id)
            } else if text::blank(ready.name) {
                Err("tool call name must not be empty"@)
            } else {
                Ok(ready)
            }
        },
    }
}

/// A call with its arguments prepared where its tool runs here; calls of runs
/// whose context the caller owns are never reinterpreted.
pub open spec fn locally_prepared(
    call: ToolCall,
    profile: ExecutionProfile,
    tools: ToolsConfig,
    session_id: SessionId,
) -> core::result::Result<ToolCall, Seq<char>> {
    match profile {
        ExecutionProfile::ExternalContext => Ok(call),
        ExecutionProfile::MemoryAware => match memory_tools::tool_named(call.name) {
            None => Ok(call),
            Some(tool) => if !tool.enabled(tools) {
                Err(memory_tools::disabled_message(call.name))
            } else {
                match memory_tools::prepared_arguments(tool, call.arguments, tools, session_id) {
                    Err(reason) => Err(memory_tools::invalid_message(tool, reason)),
                    Ok(arguments) => Ok(ToolCall { arguments, ..call }),
                }
            },
        },
    }
}

/// Whether a list of texts holds a text.
pub fn contains_text(items: &[String], item: &str) -> (result: bool)
    ensures
        result == text::texts(items@).contains(item@),
{
    let ghost all = text::texts(items@);
    let mut index: usize = 0;
    while index < items.len()
        invariant
            index <= items.len(),
            all == text::texts(items@),
            forall|i: int| 0 <= i < index ==> #[trigger] all[i] != item@,
        decreases items.len() - index,
    {
        if text::same_text(items[index].as_str(), item) {
            assert(all[index as int] == item@);
            return true;
        }
        index = index + 1;
    }
    false
}

/// Prepares one call of a round: it gets a correlation id that this turn has
/// not used, and arguments that fit its tool. The id is noted as used.
pub fn prepare_round_call(
    call: ToolCallRequest,
    profile: ExecutionProfile,
    tools: &ToolsConfig,
    session_id: SessionId,
    loop_id: LoopId,
    round: u32,
    index: usize,
    used: &mut Vec<String>,
    cancelled: bool,
) -> (result: Result<ToolCallRequest>)
    ensures
        if cancelled {
            result == Err::<ToolCallRequest, EngineError>(EngineError::Cancelled) && final(used)@
                == old(used)@
        } else {
            match prepared_call(
                call@,
                profile,
                *tools,
                session_id,
                loop_id,
                round as nat,
                index as nat,
                text::texts(old(used)@),
            ) {
                Err(message) => result is Err && error::is_tool(result->Err_0, message)
                    && final(used)@ == old(used)@,
                Ok(ready) => result is Ok && result->Ok_0@ == ready && ready.id is Some
                    && text::texts(final(used)@) == text::texts(old(used)@).push(ready.id->0),
            }
        },
{
    if cancelled {
        return Err(EngineError::Cancelled);
    }
    let ghost given = call@;
    let mut call = call;
    if call.id.is_none() {
        call.id = Some(
            "call-".to_string().concat(loop_id.to_string().as_str()).concat("-").concat(
                decimal_text(round as u64).as_str(),
            ).concat("-").concat(size_text(index).as_str()),
        );
    }
    assert(call@ == identified(given, loop_id, round as nat, index as nat));
    let call = if profile.uses_local_memory() {
        match prepare_tool_call_for_config(call, tools, session_id) {
            Ok(ready) => ready,
            Err(failure) => return Err(failure),
        }
    } else {
        call
    };
    let id = match &call.id {
        Some(id) => id.clone(),
        None => return Err(
            EngineError::Tool(
                "tool call ".to_string().concat(call.name.as_str()).concat(
                    " has no correlation id",
                ),
            ),
        ),
    };
    if is_blank(id.as_str()) {
        return Err(
            EngineError::Tool(
                "tool call ".to_string().concat(call.name.as_str()).concat(
                    " has an empty correlation id",
                ),
            ),
        );
    }
    if contains_text(used.as_slice(), id.as_str()) {
        return Err(
            EngineError::Tool(
                "tool call ".to_string().concat(call.name.as_str()).concat(
                    " reused correlation id ",
                ).concat(id.as_str()),
            ),
        );
    }
    if is_blank(call.name.as_str()) {
        return Err(EngineError::Tool("tool call name must not be empty".to_string()));
    }
    let ghost before = text::texts(used@);
    used.push(id);
    assert(text::texts(used@) =~= before.push(id@));
    Ok(call)
}

/// A prepared call has a correlation id that is not blank, was not used before
/// in the turn, and a name that is not blank.
pub proof fn prepared_calls_are_identified(
    call: ToolCall,
    profile: ExecutionProfile,
    tools: ToolsConfig,
    session_id: SessionId,
    loop_id: LoopId,
    round: nat,
    index: nat,
    used: Seq<Seq<char>>,
)
    requires
        prepared_call(call, profile, tools, session_id, loop_id, round, index, used) is Ok,
    ensures
        ({
            let ready = prepared_call(
                call,
                profile,
                tools,
                session_id,
                loop_id,
                round,
                index,
                used,
            )->Ok_0;
            &&& ready.id is Some
            &&& !text::blank(ready.id->0)
            &&& !used.contains(ready.id->0)
            &&& !text::blank(ready.name)
            &&& call.id is Some ==> ready.id == call.id
            &&& ready.name == call.name
        }),
{
}

/// The prepared calls of a round, one after the other.
pub open spec fn prepared_calls(
    calls: Seq<ToolCall>,
    profile: ExecutionProfile,
    tools: ToolsConfig,
    session_id: SessionId,
    loop_id: LoopId,
    round: nat,
    used: Seq<Seq<char>>,
) -> core::result::Result<Seq<ToolCall>, Seq<char>>
    decreases calls.len(),
{
    if calls.len() == 0 {
        Ok(Seq::empty())
    } else {
        match prepared_calls(
            calls.drop_last(),
            profile,
            tools,
            session_id,
            loop_id,
            round,
            used,
        ) {
            Err(message) => Err(message),
            Ok(earlier) => match prepared_call(
                calls.last(),
                profile,
                tools,
                session_id,
                loop_id,
                round,
                (calls.len() - 1) as nat,
                used + ids_of(earlier),
            ) {
                Err(message) => Err(message),
                Ok(ready) => Ok(earlier.push(ready)),
            },
        }
    }
}

/// No two calls of a round share a correlation id, and none takes one that an
/// earlier round of the turn has used.
pub proof fn round_ids_are_distinct(
    calls: Seq<ToolCall>,
    profile: ExecutionProfile,
    tools: ToolsConfig,
    session_id: SessionId,
    loop_id: LoopId,
    round: nat,
    used: Seq<Seq<char>>,
)
    requires
        prepared_calls(calls, profile, tools, session_id, loop_id, round, used) is Ok,
    ensures
        ({
            let ready = prepared_calls(
                calls,
                profile,
                tools,
                session_id,
                loop_id,
                round,
                used,
            )->Ok_0;
            &&& ready.len() == calls.len()
            &&& ids_of(ready).len() == ready.len()
            &&& forall|i: int|
                0 <= i < ready.len() ==> (#[trigger] ready[i]).id == Some(ids_of(ready)[i])
                    && !used.contains(ids_of(ready)[i])
            &&& forall|i: int, j: int|
                0 <= i < j < ready.len() ==> (#[trigger] ready[i]).id != (#[trigger] ready[j]).id
        }),
    decreases calls.len(),
{
    if calls.len() > 0 {
        round_ids_are_distinct(
            calls.drop_last(),
            profile,
            tools,
            session_id,
            loop_id,
            round,
            used,
        );
        let earlier = prepared_calls(
            calls.drop_last(),
            profile,
            tools,
            session_id,
            loop_id,
            round,
            used,
        )->Ok_0;
        let ready = prepared_calls(calls, profile, tools, session_id, loop_id, round, used)->Ok_0;
        let last = ready.last();
        assert(ready.drop_last() =~= earlier);
        assert(ids_of(ready) == ids_of(earlier).push(last.id->0));
        let all = used + ids_of(earlier);
        assert forall|i: int| 0 <= i < ready.len() implies (#[trigger] ready[i]).id == Some(
            ids_of(ready)[i],
        ) && !used.contains(ids_of(ready)[i]) by {
            if i < earlier.len() {
                assert(ready[i] == earlier[i]);
            } else if used.contains(last.id->0) {
                let k = choose|k: int| 0 <= k < used.len() && used[k] == last.id->0;
                assert(all[k] == last.id->0);
            }
        }
        assert forall|i: int, j: int| 0 <= i < j < ready.len() implies (#[trigger] ready[i]).id
            != (#[trigger] ready[j]).id by {
            assert(ready[i] == earlier[i]);
            if j < earlier.len() {
                assert(ready[j] == earlier[j]);
            } else {
                assert(all[used.len() + i] == ids_of(earlier)[i]);
            }
        }
    }
}

/// Tokens of the shortest answers to calls.
pub open spec fn answer_minimums<E: TokenEstimator + ?Sized>(
    estimator: &E,
    calls: Seq<ToolCall>,
) -> Seq<nat> {
    calls.map_values(
        |call: ToolCall|
            estimator::message_tokens(estimator, tool_budget::empty_answer(call.id->0)),
    )
}

/// The sum of a list of counts.
pub open spec fn total(counts: Seq<nat>) -> nat
    decreases counts.len(),
{
    if counts.len() == 0 {
        0
    } else {
        total(counts.drop_last()) + counts.last()
    }
}

/// How the transcript of a round is laid out before any tool runs.
#[derive(Debug)]
pub struct RoundPlan {
    /// What the assistant is shown to have said and called.
    pub assistant_turn: ConversationMessage,
    /// Tokens of the shortest answer to each call.
    pub minimum_result_tokens: Vec<usize>,
    /// Tokens that the answers may take beyond their minimum, together.
    pub result_extra_tokens: usize,
}

/// A plan as a mathematical value.
#[verifier::ext_equal]
pub struct Plan {
    pub assistant_turn: Message,
    pub minimums: Seq<nat>,
    pub extra: nat,
}

/// The counts as natural numbers.
pub open spec fn counts(values: Seq<usize>) -> Seq<nat> {
    values.map_values(|value: usize| value as nat)
}

impl View for RoundPlan {
    type V = Plan;

    open spec fn view(&self) -> Plan {
        Plan {
            assistant_turn: self.assistant_turn@,
            minimums: counts(self.minimum_result_tokens@),
            extra: self.result_extra_tokens as nat,
        }
    }
}

/// What a model is shown to have called in a round.
pub open spec fn shown_turn<E: TokenEstimator + ?Sized>(
    estimator: &E,
    said: Seq<char>,
    calls: Seq<ToolCall>,
    variable: nat,
) -> Message {
    let minimum = estimator::message_tokens(
        estimator,
        tool_budget::bare_calls(tool_budget::emptied(calls)),
    );
    let shown = tool_budget::shown_calls(estimator, calls, variable / 3 / 2);
    let spent = estimator::message_tokens(estimator, tool_budget::bare_calls(shown));
    Message {
        content: tool_budget::truncated(
            estimator,
            said,
            conversation::beyond(minimum + variable / 3, spent),
        ),
        ..tool_budget::bare_calls(shown)
    }
}

/// The plan of a round, or the message with which it is refused.
pub open spec fn planned<E: TokenEstimator + ?Sized>(
    estimator: &E,
    transcript: Seq<Message>,
    said: Seq<char>,
    calls: Seq<ToolCall>,
    reserve: nat,
) -> core::result::Result<Plan, Seq<char>> {
    let used = estimator::messages_tokens(estimator, transcript);
    let minimums = answer_minimums(estimator, calls);
    let assistant = estimator::message_tokens(
        estimator,
        tool_budget::bare_calls(tool_budget::emptied(calls)),
    );
    let minimum = estimator::capped(assistant + estimator::capped(total(minimums)));
    if used > reserve {
        Err("current tool transcript already exceeds context_budget.reserve_tools"@)
    } else if minimum > reserve - used {
        Err(
            "tool transcript needs at least "@ + text::decimal(minimum) + " tokens but only "@
                + text::decimal((reserve - used) as nat)
                + " remain in context_budget.reserve_tools"@,
        )
    } else {
        let available = (reserve - used) as nat;
        let turn = shown_turn(estimator, said, calls, (available - minimum) as nat);
        let left = conversation::beyond(
            available,
            estimator::message_tokens(estimator, turn),
        );
        if left < total(minimums) {
            Err("bounded assistant tool call left insufficient room for tool results"@)
        } else {
            Ok(Plan { assistant_turn: turn, minimums, extra: (left - total(minimums)) as nat })
        }
    }
}

/// What is left of a budget after messages, if they fit.
pub fn spend_messages<E: TokenEstimator + ?Sized>(
    estimator: &E,
    messages: &[ConversationMessage],
    budget: usize,
) -> (rest: Option<usize>)
    ensures
        ({
            let used = estimator::messages_tokens(estimator, runner::messages_view(messages@));
            match rest {
                Some(left) => used + left == budget,
                None => used > budget,
            }
        }),
{
    let ghost all = runner::messages_view(messages@);
    let mut rest: usize = budget;
    let mut index: usize = 0;
    assert(all.take(0) =~= Seq::<Message>::empty());
    while index < messages.len()
        invariant
            index <= messages.len(),
            all == runner::messages_view(messages@),
            estimator::messages_tokens(estimator, all.take(index as int)) + rest == budget,
        decreases messages.len() - index,
    {
        let tokens: usize = estimate_conversation_message(estimator, &messages[index]);
        proof {
            assert(all.take(index + 1).drop_last() =~= all.take(index as int));
            assert(all.take(index + 1).last() == messages@[index as int]@);
        }
        if tokens > rest {
            proof {
                assert(all =~= all.take(index + 1) + all.skip(index + 1));
                estimator::messages_tokens_add(
                    estimator,
                    all.take(index + 1),
                    all.skip(index + 1),
                );
            }
            return None;
        }
        rest = rest - tokens;
        index = index + 1;
    }
    assert(all.take(all.len() as int) =~= all);
    Some(rest)
}

fn collect_minimums<E: TokenEstimator + ?Sized>(
    estimator: &E,
    calls: &[ToolCallRequest],
) -> (result: Result<(Vec<usize>, usize)>)
    requires
        forall|i: int|
            0 <= i < calls@.len() ==> (#[trigger] runner::calls_view(calls@)[i]).id is Some,
    ensures
        result is Ok,
        ({
            let minimums = answer_minimums(estimator, runner::calls_view(calls@));
            &&& counts(result->Ok_0.0@) == minimums
            &&& result->Ok_0.1 == estimator::capped(total(minimums))
        }),
{
    let ghost all = runner::calls_view(calls@);
    let ghost minimums = answer_minimums(estimator, all);
    let mut found: Vec<usize> = Vec::new();
    let mut sum: usize = 0;
    let mut index: usize = 0;
    assert(minimums.take(0) =~= Seq::<nat>::empty());
    assert(counts(found@) =~= Seq::<nat>::empty());
    while index < calls.len()
        invariant
            index <= calls.len(),
            all == runner::calls_view(calls@),
            minimums == answer_minimums(estimator, all),
            forall|i: int| 0 <= i < calls@.len() ==> (#[trigger] all[i]).id is Some,
            counts(found@) == minimums.take(index as int),
            sum == estimator::capped(total(minimums.take(index as int))),
        decreases calls.len() - index,
    {
        assert(all[index as int] == calls@[index as int]@);
        let tokens: usize = match minimum_tool_result_message_tokens(&calls[index], estimator) {
            Ok(tokens) => tokens,
            Err(failure) => return Err(failure),
        };
        let ghost before = counts(found@);
        found.push(tokens);
        sum = sum.saturating_add(tokens);
        proof {
            assert(minimums[index as int] == tokens);
            assert(counts(found@) =~= before.push(tokens as nat));
            assert(minimums.take(index + 1) =~= minimums.take(index as int).push(tokens as nat));
            assert(minimums.take(index + 1).drop_last() =~= minimums.take(index as int));
        }
        index = index + 1;
    }
    assert(minimums.take(minimums.len() as int) =~= minimums);
    Ok((found, sum))
}

/// Lays out the transcript of a round before any tool runs, so that no side
/// effect is left without room to report it.
pub fn plan_round<E: TokenEstimator + ?Sized>(
    estimator: &E,
    transcript: &[ConversationMessage],
    said: &str,
    calls: &[ToolCallRequest],
    reserve: usize,
) -> (result: Result<RoundPlan>)
    requires
        forall|i: int|
            0 <= i < calls@.len() ==> (#[trigger] runner::calls_view(calls@)[i]).id is Some,
    ensures
        match planned(
            estimator,
            runner::messages_view(transcript@),
            said@,
            runner::calls_view(calls@),
            reserve as nat,
        ) {
            Err(message) => result is Err && error::is_configuration(result->Err_0, message),
            Ok(plan) => result is Ok && result->Ok_0@ == plan,
        },
{
    let available: usize = match spend_messages(estimator, transcript, reserve) {
        Some(left) => left,
        None => return Err(
            EngineError::Configuration(
                "current tool transcript already exceeds context_budget.reserve_tools".to_string(),
            ),
        ),
    };
    let (minimums, minimum_results_total) = match collect_minimums(estimator, calls) {
        Ok(found) => found,
        Err(failure) => return Err(failure),
    };
    let minimum_assistant_turn = ConversationMessage {
        role: ConversationRole::Assistant,
        content: String::new(),
        tool_call_id: None,
        tool_calls: clone_emptied(calls),
    };
    let minimum_assistant: usize = estimate_conversation_message(
        estimator,
        &minimum_assistant_turn,
    );
    let minimum_round: usize = minimum_assistant.saturating_add(minimum_results_total);
    if minimum_round > available {
        return Err(
            EngineError::Configuration(
                "tool transcript needs at least ".to_string().concat(
                    size_text(minimum_round).as_str(),
                ).concat(" tokens but only ").concat(size_text(available).as_str()).concat(
                    " remain in context_budget.reserve_tools",
                ),
            ),
        );
    }
    let variable: usize = available - minimum_round;
    let assistant_variable: usize = variable / 3;
    let call_budget: usize = minimum_assistant.saturating_add(assistant_variable / 2);
    let shown = match bound_tool_calls_for_model(calls, estimator, call_budget) {
        Ok(shown) => shown,
        Err(failure) => return Err(failure),
    };
    let mut assistant_turn = ConversationMessage {
        role: ConversationRole::Assistant,
        content: String::new(),
        tool_call_id: None,
        tool_calls: shown,
    };
    let spent: usize = estimate_conversation_message(estimator, &assistant_turn);
    let content_budget: usize = minimum_assistant.saturating_add(
        assistant_variable,
    ).saturating_sub(spent);
    let content = truncate_text_to_token_budget(said, estimator, content_budget);
    assistant_turn.content = content;
    proof {
        let view = runner::calls_view(calls@);
        let used = estimator::messages_tokens(estimator, runner::messages_view(transcript@));
        assert(assistant_turn@ == shown_turn(estimator, said@, view, variable as nat));
    }
    let turn_tokens: usize = estimate_conversation_message(estimator, &assistant_turn);
    let left: usize = available.saturating_sub(turn_tokens);
    if left < minimum_results_total {
        return Err(
            EngineError::Configuration(
                "bounded assistant tool call left insufficient room for tool results".to_string(),
            ),
        );
    }
    Ok(
        RoundPlan {
            assistant_turn,
            minimum_result_tokens: minimums,
            result_extra_tokens: left - minimum_results_total,
        },
    )
}

/// Every identifier that a message of the turn gave to a call counts as used, and
/// no other.
pub proof fn used_ids_are_those_of_the_turn(messages: Seq<Message>, id: Seq<char>)
    ensures
        used_ids(messages).contains(id) <==> exists|m: int, k: int|
            0 <= m < messages.len() && 0 <= k < messages[m].tool_calls.len() && (
            #[trigger] messages[m].tool_calls[k]).id == Some(id),
    decreases messages.len(),
{
    if messages.len() > 0 {
        let rest = messages.drop_last();
        let last = messages.len() - 1;
        used_ids_are_those_of_the_turn(rest, id);
        ids_of_calls(messages.last().tool_calls, id);
        let earlier = used_ids(rest);
        let own = ids_of(messages.last().tool_calls);
        let all = used_ids(messages);
        if earlier.contains(id) {
            let k = choose|k: int| 0 <= k < earlier.len() && earlier[k] == id;
            assert(all[k] == id);
            let (m, n) = choose|m: int, n: int|
                0 <= m < rest.len() && 0 <= n < rest[m].tool_calls.len() && (
                #[trigger] rest[m].tool_calls[n]).id == Some(id);
            assert(messages[m].tool_calls[n].id == Some(id));
        }
        if own.contains(id) {
            let k = choose|k: int| 0 <= k < own.len() && own[k] == id;
            assert(all[earlier.len() + k] == id);
            let n = choose|n: int|
                0 <= n < messages.last().tool_calls.len() && (
                #[trigger] messages.last().tool_calls[n]).id == Some(id);
            assert(messages[last].tool_calls[n].id == Some(id));
        }
        if all.contains(id) && !earlier.contains(id) {
            let k = choose|k: int| 0 <= k < all.len() && all[k] == id;
            if k < earlier.len() {
                assert(earlier[k] == id);
            } else {
                assert(own[k - earlier.len()] == id);
            }
        }
        if exists|m: int, n: int|
            0 <= m < messages.len() && 0 <= n < messages[m].tool_calls.len() && (
            #[trigger] messages[m].tool_calls[n]).id == Some(id) {
            let (m, n) = choose|m: int, n: int|
                0 <= m < messages.len() && 0 <= n < messages[m].tool_calls.len() && (
                #[trigger] messages[m].tool_calls[n]).id == Some(id);
            if m < rest.len() {
                assert(rest[m].tool_calls[n].id == Some(id));
            } else {
                assert(messages.last().tool_calls[n].id == Some(id));
            }
        }
    }
}

proof fn ids_of_calls(calls: Seq<ToolCall>, id: Seq<char>)
    ensures
        ids_of(calls).contains(id) <==> exists|k: int|
            0 <= k < calls.len() && (#[trigger] calls[k]).id == Some(id),
    decreases calls.len(),
{
    if calls.len() > 0 {
        let rest = calls.drop_last();
        ids_of_calls(rest, id);
        let earlier = ids_of(rest);
        let all = ids_of(calls);
        if earlier.contains(id) {
            let k = choose|k: int| 0 <= k < earlier.len() && earlier[k] == id;
            assert(all[k] == id);
            let n = choose|n: int| 0 <= n < rest.len() && (#[trigger] rest[n]).id == Some(id);
            assert(calls[n].id == Some(id));
        }
        if calls.last().id == Some(id) {
            assert(all[all.len() - 1] == id);
            assert(calls[calls.len() - 1].id == Some(id));
        }
        if all.contains(id) && !earlier.contains(id) {
            let k = choose|k: int| 0 <= k < all.len() && all[k] == id;
            if k < earlier.len() {
                assert(earlier[k] == id);
            }
        }
        if exists|k: int| 0 <= k < calls.len() && (#[trigger] calls[k]).id == Some(id) {
            let k = choose|k: int| 0 <= k < calls.len() && (#[trigger] calls[k]).id == Some(id);
            if k < rest.len() {
                assert(rest[k].id == Some(id));
            }
        }
    }
}

/// A round that is prepared makes every call that was asked for, in order and
/// under its name: with the identifier that it had or one made of its place, and
/// with its own arguments, except that a memory tool of this engine gets them as
/// they are prepared.
pub proof fn rounds_prepare_every_call(
    calls: Seq<ToolCall>,
    profile: ExecutionProfile,
    tools: ToolsConfig,
    session_id: SessionId,
    loop_id: LoopId,
    round: nat,
    used: Seq<Seq<char>>,
    k: int,
)
    requires
        prepared_calls(calls, profile, tools, session_id, loop_id, round, used) is Ok,
        0 <= k < calls.len(),
    ensures
        ({
            let ready = prepared_calls(
                calls,
                profile,
                tools,
                session_id,
                loop_id,
                round,
                used,
            )->Ok_0;
            let memory = profile == ExecutionProfile::MemoryAware && memory_tools::tool_named(
                calls[k].name,
            ) is Some;
            &&& ready.len() == calls.len()
            &&& ready[k].name == calls[k].name
            &&& ready[k].id == (match calls[k].id {
                Some(id) => Some(id),
                None => Some(
                    "call-"@ + ids::hyphenated(loop_id.0.bits) + "-"@ + text::decimal(round)
                        + "-"@ + text::decimal(k as nat),
                ),
            })
            &&& !memory ==> ready[k].arguments == calls[k].arguments
            &&& memory ==> {
                let tool = memory_tools::tool_named(calls[k].name)->0;
                &&& tool.enabled(tools)
                &&& memory_tools::prepared_arguments(
                    tool,
                    calls[k].arguments,
                    tools,
                    session_id,
                ) == Ok::<Seq<char>, Seq<char>>(ready[k].arguments)
            }
        }),
    decreases calls.len(),
{
    let rest = calls.drop_last();
    let ready = prepared_calls(calls, profile, tools, session_id, loop_id, round, used)->Ok_0;
    let earlier = prepared_calls(rest, profile, tools, session_id, loop_id, round, used)->Ok_0;
    round_ids_are_distinct(calls, profile, tools, session_id, loop_id, round, used);
    round_ids_are_distinct(rest, profile, tools, session_id, loop_id, round, used);
    assert(ready.drop_last() =~= earlier);
    if k < rest.len() {
        rounds_prepare_every_call(rest, profile, tools, session_id, loop_id, round, used, k);
        assert(ready[k] == earlier[k]);
        assert(rest[k] == calls[k]);
    } else {
        assert(calls[k] == calls.last());
    }
}

/// A plan shows the assistant making every call that is made, under its name and
/// its identifier, and saying a beginning of what it said. It spends what the turn
/// left of the reserve to the last token: on what the assistant is shown to say,
/// on the least answer to each call, and on what the answers may share beyond it.
pub proof fn plans_spend_what_is_left<E: TokenEstimator + ?Sized>(
    estimator: &E,
    transcript: Seq<Message>,
    said: Seq<char>,
    calls: Seq<ToolCall>,
    reserve: nat,
)
    requires
        planned(estimator, transcript, said, calls, reserve) is Ok,
    ensures
        ({
            let plan = planned(estimator, transcript, said, calls, reserve)->Ok_0;
            let turn = plan.assistant_turn;
            let spent = estimator::messages_tokens(estimator, transcript)
                + estimator::message_tokens(estimator, turn);
            &&& turn.role == ConversationRole::Assistant
            &&& turn.tool_call_id is None
            &&& turn.content.is_prefix_of(said)
            &&& turn.tool_calls.len() == calls.len()
            &&& forall|k: int|
                0 <= k < calls.len() ==> (#[trigger] turn.tool_calls[k]).id == calls[k].id
                    && turn.tool_calls[k].name == calls[k].name
            &&& plan.minimums == Seq::new(
                calls.len(),
                |k: int|
                    estimator::message_tokens(
                        estimator,
                        Message {
                            role: ConversationRole::Tool,
                            content: "{}"@,
                            tool_call_id: Some(calls[k].id->0),
                            tool_calls: Seq::empty(),
                        },
                    ),
            )
            &&& spent <= reserve ==> spent + total(plan.minimums) + plan.extra == reserve
        }),
{
    let plan = planned(estimator, transcript, said, calls, reserve)->Ok_0;
    let used = estimator::messages_tokens(estimator, transcript);
    let available = (reserve - used) as nat;
    let assistant = estimator::message_tokens(
        estimator,
        tool_budget::bare_calls(tool_budget::emptied(calls)),
    );
    let minimum = estimator::capped(
        assistant + estimator::capped(total(answer_minimums(estimator, calls))),
    );
    let variable = (available - minimum) as nat;
    let shown = tool_budget::shown_calls(estimator, calls, variable / 3 / 2);
    let room = conversation::beyond(
        assistant + variable / 3,
        estimator::message_tokens(estimator, tool_budget::bare_calls(shown)),
    );
    tool_budget::shown_calls_fit(estimator, calls, variable / 3 / 2);
    tool_budget::truncated_text_fits(estimator, said, room);
    assert(plan.minimums =~= Seq::new(
        calls.len(),
        |k: int|
            estimator::message_tokens(
                estimator,
                Message {
                    role: ConversationRole::Tool,
                    content: "{}"@,
                    tool_call_id: Some(calls[k].id->0),
                    tool_calls: Seq::empty(),
                },
            ),
    ));
}

/// Counts of two lists in a row add up, and one count stands for itself.
pub proof fn totals_add(left: Seq<nat>, right: Seq<nat>, count: nat)
    ensures
        total(left + right) == total(left) + total(right),
        total(seq![count]) == count,
        total(Seq::empty()) == 0,
    decreases right.len(),
{
    reveal_with_fuel(total, 2);
    assert(seq![count].drop_last() =~= Seq::<nat>::empty());
    if right.len() == 0 {
        assert(left + right =~= left);
    } else {
        totals_add(left, right.drop_last(), count);
        assert((left + right).drop_last() =~= left + right.drop_last());
    }
}

/// A round is the one after those that were completed, as far as they can be
/// counted, and may make as many calls as are configured, but at least one.
pub proof fn rounds_are_counted(completed: u32, configured: nat)
    ensures
        completed < u32::MAX ==> next_round(completed) == completed + 1,
        completed == u32::MAX ==> next_round(completed) == u32::MAX,
        configured >= 1 ==> call_limit(configured) == configured,
        configured == 0 ==> call_limit(configured) == 1,
{
}

/// What the assistant said is shown whole where it fits: beside the calls as they
/// are shown, within what the calls need at least and a third of what is left once
/// that and the least answers are taken off.
pub proof fn words_that_fit_are_shown_whole<E: TokenEstimator + ?Sized>(
    estimator: &E,
    transcript: Seq<Message>,
    said: Seq<char>,
    calls: Seq<ToolCall>,
    reserve: nat,
)
    requires
        planned(estimator, transcript, said, calls, reserve) is Ok,
    ensures
        ({
            let turn = planned(estimator, transcript, said, calls, reserve)->Ok_0.assistant_turn;
            let used = estimator::messages_tokens(estimator, transcript);
            let least = estimator::message_tokens(
                estimator,
                Message {
                    role: ConversationRole::Assistant,
                    content: Seq::empty(),
                    tool_call_id: None,
                    tool_calls: calls.map_values(
                        |call: ToolCall| ToolCall { arguments: "{}"@, ..call },
                    ),
                },
            );
            let answers = total(answer_minimums(estimator, calls));
            let third = (reserve - used - least - answers) / 3;
            let bare = estimator::message_tokens(
                estimator,
                Message { content: Seq::empty(), ..turn },
            );
            &&& least + answers <= usize::MAX && bare < least + third && bare + estimator.tokens(
                said,
            ) <= least + third ==> turn.content == said
            &&& least + answers <= usize::MAX ==> turn.tool_calls == tool_budget::shown_calls(
                estimator,
                calls,
                (third / 2) as nat,
            )
        }),
{
    let turn = planned(estimator, transcript, said, calls, reserve)->Ok_0.assistant_turn;
    let used = estimator::messages_tokens(estimator, transcript);
    let emptied = calls.map_values(|call: ToolCall| ToolCall { arguments: "{}"@, ..call });
    assert(emptied =~= tool_budget::emptied(calls));
    let least = estimator::message_tokens(estimator, tool_budget::bare_calls(emptied));
    let answers = total(answer_minimums(estimator, calls));
    if least + answers <= usize::MAX {
        let variable = (reserve - used - least - answers) as nat;
        let third = variable / 3;
        let bare = estimator::message_tokens(
            estimator,
            Message { content: Seq::empty(), ..turn },
        );
        assert(turn == shown_turn(estimator, said, calls, variable));
        let shown = tool_budget::shown_calls(estimator, calls, third / 2);
        assert(Message { content: Seq::empty(), ..turn } == tool_budget::bare_calls(shown));
        if bare < least + third && bare + estimator.tokens(said) <= least + third {
            tool_budget::texts_that_fit_are_whole(
                estimator,
                said,
                (least + third - bare) as nat,
            );
        }
    }
}

} // verus!
