//! Conversation history: coherent groups and the part that fits a budget.
use vstd::prelude::*;

use crate::config::EngineConfig;
use crate::engine::estimator;
use crate::engine::estimator::{estimate_conversation_message, TokenEstimator};
use crate::error;
use crate::error::{EngineError, Result};
use crate::model::runner;
use crate::model::runner::{ConversationMessage, ConversationRole, Message, ToolCall, ToolCallRequest};
use crate::text;
use crate::text::is_blank;

verus! {

/// Every call has a correlation id that is not blank, and no two share one.
pub open spec fn has_distinct_ids(calls: Seq<ToolCall>) -> bool {
    &&& forall|k: int|
        0 <= k < calls.len() ==> (#[trigger] calls[k]).id is Some && !text::blank(calls[k].id->0)
    &&& forall|j: int, k: int|
        0 <= j < k < calls.len() ==> (#[trigger] calls[j]).id != (#[trigger] calls[k]).id
}

/// The message at a position of a run answers one of the calls.
pub open spec fn answers(calls: Seq<ToolCall>, message: Message) -> bool {
    message.tool_call_id is Some && exists|k: int|
        0 <= k < calls.len() && (#[trigger] calls[k]).id == message.tool_call_id
}

/// The message at a position of a run is the first one that answers its call.
pub open spec fn is_first_answer(calls: Seq<ToolCall>, run: Seq<Message>, position: int) -> bool {
    &&& answers(calls, run[position])
    &&& forall|earlier: int|
        0 <= earlier < position ==> (#[trigger] run[earlier]).tool_call_id
            != run[position].tool_call_id
}

/// The first answer to each call among the first messages of a run, in order.
pub open spec fn first_answers(calls: Seq<ToolCall>, run: Seq<Message>, count: int) -> Seq<Message>
    decreases count,
{
    if count <= 0 {
        Seq::empty()
    } else if is_first_answer(calls, run, count - 1) {
        first_answers(calls, run, count - 1).push(run[count - 1])
    } else {
        first_answers(calls, run, count - 1)
    }
}

/// Every call is answered somewhere in the run.
pub open spec fn all_answered(calls: Seq<ToolCall>, run: Seq<Message>) -> bool {
    forall|k: int|
        0 <= k < calls.len() ==> exists|j: int|
            0 <= j < run.len() && (#[trigger] run[j]).tool_call_id == (#[trigger] calls[k]).id
}

/// Where the run of tool messages that starts at a position ends.
pub open spec fn tool_run_end(history: Seq<Message>, start: int) -> int
    decreases history.len() - start,
{
    if 0 <= start < history.len() && history[start].role == ConversationRole::Tool {
        tool_run_end(history, start + 1)
    } else {
        start
    }
}

/// The message without its tool calls.
pub open spec fn without_calls(message: Message) -> Message {
    Message { tool_calls: Seq::empty(), ..message }
}

/// What is kept of an assistant message with tool calls and of the run of tool
/// messages after it: the message with one answer per call when the calls can
/// be told apart and all are answered, the bare content otherwise.
pub open spec fn call_group(message: Message, run: Seq<Message>) -> Seq<Seq<Message>> {
    if has_distinct_ids(message.tool_calls) && all_answered(message.tool_calls, run) {
        seq![seq![message] + first_answers(message.tool_calls, run, run.len() as int)]
    } else if !text::blank(message.content) {
        seq![seq![without_calls(message)]]
    } else {
        Seq::empty()
    }
}

/// The coherent groups of a history from a position on.
pub open spec fn groups_from(history: Seq<Message>, start: int) -> Seq<Seq<Message>>
    decreases history.len() - start,
{
    if start < 0 || start >= history.len() {
        Seq::empty()
    } else {
        let message = history[start];
        if message.role == ConversationRole::Tool {
            groups_from(history, start + 1)
        } else if message.role != ConversationRole::Assistant || message.tool_calls.len() == 0 {
            seq![seq![message]] + groups_from(history, start + 1)
        } else {
            let end = tool_run_end(history, start + 1);
            if end <= start || end > history.len() {
                Seq::empty()
            } else {
                call_group(message, history.subrange(start + 1, end)) + groups_from(history, end)
            }
        }
    }
}

/// Tokens of each group in turn are taken off a budget from the last group
/// backwards; the groups before the first one that does not fit are left out.
pub open spec fn recent_groups<E: TokenEstimator + ?Sized>(
    estimator: &E,
    groups: Seq<Seq<Message>>,
    budget: nat,
) -> Seq<Seq<Message>>
    decreases groups.len(),
{
    if groups.len() == 0 {
        Seq::empty()
    } else {
        let tokens = estimator::messages_tokens(estimator, groups.last());
        if tokens > budget {
            Seq::empty()
        } else {
            recent_groups(estimator, groups.drop_last(), (budget - tokens) as nat).push(
                groups.last(),
            )
        }
    }
}

/// Tokens that the fixed part of the prompt takes beyond its reserves.
pub open spec fn fixed_tokens<E: TokenEstimator + ?Sized>(
    estimator: &E,
    config: EngineConfig,
    user_message: Seq<char>,
    plan: Option<Seq<char>>,
) -> nat {
    let working = estimator::capped(
        estimator.tokens(user_message) + estimator::optional_tokens(estimator, plan),
    );
    estimator::capped(
        beyond(working, config.context_budget.reserve_working as nat) + beyond(
            estimator.tokens(config.system_prompt@),
            config.context_budget.reserve_system as nat,
        ),
    )
}

/// The most recent coherent part of a history that fits next to the fixed
/// prompt; nothing when the fixed prompt itself does not fit.
pub open spec fn trimmed<E: TokenEstimator + ?Sized>(
    estimator: &E,
    config: EngineConfig,
    history: Seq<Message>,
    user_message: Seq<char>,
    plan: Option<Seq<char>>,
) -> Option<Seq<Message>> {
    let fixed = fixed_tokens(estimator, config, user_message, plan);
    let available = config.context_budget.remaining();
    if fixed > available {
        None
    } else {
        Some(
            recent_groups(
                estimator,
                groups_from(history, 0),
                (available - fixed) as nat,
            ).flatten(),
        )
    }
}

/// How a fixed prompt that does not fit is reported.
pub open spec fn fixed_prompt_message() -> Seq<char> {
    "external context fixed prompt exceeds the configured context budget"@
}

/// How far a count exceeds a reserve.
pub open spec fn beyond(count: nat, reserve: nat) -> nat {
    if count > reserve {
        (count - reserve) as nat
    } else {
        0
    }
}

/// The groups as mathematical values.
pub open spec fn groups_view(groups: Seq<Vec<ConversationMessage>>) -> Seq<Seq<Message>> {
    groups.map_values(|group: Vec<ConversationMessage>| runner::messages_view(group@))
}

fn ids_are_distinct(calls: &[ToolCallRequest]) -> (result: bool)
    ensures
        result == has_distinct_ids(runner::calls_view(calls@)),
{
    let ghost view = runner::calls_view(calls@);
    let mut k: usize = 0;
    while k < calls.len()
        invariant
            k <= calls.len(),
            view == runner::calls_view(calls@),
            forall|i: int|
                0 <= i < k ==> (#[trigger] view[i]).id is Some && !text::blank(view[i].id->0),
            forall|i: int, j: int|
                0 <= i < j < k ==> (#[trigger] view[i]).id != (#[trigger] view[j]).id,
        decreases calls.len() - k,
    {
        assert(view[k as int] == calls@[k as int]@);
        match &calls[k].id {
            None => {
                return false;
            },
            Some(id) => {
                if is_blank(id.as_str()) {
                    return false;
                }
                let mut j: usize = 0;
                while j < k
                    invariant
                        j <= k < calls.len(),
                        view == runner::calls_view(calls@),
                        view[k as int].id == Some(id@),
                        forall|i: int|
                            0 <= i < k ==> (#[trigger] view[i]).id is Some && !text::blank(
                                view[i].id->0,
                            ),
                        forall|i: int| 0 <= i < j ==> (#[trigger] view[i]).id != Some(id@),
                    decreases k - j,
                {
                    assert(view[j as int] == calls@[j as int]@);
                    if let Some(other) = &calls[j].id {
                        if *other == *id {
                            assert(view[j as int].id == view[k as int].id);
                            return false;
                        }
                    }
                    j = j + 1;
                }
            },
        }
        k = k + 1;
    }
    true
}

fn find_call(calls: &[ToolCallRequest], id: &String) -> (result: Option<usize>)
    ensures
        match result {
            Some(k) => k < calls.len() && runner::calls_view(calls@)[k as int].id == Some(id@),
            None => forall|k: int|
                0 <= k < calls.len() ==> (#[trigger] runner::calls_view(calls@)[k]).id != Some(id@),
        },
{
    let mut k: usize = 0;
    while k < calls.len()
        invariant
            k <= calls.len(),
            forall|i: int|
                0 <= i < k ==> (#[trigger] runner::calls_view(calls@)[i]).id != Some(id@),
        decreases calls.len() - k,
    {
        assert(runner::calls_view(calls@)[k as int] == calls@[k as int]@);
        if let Some(other) = &calls[k].id {
            if *other == *id {
                return Some(k);
            }
        }
        k = k + 1;
    }
    None
}

/// Whether every entry is set.
fn all_set(flags: &[bool]) -> (result: bool)
    ensures
        result == (forall|k: int| 0 <= k < flags.len() ==> #[trigger] flags@[k]),
{
    let mut k: usize = 0;
    while k < flags.len()
        invariant
            k <= flags.len(),
            forall|i: int| 0 <= i < k ==> #[trigger] flags@[i],
        decreases flags.len() - k,
    {
        if !flags[k] {
            return false;
        }
        k = k + 1;
    }
    true
}

/// The first answer to each call of a message among a run of tool messages,
/// where the calls can be told apart and all are answered.
fn collect_answers(calls: &[ToolCallRequest], run: &[ConversationMessage]) -> (result: Option<
    Vec<ConversationMessage>,
>)
    requires
        has_distinct_ids(runner::calls_view(calls@)),
    ensures
        match result {
            Some(found) => {
                &&& all_answered(runner::calls_view(calls@), runner::messages_view(run@))
                &&& runner::messages_view(found@) == first_answers(
                    runner::calls_view(calls@),
                    runner::messages_view(run@),
                    run.len() as int,
                )
            },
            None => !all_answered(runner::calls_view(calls@), runner::messages_view(run@)),
        },
{
    let ghost cv = runner::calls_view(calls@);
    let ghost rv = runner::messages_view(run@);
    let mut answered: Vec<bool> = Vec::new();
    let mut k: usize = 0;
    while k < calls.len()
        invariant
            k <= calls.len(),
            answered@.len() == k,
            forall|i: int| 0 <= i < k ==> !(#[trigger] answered@[i]),
        decreases calls.len() - k,
    {
        answered.push(false);
        k = k + 1;
    }
    let mut found: Vec<ConversationMessage> = Vec::new();
    let mut next: usize = 0;
    while next < run.len()
        invariant
            next <= run.len(),
            cv == runner::calls_view(calls@),
            rv == runner::messages_view(run@),
            has_distinct_ids(cv),
            answered@.len() == calls.len() == cv.len(),
            rv.len() == run.len(),
            forall|i: int|
                0 <= i < cv.len() ==> (#[trigger] answered@[i] <==> exists|j: int|
                    0 <= j < next && (#[trigger] rv[j]).tool_call_id == cv[i].id),
            runner::messages_view(found@) == first_answers(cv, rv, next as int),
        decreases run.len() - next,
    {
        let message = &run[next];
        assert(rv[next as int] == message@);
        let ghost before = answered@;
        match &message.tool_call_id {
            Some(id) => {
                match find_call(calls, id) {
                    Some(k) => {
                        assert(cv[k as int].id == message@.tool_call_id);
                        assert(answers(cv, rv[next as int]));
                        if !answered[k] {
                            assert(is_first_answer(cv, rv, next as int)) by {
                                assert forall|earlier: int| 0 <= earlier < next implies (
                                #[trigger] rv[earlier]).tool_call_id
                                    != rv[next as int].tool_call_id by {
                                    assert(!before[k as int]);
                                }
                            }
                            answered.set(k, true);
                            found.push(message.clone());
                            assert(runner::messages_view(found@) =~= first_answers(
                                cv,
                                rv,
                                next as int,
                            ).push(rv[next as int]));
                        } else {
                            assert(!is_first_answer(cv, rv, next as int)) by {
                                assert(before[k as int]);
                                let j = choose|j: int|
                                    0 <= j < next && (#[trigger] rv[j]).tool_call_id
                                        == cv[k as int].id;
                                assert(rv[j].tool_call_id == rv[next as int].tool_call_id);
                            }
                        }
                        assert forall|i: int| 0 <= i < cv.len() implies (#[trigger] answered@[i]
                            <==> exists|j: int|
                            0 <= j < next + 1 && (#[trigger] rv[j]).tool_call_id == cv[i].id) by {
                            if i == k {
                                assert(rv[next as int].tool_call_id == cv[i].id);
                            } else {
                                assert(cv[i].id != cv[k as int].id);
                                assert(answered@[i] == before[i]);
                                if before[i] {
                                    let j = choose|j: int|
                                        0 <= j < next && (#[trigger] rv[j]).tool_call_id
                                            == cv[i].id;
                                    assert(rv[j].tool_call_id == cv[i].id);
                                }
                            }
                        }
                    },
                    None => {
                        assert(!answers(cv, rv[next as int]));
                        assert forall|i: int| 0 <= i < cv.len() implies (#[trigger] answered@[i]
                            <==> exists|j: int|
                            0 <= j < next + 1 && (#[trigger] rv[j]).tool_call_id == cv[i].id) by {
                            assert(cv[i].id != rv[next as int].tool_call_id);
                            if before[i] {
                                let j = choose|j: int|
                                    0 <= j < next && (#[trigger] rv[j]).tool_call_id == cv[i].id;
                                assert(rv[j].tool_call_id == cv[i].id);
                            }
                        }
                    },
                }
            },
            None => {
                assert forall|i: int| 0 <= i < cv.len() implies (#[trigger] answered@[i]
                    <==> exists|j: int|
                    0 <= j < next + 1 && (#[trigger] rv[j]).tool_call_id == cv[i].id) by {
                    assert(cv[i].id is Some);
                    if before[i] {
                        let j = choose|j: int|
                            0 <= j < next && (#[trigger] rv[j]).tool_call_id == cv[i].id;
                        assert(rv[j].tool_call_id == cv[i].id);
                    }
                }
            },
        }
        next = next + 1;
    }
    if all_set(answered.as_slice()) {
        assert(all_answered(cv, rv)) by {
            assert forall|k: int| 0 <= k < cv.len() implies exists|j: int|
                0 <= j < rv.len() && (#[trigger] rv[j]).tool_call_id == (#[trigger] cv[k]).id by {
                assert(answered@[k]);
            }
        }
        Some(found)
    } else {
        assert(!all_answered(cv, rv)) by {
            let k = choose|k: int| 0 <= k < answered@.len() && !(#[trigger] answered@[k]);
            if all_answered(cv, rv) {
                assert(cv[k].id == cv[k].id);
                assert(answered@[k]);
            }
        }
        None
    }
}

/// A run of tool messages holds tool messages only and ends before another
/// kind of message.
proof fn tool_run_end_is_reached(history: Seq<Message>, start: int, end: int)
    requires
        0 <= start <= end <= history.len(),
        forall|i: int|
            start <= i < end ==> (#[trigger] history[i]).role == ConversationRole::Tool,
        end == history.len() || history[end].role != ConversationRole::Tool,
    ensures
        tool_run_end(history, start) == end,
    decreases end - start,
{
    if start < end {
        assert(history[start].role == ConversationRole::Tool);
        tool_run_end_is_reached(history, start + 1, end);
    }
}

/// Splits a history into groups that a provider accepts on their own: single
/// messages, and assistant tool calls together with one result each. Tool
/// messages that answer no call are left out, and so are tool calls that are
/// not all answered.
pub fn coherent_conversation_groups(history: &[ConversationMessage]) -> (result: Vec<
    Vec<ConversationMessage>,
>)
    ensures
        groups_view(result@) == groups_from(runner::messages_view(history@), 0),
{
    let ghost hv = runner::messages_view(history@);
    let mut groups: Vec<Vec<ConversationMessage>> = Vec::new();
    let mut index: usize = 0;
    while index < history.len()
        invariant
            index <= history.len(),
            hv == runner::messages_view(history@),
            hv.len() == history.len(),
            groups_view(groups@) + groups_from(hv, index as int) == groups_from(hv, 0),
        decreases history.len() - index,
    {
        let message = &history[index];
        assert(hv[index as int] == message@);
        let ghost before = groups_view(groups@);
        if message.role == ConversationRole::Tool {
            index = index + 1;
            continue ;
        }
        if message.role != ConversationRole::Assistant || message.tool_calls.len() == 0 {
            let mut group: Vec<ConversationMessage> = Vec::new();
            group.push(message.clone());
            assert(runner::messages_view(group@) =~= seq![message@]);
            groups.push(group);
            proof {
                assert(groups_view(groups@) =~= before.push(seq![message@]));
                assert(before + (seq![seq![message@]] + groups_from(hv, index + 1))
                    =~= before.push(seq![message@]) + groups_from(hv, index + 1));
            }
            index = index + 1;
            continue ;
        }
        let mut next: usize = index + 1;
        while next < history.len() && history[next].role == ConversationRole::Tool
            invariant
                index < next <= history.len(),
                hv == runner::messages_view(history@),
                hv.len() == history.len(),
                forall|i: int|
                    index < i < next ==> (#[trigger] hv[i]).role == ConversationRole::Tool,
            decreases history.len() - next,
        {
            assert(hv[next as int] == history@[next as int]@);
            next = next + 1;
        }
        proof {
            if next < history.len() {
                assert(hv[next as int] == history@[next as int]@);
            }
            tool_run_end_is_reached(hv, index + 1, next as int);
        }
        let run = vstd::slice::slice_subrange(history, index + 1, next);
        let ghost rv = hv.subrange(index + 1, next as int);
        assert(runner::messages_view(run@) =~= rv);
        let answers = if ids_are_distinct(message.tool_calls.as_slice()) {
            collect_answers(message.tool_calls.as_slice(), run)
        } else {
            None
        };
        match answers {
            Some(mut found) => {
                let mut group: Vec<ConversationMessage> = Vec::new();
                group.push(message.clone());
                let ghost answers_view = runner::messages_view(found@);
                group.append(&mut found);
                assert(runner::messages_view(group@) =~= seq![message@] + answers_view);
                groups.push(group);
                assert(groups_view(groups@) =~= before + call_group(message@, rv));
            },
            None => {
                if !is_blank(message.content.as_str()) {
                    let plain = ConversationMessage {
                        role: message.role,
                        content: message.content.clone(),
                        tool_call_id: message.tool_call_id.clone(),
                        tool_calls: Vec::new(),
                    };
                    assert(plain@.tool_calls =~= Seq::<ToolCall>::empty());
                    assert(plain@ == without_calls(message@));
                    let mut group: Vec<ConversationMessage> = Vec::new();
                    group.push(plain);
                    assert(runner::messages_view(group@) =~= seq![without_calls(message@)]);
                    groups.push(group);
                }
                assert(groups_view(groups@) =~= before + call_group(message@, rv));
            },
        }
        proof {
            assert(before + (call_group(message@, rv) + groups_from(hv, next as int)) =~= before
                + call_group(message@, rv) + groups_from(hv, next as int));
        }
        index = next;
    }
    assert(groups_view(groups@) + groups_from(hv, index as int) =~= groups_view(groups@));
    groups
}

/// Takes the tokens of a group off a budget, if they fit.
fn spend_group<E: TokenEstimator + ?Sized>(
    group: &[ConversationMessage],
    estimator: &E,
    budget: usize,
) -> (left: Option<usize>)
    ensures
        ({
            let tokens = estimator::messages_tokens(estimator, runner::messages_view(group@));
            match left {
                Some(rest) => tokens <= budget && rest == budget - tokens,
                None => tokens > budget,
            }
        }),
{
    let ghost view = runner::messages_view(group@);
    let mut rest: usize = budget;
    let mut index: usize = 0;
    while index < group.len()
        invariant
            index <= group.len(),
            view == runner::messages_view(group@),
            view.len() == group.len(),
            rest + estimator::messages_tokens(estimator, view.take(index as int)) == budget,
        decreases group.len() - index,
    {
        let tokens: usize = estimate_conversation_message(estimator, &group[index]);
        proof {
            assert(view[index as int] == group@[index as int]@);
            assert(view.take(index + 1).drop_last() =~= view.take(index as int));
            assert(view.take(index + 1).last() == view[index as int]);
        }
        if tokens > rest {
            proof {
                messages_tokens_grow(estimator, view, index + 1);
            }
            return None;
        }
        rest = rest - tokens;
        index = index + 1;
    }
    assert(view.take(view.len() as int) =~= view);
    Some(rest)
}

/// A longer list of messages takes no fewer tokens.
proof fn messages_tokens_grow<E: TokenEstimator + ?Sized>(
    estimator: &E,
    messages: Seq<Message>,
    count: int,
)
    requires
        0 <= count <= messages.len(),
    ensures
        estimator::messages_tokens(estimator, messages.take(count)) <= estimator::messages_tokens(
            estimator,
            messages,
        ),
{
    assert(messages.take(count) + messages.skip(count) =~= messages);
    estimator::messages_tokens_add(estimator, messages.take(count), messages.skip(count));
}

/// Keeps the most recent coherent part of a history that fits next to the
/// fixed prompt.
pub fn trim_conversation_history<E: TokenEstimator + ?Sized>(
    history: &[ConversationMessage],
    config: &EngineConfig,
    estimator: &E,
    user_message: &str,
    plan: Option<&str>,
) -> (result: Result<Vec<ConversationMessage>>)
    ensures
        match trimmed(
            estimator,
            *config,
            runner::messages_view(history@),
            user_message@,
            text::opt_str(plan),
        ) {
            Some(kept) => result is Ok && runner::messages_view(result->Ok_0@) == kept,
            None => result is Err && error::is_configuration(
                result->Err_0,
                fixed_prompt_message(),
            ),
        },
{
    let system_tokens: usize = estimator.estimate_text(config.system_prompt.as_str());
    let plan_tokens: usize = match plan {
        Some(value) => estimator.estimate_text(value),
        None => 0,
    };
    let working_tokens: usize = estimator.estimate_text(user_message).saturating_add(plan_tokens);
    let fixed: usize = working_tokens.saturating_sub(
        config.context_budget.reserve_working,
    ).saturating_add(system_tokens.saturating_sub(config.context_budget.reserve_system));
    let available: usize = config.context_budget.remaining_tokens();
    if fixed > available {
        return Err(
            EngineError::Configuration(
                "external context fixed prompt exceeds the configured context budget".to_string(),
            ),
        );
    }
    let mut remaining: usize = available - fixed;
    let groups = coherent_conversation_groups(history);
    let ghost gv = groups_view(groups@);
    let ghost budget = remaining as nat;
    let mut start: usize = groups.len();
    let ghost mut kept: Seq<Seq<Message>> = Seq::empty();
    assert(gv.take(start as int) =~= gv);
    assert(recent_groups(estimator, gv, budget) + kept =~= recent_groups(estimator, gv, budget));
    while start > 0
        invariant
            start <= groups.len(),
            gv == groups_view(groups@),
            gv.len() == groups.len(),
            kept == gv.skip(start as int),
            recent_groups(estimator, gv, budget) == recent_groups(
                estimator,
                gv.take(start as int),
                remaining as nat,
            ) + kept,
        ensures
            start <= groups.len(),
            recent_groups(estimator, gv, budget) == gv.skip(start as int),
        decreases start,
    {
        let ghost shorter = gv.take(start as int);
        proof {
            assert(shorter.drop_last() =~= gv.take(start - 1));
            assert(shorter.last() == gv[start - 1]);
            assert(gv[start - 1] == runner::messages_view(groups@[start - 1]@));
        }
        match spend_group(groups[start - 1].as_slice(), estimator, remaining) {
            None => {
                assert(recent_groups(estimator, gv, budget) =~= gv.skip(start as int));
                break ;
            },
            Some(rest) => {
                proof {
                    let inner = recent_groups(estimator, gv.take(start - 1), rest as nat);
                    assert(gv.skip(start - 1) =~= seq![gv[start - 1]] + kept);
                    assert(inner.push(gv[start - 1]) + kept =~= inner + gv.skip(start - 1));
                    kept = gv.skip(start - 1);
                }
                remaining = rest;
                start = start - 1;
            },
        }
        assert(start == 0 ==> recent_groups(estimator, gv, budget) =~= gv.skip(0));
    }
    assert(recent_groups(estimator, gv, budget) =~= gv.skip(start as int));
    let mut selected: Vec<ConversationMessage> = Vec::new();
    let mut index: usize = start;
    while index < groups.len()
        invariant
            start <= index <= groups.len(),
            gv == groups_view(groups@),
            gv.len() == groups.len(),
            runner::messages_view(selected@) == gv.subrange(start as int, index as int).flatten(),
        decreases groups.len() - index,
    {
        let mut copy = runner::clone_messages(groups[index].as_slice());
        let ghost before = runner::messages_view(selected@);
        let ghost added = runner::messages_view(copy@);
        selected.append(&mut copy);
        proof {
            assert(runner::messages_view(selected@) =~= before + added);
            let grown = gv.subrange(start as int, index + 1);
            assert(grown.drop_last() =~= gv.subrange(start as int, index as int));
            assert(gv[index as int] == runner::messages_view(groups@[index as int]@));
            gv.subrange(start as int, index as int).lemma_flatten_push(gv[index as int]);
            assert(grown =~= gv.subrange(start as int, index as int).push(gv[index as int]));
        }
        index = index + 1;
    }
    assert(gv.subrange(start as int, groups.len() as int) =~= gv.skip(start as int));
    Ok(selected)
}

/// A group that a provider accepts on its own: a single message, or an
/// assistant message whose tool calls can be told apart, followed by tool
/// messages that answer its calls, each call by exactly one of them.
pub open spec fn is_coherent(group: Seq<Message>) -> bool {
    &&& group.len() > 0
    &&& group[0].role != ConversationRole::Tool
    &&& if group[0].role == ConversationRole::Assistant && group[0].tool_calls.len() > 0 {
        &&& has_distinct_ids(group[0].tool_calls)
        &&& all_answered(group[0].tool_calls, group.skip(1))
        &&& forall|j: int|
            1 <= j < group.len() ==> (#[trigger] group[j]).role == ConversationRole::Tool
                && answers(group[0].tool_calls, group[j])
        &&& forall|i: int, j: int|
            1 <= i < j < group.len() ==> (#[trigger] group[i]).tool_call_id != (
            #[trigger] group[j]).tool_call_id
    } else {
        group.len() == 1
    }
}

/// A message stands among the first messages of a run as a first answer.
spec fn stands_first(calls: Seq<ToolCall>, run: Seq<Message>, count: int, message: Message) -> bool {
    exists|i: int|
        0 <= i < count && #[trigger] run[i] == message && is_first_answer(calls, run, i)
}

/// What is collected as first answers comes from the run, answers a call, and
/// holds no correlation id twice.
proof fn first_answers_are_sound(calls: Seq<ToolCall>, run: Seq<Message>, count: int)
    requires
        0 <= count <= run.len(),
    ensures
        forall|j: int|
            0 <= j < first_answers(calls, run, count).len() ==> stands_first(
                calls,
                run,
                count,
                #[trigger] first_answers(calls, run, count)[j],
            ),
        forall|i: int, j: int|
            0 <= i < j < first_answers(calls, run, count).len() ==> (
            #[trigger] first_answers(calls, run, count)[i]).tool_call_id != (
            #[trigger] first_answers(calls, run, count)[j]).tool_call_id,
    decreases count,
{
    if count > 0 {
        first_answers_are_sound(calls, run, count - 1);
        let shorter = first_answers(calls, run, count - 1);
        let longer = first_answers(calls, run, count);
        assert forall|j: int| 0 <= j < longer.len() implies stands_first(
            calls,
            run,
            count,
            #[trigger] longer[j],
        ) by {
            if j < shorter.len() {
                assert(longer[j] == shorter[j]);
                assert(stands_first(calls, run, count - 1, shorter[j]));
            } else {
                assert(run[count - 1] == longer[j]);
            }
        }
        assert forall|i: int, j: int| 0 <= i < j < longer.len() implies (
        #[trigger] longer[i]).tool_call_id != (#[trigger] longer[j]).tool_call_id by {
            assert(longer[i] == shorter[i]);
            if j < shorter.len() {
                assert(longer[j] == shorter[j]);
            } else {
                assert(stands_first(calls, run, count - 1, shorter[i]));
                let k = choose|k: int|
                    0 <= k < count - 1 && #[trigger] run[k] == shorter[i] && is_first_answer(
                        calls,
                        run,
                        k,
                    );
                assert(run[k].tool_call_id != run[count - 1].tool_call_id);
            }
        }
    }
}

/// A call that is answered in a run is answered among the first answers.
proof fn first_answers_cover(calls: Seq<ToolCall>, run: Seq<Message>, count: int, k: int, j: int)
    requires
        0 <= j < count <= run.len(),
        0 <= k < calls.len(),
        calls[k].id is Some,
        run[j].tool_call_id == calls[k].id,
    ensures
        exists|i: int|
            0 <= i < first_answers(calls, run, count).len() && (
            #[trigger] first_answers(calls, run, count)[i]).tool_call_id == calls[k].id,
    decreases count,
{
    let longer = first_answers(calls, run, count);
    if exists|earlier: int|
        0 <= earlier < count - 1 && (#[trigger] run[earlier]).tool_call_id == calls[k].id {
        let earlier = choose|earlier: int|
            0 <= earlier < count - 1 && (#[trigger] run[earlier]).tool_call_id == calls[k].id;
        first_answers_cover(calls, run, count - 1, k, earlier);
        let shorter = first_answers(calls, run, count - 1);
        let i = choose|i: int|
            0 <= i < shorter.len() && (#[trigger] shorter[i]).tool_call_id == calls[k].id;
        assert(longer[i] == shorter[i]);
    } else {
        assert(j == count - 1);
        assert(is_first_answer(calls, run, count - 1));
        assert(longer[longer.len() - 1] == run[count - 1]);
    }
}

/// A run of tool messages holds tool messages only.
proof fn tool_run_holds_tools(history: Seq<Message>, start: int)
    requires
        0 <= start <= history.len(),
    ensures
        start <= tool_run_end(history, start) <= history.len(),
        forall|i: int|
            start <= i < tool_run_end(history, start) ==> (#[trigger] history[i]).role
                == ConversationRole::Tool,
    decreases history.len() - start,
{
    if start < history.len() && history[start].role == ConversationRole::Tool {
        tool_run_holds_tools(history, start + 1);
    }
}

proof fn call_group_is_coherent(message: Message, run: Seq<Message>, i: int)
    requires
        message.role == ConversationRole::Assistant,
        message.tool_calls.len() > 0,
        forall|j: int| 0 <= j < run.len() ==> (#[trigger] run[j]).role == ConversationRole::Tool,
        0 <= i < call_group(message, run).len(),
    ensures
        is_coherent(call_group(message, run)[i]),
{
    let calls = message.tool_calls;
    if has_distinct_ids(calls) && all_answered(calls, run) {
        let found = first_answers(calls, run, run.len() as int);
        let group = call_group(message, run)[i];
        assert(group == seq![message] + found);
        first_answers_are_sound(calls, run, run.len() as int);
        assert(group.skip(1) =~= found);
        assert(all_answered(calls, found)) by {
            assert forall|k: int| 0 <= k < calls.len() implies exists|j: int|
                0 <= j < found.len() && (#[trigger] found[j]).tool_call_id == (
                #[trigger] calls[k]).id by {
                let j = choose|j: int|
                    0 <= j < run.len() && (#[trigger] run[j]).tool_call_id == calls[k].id;
                first_answers_cover(calls, run, run.len() as int, k, j);
            }
        }
        assert forall|j: int| 1 <= j < group.len() implies (#[trigger] group[j]).role
            == ConversationRole::Tool && answers(calls, group[j]) by {
            assert(group[j] == found[j - 1]);
            assert(stands_first(calls, run, run.len() as int, found[j - 1]));
        }
        assert forall|a: int, b: int| 1 <= a < b < group.len() implies (
        #[trigger] group[a]).tool_call_id != (#[trigger] group[b]).tool_call_id by {
            assert(group[a] == found[a - 1]);
            assert(group[b] == found[b - 1]);
        }
    }
}

/// Every group of a history from a position on is coherent.
proof fn groups_from_are_coherent(history: Seq<Message>, start: int)
    requires
        0 <= start <= history.len(),
    ensures
        forall|i: int|
            0 <= i < groups_from(history, start).len() ==> is_coherent(
                #[trigger] groups_from(history, start)[i],
            ),
    decreases history.len() - start,
{
    if start < history.len() {
        let message = history[start];
        let all = groups_from(history, start);
        if message.role == ConversationRole::Tool {
            groups_from_are_coherent(history, start + 1);
            assert(all == groups_from(history, start + 1));
        } else if message.role != ConversationRole::Assistant || message.tool_calls.len() == 0 {
            groups_from_are_coherent(history, start + 1);
            let rest = groups_from(history, start + 1);
            assert forall|i: int| 0 <= i < all.len() implies is_coherent(#[trigger] all[i]) by {
                if i > 0 {
                    assert(all[i] == rest[i - 1]);
                } else {
                    assert(all[i] == seq![message]);
                }
            }
        } else {
            tool_run_holds_tools(history, start + 1);
            let end = tool_run_end(history, start + 1);
            groups_from_are_coherent(history, end);
            let run = history.subrange(start + 1, end);
            let first = call_group(message, run);
            let rest = groups_from(history, end);
            assert forall|i: int| 0 <= i < all.len() implies is_coherent(#[trigger] all[i]) by {
                if i < first.len() {
                    assert(all[i] == first[i]);
                    assert forall|j: int| 0 <= j < run.len() implies (#[trigger] run[j]).role
                        == ConversationRole::Tool by {
                        assert(run[j] == history[start + 1 + j]);
                    }
                    call_group_is_coherent(message, run, i);
                } else {
                    assert(all[i] == rest[i - first.len()]);
                }
            }
        }
    }
}

/// Whatever a history holds, each of its groups is one that a provider accepts
/// on its own: tool calls stand together with exactly one result each, and no
/// tool result stands without its call.
pub proof fn conversation_groups_are_coherent(history: Seq<Message>)
    ensures
        forall|i: int|
            0 <= i < groups_from(history, 0).len() ==> is_coherent(
                #[trigger] groups_from(history, 0)[i],
            ),
{
    groups_from_are_coherent(history, 0);
}

/// The groups that are kept are the last ones, and together they fit the
/// budget.
pub proof fn kept_groups_are_recent_and_fit<E: TokenEstimator + ?Sized>(
    estimator: &E,
    groups: Seq<Seq<Message>>,
    budget: nat,
)
    ensures
        recent_groups(estimator, groups, budget).len() <= groups.len(),
        recent_groups(estimator, groups, budget) == groups.skip(
            groups.len() - recent_groups(estimator, groups, budget).len(),
        ),
        estimator::messages_tokens(estimator, recent_groups(estimator, groups, budget).flatten())
            <= budget,
    decreases groups.len(),
{
    let kept = recent_groups(estimator, groups, budget);
    if groups.len() == 0 {
        assert(kept =~= groups.skip(0));
        assert(kept.flatten() =~= Seq::<Message>::empty());
    } else {
        let tokens = estimator::messages_tokens(estimator, groups.last());
        if tokens > budget {
            assert(kept =~= groups.skip(groups.len() as int));
            assert(kept.flatten() =~= Seq::<Message>::empty());
        } else {
            let rest = (budget - tokens) as nat;
            kept_groups_are_recent_and_fit(estimator, groups.drop_last(), rest);
            let inner = recent_groups(estimator, groups.drop_last(), rest);
            inner.lemma_flatten_push(groups.last());
            estimator::messages_tokens_add(estimator, inner.flatten(), groups.last());
            assert(kept =~= groups.skip(groups.len() - kept.len()));
        }
    }
}

/// A longer suffix of the groups than the one kept does not fit the budget.
pub proof fn kept_groups_are_as_many_as_fit<E: TokenEstimator + ?Sized>(
    estimator: &E,
    groups: Seq<Seq<Message>>,
    budget: nat,
    start: int,
)
    requires
        0 <= start < groups.len() - recent_groups(estimator, groups, budget).len(),
    ensures
        estimator::messages_tokens(estimator, groups.skip(start).flatten()) > budget,
    decreases groups.len(),
{
    let tokens = estimator::messages_tokens(estimator, groups.last());
    let shorter = groups.drop_last();
    assert(groups.skip(start) =~= shorter.skip(start).push(groups.last()));
    shorter.skip(start).lemma_flatten_push(groups.last());
    estimator::messages_tokens_add(estimator, shorter.skip(start).flatten(), groups.last());
    if tokens <= budget {
        kept_groups_are_as_many_as_fit(estimator, shorter, (budget - tokens) as nat, start);
    }
}

/// Answers that differ from one another are all first answers.
proof fn distinct_answers_come_first(calls: Seq<ToolCall>, run: Seq<Message>, count: int)
    requires
        0 <= count <= run.len(),
        forall|j: int| 0 <= j < run.len() ==> answers(calls, #[trigger] run[j]),
        forall|i: int, j: int|
            0 <= i < j < run.len() ==> (#[trigger] run[i]).tool_call_id != (
            #[trigger] run[j]).tool_call_id,
    ensures
        first_answers(calls, run, count) == run.take(count),
    decreases count,
{
    if count > 0 {
        distinct_answers_come_first(calls, run, count - 1);
        assert(answers(calls, run[count - 1]));
        assert(is_first_answer(calls, run, count - 1));
        assert(run.take(count) =~= run.take(count - 1).push(run[count - 1]));
    } else {
        assert(run.take(0) =~= Seq::<Message>::empty());
    }
}

/// Coherent groups in a row are found again, wherever they stand at the end of a
/// history.
proof fn coherent_groups_are_found_again(before: Seq<Message>, groups: Seq<Seq<Message>>)
    requires
        forall|i: int| 0 <= i < groups.len() ==> is_coherent(#[trigger] groups[i]),
    ensures
        groups_from(before + groups.flatten(), before.len() as int) == groups,
    decreases groups.len(),
{
    let history = before + groups.flatten();
    let start = before.len() as int;
    if groups.len() == 0 {
        assert(groups.flatten() =~= Seq::<Message>::empty());
        assert(groups_from(history, start) =~= groups);
    } else {
        let group = groups[0];
        let rest = groups.drop_first();
        assert(is_coherent(group));
        assert(groups.flatten() == group + rest.flatten());
        assert(history =~= (before + group) + rest.flatten());
        assert forall|i: int| 0 <= i < rest.len() implies is_coherent(#[trigger] rest[i]) by {
            assert(rest[i] == groups[i + 1]);
        }
        coherent_groups_are_found_again(before + group, rest);
        let end = start + group.len();
        assert(history[start] == group[0]);
        if group[0].role == ConversationRole::Assistant && group[0].tool_calls.len() > 0 {
            let run = group.skip(1);
            let calls = group[0].tool_calls;
            assert forall|i: int| start + 1 <= i < end implies (#[trigger] history[i]).role
                == ConversationRole::Tool by {
                assert(history[i] == group[i - start]);
            }
            if rest.len() > 0 {
                assert(is_coherent(rest[0]));
                assert(rest.flatten() == rest[0] + rest.drop_first().flatten());
                assert(history[end] == rest[0][0]);
            } else {
                assert(rest.flatten() =~= Seq::<Message>::empty());
            }
            tool_run_end_is_reached(history, start + 1, end);
            assert(history.subrange(start + 1, end) =~= run);
            assert forall|j: int| 0 <= j < run.len() implies answers(calls, #[trigger] run[j]) by {
                assert(run[j] == group[j + 1]);
            }
            assert forall|i: int, j: int| 0 <= i < j < run.len() implies (
            #[trigger] run[i]).tool_call_id != (#[trigger] run[j]).tool_call_id by {
                assert(run[i] == group[i + 1] && run[j] == group[j + 1]);
            }
            distinct_answers_come_first(calls, run, run.len() as int);
            assert(run.take(run.len() as int) =~= run);
            assert(seq![group[0]] + run =~= group);
            assert(call_group(group[0], run) =~= seq![group]);
        } else {
            assert(seq![group[0]] =~= group);
        }
        assert(groups_from(history, start) =~= seq![group] + rest);
        assert(seq![group] + rest =~= groups);
    }
}

/// Groups that fit a budget together are all kept.
proof fn fitting_groups_are_kept<E: TokenEstimator + ?Sized>(
    estimator: &E,
    groups: Seq<Seq<Message>>,
    budget: nat,
)
    requires
        estimator::messages_tokens(estimator, groups.flatten()) <= budget,
    ensures
        recent_groups(estimator, groups, budget) == groups,
    decreases groups.len(),
{
    if groups.len() > 0 {
        let shorter = groups.drop_last();
        let tokens = estimator::messages_tokens(estimator, groups.last());
        assert(groups =~= shorter.push(groups.last()));
        shorter.lemma_flatten_push(groups.last());
        estimator::messages_tokens_add(estimator, shorter.flatten(), groups.last());
        fitting_groups_are_kept(estimator, shorter, (budget - tokens) as nat);
    } else {
        assert(recent_groups(estimator, groups, budget) =~= groups);
    }
}

/// Trimming a history that was trimmed for the same turn changes nothing.
pub proof fn trimming_again_changes_nothing<E: TokenEstimator + ?Sized>(
    estimator: &E,
    config: EngineConfig,
    history: Seq<Message>,
    user_message: Seq<char>,
    plan: Option<Seq<char>>,
)
    requires
        trimmed(estimator, config, history, user_message, plan) is Some,
    ensures
        trimmed(
            estimator,
            config,
            trimmed(estimator, config, history, user_message, plan)->0,
            user_message,
            plan,
        ) == trimmed(estimator, config, history, user_message, plan),
{
    let fixed = fixed_tokens(estimator, config, user_message, plan);
    let budget = (config.context_budget.remaining() - fixed) as nat;
    let groups = groups_from(history, 0);
    let kept = recent_groups(estimator, groups, budget);
    kept_groups_are_recent_and_fit(estimator, groups, budget);
    conversation_groups_are_coherent(history);
    assert forall|i: int| 0 <= i < kept.len() implies is_coherent(#[trigger] kept[i]) by {
        assert(kept[i] == groups[groups.len() - kept.len() + i]);
    }
    coherent_groups_are_found_again(Seq::empty(), kept);
    assert(Seq::<Message>::empty() + kept.flatten() =~= kept.flatten());
    fitting_groups_are_kept(estimator, kept, budget);
}

/// What comes before a message has no part in the groups from that message on.
proof fn groups_forget_what_came_before(before: Seq<Message>, history: Seq<Message>, start: int)
    requires
        0 <= start <= history.len(),
    ensures
        groups_from(before + history, before.len() + start) == groups_from(history, start),
    decreases history.len() - start,
{
    let all = before + history;
    let from = before.len() + start;
    if start < history.len() {
        let message = history[start];
        assert(all[from] == message);
        if message.role == ConversationRole::Tool {
            groups_forget_what_came_before(before, history, start + 1);
        } else if message.role != ConversationRole::Assistant || message.tool_calls.len() == 0 {
            groups_forget_what_came_before(before, history, start + 1);
        } else {
            runs_forget_what_came_before(before, history, start + 1);
            let end = tool_run_end(history, start + 1);
            assert(all.subrange(from + 1, before.len() + end) =~= history.subrange(start + 1, end));
            groups_forget_what_came_before(before, history, end);
        }
    }
}

proof fn runs_forget_what_came_before(before: Seq<Message>, history: Seq<Message>, start: int)
    requires
        0 <= start <= history.len(),
    ensures
        tool_run_end(before + history, before.len() + start) == before.len() + tool_run_end(
            history,
            start,
        ),
        start <= tool_run_end(history, start) <= history.len(),
    decreases history.len() - start,
{
    let all = before + history;
    if start < history.len() {
        assert(all[before.len() + start] == history[start]);
        if history[start].role == ConversationRole::Tool {
            runs_forget_what_came_before(before, history, start + 1);
        }
    }
}

/// A message that makes no call is a group of its own, and no such message is
/// ever left out: a history that starts with it has its group and then the groups
/// of the rest. A tool result that follows no call is left out, and nothing else.
pub proof fn plain_messages_are_kept(message: Message, rest: Seq<Message>)
    ensures
        groups_from(Seq::empty(), 0) == Seq::<Seq<Message>>::empty(),
        message.role == ConversationRole::Tool ==> groups_from(seq![message] + rest, 0)
            == groups_from(rest, 0),
        message.role != ConversationRole::Tool && (message.role != ConversationRole::Assistant
            || message.tool_calls.len() == 0) ==> groups_from(seq![message] + rest, 0) == seq![
            seq![message],
        ] + groups_from(rest, 0),
{
    let history = seq![message] + rest;
    assert(history[0] == message);
    groups_forget_what_came_before(seq![message], rest, 0);
}

/// An assistant message that makes calls stands with the results that follow it:
/// where its calls have identifiers of their own and each is answered, it is one
/// group with the first answer to each call, and nothing else. Otherwise its text
/// is kept without the calls, unless it is blank. The rest of the history is
/// grouped as if it stood alone.
pub proof fn answered_calls_are_kept(message: Message, run: Seq<Message>, rest: Seq<Message>)
    requires
        message.role == ConversationRole::Assistant,
        message.tool_calls.len() > 0,
        forall|i: int| 0 <= i < run.len() ==> (#[trigger] run[i]).role == ConversationRole::Tool,
        rest.len() > 0 ==> rest[0].role != ConversationRole::Tool,
    ensures
        ({
            let groups = groups_from(seq![message] + run + rest, 0);
            let calls = message.tool_calls;
            let given = run.map_values(|answer: Message| answer.tool_call_id);
            let identified = (forall|k: int|
                0 <= k < calls.len() ==> (#[trigger] calls[k]).id is Some && !text::blank(
                    calls[k].id->0,
                )) && (forall|j: int, k: int|
                0 <= j < k < calls.len() ==> (#[trigger] calls[j]).id != (#[trigger] calls[k]).id);
            let answered = forall|k: int|
                0 <= k < calls.len() ==> given.contains((#[trigger] calls[k]).id);
            if identified && answered {
                &&& groups.len() > 0
                &&& groups.skip(1) == groups_from(rest, 0)
                &&& groups[0][0] == message
                &&& forall|k: int|
                    0 <= k < calls.len() ==> groups[0].skip(1).contains(
                        run[given.index_of_first((#[trigger] calls[k]).id)->0],
                    )
                &&& forall|j: int|
                    1 <= j < groups[0].len() ==> exists|k: int|
                        0 <= k < calls.len() && (#[trigger] groups[0][j]).tool_call_id == (
                        #[trigger] calls[k]).id
                &&& forall|i: int, j: int|
                    1 <= i < j < groups[0].len() ==> (#[trigger] groups[0][i]).tool_call_id != (
                    #[trigger] groups[0][j]).tool_call_id
            } else if !text::blank(message.content) {
                groups == seq![seq![Message { tool_calls: Seq::empty(), ..message }]] + groups_from(
                    rest,
                    0,
                )
            } else {
                groups == groups_from(rest, 0)
            }
        }),
{
    let history = seq![message] + run + rest;
    let calls = message.tool_calls;
    let end = 1 + run.len();
    let given = run.map_values(|answer: Message| answer.tool_call_id);
    assert(history[0] == message);
    assert forall|i: int| 1 <= i < end implies (#[trigger] history[i]).role
        == ConversationRole::Tool by {
        assert(history[i] == run[i - 1]);
    }
    if rest.len() > 0 {
        assert(history[end as int] == rest[0]);
    }
    tool_run_end_is_reached(history, 1, end as int);
    assert(history.subrange(1, end as int) =~= run);
    groups_forget_what_came_before(seq![message] + run, rest, 0);
    let groups = groups_from(history, 0);
    assert(groups == call_group(message, run) + groups_from(rest, 0));
    let identified = (forall|k: int|
        0 <= k < calls.len() ==> (#[trigger] calls[k]).id is Some && !text::blank(
            calls[k].id->0,
        )) && (forall|j: int, k: int|
        0 <= j < k < calls.len() ==> (#[trigger] calls[j]).id != (#[trigger] calls[k]).id);
    assert(identified == has_distinct_ids(calls));
    let answered = forall|k: int|
        0 <= k < calls.len() ==> given.contains((#[trigger] calls[k]).id);
    assert(answered == all_answered(calls, run)) by {
        if answered {
            assert forall|k: int| 0 <= k < calls.len() implies exists|j: int|
                0 <= j < run.len() && (#[trigger] run[j]).tool_call_id == (
                #[trigger] calls[k]).id by {
                assert(given.contains(calls[k].id));
                let j = choose|j: int| 0 <= j < given.len() && given[j] == calls[k].id;
                assert(run[j].tool_call_id == calls[k].id);
            }
        }
        if all_answered(calls, run) {
            assert forall|k: int| 0 <= k < calls.len() implies given.contains(
                (#[trigger] calls[k]).id,
            ) by {
                let j = choose|j: int|
                    0 <= j < run.len() && (#[trigger] run[j]).tool_call_id == calls[k].id;
                assert(given[j] == calls[k].id);
            }
        }
    }
    if identified && answered {
        let kept = first_answers(calls, run, run.len() as int);
        let group = seq![message] + kept;
        assert(call_group(message, run) =~= seq![group]);
        assert(groups[0] == group);
        assert(groups.skip(1) =~= groups_from(rest, 0));
        assert(group.skip(1) =~= kept);
        first_answers_are_sound(calls, run, run.len() as int);
        assert forall|k: int| 0 <= k < calls.len() implies group.skip(1).contains(
            run[given.index_of_first((#[trigger] calls[k]).id)->0],
        ) by {
            given.index_of_first_ensures(calls[k].id);
            assert(given.contains(calls[k].id));
            let j = given.index_of_first(calls[k].id)->0;
            assert(given[j] == calls[k].id);
            assert(run[j].tool_call_id == calls[k].id);
            assert forall|earlier: int| 0 <= earlier < j implies (
            #[trigger] run[earlier]).tool_call_id != calls[k].id by {
                assert(given[earlier] == run[earlier].tool_call_id);
            }
            first_answer_is_kept(calls, run, run.len() as int, k, j);
        }
        assert forall|j: int| 1 <= j < group.len() implies exists|k: int|
            0 <= k < calls.len() && (#[trigger] group[j]).tool_call_id == (
            #[trigger] calls[k]).id by {
            assert(group[j] == kept[j - 1]);
            assert(stands_first(calls, run, run.len() as int, kept[j - 1]));
        }
        assert forall|i: int, j: int| 1 <= i < j < group.len() implies (
        #[trigger] group[i]).tool_call_id != (#[trigger] group[j]).tool_call_id by {
            assert(group[i] == kept[i - 1] && group[j] == kept[j - 1]);
        }
    } else if text::blank(message.content) {
        assert(groups =~= groups_from(rest, 0));
    }
}

proof fn first_answer_is_kept(
    calls: Seq<ToolCall>,
    run: Seq<Message>,
    count: int,
    k: int,
    j: int,
)
    requires
        0 <= j < count <= run.len(),
        0 <= k < calls.len(),
        calls[k].id is Some,
        run[j].tool_call_id == calls[k].id,
        forall|earlier: int|
            0 <= earlier < j ==> (#[trigger] run[earlier]).tool_call_id != calls[k].id,
    ensures
        first_answers(calls, run, count).contains(run[j]),
    decreases count,
{
    let longer = first_answers(calls, run, count);
    if j == count - 1 {
        assert(is_first_answer(calls, run, j));
        assert(longer[longer.len() - 1] == run[j]);
    } else {
        first_answer_is_kept(calls, run, count - 1, k, j);
        let shorter = first_answers(calls, run, count - 1);
        let i = choose|i: int| 0 <= i < shorter.len() && shorter[i] == run[j];
        assert(longer[i] == run[j]);
    }
}

/// A history is trimmed only as far as it has to be. It is refused exactly where
/// the system prompt and the message with its plan, beyond what is reserved for
/// them, leave no room. Otherwise the newest groups are kept that fit what they
/// leave, as many as fit, in order; where all fit, all are kept.
pub proof fn histories_keep_what_fits<E: TokenEstimator + ?Sized>(
    estimator: &E,
    config: EngineConfig,
    history: Seq<Message>,
    user_message: Seq<char>,
    plan: Option<Seq<char>>,
    start: int,
)
    ensures
        ({
            let budget = config.context_budget;
            let working = estimator.tokens(user_message) + (match plan {
                Some(plan) => estimator.tokens(plan),
                None => 0,
            });
            let system = estimator.tokens(config.system_prompt@);
            let fixed = (if working > budget.reserve_working {
                working - budget.reserve_working
            } else {
                0
            }) + (if system > budget.reserve_system {
                system - budget.reserve_system
            } else {
                0
            });
            let groups = groups_from(history, 0);
            let room = budget.remaining() - fixed;
            fixed < usize::MAX && working <= usize::MAX ==> match trimmed(
                estimator,
                config,
                history,
                user_message,
                plan,
            ) {
                None => room < 0,
                Some(kept) => {
                    &&& room >= 0
                    &&& exists|from: int|
                        {
                            &&& 0 <= from <= groups.len()
                            &&& kept == #[trigger] groups.skip(from).flatten()
                            &&& estimator::messages_tokens(estimator, kept) <= room
                            &&& 0 <= start < from ==> estimator::messages_tokens(
                                estimator,
                                groups.skip(start).flatten(),
                            ) > room
                        }
                    &&& estimator::messages_tokens(estimator, groups.flatten()) <= room ==> kept
                        == groups.flatten()
                },
            }
        }),
{
    let budget = config.context_budget;
    let fixed = fixed_tokens(estimator, config, user_message, plan);
    let groups = groups_from(history, 0);
    if fixed <= budget.remaining() {
        let room = (budget.remaining() - fixed) as nat;
        let kept = recent_groups(estimator, groups, room);
        kept_groups_are_recent_and_fit(estimator, groups, room);
        let from = groups.len() - kept.len();
        assert(kept.flatten() == groups.skip(from).flatten());
        if 0 <= start < from {
            kept_groups_are_as_many_as_fit(estimator, groups, room, start);
        }
        if from > 0 {
            kept_groups_are_as_many_as_fit(estimator, groups, room, 0);
        }
        assert(groups.skip(0) =~= groups);
    }
}

} // verus!
