//! Token budgets of a tool round: what the model is shown of calls and results.
use vstd::prelude::*;

use crate::config::ToolsConfig;
use crate::engine::bisect;
use crate::engine::bisect::{bisect_prefix, PrefixTest};
use crate::engine::conversation;
use crate::engine::estimator;
use crate::engine::estimator::{estimate_conversation_message, TokenEstimator};
use crate::error;
use crate::error::{EngineError, Result};
use crate::json;
use crate::json::JsonValue;
use crate::model::runner;
use crate::model::runner::{
    ConversationMessage, ConversationRole, Message, ToolCall, ToolCallRequest,
};
use crate::text;
use crate::text::{byte_len, size_text};
use crate::tools::executor::{ToolCallResult, ToolResult};

verus! {

/// Which prefixes of a text stay within a token budget.
pub open spec fn prefix_fits<E: TokenEstimator + ?Sized>(
    estimator: &E,
    text: Seq<char>,
    budget: nat,
) -> spec_fn(int) -> bool {
    |length: int| estimator.tokens(text.take(length)) <= budget
}

/// What is kept of a text under a token budget: all of it where it fits,
/// otherwise the prefix that bisection settles on.
pub open spec fn truncated<E: TokenEstimator + ?Sized>(
    estimator: &E,
    text: Seq<char>,
    budget: nat,
) -> Seq<char> {
    if text.len() == 0 || budget == 0 {
        Seq::empty()
    } else if estimator.tokens(text) <= budget {
        text
    } else {
        text.take(bisect::bisect(prefix_fits(estimator, text, budget), 0, text.len() as int, 0))
    }
}

struct TextProbe<'a, E: TokenEstimator + ?Sized> {
    text: &'a str,
    estimator: &'a E,
    budget: usize,
}

impl<'a, E: TokenEstimator + ?Sized> PrefixTest for TextProbe<'a, E> {
    closed spec fn fits(&self, length: int) -> bool {
        prefix_fits(self.estimator, self.text@, self.budget as nat)(length)
    }

    closed spec fn limit(&self) -> int {
        self.text@.len() as int
    }

    fn probe(&self, length: usize) -> (result: bool) {
        let candidate = self.text.substring_char(0, length);
        assert(candidate@ =~= self.text@.take(length as int));
        self.estimator.estimate_text(candidate) <= self.budget
    }
}

/// Cuts a text to a token budget.
pub fn truncate_text_to_token_budget<E: TokenEstimator + ?Sized>(
    text: &str,
    estimator: &E,
    budget: usize,
) -> (result: String)
    ensures
        result@ == truncated(estimator, text@, budget as nat),
{
    if text.unicode_len() == 0 || budget == 0 {
        return String::new();
    }
    if estimator.estimate_text(text) <= budget {
        return text.to_string();
    }
    let test = TextProbe { text, estimator, budget };
    assert(bisect::passing(&test) =~= prefix_fits(estimator, text@, budget as nat));
    let best: usize = bisect_prefix(&test, text.unicode_len());
    let kept = text.substring_char(0, best);
    assert(kept@ =~= text@.take(best as int));
    kept.to_string()
}

/// A cut text is a prefix, and one that is not empty stays within the budget.
pub proof fn truncated_text_fits<E: TokenEstimator + ?Sized>(
    estimator: &E,
    text: Seq<char>,
    budget: nat,
)
    ensures
        truncated(estimator, text, budget).is_prefix_of(text),
        truncated(estimator, text, budget).len() > 0 ==> estimator.tokens(
            truncated(estimator, text, budget),
        ) <= budget,
{
    if text.len() > 0 && budget > 0 && estimator.tokens(text) > budget {
        let fits = prefix_fits(estimator, text, budget);
        bisect::bisect_settles(fits, 0, text.len() as int, 0, text.len() as int);
        let n = bisect::bisect(fits, 0, text.len() as int, 0);
        assert(fits(n) || n == 0);
    }
}

/// Where longer prefixes never take fewer tokens, a cut text is the longest
/// prefix that stays within the budget.
pub proof fn truncated_text_is_longest<E: TokenEstimator + ?Sized>(
    estimator: &E,
    text: Seq<char>,
    budget: nat,
    length: int,
)
    requires
        forall|a: int, b: int|
            0 <= a <= b <= text.len() ==> estimator.tokens(#[trigger] text.take(a))
                <= estimator.tokens(#[trigger] text.take(b)),
        estimator.tokens(Seq::empty()) <= budget,
        budget > 0,
        0 <= length <= text.len(),
        estimator.tokens(text.take(length)) <= budget,
    ensures
        length <= truncated(estimator, text, budget).len(),
{
    if text.len() > 0 && estimator.tokens(text) > budget {
        let fits = prefix_fits(estimator, text, budget);
        assert(text.take(0) =~= Seq::empty());
        assert(fits(0));
        assert forall|a: int, b: int|
            0 <= a <= b <= text.len() && #[trigger] fits(b) implies #[trigger] fits(a) by {
            assert(estimator.tokens(text.take(a)) <= estimator.tokens(text.take(b)));
        }
        bisect::bisect_finds_longest(fits, text.len() as int);
        assert(fits(length));
    }
}

/// The call with other arguments.
pub open spec fn with_arguments(call: ToolCall, arguments: Seq<char>) -> ToolCall {
    ToolCall { arguments, ..call }
}

/// The calls with every list of arguments emptied.
pub open spec fn emptied(calls: Seq<ToolCall>) -> Seq<ToolCall> {
    calls.map_values(|call: ToolCall| with_arguments(call, "{}"@))
}

/// An assistant message that says nothing but makes these calls.
pub open spec fn bare_calls(calls: Seq<ToolCall>) -> Message {
    Message {
        role: ConversationRole::Assistant,
        content: Seq::empty(),
        tool_call_id: None,
        tool_calls: calls,
    }
}

/// What is shown of the arguments of a call under an allowance beyond the
/// tokens of an empty object.
pub open spec fn shown_arguments<E: TokenEstimator + ?Sized>(
    estimator: &E,
    arguments: Seq<char>,
    allowance: nat,
) -> Seq<char> {
    let empty = estimator.tokens("{}"@);
    if conversation::beyond(estimator.tokens(arguments), empty) <= allowance {
        arguments
    } else if conversation::beyond(estimator.tokens(json::truncation_flag_text()), empty)
        <= allowance {
        json::truncation_flag_text()
    } else {
        "{}"@
    }
}

/// What is shown of calls that share an allowance: each takes at most an equal
/// part of what the calls before it left over.
pub open spec fn shown_calls<E: TokenEstimator + ?Sized>(
    estimator: &E,
    calls: Seq<ToolCall>,
    extra: nat,
) -> Seq<ToolCall>
    decreases calls.len(),
{
    if calls.len() == 0 {
        Seq::empty()
    } else {
        let shown = shown_arguments(estimator, calls[0].arguments, extra / calls.len());
        let used = conversation::beyond(estimator.tokens(shown), estimator.tokens("{}"@));
        seq![with_arguments(calls[0], shown)] + shown_calls(
            estimator,
            calls.drop_first(),
            conversation::beyond(extra, used),
        )
    }
}

/// Copies calls with emptied arguments.
pub fn clone_emptied(calls: &[ToolCallRequest]) -> (result: Vec<ToolCallRequest>)
    ensures
        runner::calls_view(result@) == emptied(runner::calls_view(calls@)),
{
    let mut result: Vec<ToolCallRequest> = Vec::new();
    let mut index: usize = 0;
    while index < calls.len()
        invariant
            index <= calls.len(),
            runner::calls_view(result@) == emptied(runner::calls_view(calls@.take(index as int))),
        decreases calls.len() - index,
    {
        let copy = ToolCallRequest {
            id: calls[index].id.clone(),
            name: calls[index].name.clone(),
            arguments: JsonValue::empty_object(),
        };
        let ghost before = runner::calls_view(result@);
        result.push(copy);
        proof {
            assert(copy@ =~= with_arguments(calls@[index as int]@, "{}"@));
            assert(runner::calls_view(result@) =~= before.push(copy@));
            assert(runner::calls_view(result@) =~= emptied(
                runner::calls_view(calls@.take(index + 1)),
            ));
        }
        index = index + 1;
    }
    assert(calls@.take(calls@.len() as int) =~= calls@);
    result
}

/// Fits the calls of a round into a token budget for the assistant message
/// that makes them, at the expense of their arguments.
pub fn bound_tool_calls_for_model<E: TokenEstimator + ?Sized>(
    calls: &[ToolCallRequest],
    estimator: &E,
    budget: usize,
) -> (result: Result<Vec<ToolCallRequest>>)
    ensures
        ({
            let view = runner::calls_view(calls@);
            let minimum = estimator::message_tokens(estimator, bare_calls(emptied(view)));
            if minimum > budget {
                result is Err && error::is_configuration(
                    result->Err_0,
                    "tool-call transcript needs at least "@ + text::decimal(minimum)
                        + " tokens but only "@ + text::decimal(budget as nat)
                        + " were allocated"@,
                )
            } else {
                result is Ok && runner::calls_view(result->Ok_0@) == shown_calls(
                    estimator,
                    view,
                    (budget - minimum) as nat,
                )
            }
        }),
{
    let ghost view = runner::calls_view(calls@);
    let empty_tokens: usize = estimator.estimate_text("{}");
    let minimum_message = ConversationMessage {
        role: ConversationRole::Assistant,
        content: String::new(),
        tool_call_id: None,
        tool_calls: clone_emptied(calls),
    };
    let minimum: usize = estimate_conversation_message(estimator, &minimum_message);
    if minimum > budget {
        return Err(
            EngineError::Configuration(
                "tool-call transcript needs at least ".to_string().concat(
                    size_text(minimum).as_str(),
                ).concat(" tokens but only ").concat(size_text(budget).as_str()).concat(
                    " were allocated",
                ),
            ),
        );
    }
    let flag = JsonValue::truncation_flag();
    let flag_tokens: usize = estimator.estimate_text(flag.as_str());
    let mut extra: usize = budget - minimum;
    let ghost total = extra as nat;
    let mut bounded: Vec<ToolCallRequest> = Vec::new();
    let mut index: usize = 0;
    assert(view.skip(0) =~= view);
    assert(runner::calls_view(bounded@) + shown_calls(estimator, view, total) =~= shown_calls(
        estimator,
        view,
        total,
    ));
    while index < calls.len()
        invariant
            index <= calls.len(),
            view == runner::calls_view(calls@),
            view.len() == calls.len(),
            empty_tokens == estimator.tokens("{}"@),
            flag@ == json::truncation_flag_text(),
            flag_tokens == estimator.tokens(flag@),
            runner::calls_view(bounded@) + shown_calls(
                estimator,
                view.skip(index as int),
                extra as nat,
            ) == shown_calls(estimator, view, total),
        decreases calls.len() - index,
    {
        let call = &calls[index];
        let ghost rest = view.skip(index as int);
        proof {
            assert(rest[0] == call@);
            assert(rest.drop_first() =~= view.skip(index + 1));
        }
        let allowance: usize = extra / (calls.len() - index);
        let original: usize = estimator.estimate_text(call.arguments.as_str());
        let arguments = if original.saturating_sub(empty_tokens) <= allowance {
            call.arguments.clone()
        } else if flag_tokens.saturating_sub(empty_tokens) <= allowance {
            flag.clone()
        } else {
            JsonValue::empty_object()
        };
        assert(arguments@ == shown_arguments(estimator, call@.arguments, allowance as nat));
        let used: usize = estimator.estimate_text(arguments.as_str()).saturating_sub(empty_tokens);
        let ghost before = runner::calls_view(bounded@);
        let shown = ToolCallRequest { id: call.id.clone(), name: call.name.clone(), arguments };
        bounded.push(shown);
        extra = extra.saturating_sub(used);
        proof {
            assert(runner::calls_view(bounded@) =~= before.push(shown@));
            assert(before + (seq![shown@] + shown_calls(
                estimator,
                view.skip(index + 1),
                extra as nat,
            )) =~= before.push(shown@) + shown_calls(
                estimator,
                view.skip(index + 1),
                extra as nat,
            ));
        }
        index = index + 1;
    }
    assert(view.skip(view.len() as int) =~= Seq::empty());
    assert(runner::calls_view(bounded@) + shown_calls(estimator, Seq::empty(), extra as nat)
        =~= runner::calls_view(bounded@));
    Ok(bounded)
}

/// Tokens of a call do not depend on more than its id, name and arguments;
/// swapping the first of a list of calls changes the sum accordingly.
proof fn calls_tokens_first<E: TokenEstimator + ?Sized>(estimator: &E, calls: Seq<ToolCall>)
    requires
        calls.len() > 0,
    ensures
        estimator::calls_tokens(estimator, calls) == estimator::call_tokens(estimator, calls[0])
            + estimator::calls_tokens(estimator, calls.drop_first()),
    decreases calls.len(),
{
    if calls.len() > 1 {
        calls_tokens_first(estimator, calls.drop_last());
        assert(calls.drop_last().drop_first() =~= calls.drop_first().drop_last());
        assert(calls.drop_first().last() == calls.last());
    } else {
        assert(calls.drop_last() =~= Seq::empty());
        assert(calls.drop_first() =~= Seq::empty());
    }
}

/// What is shown of calls takes no more tokens than the emptied calls and the
/// allowance together, and keeps each call's id and name.
pub proof fn shown_calls_fit<E: TokenEstimator + ?Sized>(
    estimator: &E,
    calls: Seq<ToolCall>,
    extra: nat,
)
    ensures
        shown_calls(estimator, calls, extra).len() == calls.len(),
        forall|k: int|
            0 <= k < calls.len() ==> (#[trigger] shown_calls(estimator, calls, extra)[k]).id
                == calls[k].id && shown_calls(estimator, calls, extra)[k].name == calls[k].name,
        estimator::calls_tokens(estimator, shown_calls(estimator, calls, extra))
            <= estimator::calls_tokens(estimator, emptied(calls)) + extra,
    decreases calls.len(),
{
    if calls.len() > 0 {
        let empty = estimator.tokens("{}"@);
        let allowance = extra / calls.len();
        let shown = shown_arguments(estimator, calls[0].arguments, allowance);
        let used = conversation::beyond(estimator.tokens(shown), empty);
        assert(allowance <= extra) by (nonlinear_arith)
            requires
                allowance == extra / calls.len(),
                calls.len() > 0,
        ;
        assert(used <= allowance);
        let rest = conversation::beyond(extra, used);
        shown_calls_fit(estimator, calls.drop_first(), rest);
        let all = shown_calls(estimator, calls, extra);
        assert(all.drop_first() =~= shown_calls(estimator, calls.drop_first(), rest));
        calls_tokens_first(estimator, all);
        calls_tokens_first(estimator, emptied(calls));
        assert(emptied(calls).drop_first() =~= emptied(calls.drop_first()));
        assert forall|k: int| 0 <= k < calls.len() implies (#[trigger] all[k]).id == calls[k].id
            && all[k].name == calls[k].name by {
            if k > 0 {
                assert(all[k] == shown_calls(estimator, calls.drop_first(), rest)[k - 1]);
            }
        }
    }
}

/// A tool message that answers a call with an empty object.
pub open spec fn empty_answer(id: Seq<char>) -> Message {
    Message {
        role: ConversationRole::Tool,
        content: "{}"@,
        tool_call_id: Some(id),
        tool_calls: Seq::empty(),
    }
}

/// Tokens of the shortest tool message that answers a call.
pub fn minimum_tool_result_message_tokens<E: TokenEstimator + ?Sized>(
    call: &ToolCallRequest,
    estimator: &E,
) -> (result: Result<usize>)
    ensures
        match call@.id {
            Some(id) => result is Ok && result->Ok_0 == estimator::message_tokens(
                estimator,
                empty_answer(id),
            ),
            None => result is Err && error::is_tool(
                result->Err_0,
                "tool call "@ + call.name@ + " has no correlation id"@,
            ),
        },
{
    match &call.id {
        None => Err(
            EngineError::Tool(
                "tool call ".to_string().concat(call.name.as_str()).concat(
                    " has no correlation id",
                ),
            ),
        ),
        Some(id) => {
            let answer = ConversationMessage {
                role: ConversationRole::Tool,
                content: "{}".to_string(),
                tool_call_id: Some(id.clone()),
                tool_calls: Vec::new(),
            };
            assert(answer@.tool_calls =~= Seq::<ToolCall>::empty());
            Ok(estimate_conversation_message(estimator, &answer))
        },
    }
}

/// Which previews of a content make a marker that stays within a budget.
pub open spec fn preview_fits<E: TokenEstimator + ?Sized>(
    estimator: &E,
    content: Seq<char>,
    budget: nat,
) -> spec_fn(int) -> bool {
    |length: int|
        estimator.tokens(json::truncation_marker_text(content.take(length))) <= budget
}

/// What a model is shown of a content under a token budget: the content, or a
/// marker with a preview, or an empty object.
pub open spec fn shown_content<E: TokenEstimator + ?Sized>(
    estimator: &E,
    content: Seq<char>,
    budget: nat,
) -> Seq<char> {
    if estimator.tokens(content) <= budget {
        content
    } else if estimator.tokens("{}"@) > budget || estimator.tokens(
        json::truncation_marker_text(Seq::empty()),
    ) > budget {
        "{}"@
    } else {
        json::truncation_marker_text(
            content.take(
                bisect::bisect(
                    preview_fits(estimator, content, budget),
                    0,
                    content.len() as int,
                    0,
                ),
            ),
        )
    }
}

struct PreviewProbe<'a, E: TokenEstimator + ?Sized> {
    content: &'a str,
    estimator: &'a E,
    budget: usize,
}

impl<'a, E: TokenEstimator + ?Sized> PrefixTest for PreviewProbe<'a, E> {
    closed spec fn fits(&self, length: int) -> bool {
        preview_fits(self.estimator, self.content@, self.budget as nat)(length)
    }

    closed spec fn limit(&self) -> int {
        self.content@.len() as int
    }

    fn probe(&self, length: usize) -> (result: bool) {
        let preview = self.content.substring_char(0, length);
        assert(preview@ =~= self.content@.take(length as int));
        let marker = JsonValue::truncation_marker(preview);
        self.estimator.estimate_text(marker.as_str()) <= self.budget
    }
}

/// Fits the content of a tool result into what is left of a token budget and
/// takes its tokens off.
pub fn clamp_tool_result_for_model<E: TokenEstimator + ?Sized>(
    result: ToolCallResult,
    estimator: &E,
    remaining_tokens: &mut usize,
) -> (clamped: ToolCallResult)
    ensures
        clamped@ == (ToolResult {
            content: shown_content(estimator, result.content@, *old(remaining_tokens) as nat),
            ..result@
        }),
        *final(remaining_tokens) == conversation::beyond(
            *old(remaining_tokens) as nat,
            estimator.tokens(clamped.content@),
        ),
{
    let mut result = result;
    let budget: usize = *remaining_tokens;
    let full: usize = estimator.estimate_text(result.content.as_str());
    if full <= budget {
        *remaining_tokens = budget - full;
        return result;
    }
    let minimum = JsonValue::empty_object();
    let minimum_tokens: usize = estimator.estimate_text(minimum.as_str());
    if minimum_tokens > budget {
        result.content = minimum;
        *remaining_tokens = 0;
        return result;
    }
    let empty_marker = JsonValue::truncation_marker("");
    proof {
        reveal_strlit("");
        assert(""@ =~= Seq::<char>::empty());
    }
    let empty_marker_tokens: usize = estimator.estimate_text(empty_marker.as_str());
    if empty_marker_tokens > budget {
        result.content = minimum;
        *remaining_tokens = budget - minimum_tokens;
        return result;
    }
    let best: usize = {
        let test = PreviewProbe { content: result.content.as_str(), estimator, budget };
        assert(bisect::passing(&test) =~= preview_fits(
            estimator,
            result.content@,
            budget as nat,
        ));
        bisect_prefix(&test, result.content.as_str().unicode_len())
    };
    let preview = result.content.as_str().substring_char(0, best);
    assert(preview@ =~= result.content@.take(best as int));
    let marker = JsonValue::truncation_marker(preview);
    let marker_tokens: usize = estimator.estimate_text(marker.as_str());
    *remaining_tokens = budget.saturating_sub(marker_tokens);
    result.content = marker;
    result
}

/// What a model is shown stays within the budget wherever an empty object does.
pub proof fn shown_content_fits<E: TokenEstimator + ?Sized>(
    estimator: &E,
    content: Seq<char>,
    budget: nat,
)
    requires
        estimator.tokens("{}"@) <= budget,
    ensures
        estimator.tokens(shown_content(estimator, content, budget)) <= budget,
{
    let fits = preview_fits(estimator, content, budget);
    bisect::bisect_settles(fits, 0, content.len() as int, 0, content.len() as int);
    assert(content.take(0) =~= Seq::<char>::empty());
    let n = bisect::bisect(fits, 0, content.len() as int, 0);
    if n == 0 {
        assert(fits(0) == (estimator.tokens(json::truncation_marker_text(Seq::empty()))
            <= budget));
    }
    assert(fits(n) || n == 0);
}

/// Longest id or name of a tool call, in bytes.
pub const MAX_TOOL_IDENTIFIER_BYTES: usize = 256;

/// Whether the id or the name of a call is too long.
pub open spec fn has_oversized_identifier(call: ToolCall) -> bool {
    text::byte_count(call.name) > MAX_TOOL_IDENTIFIER_BYTES || (call.id is Some
        && text::byte_count(call.id->0) > MAX_TOOL_IDENTIFIER_BYTES)
}

/// Why a tool call that a model asks for is refused, if it is.
pub open spec fn payload_fault(call: ToolCall, tools: ToolsConfig) -> Option<Seq<char>> {
    if has_oversized_identifier(call) {
        Some("tool call id/name exceeds the 256-byte boundary"@)
    } else if text::byte_count(call.arguments) > tools.max_tool_argument_bytes {
        Some(
            "tool "@ + call.name + " arguments use "@ + text::decimal(
                text::byte_count(call.arguments),
            ) + " bytes, exceeding max_tool_argument_bytes="@ + text::decimal(
                tools.max_tool_argument_bytes as nat,
            ),
        )
    } else {
        None
    }
}

/// Checks the sizes of a tool call that a model asks for.
pub fn validate_tool_call_payload(call: &ToolCallRequest, tools: &ToolsConfig) -> (result: Result<
    (),
>)
    ensures
        match payload_fault(call@, *tools) {
            Some(message) => result is Err && error::is_tool(result->Err_0, message),
            None => result is Ok,
        },
{
    let oversized_id = match &call.id {
        Some(id) => byte_len(id.as_str()) > MAX_TOOL_IDENTIFIER_BYTES,
        None => false,
    };
    if byte_len(call.name.as_str()) > MAX_TOOL_IDENTIFIER_BYTES || oversized_id {
        return Err(
            EngineError::Tool("tool call id/name exceeds the 256-byte boundary".to_string()),
        );
    }
    let argument_bytes: usize = byte_len(call.arguments.as_str());
    if argument_bytes > tools.max_tool_argument_bytes {
        return Err(
            EngineError::Tool(
                "tool ".to_string().concat(call.name.as_str()).concat(" arguments use ").concat(
                    size_text(argument_bytes).as_str(),
                ).concat(" bytes, exceeding max_tool_argument_bytes=").concat(
                    size_text(tools.max_tool_argument_bytes).as_str(),
                ),
            ),
        );
    }
    Ok(())
}

/// A text that fits its budget is not cut.
pub proof fn texts_that_fit_are_whole<E: TokenEstimator + ?Sized>(
    estimator: &E,
    text: Seq<char>,
    budget: nat,
)
    requires
        budget > 0,
        estimator.tokens(text) <= budget,
    ensures
        truncated(estimator, text, budget) == text,
{
    if text.len() == 0 {
        assert(text =~= Seq::<char>::empty());
    }
}

/// Content that fits its budget is shown as it is. Other content is shown as far
/// as it fits, with a mark that something was cut, and not at all where not even
/// the mark fits.
pub proof fn content_that_fits_is_shown_whole<E: TokenEstimator + ?Sized>(
    estimator: &E,
    content: Seq<char>,
    budget: nat,
)
    ensures
        estimator.tokens(content) <= budget ==> shown_content(estimator, content, budget)
            == content,
        estimator.tokens(content) > budget && estimator.tokens("{}"@) <= budget
            && estimator.tokens(json::truncation_marker_text(Seq::empty())) <= budget ==> exists|
            length: int,
        |
            0 <= length <= content.len() && shown_content(estimator, content, budget)
                == json::truncation_marker_text(#[trigger] content.take(length)),
        estimator.tokens(content) > budget && (estimator.tokens("{}"@) > budget
            || estimator.tokens(json::truncation_marker_text(Seq::empty())) > budget)
            ==> shown_content(estimator, content, budget) == "{}"@,
{
    let fits = preview_fits(estimator, content, budget);
    bisect_stays_in_range(fits, 0, content.len() as int, 0, content.len() as int);
    let length = bisect::bisect(fits, 0, content.len() as int, 0);
    assert(content.take(length) == content.take(length));
}

proof fn bisect_stays_in_range(
    fits: spec_fn(int) -> bool,
    low: int,
    high: int,
    best: int,
    limit: int,
)
    requires
        0 <= low,
        high <= limit,
        0 <= best <= limit,
    ensures
        0 <= bisect::bisect(fits, low, high, best) <= limit,
    decreases high - low + 1,
{
    if low <= high {
        let middle = low + (high - low) / 2;
        if fits(middle) {
            bisect_stays_in_range(fits, middle + 1, high, middle, limit);
        } else {
            bisect_stays_in_range(fits, low, middle - 1, best, limit);
        }
    }
}

/// A call whose arguments take no more than an equal share of what may be spent
/// beyond the least is shown as it is. The arguments of other calls are shown
/// whole, replaced by a mark, or left out, and nothing else of a call changes.
pub proof fn small_arguments_are_shown_whole<E: TokenEstimator + ?Sized>(
    estimator: &E,
    calls: Seq<ToolCall>,
    extra: nat,
    k: int,
)
    requires
        0 <= k < calls.len(),
    ensures
        ({
            let shown = shown_calls(estimator, calls, extra);
            &&& shown.len() == calls.len()
            &&& estimator.tokens(calls[k].arguments) <= estimator.tokens("{}"@) + extra
                / calls.len() ==> shown[k] == calls[k]
            &&& shown[k].arguments == calls[k].arguments || shown[k].arguments
                == json::truncation_flag_text() || shown[k].arguments == "{}"@
            &&& shown[k].id == calls[k].id && shown[k].name == calls[k].name
        }),
    decreases calls.len(),
{
    let count = calls.len();
    let share = extra / count;
    let empty = estimator.tokens("{}"@);
    let first = shown_arguments(estimator, calls[0].arguments, share);
    let used = conversation::beyond(estimator.tokens(first), empty);
    let rest = conversation::beyond(extra, used);
    shown_calls_fit(estimator, calls, extra);
    let shown = shown_calls(estimator, calls, extra);
    assert(shown == seq![with_arguments(calls[0], first)] + shown_calls(
        estimator,
        calls.drop_first(),
        rest,
    ));
    if k > 0 {
        small_arguments_are_shown_whole(estimator, calls.drop_first(), rest, k - 1);
        assert(calls.drop_first()[k - 1] == calls[k]);
        assert(share * count <= extra) by (nonlinear_arith)
            requires
                share == extra / count,
                count > 0,
        ;
        assert(used <= share);
        let others = (count - 1) as nat;
        assert(share * others <= rest) by (nonlinear_arith)
            requires
                share * count <= extra,
                others == count - 1,
                rest >= extra - share,
        ;
        assert(share <= rest / others) by (nonlinear_arith)
            requires
                share * others <= rest,
                others > 0,
        ;
    }
}

/// A call is refused exactly where its name or its identifier has more than 256
/// bytes, or its arguments have more bytes than arguments may have.
pub proof fn calls_are_refused_for_their_size(call: ToolCall, tools: ToolsConfig)
    ensures
        payload_fault(call, tools) is None <==> {
            &&& text::byte_count(call.name) <= 256
            &&& call.id matches Some(id) ==> text::byte_count(id) <= 256
            &&& text::byte_count(call.arguments) <= tools.max_tool_argument_bytes
        },
{
}

/// Calls are shown one after the other: the first within an equal share, whole
/// where its arguments fit, else with a mark where that fits, and else without;
/// the others within what it leaves.
pub proof fn calls_are_shown_in_turn<E: TokenEstimator + ?Sized>(
    estimator: &E,
    call: ToolCall,
    rest: Seq<ToolCall>,
    extra: nat,
)
    ensures
        ({
            let shown = shown_calls(estimator, seq![call] + rest, extra);
            let empty = estimator.tokens("{}"@);
            let share = extra / (1 + rest.len());
            let arguments = if estimator.tokens(call.arguments) <= empty + share {
                call.arguments
            } else if estimator.tokens("{\"truncated\":true}"@) <= empty + share {
                "{\"truncated\":true}"@
            } else {
                "{}"@
            };
            let used = if estimator.tokens(arguments) > empty {
                (estimator.tokens(arguments) - empty) as nat
            } else {
                0
            };
            &&& shown_calls(estimator, Seq::empty(), extra) == Seq::<ToolCall>::empty()
            &&& used <= extra
            &&& shown == seq![ToolCall { arguments, ..call }] + shown_calls(
                estimator,
                rest,
                (extra - used) as nat,
            )
        }),
{
    let calls = seq![call] + rest;
    assert(calls.drop_first() =~= rest);
    assert(calls[0] == call);
    let count = calls.len();
    assert(extra / count <= extra) by (nonlinear_arith)
        requires
            count > 0,
    ;
}

/// Where a shorter beginning fits whenever a longer one does, content that is cut
/// is cut as little as possible.
pub proof fn shown_content_is_longest<E: TokenEstimator + ?Sized>(
    estimator: &E,
    content: Seq<char>,
    budget: nat,
    length: int,
)
    requires
        estimator.tokens(content) > budget,
        estimator.tokens("{}"@) <= budget,
        forall|a: int, b: int|
            0 <= a <= b <= content.len() && #[trigger] preview_fits(estimator, content, budget)(b)
                ==> #[trigger] preview_fits(estimator, content, budget)(a),
        0 <= length <= content.len(),
        estimator.tokens(json::truncation_marker_text(content.take(length))) <= budget,
    ensures
        exists|kept: int|
            length <= kept <= content.len() && shown_content(estimator, content, budget)
                == json::truncation_marker_text(#[trigger] content.take(kept)),
{
    let fits = preview_fits(estimator, content, budget);
    assert(fits(length));
    assert(fits(0));
    assert(content.take(0) =~= Seq::<char>::empty());
    bisect::bisect_finds_longest(fits, content.len() as int);
    let kept = bisect::bisect(fits, 0, content.len() as int, 0);
    assert(length <= kept);
    assert(shown_content(estimator, content, budget) == json::truncation_marker_text(
        content.take(kept),
    ));
}

} // verus!
