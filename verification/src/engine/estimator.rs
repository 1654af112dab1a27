//! Token estimates.
use vstd::prelude::*;

use crate::model::runner::{ConversationMessage, Message, ToolCall};

verus! {

/// Estimates how many tokens a text takes. Implemented by the embedder of the
/// engine; an estimate depends on the text alone.
pub trait TokenEstimator: Send + Sync {
    /// The estimate of a text. Nothing is known of the estimates of an
    /// implementation that does not say what they are.
    closed spec fn tokens(&self, text: Seq<char>) -> nat {
        arbitrary()
    }

    /// Estimates a text.
    fn estimate_text(&self, text: &str) -> (count: usize)
        ensures
            count == self.tokens(text@),
    ;
}

/// A count, or the largest size where it does not fit.
pub open spec fn capped(count: nat) -> nat {
    if count > usize::MAX {
        usize::MAX as nat
    } else {
        count
    }
}

/// Tokens of an optional text; an absent one takes none.
pub open spec fn optional_tokens<E: TokenEstimator + ?Sized>(
    estimator: &E,
    text: Option<Seq<char>>,
) -> nat {
    match text {
        Some(value) => estimator.tokens(value),
        None => 0,
    }
}

/// Tokens of one tool call.
pub open spec fn call_tokens<E: TokenEstimator + ?Sized>(estimator: &E, call: ToolCall) -> nat {
    optional_tokens(estimator, call.id) + estimator.tokens(call.name) + estimator.tokens(
        call.arguments,
    )
}

/// Tokens of a list of tool calls.
pub open spec fn calls_tokens<E: TokenEstimator + ?Sized>(
    estimator: &E,
    calls: Seq<ToolCall>,
) -> nat
    decreases calls.len(),
{
    if calls.len() == 0 {
        0
    } else {
        calls_tokens(estimator, calls.drop_last()) + call_tokens(estimator, calls.last())
    }
}

/// Tokens of a message: its content, its correlation id, its calls and one for
/// the envelope.
pub open spec fn message_tokens<E: TokenEstimator + ?Sized>(
    estimator: &E,
    message: Message,
) -> nat {
    capped(
        estimator.tokens(message.content) + optional_tokens(estimator, message.tool_call_id)
            + calls_tokens(estimator, message.tool_calls) + 1,
    )
}

/// Tokens of a list of messages.
pub open spec fn messages_tokens<E: TokenEstimator + ?Sized>(
    estimator: &E,
    messages: Seq<Message>,
) -> nat
    decreases messages.len(),
{
    if messages.len() == 0 {
        0
    } else {
        messages_tokens(estimator, messages.drop_last()) + message_tokens(
            estimator,
            messages.last(),
        )
    }
}

/// Estimates a message.
pub fn estimate_conversation_message<E: TokenEstimator + ?Sized>(
    estimator: &E,
    message: &ConversationMessage,
) -> (count: usize)
    ensures
        count == message_tokens(estimator, message@),
{
    let mut tokens: usize = estimator.estimate_text(message.content.as_str());
    if let Some(id) = &message.tool_call_id {
        tokens = tokens.saturating_add(estimator.estimate_text(id.as_str()));
    }
    let ghost start = estimator.tokens(message@.content) + optional_tokens(
        estimator,
        message@.tool_call_id,
    );
    let ghost calls = message@.tool_calls;
    let mut index: usize = 0;
    while index < message.tool_calls.len()
        invariant
            index <= message.tool_calls.len(),
            calls == message@.tool_calls,
            calls.len() == message.tool_calls.len(),
            tokens == capped(start + calls_tokens(estimator, calls.take(index as int))),
        decreases message.tool_calls.len() - index,
    {
        let call = &message.tool_calls[index];
        if let Some(id) = &call.id {
            tokens = tokens.saturating_add(estimator.estimate_text(id.as_str()));
        }
        tokens = tokens.saturating_add(estimator.estimate_text(call.name.as_str())).saturating_add(
            estimator.estimate_text(call.arguments.as_str()),
        );
        proof {
            assert(calls.take(index + 1).drop_last() =~= calls.take(index as int));
            assert(calls.take(index + 1).last() == call@);
        }
        index = index + 1;
    }
    assert(calls.take(calls.len() as int) =~= calls);
    tokens.saturating_add(1)
}

/// Tokens of two lists of messages in a row add up.
pub proof fn messages_tokens_add<E: TokenEstimator + ?Sized>(
    estimator: &E,
    left: Seq<Message>,
    right: Seq<Message>,
)
    ensures
        messages_tokens(estimator, left + right) == messages_tokens(estimator, left)
            + messages_tokens(estimator, right),
    decreases right.len(),
{
    if right.len() == 0 {
        assert(left + right =~= left);
    } else {
        messages_tokens_add(estimator, left, right.drop_last());
        assert((left + right).drop_last() =~= left + right.drop_last());
    }
}

/// Tokens of two lists of calls in a row add up, and one call has the tokens of
/// its identifier, of its name and of its arguments.
pub proof fn calls_tokens_add<E: TokenEstimator + ?Sized>(
    estimator: &E,
    left: Seq<ToolCall>,
    right: Seq<ToolCall>,
    call: ToolCall,
)
    ensures
        calls_tokens(estimator, left + right) == calls_tokens(estimator, left) + calls_tokens(
            estimator,
            right,
        ),
        calls_tokens(estimator, Seq::<ToolCall>::empty()) == 0,
        calls_tokens(estimator, seq![call]) == (match call.id {
            Some(id) => estimator.tokens(id),
            None => 0,
        }) + estimator.tokens(call.name) + estimator.tokens(call.arguments),
    decreases right.len(),
{
    reveal_with_fuel(calls_tokens, 2);
    assert(seq![call].drop_last() =~= Seq::<ToolCall>::empty());
    if right.len() == 0 {
        assert(left + right =~= left);
    } else {
        calls_tokens_add(estimator, left, right.drop_last(), call);
        assert((left + right).drop_last() =~= left + right.drop_last());
    }
}

/// A message has the tokens of all that it holds and one more, as far as they
/// can be counted, and a list of one message has the tokens of that message.
pub proof fn messages_count_what_they_hold<E: TokenEstimator + ?Sized>(
    estimator: &E,
    message: Message,
)
    ensures
        ({
            let count = 1 + estimator.tokens(message.content) + (match message.tool_call_id {
                Some(id) => estimator.tokens(id),
                None => 0,
            }) + calls_tokens(estimator, message.tool_calls);
            messages_tokens(estimator, seq![message]) == if count <= usize::MAX {
                count
            } else {
                usize::MAX as nat
            }
        }),
        messages_tokens(estimator, Seq::<Message>::empty()) == 0,
{
    reveal_with_fuel(messages_tokens, 2);
    assert(seq![message].drop_last() =~= Seq::<Message>::empty());
}

} // verus!
