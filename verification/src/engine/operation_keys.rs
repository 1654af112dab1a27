//! Keys under which the effects of a loop are recorded once.
use vstd::prelude::*;

use crate::ids;
use crate::ids::{LoopId, SessionId};
use crate::text;
use crate::text::{decimal_text, size_text};

verus! {

/// The key of what a user said in a loop.
pub open spec fn user_input_key(loop_id: LoopId) -> Seq<char> {
    "loop:"@ + ids::hyphenated(loop_id.0.bits) + ":user_input"@
}

/// The key of what the assistant answered in a loop.
pub open spec fn assistant_output_key(loop_id: LoopId) -> Seq<char> {
    "loop:"@ + ids::hyphenated(loop_id.0.bits) + ":assistant_output"@
}

/// The key of the result of a tool call in a loop.
pub open spec fn tool_result_key(
    loop_id: LoopId,
    round: nat,
    index: nat,
    name: Seq<char>,
) -> Seq<char> {
    "loop:"@ + ids::hyphenated(loop_id.0.bits) + ":tool:"@ + text::decimal(round) + ":"@
        + text::decimal(index) + ":"@ + name
}

/// The key of an abstract node that a batch was distilled into.
pub open spec fn distillation_key(
    session_id: SessionId,
    loop_id: LoopId,
    digest: Seq<char>,
    index: nat,
) -> Seq<char> {
    "distill:"@ + ids::hyphenated(session_id.0.bits) + ":"@ + ids::hyphenated(loop_id.0.bits)
        + ":"@ + digest + ":"@ + text::decimal(index)
}

/// The key of what a user said in a loop.
pub fn user_input_operation_key(loop_id: LoopId) -> (key: String)
    ensures
        key@ == user_input_key(loop_id),
{
    "loop:".to_string().concat(loop_id.to_string().as_str()).concat(":user_input")
}

/// The key of what the assistant answered in a loop.
pub fn assistant_output_operation_key(loop_id: LoopId) -> (key: String)
    ensures
        key@ == assistant_output_key(loop_id),
{
    "loop:".to_string().concat(loop_id.to_string().as_str()).concat(":assistant_output")
}

/// The key of the result of a tool call in a loop.
pub fn tool_result_operation_key(loop_id: LoopId, round: u32, index: usize, name: &str) -> (key:
    String)
    ensures
        key@ == tool_result_key(loop_id, round as nat, index as nat, name@),
{
    "loop:".to_string().concat(loop_id.to_string().as_str()).concat(":tool:").concat(
        decimal_text(round as u64).as_str(),
    ).concat(":").concat(size_text(index).as_str()).concat(":").concat(name)
}

/// The key of an abstract node that a batch was distilled into.
pub fn distillation_operation_key(
    session_id: SessionId,
    loop_id: LoopId,
    digest: &str,
    index: usize,
) -> (key: String)
    ensures
        key@ == distillation_key(session_id, loop_id, digest@, index as nat),
{
    "distill:".to_string().concat(session_id.to_string().as_str()).concat(":").concat(
        loop_id.to_string().as_str(),
    ).concat(":").concat(digest).concat(":").concat(size_text(index).as_str())
}

/// What follows a prefix of a fixed length.
proof fn same_start(left: Seq<char>, a: Seq<char>, right: Seq<char>, b: Seq<char>)
    requires
        left.len() == right.len(),
        left + a == right + b,
    ensures
        left == right,
        a == b,
{
    assert((left + a).take(left.len() as int) =~= left);
    assert((right + b).take(left.len() as int) =~= right);
    assert((left + a).skip(left.len() as int) =~= a);
    assert((right + b).skip(left.len() as int) =~= b);
}

/// A text before its first colon is determined by the whole.
proof fn same_before_colon(left: Seq<char>, a: Seq<char>, right: Seq<char>, b: Seq<char>)
    requires
        left + ":"@ + a == right + ":"@ + b,
        forall|i: int| 0 <= i < left.len() ==> #[trigger] left[i] != ':',
        forall|i: int| 0 <= i < right.len() ==> #[trigger] right[i] != ':',
    ensures
        left == right,
        a == b,
{
    reveal_strlit(":");
    let whole = left + ":"@ + a;
    assert(whole[left.len() as int] == ':');
    assert((right + ":"@ + b)[right.len() as int] == ':');
    if left.len() < right.len() {
        assert((right + ":"@ + b)[left.len() as int] == right[left.len() as int]);
        assert(false);
    }
    if right.len() < left.len() {
        assert(whole[right.len() as int] == left[right.len() as int]);
        assert(false);
    }
    same_start(left + ":"@, a, right + ":"@, b);
    assert((left + ":"@).drop_last() =~= left);
    assert((right + ":"@).drop_last() =~= right);
}

proof fn decimal_has_no_colon(value: nat)
    ensures
        forall|i: int| 0 <= i < text::decimal(value).len() ==> #[trigger] text::decimal(value)[i]
            != ':',
{
    assert forall|i: int| 0 <= i < text::decimal(value).len() implies #[trigger] text::decimal(
        value,
    )[i] != ':' by {
        text::decimal_has_only_digits(value, i);
    }
}

/// Results of tool calls are recorded under one key only when they are results
/// of one call: loop, round, index and name all agree.
pub proof fn tool_result_keys_are_distinct(
    left_loop: LoopId,
    left_round: nat,
    left_index: nat,
    left_name: Seq<char>,
    right_loop: LoopId,
    right_round: nat,
    right_index: nat,
    right_name: Seq<char>,
)
    requires
        tool_result_key(left_loop, left_round, left_index, left_name) == tool_result_key(
            right_loop,
            right_round,
            right_index,
            right_name,
        ),
    ensures
        left_loop == right_loop,
        left_round == right_round,
        left_index == right_index,
        left_name == right_name,
{
    let left_id = ids::hyphenated(left_loop.0.bits);
    let right_id = ids::hyphenated(right_loop.0.bits);
    let left_tail = text::decimal(left_index) + ":"@ + left_name;
    let right_tail = text::decimal(right_index) + ":"@ + right_name;
    let left_rest = text::decimal(left_round) + ":"@ + left_tail;
    let right_rest = text::decimal(right_round) + ":"@ + right_tail;
    let left_head = "loop:"@ + left_id + ":tool:"@;
    let right_head = "loop:"@ + right_id + ":tool:"@;
    assert(tool_result_key(left_loop, left_round, left_index, left_name) =~= left_head
        + left_rest);
    assert(tool_result_key(right_loop, right_round, right_index, right_name) =~= right_head
        + right_rest);
    same_start(left_head, left_rest, right_head, right_rest);
    same_start("loop:"@ + left_id, ":tool:"@, "loop:"@ + right_id, ":tool:"@);
    same_start("loop:"@, left_id, "loop:"@, right_id);
    ids::hyphenated_is_injective(left_loop.0.bits, right_loop.0.bits);
    decimal_has_no_colon(left_round);
    decimal_has_no_colon(right_round);
    same_before_colon(
        text::decimal(left_round),
        left_tail,
        text::decimal(right_round),
        right_tail,
    );
    text::decimal_is_injective(left_round, right_round);
    decimal_has_no_colon(left_index);
    decimal_has_no_colon(right_index);
    same_before_colon(
        text::decimal(left_index),
        left_name,
        text::decimal(right_index),
        right_name,
    );
    text::decimal_is_injective(left_index, right_index);
}

/// The effects of a loop never share a key: what the user said, what the
/// assistant answered and what tools returned are recorded apart, also from
/// those of every other loop.
pub proof fn effects_of_a_loop_are_apart(
    left_loop: LoopId,
    right_loop: LoopId,
    round: nat,
    index: nat,
    name: Seq<char>,
)
    ensures
        user_input_key(left_loop) != assistant_output_key(right_loop),
        user_input_key(left_loop) != tool_result_key(right_loop, round, index, name),
        assistant_output_key(left_loop) != tool_result_key(right_loop, round, index, name),
        user_input_key(left_loop) == user_input_key(right_loop) ==> left_loop == right_loop,
        assistant_output_key(left_loop) == assistant_output_key(right_loop) ==> left_loop
            == right_loop,
{
    reveal_strlit("loop:");
    reveal_strlit(":user_input");
    reveal_strlit(":assistant_output");
    reveal_strlit(":tool:");
    let left_id = ids::hyphenated(left_loop.0.bits);
    let right_id = ids::hyphenated(right_loop.0.bits);
    assert(user_input_key(left_loop)[42] == 'u');
    assert(assistant_output_key(left_loop)[42] == 'a');
    assert(assistant_output_key(right_loop)[42] == 'a');
    assert(tool_result_key(right_loop, round, index, name)[42] == 't');
    if user_input_key(left_loop) == user_input_key(right_loop) {
        same_start("loop:"@ + left_id, ":user_input"@, "loop:"@ + right_id, ":user_input"@);
        same_start("loop:"@, left_id, "loop:"@, right_id);
        ids::hyphenated_is_injective(left_loop.0.bits, right_loop.0.bits);
    }
    if assistant_output_key(left_loop) == assistant_output_key(right_loop) {
        same_start(
            "loop:"@ + left_id,
            ":assistant_output"@,
            "loop:"@ + right_id,
            ":assistant_output"@,
        );
        same_start("loop:"@, left_id, "loop:"@, right_id);
        ids::hyphenated_is_injective(left_loop.0.bits, right_loop.0.bits);
    }
}

/// Nodes that batches were distilled into are committed under one key only when
/// session, loop, digest and index all agree. Digests are of one length.
pub proof fn distillation_keys_are_distinct(
    left_session: SessionId,
    left_loop: LoopId,
    left_digest: Seq<char>,
    left_index: nat,
    right_session: SessionId,
    right_loop: LoopId,
    right_digest: Seq<char>,
    right_index: nat,
)
    requires
        left_digest.len() == right_digest.len(),
        distillation_key(left_session, left_loop, left_digest, left_index) == distillation_key(
            right_session,
            right_loop,
            right_digest,
            right_index,
        ),
    ensures
        left_session == right_session,
        left_loop == right_loop,
        left_digest == right_digest,
        left_index == right_index,
{
    let left_sessions = "distill:"@ + ids::hyphenated(left_session.0.bits);
    let right_sessions = "distill:"@ + ids::hyphenated(right_session.0.bits);
    let left_loops = left_sessions + ":"@ + ids::hyphenated(left_loop.0.bits);
    let right_loops = right_sessions + ":"@ + ids::hyphenated(right_loop.0.bits);
    let left_digests = left_loops + ":"@ + left_digest;
    let right_digests = right_loops + ":"@ + right_digest;
    same_start(
        left_digests + ":"@,
        text::decimal(left_index),
        right_digests + ":"@,
        text::decimal(right_index),
    );
    text::decimal_is_injective(left_index, right_index);
    same_start(left_digests, ":"@, right_digests, ":"@);
    same_start(left_loops + ":"@, left_digest, right_loops + ":"@, right_digest);
    same_start(left_loops, ":"@, right_loops, ":"@);
    same_start(
        left_sessions + ":"@,
        ids::hyphenated(left_loop.0.bits),
        right_sessions + ":"@,
        ids::hyphenated(right_loop.0.bits),
    );
    same_start(left_sessions, ":"@, right_sessions, ":"@);
    same_start(
        "distill:"@,
        ids::hyphenated(left_session.0.bits),
        "distill:"@,
        ids::hyphenated(right_session.0.bits),
    );
    ids::hyphenated_is_injective(left_session.0.bits, right_session.0.bits);
    ids::hyphenated_is_injective(left_loop.0.bits, right_loop.0.bits);
}

} // verus!
