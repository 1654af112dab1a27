//! Byte bounds on tool results that are kept in storage.
use vstd::prelude::*;

use crate::engine::bisect;
use crate::engine::bisect::{bisect_prefix, PrefixTest};
use crate::error;
use crate::error::{EngineError, Result};
use crate::json;
use crate::json::JsonValue;
use crate::text;
use crate::text::{byte_len, size_text};
use crate::tools::executor;
use crate::tools::executor::{ToolCallResult, ToolResult};

verus! {

/// Longest summary that is kept of a result that has to be cut, in bytes.
pub const MAX_SUMMARY_BYTES: usize = 4_096;

/// Which prefixes of a text take at most so many bytes.
pub open spec fn bytes_fit(text: Seq<char>, limit: nat) -> spec_fn(int) -> bool {
    |length: int| text::byte_count(text.take(length)) <= limit
}

/// The longest prefix of a text that takes at most so many bytes.
pub open spec fn byte_prefix(text: Seq<char>, limit: nat) -> Seq<char> {
    text.take(bisect::longest(bytes_fit(text, limit), text.len() as int))
}

struct ByteProbe<'a> {
    text: &'a str,
    budget: usize,
}

impl<'a> PrefixTest for ByteProbe<'a> {
    closed spec fn fits(&self, length: int) -> bool {
        bytes_fit(self.text@, self.budget as nat)(length)
    }

    closed spec fn limit(&self) -> int {
        self.text@.len() as int
    }

    fn probe(&self, length: usize) -> (result: bool) {
        let candidate = self.text.substring_char(0, length);
        assert(candidate@ =~= self.text@.take(length as int));
        byte_len(candidate) <= self.budget
    }
}

/// A shorter prefix fits wherever a longer one does.
proof fn bytes_fit_downwards(text: Seq<char>, limit: nat)
    ensures
        bytes_fit(text, limit)(0),
        forall|a: int, b: int|
            0 <= a <= b <= text.len() && #[trigger] bytes_fit(text, limit)(b)
                ==> #[trigger] bytes_fit(text, limit)(a),
{
    assert(text.take(0) =~= Seq::empty());
    assert forall|a: int, b: int|
        0 <= a <= b <= text.len() && #[trigger] bytes_fit(text, limit)(
            b,
        ) implies #[trigger] bytes_fit(text, limit)(a) by {
        text::byte_count_grows(text, a, b);
    }
}

/// Cuts a text to so many bytes without splitting a character.
pub fn truncate_utf8(text: &str, max_bytes: usize) -> (result: String)
    ensures
        result@ == byte_prefix(text@, max_bytes as nat),
        text::byte_count(result@) <= max_bytes,
        text::byte_count(text@) <= max_bytes ==> result@ == text@,
{
    let test = ByteProbe { text, budget: max_bytes };
    let limit: usize = text.unicode_len();
    let best: usize = bisect_prefix(&test, limit);
    proof {
        let fits = bytes_fit(text@, max_bytes as nat);
        assert(bisect::passing(&test) =~= fits);
        bytes_fit_downwards(text@, max_bytes as nat);
        bisect::bisect_agrees_with_descent(fits, limit as int);
        assert(fits(best as int));
        assert(text@.take(limit as int) =~= text@);
    }
    let kept = text.substring_char(0, best);
    assert(kept@ =~= text@.take(best as int));
    kept.to_string()
}

/// The result with other content.
pub open spec fn with_content(result: ToolResult, content: Seq<char>) -> ToolResult {
    ToolResult { content, ..result }
}

/// Bytes of the JSON object of a result.
pub open spec fn stored_bytes(result: ToolResult) -> nat {
    text::byte_count(result.encoded())
}

/// The result with its summary cut and an empty marker in place of its content.
pub open spec fn shortened(result: ToolResult, max_bytes: nat) -> ToolResult {
    let limit = if max_bytes / 8 < MAX_SUMMARY_BYTES {
        max_bytes / 8
    } else {
        MAX_SUMMARY_BYTES as nat
    };
    let cut = ToolResult {
        summary: byte_prefix(result.summary, limit),
        content: json::truncation_marker_text(Seq::empty()),
        ..result
    };
    if stored_bytes(cut) <= max_bytes {
        cut
    } else {
        ToolResult { summary: Seq::empty(), ..cut }
    }
}

/// Which previews of a content leave the result within so many bytes.
pub open spec fn preview_is_storable(
    result: ToolResult,
    content: Seq<char>,
    max_bytes: nat,
) -> spec_fn(int) -> bool {
    |length: int|
        stored_bytes(
            with_content(result, json::truncation_marker_text(content.take(length))),
        ) <= max_bytes
}

/// What is stored of a result: the result, or the shortened result with the
/// longest preview of the content that fits.
pub open spec fn storable(result: ToolResult, max_bytes: nat) -> ToolResult {
    if stored_bytes(result) <= max_bytes {
        result
    } else {
        let cut = shortened(result, max_bytes);
        let length = bisect::longest(
            preview_is_storable(cut, result.content, max_bytes),
            result.content.len() as int,
        );
        with_content(cut, json::truncation_marker_text(result.content.take(length)))
    }
}

/// Whether the envelope of a result leaves room for an empty preview.
pub open spec fn is_storable(result: ToolResult, max_bytes: nat) -> bool {
    stored_bytes(result) <= max_bytes || stored_bytes(shortened(result, max_bytes)) <= max_bytes
}

/// What a JSON string holds of a text starts with what it holds of a prefix.
proof fn json_contents_grow(text: Seq<char>, short: int, long: int)
    requires
        0 <= short <= long <= text.len(),
    ensures
        text::byte_count(json::json_contents(text.take(short))) <= text::byte_count(
            json::json_contents(text.take(long)),
        ),
    decreases long,
{
    if short < long {
        json_contents_grow(text, short, long - 1);
        assert(text.take(long).drop_last() =~= text.take(long - 1));
        text::byte_count_add(
            json::json_contents(text.take(long - 1)),
            json::json_escape(text.take(long).last()),
        );
    }
}

/// Bytes of a marker grow with its preview.
proof fn markers_grow(text: Seq<char>, short: int, long: int)
    requires
        0 <= short <= long <= text.len(),
    ensures
        text::byte_count(json::truncation_marker_text(text.take(short))) <= text::byte_count(
            json::truncation_marker_text(text.take(long)),
        ),
{
    json_contents_grow(text, short, long);
    marker_bytes(text.take(short));
    marker_bytes(text.take(long));
}

proof fn marker_bytes(preview: Seq<char>)
    ensures
        text::byte_count(json::truncation_marker_text(preview)) == text::byte_count(
            "{\"preview\":"@,
        ) + text::byte_count(seq!['"']) + text::byte_count(json::json_contents(preview))
            + text::byte_count(seq!['"']) + text::byte_count(",\"truncated\":true}"@),
{
    let open = "{\"preview\":"@;
    let quoted = seq!['"'] + json::json_contents(preview);
    text::byte_count_add(seq!['"'], json::json_contents(preview));
    text::byte_count_add(quoted, seq!['"']);
    text::byte_count_add(open, json::json_string(preview));
    text::byte_count_add(open + json::json_string(preview), ",\"truncated\":true}"@);
}

/// The object of a result around its content.
spec fn envelope_bytes(result: ToolResult) -> nat {
    text::byte_count("{\"content\":"@) + text::byte_count(
        ",\"name\":"@ + json::json_string(result.name) + ",\"summary\":"@ + json::json_string(
            result.summary,
        ) + ",\"tool_call_id\":"@ + executor::optional_json(result.tool_call_id)
            + "}"@,
    )
}

/// A result takes the bytes of its envelope and of its content.
proof fn stored_bytes_add(result: ToolResult)
    ensures
        stored_bytes(result) == envelope_bytes(result) + text::byte_count(result.content),
{
    let head = "{\"content\":"@;
    let tail = ",\"name\":"@ + json::json_string(result.name) + ",\"summary\":"@
        + json::json_string(result.summary) + ",\"tool_call_id\":"@
        + executor::optional_json(result.tool_call_id) + "}"@;
    assert(result.encoded() =~= head + result.content + tail);
    text::byte_count_add(head + result.content, tail);
    text::byte_count_add(head, result.content);
}

proof fn previews_fit_downwards(result: ToolResult, content: Seq<char>, max_bytes: nat)
    ensures
        forall|a: int, b: int|
            0 <= a <= b <= content.len() && #[trigger] preview_is_storable(
                result,
                content,
                max_bytes,
            )(b) ==> #[trigger] preview_is_storable(result, content, max_bytes)(a),
{
    let fits = preview_is_storable(result, content, max_bytes);
    assert forall|a: int, b: int|
        0 <= a <= b <= content.len() && #[trigger] fits(b) implies #[trigger] fits(a) by {
        markers_grow(content, a, b);
        stored_bytes_add(with_content(result, json::truncation_marker_text(content.take(a))));
        stored_bytes_add(with_content(result, json::truncation_marker_text(content.take(b))));
    }
}

struct StorageProbe<'a> {
    content: &'a str,
    result: &'a ToolCallResult,
    max_bytes: usize,
}

impl<'a> PrefixTest for StorageProbe<'a> {
    closed spec fn fits(&self, length: int) -> bool {
        preview_is_storable(self.result@, self.content@, self.max_bytes as nat)(length)
    }

    closed spec fn limit(&self) -> int {
        self.content@.len() as int
    }

    fn probe(&self, length: usize) -> (result: bool) {
        let preview = self.content.substring_char(0, length);
        assert(preview@ =~= self.content@.take(length as int));
        let mut candidate = self.result.clone();
        candidate.content = JsonValue::truncation_marker(preview);
        byte_len(candidate.encode().as_str()) <= self.max_bytes
    }
}

/// Cuts a result so that its JSON object takes at most so many bytes: the
/// summary first, then the content, of which the longest preview stays.
pub fn bound_tool_result_for_storage(
    result: &mut ToolCallResult,
    max_bytes: usize,
) -> (outcome: Result<()>)
    ensures
        if is_storable(old(result)@, max_bytes as nat) {
            outcome is Ok && final(result)@ == storable(old(result)@, max_bytes as nat)
        } else {
            outcome is Err && error::is_configuration(
                outcome->Err_0,
                "max_tool_result_bytes="@ + text::decimal(max_bytes as nat)
                    + " is too small for the validated tool result envelope"@,
            ) && final(result)@ == shortened(old(result)@, max_bytes as nat)
        },
        outcome is Ok ==> stored_bytes(final(result)@) <= max_bytes,
{
    let ghost before = result@;
    if byte_len(result.encode().as_str()) <= max_bytes {
        return Ok(());
    }
    let eighth: usize = max_bytes / 8;
    let limit: usize = if eighth < MAX_SUMMARY_BYTES {
        eighth
    } else {
        MAX_SUMMARY_BYTES
    };
    let summary = truncate_utf8(result.summary.as_str(), limit);
    let serialized = result.content.to_string();
    result.summary = summary;
    result.content = JsonValue::truncation_marker("");
    proof {
        reveal_strlit("");
        assert(""@ =~= Seq::<char>::empty());
    }
    if byte_len(result.encode().as_str()) > max_bytes {
        result.summary = String::new();
    }
    assert(result@ == shortened(before, max_bytes as nat));
    if byte_len(result.encode().as_str()) > max_bytes {
        return Err(
            EngineError::Configuration(
                "max_tool_result_bytes=".to_string().concat(size_text(max_bytes).as_str()).concat(
                    " is too small for the validated tool result envelope",
                ),
            ),
        );
    }
    let ghost cut = result@;
    let size: usize = serialized.as_str().unicode_len();
    let best: usize = {
        let base = result.clone();
        let test = StorageProbe { content: serialized.as_str(), result: &base, max_bytes };
        let best: usize = bisect_prefix(&test, size);
        proof {
            let fits = preview_is_storable(cut, serialized@, max_bytes as nat);
            assert(bisect::passing(&test) =~= fits);
            previews_fit_downwards(cut, serialized@, max_bytes as nat);
            assert(serialized@.take(0) =~= Seq::<char>::empty());
            assert(with_content(cut, json::truncation_marker_text(Seq::empty())) == cut);
            assert(fits(0));
            bisect::bisect_agrees_with_descent(fits, size as int);
            assert(fits(best as int));
        }
        best
    };
    let preview = serialized.as_str().substring_char(0, best);
    assert(preview@ =~= serialized@.take(best as int));
    result.content = JsonValue::truncation_marker(preview);
    Ok(())
}

/// A result that fits is stored as it is. Of one that does not, the name and the
/// identifier are kept, the summary is cut to what fits its part or dropped, and
/// the content is replaced by a mark with the longest beginning of it with which
/// the whole still fits.
pub proof fn results_that_fit_are_stored_whole(result: ToolResult, max_bytes: nat)
    ensures
        stored_bytes(result) <= max_bytes ==> storable(result, max_bytes) == result,
        stored_bytes(result) > max_bytes ==> {
            let stored = storable(result, max_bytes);
            &&& stored.name == result.name
            &&& stored.tool_call_id == result.tool_call_id
            &&& stored.summary.is_prefix_of(result.summary)
            &&& stored.summary.len() > 0 ==> text::byte_count(stored.summary) <= max_bytes / 8
                && text::byte_count(stored.summary) <= 4_096
            &&& exists|length: int|
                {
                    &&& 0 <= length <= result.content.len()
                    &&& stored.content == json::truncation_marker_text(
                        #[trigger] result.content.take(length),
                    )
                    &&& length > 0 ==> text::byte_count(stored.encoded()) <= max_bytes
                    &&& forall|longer: int|
                        length < longer <= result.content.len() ==> text::byte_count(
                            (ToolResult {
                                content: json::truncation_marker_text(
                                    #[trigger] result.content.take(longer),
                                ),
                                ..stored
                            }).encoded(),
                        ) > max_bytes
                }
        },
{
    if stored_bytes(result) > max_bytes {
        let stored = storable(result, max_bytes);
        let cut = shortened(result, max_bytes);
        let fits = preview_is_storable(cut, result.content, max_bytes);
        let limit = if max_bytes / 8 < MAX_SUMMARY_BYTES {
            max_bytes / 8
        } else {
            MAX_SUMMARY_BYTES as nat
        };
        bisect::longest_is_longest(bytes_fit(result.summary, limit), result.summary.len() as int);
        bisect::longest_is_longest(fits, result.content.len() as int);
        let length = bisect::longest(fits, result.content.len() as int);
        assert(stored.content == json::truncation_marker_text(result.content.take(length)));
        assert(byte_prefix(result.summary, limit).is_prefix_of(result.summary));
        assert forall|longer: int| length < longer <= result.content.len() implies text::byte_count(
            (ToolResult {
                content: json::truncation_marker_text(#[trigger] result.content.take(longer)),
                ..stored
            }).encoded(),
        ) > max_bytes by {
            assert(!fits(longer));
            assert(with_content(
                cut,
                json::truncation_marker_text(result.content.take(longer)),
            ) == (ToolResult {
                content: json::truncation_marker_text(result.content.take(longer)),
                ..stored
            }));
        }
    }
}

/// A text is cut to the longest beginning that has no more bytes than it may.
pub proof fn texts_are_cut_to_the_longest_beginning(text: Seq<char>, limit: nat, longer: int)
    ensures
        byte_prefix(text, limit).is_prefix_of(text),
        text::byte_count(text) <= limit ==> byte_prefix(text, limit) == text,
        byte_prefix(text, limit).len() < longer <= text.len() ==> text::byte_count(
            text.take(longer),
        ) > limit,
{
    let fits = bytes_fit(text, limit);
    bisect::longest_is_longest(fits, text.len() as int);
    assert(text.take(text.len() as int) =~= text);
    if byte_prefix(text, limit).len() < longer <= text.len() {
        assert(!fits(longer));
    }
    if text::byte_count(text) <= limit && bisect::longest(fits, text.len() as int) < text.len() {
        assert(!fits(text.len() as int));
    }
}

/// A result is refused only where not even its name and its identifier fit beside
/// the mark of what was cut. The summary of one that is cut is cut to an eighth of
/// what may be stored, and at most to 4096 bytes, and dropped only where it would
/// not fit then.
pub proof fn results_are_cut_before_they_are_refused(result: ToolResult, max_bytes: nat)
    ensures
        text::byte_count(result.encoded()) <= max_bytes ==> is_storable(result, max_bytes),
        text::byte_count(
            (ToolResult {
                summary: Seq::empty(),
                content: json::truncation_marker_text(Seq::empty()),
                ..result
            }).encoded(),
        ) <= max_bytes ==> is_storable(result, max_bytes),
        stored_bytes(result) > max_bytes ==> {
            let limit = if max_bytes / 8 < 4_096 {
                max_bytes / 8
            } else {
                4_096
            };
            let summary = byte_prefix(result.summary, limit);
            storable(result, max_bytes).summary == if text::byte_count(
                (ToolResult {
                    summary,
                    content: json::truncation_marker_text(Seq::empty()),
                    ..result
                }).encoded(),
            ) <= max_bytes {
                summary
            } else {
                Seq::empty()
            }
        },
{
    let limit = if max_bytes / 8 < MAX_SUMMARY_BYTES {
        max_bytes / 8
    } else {
        MAX_SUMMARY_BYTES as nat
    };
    let cut = ToolResult {
        summary: byte_prefix(result.summary, limit),
        content: json::truncation_marker_text(Seq::empty()),
        ..result
    };
    assert(ToolResult { summary: Seq::empty(), ..cut } == (ToolResult {
        summary: Seq::empty(),
        content: json::truncation_marker_text(Seq::empty()),
        ..result
    }));
}

} // verus!
