//! JSON values, held as their compact text.
use vstd::prelude::*;

use crate::ids;
use crate::text;

verus! {

/// How a character is written inside a JSON string.
pub open spec fn json_escape(value: char) -> Seq<char> {
    if value == '"' || value == '\\' {
        seq!['\\', value]
    } else if value == '\u{8}' {
        seq!['\\', 'b']
    } else if value == '\t' {
        seq!['\\', 't']
    } else if value == '\n' {
        seq!['\\', 'n']
    } else if value == '\u{c}' {
        seq!['\\', 'f']
    } else if value == '\r' {
        seq!['\\', 'r']
    } else if (value as nat) < 32 {
        seq!['\\', 'u', '0', '0', ids::hex_digit(value as nat / 16), ids::hex_digit(value as nat % 16)]
    } else {
        seq![value]
    }
}

/// The characters of a text, each as written inside a JSON string.
pub open spec fn json_contents(text: Seq<char>) -> Seq<char>
    decreases text.len(),
{
    if text.len() == 0 {
        Seq::empty()
    } else {
        json_contents(text.drop_last()) + json_escape(text.last())
    }
}

/// The JSON string that denotes a text.
pub open spec fn json_string(text: Seq<char>) -> Seq<char> {
    seq!['"'] + json_contents(text) + seq!['"']
}

/// The compact text of the value that a JSON text denotes, or why it denotes
/// none.
pub uninterp spec fn json_canonical(text: Seq<char>) -> Result<Seq<char>, Seq<char>>;

/// The compact text of a member of the object that a JSON text denotes.
pub uninterp spec fn json_member(object: Seq<char>, key: Seq<char>) -> Option<Seq<char>>;

/// The compact text of the object that a JSON text denotes with one member set.
pub uninterp spec fn json_with_member(
    object: Seq<char>,
    key: Seq<char>,
    value: Seq<char>,
) -> Option<Seq<char>>;

/// The unsigned number that a JSON text denotes, if it denotes one.
pub uninterp spec fn json_unsigned(text: Seq<char>) -> Option<u64>;

/// The text that a JSON string denotes, if the text is one.
pub uninterp spec fn json_text(text: Seq<char>) -> Option<Seq<char>>;

/// The text of an unsigned number or of a string: a value that keeps its text
/// when it is read and written again.
pub open spec fn is_plain(value: Seq<char>) -> bool {
    ||| exists|number: u64| value == #[trigger] text::decimal(number as nat)
    ||| exists|text: Seq<char>| value == #[trigger] json_string(text)
}

/// A member of an object, with the compact text of its value.
pub struct Member {
    pub key: Seq<char>,
    pub value: Seq<char>,
}

/// Whether a key stands for itself inside a JSON string.
pub open spec fn is_simple_key(key: Seq<char>) -> bool {
    forall|i: int|
        0 <= i < key.len() ==> (#[trigger] key[i]) != '"' && key[i] != '\\' && key[i] as nat >= 32
}

/// Whether a value keeps its text when it is read and written again.
pub open spec fn keeps_text(value: Seq<char>) -> bool {
    is_plain(value) || value == "null"@ || json_canonical(value) == Ok::<Seq<char>, Seq<char>>(
        value,
    )
}

/// Whether members can make up an object as they are: under different keys that
/// stand for themselves, with values that keep their text.
pub open spec fn are_members(members: Seq<Member>) -> bool {
    &&& forall|i: int|
        0 <= i < members.len() ==> is_simple_key((#[trigger] members[i]).key) && keeps_text(
            members[i].value,
        )
    &&& forall|i: int, j: int|
        0 <= i < j < members.len() ==> (#[trigger] members[i]).key != (#[trigger] members[j]).key
}

/// Text of a member.
pub open spec fn member_text(member: Member) -> Seq<char> {
    seq!['"'] + member.key + seq!['"', ':'] + member.value
}

/// Text of members in a row.
pub open spec fn members_text(members: Seq<Member>) -> Seq<char>
    decreases members.len(),
{
    if members.len() == 0 {
        Seq::empty()
    } else if members.len() == 1 {
        member_text(members[0])
    } else {
        members_text(members.drop_last()) + seq![','] + member_text(members.last())
    }
}

/// Text of the object of members.
pub open spec fn object_text(members: Seq<Member>) -> Seq<char> {
    seq!['{'] + members_text(members) + seq!['}']
}

/// Whether a text that can be read is that of an object with a member.
pub open spec fn has_member(object: Seq<char>, key: Seq<char>, value: Seq<char>) -> bool {
    &&& json_canonical(object) is Ok
    &&& exists|members: Seq<Member>, index: int|
        #![trigger object_text(members), members[index]]
        object == object_text(members) && are_members(members) && 0 <= index < members.len()
            && members[index] == (Member { key, value })
}

/// Whether a text is the compact text of what it denotes.
pub open spec fn is_compact(text: Seq<char>) -> bool {
    json_canonical(text) == Ok::<Seq<char>, Seq<char>>(text)
}

/// Whether a member is read alike whatever number or text is set under another
/// key, and as what is set under its own.
pub open spec fn is_read_alike(object: Seq<char>, key: Seq<char>, value: Option<Seq<char>>) -> bool {
    forall|other: Seq<char>, given: Seq<char>|
        is_plain(given) && (#[trigger] json_with_member(object, other, given)) is Some
            ==> json_member(json_with_member(object, other, given)->0, key) == if other == key {
            Some(given)
        } else {
            value
        }
}

/// Whether the compact text of a value is that of a string.
pub open spec fn is_quoted(value: Seq<char>) -> bool {
    value.len() > 0 && value[0] == '"'
}

/// Whether setting a member gives a text whatever number or text stood under
/// that key before.
pub open spec fn is_overwritten(
    object: Seq<char>,
    key: Seq<char>,
    value: Seq<char>,
    text: Seq<char>,
) -> bool {
    forall|given: Seq<char>|
        is_plain(given) && (#[trigger] json_with_member(object, key, given)) is Some
            ==> json_with_member(json_with_member(object, key, given)->0, key, value) == Some(text)
}

/// Whether setting a member, which gives a text, can change places with setting
/// another one that is there already.
pub open spec fn is_exchangeable(
    object: Seq<char>,
    key: Seq<char>,
    value: Seq<char>,
    text: Seq<char>,
) -> bool {
    forall|other: Seq<char>, given: Seq<char>|
        other != key && is_plain(given) && json_member(object, other) is Some && (
        #[trigger] json_with_member(object, other, given)) is Some ==> json_with_member(
            json_with_member(object, other, given)->0,
            key,
            value,
        ) == json_with_member(text, other, given)
}

/// What setting a member to a number or a text makes of an object: the member
/// is read back, those under other keys that are numbers or texts keep their
/// text, and members can be set again. A compact object stays compact, and
/// what the member was before leaves no trace.
pub open spec fn is_set(
    object: Seq<char>,
    key: Seq<char>,
    value: Seq<char>,
    text: Seq<char>,
) -> bool {
    &&& json_member(text, key) == Some(value)
    &&& forall|other: Seq<char>|
        other != key && json_member(object, other) is Some && is_plain(
            json_member(object, other)->0,
        ) ==> #[trigger] json_member(text, other) == json_member(object, other)
    &&& forall|other: Seq<char>, given: Seq<char>|
        is_plain(given) ==> (#[trigger] json_with_member(text, other, given)) is Some
    &&& is_compact(object) ==> is_compact(text)
    &&& is_compact(object) ==> is_overwritten(object, key, value, text)
    &&& is_compact(object) ==> is_exchangeable(object, key, value, text)
}

/// Whether no member of a text can be set.
pub open spec fn has_no_members(object: Seq<char>) -> bool {
    forall|other: Seq<char>, given: Seq<char>|
        (#[trigger] json_with_member(object, other, given)) is None
}

/// Calls the `Display` of `serde_json::Value` on a string value, which quotes
/// the text and escapes quotation marks, backslashes and control characters.
#[verifier::external_body]
fn quote(text: &str) -> (quoted: String)
    ensures
        quoted@ == json_string(text@),
{
    serde_json::Value::String(text.to_owned()).to_string()
}

/// Calls `serde_json::from_str` for a `serde_json::Value` and writes the value
/// in its compact form, or reports the error in words; named by
/// [`json_canonical`].
#[verifier::external_body]
fn canonical(text: &str) -> (result: Result<String, String>)
    ensures
        text::outcome(result) == json_canonical(text@),
{
    let value = serde_json::from_str::<serde_json::Value>(text).map_err(|error| error.to_string())?;
    Ok(value.to_string())
}

/// Whether bytes read as a JSON value.
pub uninterp spec fn json_is_readable(payload: Seq<u8>) -> bool;

/// Calls `serde_json::from_slice` for a `serde_json::Value` and tells whether it
/// succeeded; named by [`json_is_readable`].
#[verifier::external_body]
pub(crate) fn reads_as_json(payload: &[u8]) -> (result: bool)
    ensures
        result == json_is_readable(payload@),
{
    serde_json::from_slice::<serde_json::Value>(payload).is_ok()
}

/// Calls `serde_json::Value::get` on the value of a text; named by
/// [`json_member`]. Where the text is that of an object written out of its
/// members, and can be read at all, a member is read as it was written. A
/// member of a compact object is read alike whatever number or text is set
/// under another key, and as such a value where that is set under its own.
#[verifier::external_body]
fn read_member(object: &str, key: &str) -> (result: Option<String>)
    ensures
        text::opt_text(result) == json_member(object@, key@),
        forall|value: Seq<char>| #[trigger]
            has_member(object@, key@, value) ==> text::opt_text(result) == Some(value),
        is_compact(object@) ==> is_read_alike(object@, key@, text::opt_text(result)),
{
    let value: serde_json::Value = serde_json::from_str(object).ok()?;
    value.get(key).map(|member| member.to_string())
}

/// Calls `serde_json::Map::insert` on the object of a text; named by
/// [`json_with_member`]. What is claimed of a number or a text that is set is
/// [`is_set`]; where such a value cannot be set, the text is no object and no
/// member of it can be. Of other values nothing is claimed beyond the name: one
/// that is nested too deeply makes a text that cannot be read.
#[verifier::external_body]
fn write_member(object: &str, key: &str, value: &str) -> (result: Option<String>)
    ensures
        text::opt_text(result) == json_with_member(object@, key@, value@),
        is_plain(value@) ==> (result matches Some(text) ==> is_set(object@, key@, value@, text@)),
        is_plain(value@) ==> (result is None ==> has_no_members(object@)),
{
    let mut members: serde_json::Map<String, serde_json::Value> = serde_json::from_str(object).ok()?;
    members.insert(key.to_owned(), serde_json::from_str(value).ok()?);
    Some(serde_json::Value::Object(members).to_string())
}

/// Calls `serde_json::from_str` for a `u64`; named by [`json_unsigned`].
/// Decimal notation is read as the number it denotes.
#[verifier::external_body]
fn read_unsigned(text: &str) -> (result: Option<u64>)
    ensures
        result == json_unsigned(text@),
        forall|number: u64| text@ == #[trigger] text::decimal(number as nat) ==> result == Some(number),
{
    serde_json::from_str::<u64>(text).ok()
}

/// Calls `serde_json::from_str` for a `String`; named by [`json_text`]. What
/// quotation writes is read back as the text that was quoted.
#[verifier::external_body]
fn read_text(text: &str) -> (result: Option<String>)
    ensures
        text::opt_text(result) == json_text(text@),
        forall|quoted: Seq<char>|
            text@ == #[trigger] json_string(quoted) ==> text::opt_text(result) == Some(quoted),
{
    serde_json::from_str::<String>(text).ok()
}

/// A JSON value, held as its compact text.
#[derive(Debug, PartialEq, Eq)]
pub struct JsonValue {
    text: String,
}

impl View for JsonValue {
    type V = Seq<char>;

    closed spec fn view(&self) -> Seq<char> {
        self.text@
    }
}

impl Clone for JsonValue {
    fn clone(&self) -> (result: Self)
        ensures
            result@ == self@,
    {
        JsonValue { text: self.text.clone() }
    }
}

impl JsonValue {
    /// Reads a JSON text, or says why it cannot be read.
    pub fn parse(text: &str) -> (result: Result<Self, String>)
        ensures
            match json_canonical(text@) {
                Ok(value) => result is Ok && result->Ok_0@ == value,
                Err(reason) => result is Err && result->Err_0@ == reason,
            },
    {
        match canonical(text) {
            Ok(text) => Ok(JsonValue { text }),
            Err(reason) => Err(reason),
        }
    }

    /// The JSON string that denotes a text.
    pub fn string(text: &str) -> (result: Self)
        ensures
            result@ == json_string(text@),
    {
        JsonValue { text: quote(text) }
    }

    /// The JSON number of an unsigned integer.
    pub fn unsigned(value: u64) -> (result: Self)
        ensures
            result@ == text::decimal(value as nat),
    {
        JsonValue { text: text::decimal_text(value) }
    }

    /// The object without members.
    pub fn empty_object() -> (result: Self)
        ensures
            result@ == "{}"@,
    {
        JsonValue { text: "{}".to_string() }
    }

    /// The compact text of the value.
    pub fn to_string(&self) -> (text: String)
        ensures
            text@ == self@,
    {
        self.text.clone()
    }

    /// The compact text of the value, borrowed.
    pub fn as_str(&self) -> (text: &str)
        ensures
            text@ == self@,
    {
        self.text.as_str()
    }

    /// The member of an object.
    pub fn member(&self, key: &str) -> (result: Option<Self>)
        ensures
            match json_member(self@, key@) {
                Some(value) => result is Some && result->0@ == value,
                None => result is None,
            },
            forall|value: Seq<char>| #[trigger]
                has_member(self@, key@, value) ==> json_member(self@, key@) == Some(value),
            is_compact(self@) ==> is_read_alike(self@, key@, json_member(self@, key@)),
    {
        match read_member(self.text.as_str(), key) {
            Some(text) => Some(JsonValue { text }),
            None => None,
        }
    }

    /// The object with one member set; nothing when the value is no object.
    pub fn with_member(&self, key: &str, value: &JsonValue) -> (result: Option<Self>)
        ensures
            match json_with_member(self@, key@, value@) {
                Some(text) => result is Some && result->0@ == text,
                None => result is None,
            },
            is_plain(value@) ==> (result matches Some(written) ==> is_set(
                self@,
                key@,
                value@,
                written@,
            )),
            is_plain(value@) ==> (result is None ==> has_no_members(self@)),
    {
        match write_member(self.text.as_str(), key, value.text.as_str()) {
            Some(text) => Some(JsonValue { text }),
            None => None,
        }
    }

    /// The unsigned number that the value is, if it is one.
    pub fn as_unsigned(&self) -> (result: Option<u64>)
        ensures
            result == json_unsigned(self@),
            forall|number: u64|
                self@ == #[trigger] text::decimal(number as nat) ==> result == Some(number),
    {
        read_unsigned(self.text.as_str())
    }

    /// The text that the value denotes, if it is a string.
    pub fn as_text(&self) -> (result: Option<String>)
        ensures
            text::opt_text(result) == json_text(self@),
            forall|quoted: Seq<char>|
                self@ == #[trigger] json_string(quoted) ==> text::opt_text(result) == Some(quoted),
    {
        read_text(self.text.as_str())
    }

    /// Whether the value is a string.
    pub fn is_text(&self) -> (result: bool)
        ensures
            result == is_quoted(self@),
    {
        proof {
            reveal_strlit("\"");
            assert(text::has_prefix(self@, "\""@) ==> self@.subrange(0, 1)[0] == '"');
        }
        text::starts_with(self.text.as_str(), "\"")
    }

    /// A value of which the compact text is at hand.
    pub(crate) fn from_compact(text: String) -> (result: Self)
        ensures
            result@ == text@,
    {
        JsonValue { text }
    }

    /// `{"error":...}`: what a failed tool call reports.
    pub fn error_report(message: &str) -> (result: Self)
        ensures
            result@ == error_report_text(message@),
    {
        let quoted = quote(message);
        JsonValue { text: "{\"error\":".to_string().concat(quoted.as_str()).concat("}") }
    }

    /// `{"truncated":true}`: stands for arguments that were left out.
    pub fn truncation_flag() -> (result: Self)
        ensures
            result@ == truncation_flag_text(),
    {
        JsonValue { text: "{\"truncated\":true}".to_string() }
    }

    /// `{"preview":...,"truncated":true}`: stands for content that was cut.
    pub fn truncation_marker(preview: &str) -> (result: Self)
        ensures
            result@ == truncation_marker_text(preview@),
    {
        let quoted = quote(preview);
        JsonValue {
            text: "{\"preview\":".to_string().concat(quoted.as_str()).concat(
                ",\"truncated\":true}",
            ),
        }
    }
}

/// Text of the report of a failed tool call.
pub open spec fn error_report_text(message: Seq<char>) -> Seq<char> {
    "{\"error\":"@ + json_string(message) + "}"@
}

/// Text of the flag that stands for left-out arguments.
pub open spec fn truncation_flag_text() -> Seq<char> {
    "{\"truncated\":true}"@
}

/// Text of the marker that stands for cut content.
pub open spec fn truncation_marker_text(preview: Seq<char>) -> Seq<char> {
    "{\"preview\":"@ + json_string(preview) + ",\"truncated\":true}"@
}

/// What can come after the backslash of an escape, and how an escape starts.
proof fn escapes_start_apart(left: char, right: char)
    requires
        left != right,
    ensures
        !json_escape(left).is_prefix_of(json_escape(right)),
        json_escape(left).len() >= 1,
{
    if json_escape(left).is_prefix_of(json_escape(right)) {
        let a = json_escape(left);
        let b = json_escape(right);
        assert(forall|i: int| 0 <= i < a.len() ==> a[i] == #[trigger] b[i]);
        assert(a[0] == b[0]);
        if a.len() > 1 {
            assert(a[1] == b[1]);
        }
        if a.len() > 2 {
            assert(a[4] == b[4]);
            assert(a[5] == b[5]);
            ids::hex_digit_is_injective(left as nat / 16, right as nat / 16);
            ids::hex_digit_is_injective(left as nat % 16, right as nat % 16);
        }
    }
}

/// Texts that are written alike inside a JSON string are the same.
proof fn json_contents_are_injective(left: Seq<char>, right: Seq<char>)
    requires
        json_contents(left) == json_contents(right),
    ensures
        left == right,
    decreases left.len(),
{
    if left.len() == 0 || right.len() == 0 {
        if left.len() > 0 {
            escapes_are_not_empty(left);
        }
        if right.len() > 0 {
            escapes_are_not_empty(right);
        }
        assert(left =~= right);
    } else {
        contents_from_front(left);
        contents_from_front(right);
        let a = json_escape(left[0]);
        let b = json_escape(right[0]);
        let whole = json_contents(left);
        if left[0] != right[0] {
            escapes_start_apart(left[0], right[0]);
            escapes_start_apart(right[0], left[0]);
            if a.len() <= b.len() {
                assert(forall|i: int| 0 <= i < a.len() ==> a[i] == whole[i]);
                assert(forall|i: int| 0 <= i < b.len() ==> b[i] == whole[i]);
                assert(a =~= b.take(a.len() as int));
            } else {
                assert(forall|i: int| 0 <= i < a.len() ==> a[i] == whole[i]);
                assert(forall|i: int| 0 <= i < b.len() ==> b[i] == whole[i]);
                assert(b =~= a.take(b.len() as int));
            }
        } else {
            assert(json_contents(left.drop_first()) =~= whole.skip(a.len() as int));
            assert(json_contents(right.drop_first()) =~= whole.skip(a.len() as int));
            json_contents_are_injective(left.drop_first(), right.drop_first());
            assert(left =~= seq![left[0]] + left.drop_first());
            assert(right =~= seq![right[0]] + right.drop_first());
        }
    }
}

proof fn escapes_are_not_empty(text: Seq<char>)
    requires
        text.len() > 0,
    ensures
        json_contents(text).len() > 0,
{
    assert(json_escape(text.last()).len() >= 1);
}

/// What a JSON string holds can be read from the front as well.
proof fn contents_from_front(text: Seq<char>)
    requires
        text.len() > 0,
    ensures
        json_contents(text) == json_escape(text[0]) + json_contents(text.drop_first()),
    decreases text.len(),
{
    if text.len() == 1 {
        assert(text.drop_last() =~= Seq::empty());
        assert(text.drop_first() =~= Seq::empty());
        assert(json_contents(Seq::empty()) =~= Seq::<char>::empty());
        assert(json_contents(text) =~= json_escape(text[0]));
    } else {
        contents_from_front(text.drop_last());
        assert(text.drop_last().drop_first() =~= text.drop_first().drop_last());
        assert(text.drop_first().last() == text.last());
        assert(json_contents(text) =~= json_escape(text[0]) + json_contents(text.drop_first()));
    }
}

/// JSON strings denote the same text only when they are the same.
pub proof fn json_string_is_injective(left: Seq<char>, right: Seq<char>)
    requires
        json_string(left) == json_string(right),
    ensures
        left == right,
{
    let a = json_string(left);
    let b = json_string(right);
    assert(a.subrange(1, a.len() - 1) =~= json_contents(left));
    assert(b.subrange(1, b.len() - 1) =~= json_contents(right));
    json_contents_are_injective(left, right);
}

/// A text is written character by character: the strings of two texts in a row
/// hold what the strings of each hold, and a character that needs no escape stands
/// for itself.
pub proof fn strings_are_written_character_by_character(
    left: Seq<char>,
    right: Seq<char>,
    value: char,
)
    ensures
        json_contents(left + right) == json_contents(left) + json_contents(right),
        json_contents(Seq::empty()) == Seq::<char>::empty(),
        value != '"' && value != '\\' && value as nat >= 32 ==> json_contents(seq![value])
            == seq![value],
        json_contents(seq!['"']) == seq!['\\', '"'],
        json_contents(seq!['\\']) == seq!['\\', '\\'],
        json_contents(seq!['\n']) == seq!['\\', 'n'],
        json_string(left) == seq!['"'] + json_contents(left) + seq!['"'],
    decreases right.len(),
{
    reveal_with_fuel(json_contents, 2);
    assert(seq![value].drop_last() =~= Seq::<char>::empty());
    assert(seq!['"'].drop_last() =~= Seq::<char>::empty());
    assert(seq!['\\'].drop_last() =~= Seq::<char>::empty());
    assert(seq!['\n'].drop_last() =~= Seq::<char>::empty());
    assert(json_contents(seq![value]) =~= json_escape(value));
    assert(json_contents(seq!['"']) =~= json_escape('"'));
    assert(json_contents(seq!['\\']) =~= json_escape('\\'));
    assert(json_contents(seq!['\n']) =~= json_escape('\n'));
    if right.len() == 0 {
        assert(left + right =~= left);
        assert(json_contents(left) + json_contents(right) =~= json_contents(left));
    } else {
        strings_are_written_character_by_character(left, right.drop_last(), value);
        assert((left + right).drop_last() =~= left + right.drop_last());
        assert(json_contents(left + right) =~= json_contents(left) + json_contents(right));
    }
}

} // verus!
