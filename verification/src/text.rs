//! Text primitives: how the engine joins, measures, compares and numbers
//! strings, stated over sequences of characters.
use vstd::prelude::*;
use vstd::utf8::*;

verus! {

/// The characters of each string, in order.
pub open spec fn texts(items: Seq<String>) -> Seq<Seq<char>> {
    items.map_values(|item: String| item@)
}

/// The characters of an optional string.
pub open spec fn opt_text(item: Option<String>) -> Option<Seq<char>> {
    match item {
        Some(value) => Some(value@),
        None => None,
    }
}

/// The characters of a text or of the reason for which there is none.
pub open spec fn outcome(item: Result<String, String>) -> Result<Seq<char>, Seq<char>> {
    match item {
        Ok(text) => Ok(text@),
        Err(reason) => Err(reason@),
    }
}

/// The characters of an optional borrowed string.
pub open spec fn opt_str(item: Option<&str>) -> Option<Seq<char>> {
    match item {
        Some(value) => Some(value@),
        None => None,
    }
}

/// What can be handed over as a text.
pub trait IntoText: Sized {
    /// The characters handed over.
    spec fn chars(self) -> Seq<char>;

    /// The text as an owned string.
    fn into_text(self) -> (text: String)
        ensures
            text@ == self.chars(),
    ;
}

impl IntoText for String {
    open spec fn chars(self) -> Seq<char> {
        self@
    }

    fn into_text(self) -> (text: String) {
        self
    }
}

impl<'a> IntoText for &'a str {
    open spec fn chars(self) -> Seq<char> {
        self@
    }

    fn into_text(self) -> (text: String) {
        self.to_string()
    }
}

/// The text of bytes, with replacement characters for what is no UTF-8.
pub uninterp spec fn lossy_text(payload: Seq<u8>) -> Seq<char>;

/// Calls `String::from_utf8_lossy`; named by [`lossy_text`]. Bytes that are
/// UTF-8 give the text that they encode.
#[verifier::external_body]
pub(crate) fn read_lossy(payload: &[u8]) -> (text: String)
    ensures
        text@ == lossy_text(payload@),
        valid_utf8(payload@) ==> text@ == decode_utf8(payload@),
{
    String::from_utf8_lossy(payload).into_owned()
}

/// Specification of [`String::push`]: the character is appended at the end.
pub assume_specification[ String::push ](value: &mut String, appended: char)
    ensures
        final(value)@ == old(value)@.push(appended),
;

/// Whether a character has the Unicode `White_Space` property.
pub open spec fn whitespace(value: char) -> bool {
    let code = value as u32;
    ||| 0x9 <= code <= 0xd
    ||| code == 0x20
    ||| code == 0x85
    ||| code == 0xa0
    ||| code == 0x1680
    ||| 0x2000 <= code <= 0x200a
    ||| 0x2028 <= code <= 0x2029
    ||| code == 0x202f
    ||| code == 0x205f
    ||| code == 0x3000
}

/// Calls [`char::is_whitespace`], which holds of the characters with the Unicode
/// `White_Space` property and of no others.
#[verifier::external_body]
fn char_is_whitespace(value: char) -> (result: bool)
    ensures
        result == whitespace(value),
{
    value.is_whitespace()
}

/// A text without any character that is not white space; the empty text is blank.
pub open spec fn blank(text: Seq<char>) -> bool {
    forall|i: int| 0 <= i < text.len() ==> whitespace(#[trigger] text[i])
}

/// Whether nothing is left of the text once white space is trimmed off.
pub fn is_blank(text: &str) -> (result: bool)
    ensures
        result == blank(text@),
{
    let chars = characters(text);
    let mut index: usize = 0;
    while index < chars.len()
        invariant
            index <= chars.len(),
            chars@ == text@,
            forall|i: int| 0 <= i < index ==> whitespace(#[trigger] text@[i]),
        decreases chars.len() - index,
    {
        if !char_is_whitespace(chars[index]) {
            return false;
        }
        index = index + 1;
    }
    true
}

/// The characters of a text as a vector.
pub fn characters(text: &str) -> (result: Vec<char>)
    ensures
        result@ == text@,
{
    let mut result: Vec<char> = Vec::new();
    for value in iter: text.chars()
        invariant
            result@ == iter.seq().take(iter.index()),
            iter.seq() == text@,
    {
        result.push(value);
    }
    result
}

/// Whether two texts hold the same characters.
pub fn same_text(left: &str, right: &str) -> (result: bool)
    ensures
        result == (left@ == right@),
{
    left.to_owned() == right.to_owned()
}

/// Number of bytes of the UTF-8 encoding of a text.
pub open spec fn byte_count(text: Seq<char>) -> nat {
    encode_utf8(text).len()
}

/// Length of a text in bytes.
pub fn byte_len(text: &str) -> (result: usize)
    ensures
        result == byte_count(text@),
{
    text.as_bytes().len()
}

/// Bytes of two texts in a row add up.
pub proof fn byte_count_add(left: Seq<char>, right: Seq<char>)
    ensures
        byte_count(left + right) == byte_count(left) + byte_count(right),
        encode_utf8(left + right) == encode_utf8(left) + encode_utf8(right),
    decreases left.len(),
{
    if left.len() == 0 {
        assert(left + right =~= right);
        assert(encode_utf8(left) + encode_utf8(right) =~= encode_utf8(right));
    } else {
        byte_count_add(left.drop_first(), right);
        assert((left + right).drop_first() =~= left.drop_first() + right);
        assert((left + right)[0] == left[0]);
        assert(encode_utf8(left + right) =~= encode_utf8(left) + encode_utf8(right));
    }
}

/// A prefix takes no more bytes than a longer one.
pub proof fn byte_count_grows(text: Seq<char>, short: int, long: int)
    requires
        0 <= short <= long <= text.len(),
    ensures
        byte_count(text.take(short)) <= byte_count(text.take(long)),
{
    assert(text.take(long) =~= text.take(short) + text.subrange(short, long));
    byte_count_add(text.take(short), text.subrange(short, long));
}

/// No text has more characters than bytes.
pub proof fn characters_are_at_most_bytes(text: Seq<char>)
    ensures
        text.len() <= byte_count(text),
    decreases text.len(),
{
    if text.len() > 0 {
        characters_are_at_most_bytes(text.drop_first());
    }
}

/// The character of a decimal digit.
pub open spec fn digit_char(digit: nat) -> char {
    (48 + digit) as char
}

/// Decimal notation of a natural number, without leading zeros.
pub open spec fn decimal(value: nat) -> Seq<char>
    decreases value,
{
    if value < 10 {
        seq![digit_char(value)]
    } else {
        decimal(value / 10).push(digit_char(value % 10))
    }
}

/// Decimal notation of a number.
pub fn decimal_text(value: u64) -> (result: String)
    ensures
        result@ == decimal(value as nat),
    decreases value,
{
    let digit: u8 = (value % 10) as u8;
    let last: char = (48u8 + digit) as char;
    if value < 10 {
        let mut result = String::new();
        result.push(last);
        assert(result@ =~= seq![digit_char(value as nat)]);
        result
    } else {
        let mut result = decimal_text(value / 10);
        result.push(last);
        result
    }
}

/// Decimal notation of a size.
pub fn size_text(value: usize) -> (result: String)
    ensures
        result@ == decimal(value as nat),
{
    decimal_text(value as u64)
}

/// Decimal notation never contains a character other than the ten digits.
pub proof fn decimal_has_only_digits(value: nat, index: int)
    requires
        0 <= index < decimal(value).len(),
    ensures
        '0' <= decimal(value)[index] <= '9',
    decreases value,
{
    if value >= 10 {
        if index < decimal(value).len() - 1 {
            decimal_has_only_digits(value / 10, index);
        }
    }
}

/// Different numbers have different decimal notations.
pub proof fn decimal_is_injective(left: nat, right: nat)
    requires
        decimal(left) == decimal(right),
    ensures
        left == right,
    decreases left,
{
    assert(decimal(left).last() == digit_char(left % 10));
    assert(decimal(right).last() == digit_char(right % 10));
    assert(left % 10 == right % 10);
    if left < 10 || right < 10 {
        if left >= 10 {
            assert(decimal(left / 10).len() >= 1);
        }
        if right >= 10 {
            assert(decimal(right / 10).len() >= 1);
        }
    } else {
        assert(decimal(left).drop_last() =~= decimal(left / 10));
        assert(decimal(right).drop_last() =~= decimal(right / 10));
        decimal_is_injective(left / 10, right / 10);
    }
}

/// The parts in order, with the separator between neighbours.
pub open spec fn joined(parts: Seq<Seq<char>>, separator: Seq<char>) -> Seq<char>
    decreases parts.len(),
{
    if parts.len() == 0 {
        Seq::empty()
    } else if parts.len() == 1 {
        parts[0]
    } else {
        joined(parts.drop_last(), separator) + separator + parts.last()
    }
}

/// Joins strings with a separator between neighbours.
pub fn join(parts: &[String], separator: &str) -> (result: String)
    ensures
        result@ == joined(texts(parts@), separator@),
{
    let mut result = String::new();
    let mut index: usize = 0;
    while index < parts.len()
        invariant
            index <= parts.len(),
            result@ == joined(texts(parts@.take(index as int)), separator@),
        decreases parts.len() - index,
    {
        proof {
            let before = texts(parts@.take(index as int));
            let after = texts(parts@.take(index + 1));
            assert(after.drop_last() =~= before);
        }
        if index > 0 {
            result.append(separator);
        }
        result.append(parts[index].as_str());
        index = index + 1;
    }
    assert(parts@.take(parts@.len() as int) =~= parts@);
    result
}

/// The text without the slashes at its end.
pub open spec fn without_trailing_slashes(text: Seq<char>) -> Seq<char>
    decreases text.len(),
{
    if text.len() > 0 && text.last() == '/' {
        without_trailing_slashes(text.drop_last())
    } else {
        text
    }
}

/// Cuts every slash off the end of a text.
pub fn trim_trailing_slashes(text: &str) -> (result: String)
    ensures
        result@ == without_trailing_slashes(text@),
{
    let mut end: usize = text.unicode_len();
    assert(text@.take(end as int) =~= text@);
    while end > 0 && text.get_char(end - 1) == '/'
        invariant
            end <= text@.len(),
            without_trailing_slashes(text@.take(end as int)) == without_trailing_slashes(text@),
        decreases end,
    {
        assert(text@.take(end as int).drop_last() =~= text@.take(end - 1));
        end = end - 1;
    }
    text.substring_char(0, end).to_string()
}

/// Whether a text starts with a prefix.
pub open spec fn has_prefix(text: Seq<char>, prefix: Seq<char>) -> bool {
    prefix.is_prefix_of(text)
}

/// A text without the white space in front of it.
pub open spec fn without_leading_space(text: Seq<char>) -> Seq<char>
    decreases text.len(),
{
    if text.len() > 0 && whitespace(text[0]) {
        without_leading_space(text.drop_first())
    } else {
        text
    }
}

/// A text without the white space behind it.
pub open spec fn without_trailing_space(text: Seq<char>) -> Seq<char>
    decreases text.len(),
{
    if text.len() > 0 && whitespace(text.last()) {
        without_trailing_space(text.drop_last())
    } else {
        text
    }
}

/// The characters of a text without the white space around it.
pub fn trimmed_characters(text: &str) -> (result: Vec<char>)
    ensures
        result@ == without_trailing_space(without_leading_space(text@)),
{
    let chars = characters(text);
    let mut start: usize = 0;
    assert(text@.skip(0) =~= text@);
    while start < chars.len() && char_is_whitespace(chars[start])
        invariant
            start <= chars.len(),
            chars@ == text@,
            without_leading_space(text@.skip(start as int)) == without_leading_space(text@),
        decreases chars.len() - start,
    {
        proof {
            assert(text@.skip(start as int)[0] == text@[start as int]);
            assert(text@.skip(start as int).drop_first() =~= text@.skip(start + 1));
        }
        start = start + 1;
    }
    let ghost led = text@.skip(start as int);
    proof {
        if start < chars.len() {
            assert(led[0] == text@[start as int]);
        }
        assert(without_leading_space(text@) == led);
    }
    let mut end: usize = chars.len();
    assert(led.take(end - start) =~= led);
    while end > start && char_is_whitespace(chars[end - 1])
        invariant
            start <= end <= chars.len(),
            chars@ == text@,
            led == text@.skip(start as int),
            without_trailing_space(led.take(end - start)) == without_trailing_space(led),
        decreases end,
    {
        proof {
            assert(led.take(end - start).last() == text@[end - 1]);
            assert(led.take(end - start).drop_last() =~= led.take(end - 1 - start));
        }
        end = end - 1;
    }
    proof {
        if end > start {
            assert(led.take(end - start).last() == text@[end - 1]);
        }
    }
    let mut result: Vec<char> = Vec::new();
    let mut index: usize = start;
    while index < end
        invariant
            start <= index <= end <= chars.len(),
            chars@ == text@,
            led == text@.skip(start as int),
            result@ == led.take(index - start),
        decreases end - index,
    {
        result.push(chars[index]);
        assert(led.take(index + 1 - start) =~= led.take(index - start).push(text@[index as int]));
        index = index + 1;
    }
    result
}

/// The value of a decimal digit, if a character is one.
pub open spec fn digit_value(value: char) -> Option<nat> {
    if '0' <= value && value <= '9' {
        Some((value as nat - 48) as nat)
    } else {
        None
    }
}

/// The number that decimal digits denote, whatever its size; nothing when a
/// character is no digit.
pub open spec fn digits_value(digits: Seq<char>) -> Option<nat>
    decreases digits.len(),
{
    if digits.len() == 0 {
        Some(0)
    } else {
        match (digits_value(digits.drop_last()), digit_value(digits.last())) {
            (Some(high), Some(low)) => Some(high * 10 + low),
            _ => None,
        }
    }
}

/// The unsigned number of 64 bits that a text denotes: decimal digits, at
/// least one, with or without a plus sign in front.
pub open spec fn unsigned_value(text: Seq<char>) -> Option<nat> {
    let digits = if text.len() > 0 && text[0] == '+' {
        text.drop_first()
    } else {
        text
    };
    if digits.len() == 0 {
        None
    } else {
        match digits_value(digits) {
            Some(value) => if value <= u64::MAX {
                Some(value)
            } else {
                None
            },
            None => None,
        }
    }
}

proof fn digits_value_grows(digits: Seq<char>, count: int)
    requires
        0 <= count <= digits.len(),
    ensures
        digits_value(digits) matches Some(value) ==> (digits_value(digits.take(count)) matches Some(
            part,
        ) && part <= value),
    decreases digits.len(),
{
    if count < digits.len() {
        digits_value_grows(digits.drop_last(), count);
        assert(digits.drop_last().take(count) =~= digits.take(count));
    } else {
        assert(digits.take(count) =~= digits);
    }
}

/// Reads an unsigned number.
pub fn parse_unsigned(text: &[char]) -> (result: Option<u64>)
    ensures
        match unsigned_value(text@) {
            Some(value) => result is Some && result->0 == value,
            None => result is None,
        },
{
    let start: usize = if text.len() > 0 && text[0] == '+' {
        1
    } else {
        0
    };
    let ghost digits = text@.skip(start as int);
    proof {
        assert(text@.skip(0) =~= text@);
        if text@.len() > 0 {
            assert(text@.skip(1) =~= text@.drop_first());
        }
    }
    if start >= text.len() {
        return None;
    }
    let mut value: u64 = 0;
    let mut index: usize = start;
    assert(digits.take(0) =~= Seq::<char>::empty());
    while index < text.len()
        invariant
            start <= index <= text.len(),
            digits == text@.skip(start as int),
            digits.len() > 0,
            unsigned_value(text@) == if digits_value(digits) matches Some(v) && v <= u64::MAX {
                digits_value(digits)
            } else {
                None
            },
            digits_value(digits.take(index - start)) == Some(value as nat),
        decreases text.len() - index,
    {
        let next = text[index];
        proof {
            let grown = digits.take(index + 1 - start);
            assert(grown.drop_last() =~= digits.take(index - start));
            assert(grown.last() == next);
            digits_value_grows(digits, index + 1 - start);
        }
        if !('0' <= next && next <= '9') {
            return None;
        }
        let low: u64 = (next as u32 - 48) as u64;
        let high: u64 = match value.checked_mul(10) {
            Some(high) => high,
            None => return None,
        };
        value = match high.checked_add(low) {
            Some(sum) => sum,
            None => return None,
        };
        index = index + 1;
    }
    assert(digits.take(digits.len() as int) =~= digits);
    Some(value)
}

/// Whether a text starts with a prefix.
pub fn starts_with(text: &str, prefix: &str) -> (result: bool)
    ensures
        result == has_prefix(text@, prefix@),
{
    let size: usize = prefix.unicode_len();
    if text.unicode_len() < size {
        return false;
    }
    let head = text.substring_char(0, size);
    let result = same_text(head, prefix);
    assert(text@.subrange(0, size as int) == text@.take(size as int));
    result
}

/// Lexicographic order of texts by the code points of their characters.
pub open spec fn text_before(left: Seq<char>, right: Seq<char>) -> bool
    decreases left.len(),
{
    if right.len() == 0 {
        false
    } else if left.len() == 0 {
        true
    } else if left[0] != right[0] {
        left[0] < right[0]
    } else {
        text_before(left.drop_first(), right.drop_first())
    }
}

/// Whether the left text precedes the right one lexicographically.
pub fn is_text_before(left: &str, right: &str) -> (result: bool)
    ensures
        result == text_before(left@, right@),
{
    let a = characters(left);
    let b = characters(right);
    let mut index: usize = 0;
    assert(left@.skip(0) =~= left@);
    assert(right@.skip(0) =~= right@);
    while index < a.len() && index < b.len()
        invariant
            index <= a.len(),
            index <= b.len(),
            a@ == left@,
            b@ == right@,
            text_before(left@, right@) == text_before(
                left@.skip(index as int),
                right@.skip(index as int),
            ),
        decreases a.len() - index,
    {
        proof {
            assert(left@.skip(index as int).drop_first() =~= left@.skip(index + 1));
            assert(right@.skip(index as int).drop_first() =~= right@.skip(index + 1));
        }
        if a[index] != b[index] {
            return a[index] < b[index];
        }
        index = index + 1;
    }
    index < b.len()
}

/// Two texts are ordered by the first character in which they differ.
pub proof fn first_difference_decides(left: Seq<char>, right: Seq<char>, index: int)
    requires
        0 <= index < left.len(),
        index < right.len(),
        forall|j: int| 0 <= j < index ==> #[trigger] left[j] == right[j],
        left[index] != right[index],
    ensures
        text_before(left, right) == (left[index] < right[index]),
    decreases index,
{
    if index > 0 {
        assert(left[0] == right[0]);
        assert forall|j: int| 0 <= j < index - 1 implies #[trigger] left.drop_first()[j]
            == right.drop_first()[j] by {
            assert(left[j + 1] == right[j + 1]);
        }
        first_difference_decides(left.drop_first(), right.drop_first(), index - 1);
    }
}

/// Two different texts are ordered one way or the other.
pub proof fn text_order_is_total(left: Seq<char>, right: Seq<char>)
    ensures
        text_before(left, right) || text_before(right, left) || left == right,
        !(text_before(left, right) && text_before(right, left)),
    decreases left.len(),
{
    if left.len() > 0 && right.len() > 0 {
        text_order_is_total(left.drop_first(), right.drop_first());
        if left[0] == right[0] && left.drop_first() == right.drop_first() {
            assert(left =~= seq![left[0]] + left.drop_first());
            assert(right =~= seq![right[0]] + right.drop_first());
        }
    } else if left.len() == 0 && right.len() == 0 {
        assert(left =~= right);
    }
}

/// No text precedes itself.
pub proof fn text_order_is_irreflexive(text: Seq<char>)
    ensures
        !text_before(text, text),
    decreases text.len(),
{
    if text.len() > 0 {
        text_order_is_irreflexive(text.drop_first());
    }
}

/// The order of texts is transitive.
pub proof fn text_order_is_transitive(a: Seq<char>, b: Seq<char>, c: Seq<char>)
    requires
        text_before(a, b),
        text_before(b, c),
    ensures
        text_before(a, c),
    decreases a.len(),
{
    if a.len() > 0 && a[0] == b[0] && b[0] == c[0] {
        text_order_is_transitive(a.drop_first(), b.drop_first(), c.drop_first());
    }
}

/// Joining loses no part and adds nothing but separators: one part stands for
/// itself, and two lists in a row are joined by one separator.
pub proof fn joining_keeps_all_parts(
    left: Seq<Seq<char>>,
    right: Seq<Seq<char>>,
    part: Seq<char>,
    separator: Seq<char>,
)
    ensures
        joined(Seq::empty(), separator) == Seq::<char>::empty(),
        joined(seq![part], separator) == part,
        left.len() > 0 && right.len() > 0 ==> joined(left + right, separator) == joined(
            left,
            separator,
        ) + separator + joined(right, separator),
    decreases right.len(),
{
    if left.len() > 0 && right.len() > 0 {
        let all = left + right;
        assert(all.drop_last() =~= left + right.drop_last());
        assert(all.last() == right.last());
        if right.len() == 1 {
            assert(left + right.drop_last() =~= left);
        } else {
            joining_keeps_all_parts(left, right.drop_last(), part, separator);
        }
        assert(joined(all, separator) =~= joined(left, separator) + separator + joined(
            right,
            separator,
        ));
    }
}

/// What is cut off the end of a text is slashes, all that there are.
pub proof fn only_trailing_slashes_go(text: Seq<char>)
    ensures
        ({
            let kept = without_trailing_slashes(text);
            &&& kept.is_prefix_of(text)
            &&& forall|i: int| kept.len() <= i < text.len() ==> #[trigger] text[i] == '/'
            &&& kept.len() > 0 ==> kept.last() != '/'
        }),
    decreases text.len(),
{
    if text.len() > 0 && text.last() == '/' {
        only_trailing_slashes_go(text.drop_last());
        let kept = without_trailing_slashes(text);
        assert forall|i: int| kept.len() <= i < text.len() implies #[trigger] text[i] == '/' by {
            if i < text.len() - 1 {
                assert(text.drop_last()[i] == '/');
            }
        }
    }
}

/// What is cut off the ends of a text is white space, all that there is.
pub proof fn only_outer_space_goes(text: Seq<char>)
    ensures
        ({
            let rest = without_leading_space(text);
            let start = text.len() - rest.len();
            let kept = without_trailing_space(rest);
            &&& 0 <= start <= text.len()
            &&& rest == text.skip(start)
            &&& kept.is_prefix_of(rest)
            &&& forall|i: int| 0 <= i < start ==> whitespace(#[trigger] text[i])
            &&& forall|i: int| kept.len() <= i < rest.len() ==> whitespace(#[trigger] rest[i])
            &&& kept.len() > 0 ==> !whitespace(kept[0]) && !whitespace(kept.last())
        }),
{
    leading_space_goes(text);
    trailing_space_goes(without_leading_space(text));
}

proof fn leading_space_goes(text: Seq<char>)
    ensures
        ({
            let rest = without_leading_space(text);
            let start = text.len() - rest.len();
            &&& 0 <= start <= text.len()
            &&& rest == text.skip(start)
            &&& forall|i: int| 0 <= i < start ==> whitespace(#[trigger] text[i])
            &&& rest.len() > 0 ==> !whitespace(rest[0])
        }),
    decreases text.len(),
{
    if text.len() > 0 && whitespace(text[0]) {
        let after = text.drop_first();
        leading_space_goes(after);
        let rest = without_leading_space(text);
        let start = text.len() - rest.len();
        assert(rest =~= text.skip(start));
        assert forall|i: int| 0 <= i < start implies whitespace(#[trigger] text[i]) by {
            if i > 0 {
                assert(whitespace(after[i - 1]));
            }
        }
    } else {
        assert(text.skip(0) =~= text);
    }
}

proof fn trailing_space_goes(text: Seq<char>)
    ensures
        ({
            let kept = without_trailing_space(text);
            &&& kept.is_prefix_of(text)
            &&& forall|i: int| kept.len() <= i < text.len() ==> whitespace(#[trigger] text[i])
            &&& kept.len() > 0 ==> !whitespace(kept.last())
        }),
    decreases text.len(),
{
    if text.len() > 0 && whitespace(text.last()) {
        trailing_space_goes(text.drop_last());
        let kept = without_trailing_space(text);
        assert forall|i: int| kept.len() <= i < text.len() implies whitespace(#[trigger] text[i]) by {
            if i < text.len() - 1 {
                assert(whitespace(text.drop_last()[i]));
            }
        }
    }
}

/// A number that was written is read back, with or without a sign before it.
pub proof fn written_numbers_are_read(value: nat)
    ensures
        digits_value(decimal(value)) == Some(value),
        value <= u64::MAX ==> unsigned_value(decimal(value)) == Some(value),
        value <= u64::MAX ==> unsigned_value(seq!['+'] + decimal(value)) == Some(value),
        value > u64::MAX ==> unsigned_value(decimal(value)) is None,
    decreases value,
{
    let text = decimal(value);
    if value < 10 {
        assert(text.drop_last() =~= Seq::<char>::empty());
        reveal_with_fuel(digits_value, 2);
    } else {
        written_numbers_are_read(value / 10);
        assert(text.drop_last() =~= decimal(value / 10));
    }
    decimal_has_only_digits(value, 0);
    assert((seq!['+'] + text).drop_first() =~= text);
}

} // verus!
