//! Identifiers of sessions, loops and memory nodes.
use vstd::arithmetic::div_mod::*;
use vstd::arithmetic::power2::*;
use vstd::prelude::*;

use crate::order::Order;
use crate::table::Key;
use crate::text;

verus! {

/// A 128-bit universally unique identifier, read as one big-endian number.
#[derive(Debug, Clone, Copy, PartialEq, Eq, PartialOrd, Ord, Hash, Structural)]
pub struct Uuid {
    pub bits: u128,
}

/// The lower-case hexadecimal digit of a number below sixteen.
pub open spec fn hex_digit(value: nat) -> char {
    if value < 10 {
        (48 + value) as char
    } else {
        (87 + value) as char
    }
}

/// The hexadecimal digit of an identifier at a position, counted from the most
/// significant one.
pub open spec fn nibble(bits: u128, position: nat) -> nat {
    (bits as nat / pow2((124 - 4 * position) as nat)) % 16
}

/// Positions of the hyphens in the text of an identifier.
pub open spec fn is_hyphen_position(index: int) -> bool {
    index == 8 || index == 13 || index == 18 || index == 23
}

/// Which hexadecimal digit stands at a position of the text of an identifier.
pub open spec fn digit_position(index: int) -> nat {
    (index - if index < 8 {
        0int
    } else if index < 13 {
        1
    } else if index < 18 {
        2
    } else if index < 23 {
        3
    } else {
        4
    }) as nat
}

/// The hyphenated lower-case notation of an identifier.
pub open spec fn hyphenated(bits: u128) -> Seq<char> {
    Seq::new(
        36,
        |index: int|
            if is_hyphen_position(index) {
                '-'
            } else {
                hex_digit(nibble(bits, digit_position(index)))
            },
    )
}

/// The identifier that a text denotes, or why it denotes none.
pub uninterp spec fn parsed_uuid(text: Seq<char>) -> Result<u128, Seq<char>>;

/// Calls `uuid::Uuid::new_v4`. The result is random; every outcome carries
/// version 4 and the RFC 9562 variant.
#[verifier::external_body]
fn random_uuid() -> (bits: u128)
    ensures
        nibble(bits, 12) == 4,
        8 <= nibble(bits, 16) < 12,
{
    uuid::Uuid::new_v4().as_u128()
}

/// Calls the `Display` of `uuid::Uuid`, which writes the hyphenated
/// lower-case notation.
#[verifier::external_body]
fn uuid_text(bits: u128) -> (text: String)
    ensures
        text@ == hyphenated(bits),
{
    uuid::Uuid::from_u128(bits).to_string()
}

/// What came of reading an identifier, with the reason as a text.
pub open spec fn reading(outcome: Result<u128, String>) -> Result<u128, Seq<char>> {
    match outcome {
        Ok(bits) => Ok(bits),
        Err(reason) => Err(reason@),
    }
}

/// Calls `uuid::Uuid::parse_str`, which takes the plain, hyphenated, braced
/// and URN notations and is named by [`parsed_uuid`]. The hyphenated notation
/// is read back as the identifier it was written from, and a text of any
/// length other than those four has is refused.
#[verifier::external_body]
fn parse_uuid(text: &str) -> (bits: Result<u128, String>)
    ensures
        reading(bits) == parsed_uuid(text@),
        forall|written: u128|
            text@ == #[trigger] hyphenated(written) ==> bits is Ok && bits->Ok_0 == written,
        text::byte_count(text@) != 32 && text::byte_count(text@) != 36 && text::byte_count(text@) != 38
            && text::byte_count(text@) != 45 ==> bits is Err,
{
    uuid::Uuid::parse_str(text).map(|value| value.as_u128()).map_err(|error| error.to_string())
}

/// The name-based identifier of a text in the object-identifier namespace.
pub uninterp spec fn uuid_of_name(name: Seq<char>) -> u128;

/// Calls `uuid::Uuid::new_v5` with the namespace for object identifiers: the
/// SHA-1 based identifier of the name.
#[verifier::external_body]
fn name_uuid(name: &str) -> (bits: u128)
    ensures
        bits == uuid_of_name(name@),
{
    uuid::Uuid::new_v5(&uuid::Uuid::NAMESPACE_OID, name.as_bytes()).as_u128()
}

/// Why a text is not an identifier.
#[derive(Debug, PartialEq, Eq)]
pub struct InvalidId {
    pub reason: String,
}

impl Uuid {
    /// A fresh random identifier.
    pub fn new_v4() -> (id: Self)
        ensures
            nibble(id.bits, 12) == 4,
            8 <= nibble(id.bits, 16) < 12,
    {
        Uuid { bits: random_uuid() }
    }

    /// The identifier that a name has in the object-identifier namespace.
    pub fn of_name(name: &str) -> (id: Self)
        ensures
            id.bits == uuid_of_name(name@),
    {
        Uuid { bits: name_uuid(name) }
    }

    /// The hyphenated lower-case notation.
    pub fn to_string(&self) -> (text: String)
        ensures
            text@ == hyphenated(self.bits),
    {
        uuid_text(self.bits)
    }

    /// Reads an identifier.
    pub fn parse(text: &str) -> (id: Result<Self, InvalidId>)
        ensures
            match parsed_uuid(text@) {
                Ok(bits) => id == Ok::<Self, InvalidId>(Uuid { bits }),
                Err(reason) => id is Err && id->Err_0.reason@ == reason,
            },
            forall|written: u128|
                text@ == #[trigger] hyphenated(written) ==> id == Ok::<Self, InvalidId>(
                    Uuid { bits: written },
                ),
            text::byte_count(text@) != 32 && text::byte_count(text@) != 36 && text::byte_count(text@) != 38
                && text::byte_count(text@) != 45 ==> id is Err,
    {
        match parse_uuid(text) {
            Ok(bits) => Ok(Uuid { bits }),
            Err(reason) => Err(InvalidId { reason }),
        }
    }
}

/// Equal digits at the leading positions leave the same leading part.
proof fn leading_digits_agree(left: u128, right: u128, count: nat)
    requires
        count <= 32,
        forall|k: nat| k < count ==> nibble(left, k) == #[trigger] nibble(right, k),
    ensures
        left as nat / pow2((128 - 4 * count) as nat) == right as nat / pow2(
            (128 - 4 * count) as nat,
        ),
    decreases count,
{
    if count == 0 {
        lemma2_to64_rest();
        lemma_pow2_adds(64, 64);
        assert(pow2(64) == 0x1_0000_0000_0000_0000) by {
            lemma2_to64();
        }
        assert(pow2(128) == 0x1_0000_0000_0000_0000 * 0x1_0000_0000_0000_0000);
        lemma_basic_div(left as int, pow2(128) as int);
        lemma_basic_div(right as int, pow2(128) as int);
    } else {
        let before = (count - 1) as nat;
        leading_digits_agree(left, right, before);
        let low = pow2((124 - 4 * before) as nat);
        let high = pow2((128 - 4 * before) as nat);
        lemma_pow2_adds((124 - 4 * before) as nat, 4);
        lemma2_to64();
        assert(high == low * 16);
        lemma_pow2_pos((124 - 4 * before) as nat);
        lemma_div_denominator(left as int, low as int, 16);
        lemma_div_denominator(right as int, low as int, 16);
        assert(nibble(left, before) == nibble(right, before));
        lemma_fundamental_div_mod((left as nat / low) as int, 16);
        lemma_fundamental_div_mod((right as nat / low) as int, 16);
        assert((128 - 4 * count) as nat == (124 - 4 * before) as nat);
    }
}

/// Numbers below sixteen with the same hexadecimal digit are equal.
pub proof fn hex_digit_is_injective(left: nat, right: nat)
    requires
        left < 16,
        right < 16,
        hex_digit(left) == hex_digit(right),
    ensures
        left == right,
{
    assert(hex_digit(left) as nat == if left < 10 { 48 + left } else { 87 + left });
    assert(hex_digit(right) as nat == if right < 10 { 48 + right } else { 87 + right });
}

/// Different identifiers have different texts.
pub proof fn hyphenated_is_injective(left: u128, right: u128)
    requires
        hyphenated(left) == hyphenated(right),
    ensures
        left == right,
{
    assert forall|k: nat| k < 32 implies nibble(left, k) == #[trigger] nibble(right, k) by {
        let index: int = k + if k < 8 {
            0int
        } else if k < 12 {
            1
        } else if k < 16 {
            2
        } else if k < 20 {
            3
        } else {
            4
        };
        assert(digit_position(index) == k);
        assert(!is_hyphen_position(index));
        assert(hyphenated(left)[index] == hex_digit(nibble(left, k)));
        assert(hyphenated(right)[index] == hex_digit(nibble(right, k)));
        hex_digit_is_injective(nibble(left, k), nibble(right, k));
    }
    leading_digits_agree(left, right, 32);
    lemma2_to64();
    assert(pow2(0) == 1);
    assert(left as nat / 1 == left as nat);
    assert(right as nat / 1 == right as nat);
}

/// The position of a digit in the text of an identifier.
spec fn text_position(digit: nat) -> int {
    digit + if digit < 8 {
        0int
    } else if digit < 12 {
        1
    } else if digit < 16 {
        2
    } else if digit < 20 {
        3
    } else {
        4
    }
}

/// Identifiers that agree in the leading digits and differ in the next one
/// are ordered by it, as are their texts.
proof fn next_digit_decides(left: u128, right: u128, count: nat)
    requires
        count < 32,
        forall|k: nat| k < count ==> nibble(left, k) == #[trigger] nibble(right, k),
        nibble(left, count) < nibble(right, count),
    ensures
        left < right,
        text::text_before(hyphenated(left), hyphenated(right)),
{
    leading_digits_agree(left, right, count);
    let low = pow2((124 - 4 * count) as nat);
    let high = pow2((128 - 4 * count) as nat);
    lemma_pow2_adds((124 - 4 * count) as nat, 4);
    lemma2_to64();
    assert(high == low * 16);
    lemma_pow2_pos((124 - 4 * count) as nat);
    lemma_div_denominator(left as int, low as int, 16);
    lemma_div_denominator(right as int, low as int, 16);
    lemma_fundamental_div_mod((left as nat / low) as int, 16);
    lemma_fundamental_div_mod((right as nat / low) as int, 16);
    assert(left as nat / low < right as nat / low);
    if left >= right {
        lemma_div_is_ordered(right as int, left as int, low as int);
    }
    let place = text_position(count);
    assert forall|j: int| 0 <= j < place implies #[trigger] hyphenated(left)[j] == hyphenated(right)[j] by {
        if !is_hyphen_position(j) {
            let digit = digit_position(j);
            assert(digit < count);
            assert(nibble(left, digit) == nibble(right, digit));
        }
    }
    assert(!is_hyphen_position(place));
    assert(digit_position(place) == count);
    let a = nibble(left, count);
    let b = nibble(right, count);
    assert(hex_digit(a) as nat == if a < 10 { 48 + a } else { 87 + a });
    assert(hex_digit(b) as nat == if b < 10 { 48 + b } else { 87 + b });
    text::first_difference_decides(hyphenated(left), hyphenated(right), place);
}

/// Identifiers that agree in the leading digits are ordered as their texts.
proof fn order_from(left: u128, right: u128, count: nat)
    requires
        count <= 32,
        forall|k: nat| k < count ==> nibble(left, k) == #[trigger] nibble(right, k),
    ensures
        text::text_before(hyphenated(left), hyphenated(right)) <==> left < right,
    decreases 32 - count,
{
    text::text_order_is_total(hyphenated(left), hyphenated(right));
    if count == 32 {
        leading_digits_agree(left, right, 32);
        lemma2_to64();
        assert(left as nat / 1 == left as nat);
        assert(right as nat / 1 == right as nat);
        text::text_order_is_irreflexive(hyphenated(left));
    } else if nibble(left, count) < nibble(right, count) {
        next_digit_decides(left, right, count);
    } else if nibble(right, count) < nibble(left, count) {
        next_digit_decides(right, left, count);
    } else {
        order_from(left, right, count + 1);
    }
}

/// Identifiers are ordered as their texts are.
pub proof fn notation_keeps_order(left: u128, right: u128)
    ensures
        text::text_before(hyphenated(left), hyphenated(right)) <==> left < right,
{
    order_from(left, right, 0);
}

/// Identifies a session.
#[derive(Debug, Clone, Copy, PartialEq, Eq, PartialOrd, Ord, Hash, Structural)]
pub struct SessionId(pub Uuid);

impl SessionId {
    /// A fresh random identifier.
    pub fn new() -> (id: Self)
        ensures
            nibble(id.0.bits, 12) == 4,
            8 <= nibble(id.0.bits, 16) < 12,
    {
        SessionId(Uuid::new_v4())
    }

    /// The hyphenated lower-case notation.
    pub fn to_string(&self) -> (text: String)
        ensures
            text@ == hyphenated(self.0.bits),
    {
        self.0.to_string()
    }

    /// Reads an identifier.
    pub fn parse(text: &str) -> (id: Result<Self, InvalidId>)
        ensures
            match parsed_uuid(text@) {
                Ok(bits) => id == Ok::<Self, InvalidId>(SessionId(Uuid { bits })),
                Err(reason) => id is Err && id->Err_0.reason@ == reason,
            },
            forall|written: u128|
                text@ == #[trigger] hyphenated(written) ==> id == Ok::<Self, InvalidId>(
                    SessionId(Uuid { bits: written }),
                ),
            text::byte_count(text@) != 32 && text::byte_count(text@) != 36 && text::byte_count(text@) != 38
                && text::byte_count(text@) != 45 ==> id is Err,
    {
        match Uuid::parse(text) {
            Ok(value) => Ok(SessionId(value)),
            Err(error) => Err(error),
        }
    }
}

impl Default for SessionId {
    fn default() -> (id: Self)
        ensures
            nibble(id.0.bits, 12) == 4,
            8 <= nibble(id.0.bits, 16) < 12,
    {
        SessionId::new()
    }
}

impl std::str::FromStr for SessionId {
    type Err = InvalidId;

    fn from_str(text: &str) -> Result<Self, InvalidId> {
        SessionId::parse(text)
    }
}

/// Identifies one turn loop of a session.
#[derive(Debug, Clone, Copy, PartialEq, Eq, PartialOrd, Ord, Hash, Structural)]
pub struct LoopId(pub Uuid);

impl LoopId {
    /// A fresh random identifier.
    pub fn new() -> (id: Self)
        ensures
            nibble(id.0.bits, 12) == 4,
            8 <= nibble(id.0.bits, 16) < 12,
    {
        LoopId(Uuid::new_v4())
    }

    /// The hyphenated lower-case notation.
    pub fn to_string(&self) -> (text: String)
        ensures
            text@ == hyphenated(self.0.bits),
    {
        self.0.to_string()
    }

    /// Reads an identifier.
    pub fn parse(text: &str) -> (id: Result<Self, InvalidId>)
        ensures
            match parsed_uuid(text@) {
                Ok(bits) => id == Ok::<Self, InvalidId>(LoopId(Uuid { bits })),
                Err(reason) => id is Err && id->Err_0.reason@ == reason,
            },
            forall|written: u128|
                text@ == #[trigger] hyphenated(written) ==> id == Ok::<Self, InvalidId>(
                    LoopId(Uuid { bits: written }),
                ),
            text::byte_count(text@) != 32 && text::byte_count(text@) != 36 && text::byte_count(text@) != 38
                && text::byte_count(text@) != 45 ==> id is Err,
    {
        match Uuid::parse(text) {
            Ok(value) => Ok(LoopId(value)),
            Err(error) => Err(error),
        }
    }
}

impl Default for LoopId {
    fn default() -> (id: Self)
        ensures
            nibble(id.0.bits, 12) == 4,
            8 <= nibble(id.0.bits, 16) < 12,
    {
        LoopId::new()
    }
}

impl std::str::FromStr for LoopId {
    type Err = InvalidId;

    fn from_str(text: &str) -> Result<Self, InvalidId> {
        LoopId::parse(text)
    }
}

/// Identifies a raw memory node.
#[derive(Debug, Clone, Copy, PartialEq, Eq, PartialOrd, Ord, Hash, Structural)]
pub struct RawNodeId(pub Uuid);

impl RawNodeId {
    /// A fresh random identifier.
    pub fn new() -> (id: Self)
        ensures
            nibble(id.0.bits, 12) == 4,
            8 <= nibble(id.0.bits, 16) < 12,
    {
        RawNodeId(Uuid::new_v4())
    }

    /// The hyphenated lower-case notation.
    pub fn to_string(&self) -> (text: String)
        ensures
            text@ == hyphenated(self.0.bits),
    {
        self.0.to_string()
    }

    /// Reads an identifier.
    pub fn parse(text: &str) -> (id: Result<Self, InvalidId>)
        ensures
            match parsed_uuid(text@) {
                Ok(bits) => id == Ok::<Self, InvalidId>(RawNodeId(Uuid { bits })),
                Err(reason) => id is Err && id->Err_0.reason@ == reason,
            },
            forall|written: u128|
                text@ == #[trigger] hyphenated(written) ==> id == Ok::<Self, InvalidId>(
                    RawNodeId(Uuid { bits: written }),
                ),
            text::byte_count(text@) != 32 && text::byte_count(text@) != 36 && text::byte_count(text@) != 38
                && text::byte_count(text@) != 45 ==> id is Err,
    {
        match Uuid::parse(text) {
            Ok(value) => Ok(RawNodeId(value)),
            Err(error) => Err(error),
        }
    }
}

impl Default for RawNodeId {
    fn default() -> (id: Self)
        ensures
            nibble(id.0.bits, 12) == 4,
            8 <= nibble(id.0.bits, 16) < 12,
    {
        RawNodeId::new()
    }
}

impl std::str::FromStr for RawNodeId {
    type Err = InvalidId;

    fn from_str(text: &str) -> Result<Self, InvalidId> {
        RawNodeId::parse(text)
    }
}

/// Identifies an abstract memory node.
#[derive(Debug, Clone, Copy, PartialEq, Eq, PartialOrd, Ord, Hash, Structural)]
pub struct AbstractNodeId(pub Uuid);

impl AbstractNodeId {
    /// A fresh random identifier.
    pub fn new() -> (id: Self)
        ensures
            nibble(id.0.bits, 12) == 4,
            8 <= nibble(id.0.bits, 16) < 12,
    {
        AbstractNodeId(Uuid::new_v4())
    }

    /// The hyphenated lower-case notation.
    pub fn to_string(&self) -> (text: String)
        ensures
            text@ == hyphenated(self.0.bits),
    {
        self.0.to_string()
    }

    /// Reads an identifier.
    pub fn parse(text: &str) -> (id: Result<Self, InvalidId>)
        ensures
            match parsed_uuid(text@) {
                Ok(bits) => id == Ok::<Self, InvalidId>(AbstractNodeId(Uuid { bits })),
                Err(reason) => id is Err && id->Err_0.reason@ == reason,
            },
            forall|written: u128|
                text@ == #[trigger] hyphenated(written) ==> id == Ok::<Self, InvalidId>(
                    AbstractNodeId(Uuid { bits: written }),
                ),
            text::byte_count(text@) != 32 && text::byte_count(text@) != 36 && text::byte_count(text@) != 38
                && text::byte_count(text@) != 45 ==> id is Err,
    {
        match Uuid::parse(text) {
            Ok(value) => Ok(AbstractNodeId(value)),
            Err(error) => Err(error),
        }
    }
}

impl Default for AbstractNodeId {
    fn default() -> (id: Self)
        ensures
            nibble(id.0.bits, 12) == 4,
            8 <= nibble(id.0.bits, 16) < 12,
    {
        AbstractNodeId::new()
    }
}

impl std::str::FromStr for AbstractNodeId {
    type Err = InvalidId;

    fn from_str(text: &str) -> Result<Self, InvalidId> {
        AbstractNodeId::parse(text)
    }
}

impl View for SessionId {
    type V = SessionId;

    open spec fn view(&self) -> SessionId {
        *self
    }
}

impl Key for SessionId {
    fn same_key(&self, other: &SessionId) -> (result: bool) {
        *self == *other
    }
}

/// Orders identifiers of this kind as their notation does.
pub struct SessionIdOrder;

impl Order<SessionId> for SessionIdOrder {
    open spec fn before(&self, left: SessionId, right: SessionId) -> bool {
        left.0.bits < right.0.bits
    }

    fn is_before(&self, left: &SessionId, right: &SessionId) -> (result: bool) {
        left.0.bits < right.0.bits
    }
}

impl View for LoopId {
    type V = LoopId;

    open spec fn view(&self) -> LoopId {
        *self
    }
}

impl Key for LoopId {
    fn same_key(&self, other: &LoopId) -> (result: bool) {
        *self == *other
    }
}

/// Orders identifiers of this kind as their notation does.
pub struct LoopIdOrder;

impl Order<LoopId> for LoopIdOrder {
    open spec fn before(&self, left: LoopId, right: LoopId) -> bool {
        left.0.bits < right.0.bits
    }

    fn is_before(&self, left: &LoopId, right: &LoopId) -> (result: bool) {
        left.0.bits < right.0.bits
    }
}

impl View for RawNodeId {
    type V = RawNodeId;

    open spec fn view(&self) -> RawNodeId {
        *self
    }
}

impl Key for RawNodeId {
    fn same_key(&self, other: &RawNodeId) -> (result: bool) {
        *self == *other
    }
}

/// Orders identifiers of this kind as their notation does.
pub struct RawNodeIdOrder;

impl Order<RawNodeId> for RawNodeIdOrder {
    open spec fn before(&self, left: RawNodeId, right: RawNodeId) -> bool {
        left.0.bits < right.0.bits
    }

    fn is_before(&self, left: &RawNodeId, right: &RawNodeId) -> (result: bool) {
        left.0.bits < right.0.bits
    }
}

impl View for AbstractNodeId {
    type V = AbstractNodeId;

    open spec fn view(&self) -> AbstractNodeId {
        *self
    }
}

impl Key for AbstractNodeId {
    fn same_key(&self, other: &AbstractNodeId) -> (result: bool) {
        *self == *other
    }
}

/// Orders identifiers of this kind as their notation does.
pub struct AbstractNodeIdOrder;

impl Order<AbstractNodeId> for AbstractNodeIdOrder {
    open spec fn before(&self, left: AbstractNodeId, right: AbstractNodeId) -> bool {
        left.0.bits < right.0.bits
    }

    fn is_before(&self, left: &AbstractNodeId, right: &AbstractNodeId) -> (result: bool) {
        left.0.bits < right.0.bits
    }
}

/// Identifies a loop together with its session.
#[derive(Debug, Clone, Copy, PartialEq, Eq, Structural)]
pub struct LoopKey {
    pub session_id: SessionId,
    pub loop_id: LoopId,
}

impl View for LoopKey {
    type V = LoopKey;

    open spec fn view(&self) -> LoopKey {
        *self
    }
}

impl Key for LoopKey {
    fn same_key(&self, other: &LoopKey) -> (result: bool) {
        *self == *other
    }
}

/// Orders loops by session, and within a session by loop.
pub struct LoopKeyOrder;

impl Order<LoopKey> for LoopKeyOrder {
    open spec fn before(&self, left: LoopKey, right: LoopKey) -> bool {
        left.session_id.0.bits < right.session_id.0.bits || (left.session_id.0.bits
            == right.session_id.0.bits && left.loop_id.0.bits < right.loop_id.0.bits)
    }

    fn is_before(&self, left: &LoopKey, right: &LoopKey) -> (result: bool) {
        left.session_id.0.bits < right.session_id.0.bits || (left.session_id.0.bits
            == right.session_id.0.bits && left.loop_id.0.bits < right.loop_id.0.bits)
    }
}

} // verus!
