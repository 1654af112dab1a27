//! Instants and time spans as plain integers.
use vstd::prelude::*;

use crate::text;

verus! {

/// Nanoseconds of one second.
pub const NANOS_PER_SECOND: u32 = 1_000_000_000;

/// The first second of the calendar that timestamps are written in.
pub const MIN_SECONDS: i64 = -8_334_601_228_800;

/// The last second of the calendar that timestamps are written in.
pub const MAX_SECONDS: i64 = 8_210_266_876_799;

/// An instant in UTC: whole seconds since the Unix epoch and nanoseconds since
/// that second. The nanoseconds exceed a second only within a leap second.
#[derive(Debug, Clone, Copy, PartialEq, Eq, PartialOrd, Ord, Hash, Structural)]
pub struct Timestamp {
    pub secs: i64,
    pub nanos: u32,
}

/// Calls `chrono::Utc::now`. The clock decides; every outcome lies after the
/// epoch, in the calendar and outside a leap second.
#[verifier::external_body]
fn utc_now() -> (now: (i64, u32))
    ensures
        0 <= now.0 <= MAX_SECONDS,
        now.1 < NANOS_PER_SECOND,
{
    let now = chrono::Utc::now();
    (now.timestamp(), now.timestamp_subsec_nanos())
}

/// The calendar day of a second in UTC, written as `YYYYMMDD`; nothing when
/// the second lies outside the calendar.
pub uninterp spec fn day_bucket(secs: i64) -> Option<Seq<char>>;

/// Whether a second lies in a year that has four digits.
pub open spec fn has_four_digit_year(secs: i64) -> bool {
    -62_167_219_200 <= secs <= 253_402_300_799
}

/// Number of the day of a second, counted from the epoch.
pub open spec fn day_number(secs: i64) -> int {
    secs as int / 86_400
}

/// Whether a text reads as the day of a second should: as the texts of all
/// seconds of that day, before those of later days and after those of earlier
/// ones, within the years of four digits.
pub open spec fn days_read_in_order(secs: i64, day: Seq<char>) -> bool {
    forall|other: i64|
        #![trigger day_bucket(other)]
        has_four_digit_year(other) ==> {
            &&& day_bucket(other) is Some
            &&& day_number(other) == day_number(secs) ==> day_bucket(other)->0 == day
            &&& day_number(other) < day_number(secs) ==> text::text_before(
                day_bucket(other)->0,
                day,
            )
            &&& day_number(other) > day_number(secs) ==> text::text_before(
                day,
                day_bucket(other)->0,
            )
        }
}

/// Calls `chrono::DateTime::from_timestamp` and formats the instant with
/// `%Y%m%d`; named by [`day_bucket`]. Within the years of four digits the
/// text is the same for two seconds of one day, and the text of an earlier
/// day precedes the text of a later one.
#[verifier::external_body]
fn format_day(secs: i64) -> (text: Option<String>)
    ensures
        text::opt_text(text) == day_bucket(secs),
        MIN_SECONDS <= secs <= MAX_SECONDS ==> text is Some,
        text matches Some(day) ==> has_four_digit_year(secs) ==> days_read_in_order(secs, day@),
{
    chrono::DateTime::from_timestamp(secs, 0).map(|value| value.format("%Y%m%d").to_string())
}

/// An instant in UTC as RFC 3339 writes it; nothing when it lies outside the
/// calendar.
pub uninterp spec fn rfc3339_text(secs: i64, nanos: u32) -> Option<Seq<char>>;

/// Calls `chrono::DateTime::from_timestamp` and writes the instant with
/// `to_rfc3339`; named by [`rfc3339_text`].
#[verifier::external_body]
fn format_rfc3339(secs: i64, nanos: u32) -> (text: Option<String>)
    ensures
        text::opt_text(text) == rfc3339_text(secs, nanos),
        MIN_SECONDS <= secs <= MAX_SECONDS && nanos < NANOS_PER_SECOND ==> text is Some,
{
    chrono::DateTime::from_timestamp(secs, nanos).map(|value| value.to_rfc3339())
}

impl Timestamp {
    /// This instant as RFC 3339 writes it, where it lies in the calendar.
    pub fn to_rfc3339(&self) -> (text: Option<String>)
        ensures
            text::opt_text(text) == rfc3339_text(self.secs, self.nanos),
            MIN_SECONDS <= self.secs <= MAX_SECONDS && self.nanos < NANOS_PER_SECOND
                ==> text is Some,
    {
        format_rfc3339(self.secs, self.nanos)
    }

    /// The current instant.
    pub fn now() -> (now: Self)
        ensures
            0 <= now.secs <= MAX_SECONDS,
            now.nanos < NANOS_PER_SECOND,
    {
        let (secs, nanos) = utc_now();
        Timestamp { secs, nanos }
    }

    /// Whether this instant precedes another.
    pub open spec fn before(self, other: Timestamp) -> bool {
        self.secs < other.secs || (self.secs == other.secs && self.nanos < other.nanos)
    }

    /// Whether this instant does not come after another.
    pub open spec fn at_most(self, other: Timestamp) -> bool {
        !other.before(self)
    }

    /// Whether this instant precedes another.
    pub fn is_before(&self, other: &Timestamp) -> (result: bool)
        ensures
            result == self.before(*other),
    {
        self.secs < other.secs || (self.secs == other.secs && self.nanos < other.nanos)
    }

    /// The instant the given number of hours later.
    pub fn plus_hours(&self, hours: u32) -> (result: Self)
        requires
            MIN_SECONDS <= self.secs,
            self.secs + hours * 3600 <= MAX_SECONDS,
        ensures
            hours > 0 ==> result.nanos == self.nanos % NANOS_PER_SECOND,
            hours == 0 ==> result.nanos == self.nanos,
            result.secs == self.secs + hours * 3600,
    {
        let secs: i64 = self.secs + hours as i64 * 3600;
        let nanos: u32 = if hours > 0 {
            self.nanos % NANOS_PER_SECOND
        } else {
            self.nanos
        };
        Timestamp { secs, nanos }
    }

    /// The instant in nanoseconds since the epoch.
    pub open spec fn total(self) -> int {
        self.secs * NANOS_PER_SECOND + self.nanos
    }

    /// The instant a span later, unless it lies outside the calendar.
    pub fn plus(&self, span: Duration) -> (result: Option<Self>)
        requires
            MIN_SECONDS <= self.secs <= MAX_SECONDS,
            self.nanos < NANOS_PER_SECOND,
            span.well_formed(),
        ensures
            match result {
                Some(later) => {
                    &&& later.total() == self.total() + span.total()
                    &&& later.nanos < NANOS_PER_SECOND
                    &&& later.secs <= MAX_SECONDS
                },
                None => self.total() + span.total() >= (MAX_SECONDS + 1) * NANOS_PER_SECOND,
            },
    {
        let carried: u32 = self.nanos + span.nanos;
        let (carry, nanos): (i64, u32) = if carried >= NANOS_PER_SECOND {
            (1, carried - NANOS_PER_SECOND)
        } else {
            (0, carried)
        };
        let room: i64 = MAX_SECONDS - self.secs;
        if span.secs > room as u64 {
            return None;
        }
        let secs: i64 = self.secs + span.secs as i64;
        if secs + carry > MAX_SECONDS {
            return None;
        }
        Some(Timestamp { secs: secs + carry, nanos })
    }

    /// The calendar day of the instant, written as `YYYYMMDD`.
    pub fn day(&self) -> (text: Option<String>)
        ensures
            text::opt_text(text) == day_bucket(self.secs),
            MIN_SECONDS <= self.secs <= MAX_SECONDS ==> text is Some,
            text matches Some(day) ==> has_four_digit_year(self.secs) ==> days_read_in_order(
                self.secs,
                day@,
            ),
    {
        format_day(self.secs)
    }
}

/// A non-negative span of time.
#[derive(Debug, Clone, Copy, PartialEq, Eq, PartialOrd, Ord, Hash, Structural)]
pub struct Duration {
    pub secs: u64,
    pub nanos: u32,
}

/// How a span reads in diagnostics.
pub uninterp spec fn duration_text(secs: u64, nanos: u32) -> Seq<char>;

/// Calls the `Debug` of `std::time::Duration`, named by [`duration_text`].
#[verifier::external_body]
fn format_duration(secs: u64, nanos: u32) -> (text: String)
    requires
        nanos < NANOS_PER_SECOND,
    ensures
        text@ == duration_text(secs, nanos),
{
    format!("{:?}", std::time::Duration::new(secs, nanos))
}

impl Duration {
    /// The nanoseconds are those since the last whole second.
    pub open spec fn well_formed(self) -> bool {
        self.nanos < NANOS_PER_SECOND
    }

    /// The span in nanoseconds.
    pub open spec fn total(self) -> nat {
        (self.secs * NANOS_PER_SECOND + self.nanos) as nat
    }

    /// The longest span.
    pub fn longest() -> (result: Self)
        ensures
            result.well_formed(),
            result.secs == u64::MAX,
            result.nanos == NANOS_PER_SECOND - 1,
    {
        Duration { secs: u64::MAX, nanos: 999_999_999 }
    }

    /// A span of whole seconds.
    pub fn from_secs(secs: u64) -> (result: Self)
        ensures
            result.well_formed(),
            result.total() == secs * 1_000_000_000,
            result.secs == secs,
            result.nanos == 0,
    {
        Duration { secs, nanos: 0 }
    }

    /// A span of whole milliseconds.
    pub fn from_millis(millis: u64) -> (result: Self)
        ensures
            result.well_formed(),
            result.total() == millis * 1_000_000,
    {
        Duration { secs: millis / 1000, nanos: (millis % 1000) as u32 * 1_000_000 }
    }

    /// Whether the span has no length.
    pub fn is_zero(&self) -> (result: bool)
        ensures
            result == (self.total() == 0),
    {
        self.secs == 0 && self.nanos == 0
    }

    /// Whether this span is shorter than another.
    pub fn is_shorter(&self, other: &Duration) -> (result: bool)
        requires
            self.well_formed(),
            other.well_formed(),
        ensures
            result == (self.total() < other.total()),
    {
        self.secs < other.secs || (self.secs == other.secs && self.nanos < other.nanos)
    }

    /// The shorter of two spans.
    pub fn shorter(self, other: Duration) -> (result: Self)
        requires
            self.well_formed(),
            other.well_formed(),
        ensures
            result.well_formed(),
            result == if other.total() < self.total() {
                other
            } else {
                self
            },
    {
        if other.is_shorter(&self) {
            other
        } else {
            self
        }
    }

    /// The sum of two spans, unless it is longer than the longest span.
    pub fn checked_add(self, other: Duration) -> (result: Option<Self>)
        requires
            self.well_formed(),
            other.well_formed(),
        ensures
            match result {
                Some(sum) => sum.well_formed() && sum.total() == self.total() + other.total(),
                None => self.total() + other.total() > u64::MAX * 1_000_000_000 + 999_999_999,
            },
    {
        let carried: u32 = self.nanos + other.nanos;
        let carry: u64 = if carried >= NANOS_PER_SECOND {
            1
        } else {
            0
        };
        let nanos: u32 = if carried >= NANOS_PER_SECOND {
            carried - NANOS_PER_SECOND
        } else {
            carried
        };
        let secs: u64 = match self.secs.checked_add(other.secs) {
            Some(value) => value,
            None => return None,
        };
        let secs: u64 = match secs.checked_add(carry) {
            Some(value) => value,
            None => return None,
        };
        Some(Duration { secs, nanos })
    }

    /// Twice the span, unless it is longer than the longest span.
    pub fn checked_double(self) -> (result: Option<Self>)
        requires
            self.well_formed(),
        ensures
            match result {
                Some(sum) => sum.well_formed() && sum.total() == 2 * self.total(),
                None => 2 * self.total() > u64::MAX * 1_000_000_000 + 999_999_999,
            },
    {
        self.checked_add(self)
    }

    /// How the span reads in diagnostics.
    pub fn describe(&self) -> (text: String)
        requires
            self.well_formed(),
        ensures
            text@ == duration_text(self.secs, self.nanos),
    {
        format_duration(self.secs, self.nanos)
    }
}

/// A span is determined by its length.
pub proof fn durations_of_one_length_are_equal(left: Duration, right: Duration)
    requires
        left.well_formed(),
        right.well_formed(),
        left.total() == right.total(),
    ensures
        left == right,
{
}

/// Instants are ordered by the time that has passed until them, and a span of
/// time is as long as its seconds and nanoseconds together.
pub proof fn instants_are_ordered_by_time(left: Timestamp, right: Timestamp, span: Duration)
    requires
        left.nanos < 1_000_000_000,
        right.nanos < 1_000_000_000,
    ensures
        left.before(right) <==> left.secs * 1_000_000_000 + left.nanos < right.secs * 1_000_000_000
            + right.nanos,
        left.at_most(right) <==> left.secs * 1_000_000_000 + left.nanos <= right.secs
            * 1_000_000_000 + right.nanos,
        span.total() == span.secs * 1_000_000_000 + span.nanos,
{
}

} // verus!
