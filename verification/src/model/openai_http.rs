//! When a request to a provider is sent again, and after which wait.
use vstd::prelude::*;

use crate::error;
use crate::error::EngineError;
use crate::text;
use crate::text::{parse_unsigned, trimmed_characters};
use crate::time::Duration;

verus! {

/// How often a request is sent again at most.
pub const RETRY_MAX_ATTEMPTS: u32 = 4;

/// The longest wait that the engine chooses by itself, in seconds.
pub const LONGEST_BACKOFF_SECONDS: u64 = 8;

/// Spreads the digits of the clock over all bits.
pub const JITTER_MULTIPLIER: u64 = 0x9e37_79b9_7f4a_7c15;

/// The wait before an attempt, in seconds: it doubles with each attempt up to
/// a limit.
pub open spec fn base_seconds(attempt: nat) -> nat
    decreases attempt,
{
    if attempt == 0 {
        1
    } else if base_seconds((attempt - 1) as nat) * 2 > LONGEST_BACKOFF_SECONDS {
        LONGEST_BACKOFF_SECONDS as nat
    } else {
        base_seconds((attempt - 1) as nat) * 2
    }
}

proof fn base_seconds_settle(attempt: nat)
    ensures
        1 <= base_seconds(attempt) <= LONGEST_BACKOFF_SECONDS,
        attempt >= 3 ==> base_seconds(attempt) == LONGEST_BACKOFF_SECONDS,
    decreases attempt,
{
    reveal_with_fuel(base_seconds, 4);
    if attempt > 0 {
        base_seconds_settle((attempt - 1) as nat);
    }
}

/// The wait before an attempt, in seconds.
pub fn backoff_seconds(attempt: u32) -> (seconds: u64)
    ensures
        seconds == base_seconds(attempt as nat),
        1 <= seconds <= LONGEST_BACKOFF_SECONDS,
{
    proof {
        base_seconds_settle(attempt as nat);
        reveal_with_fuel(base_seconds, 4);
    }
    if attempt == 0 {
        1
    } else if attempt == 1 {
        2
    } else if attempt == 2 {
        4
    } else {
        LONGEST_BACKOFF_SECONDS
    }
}

/// The jitter before an attempt, in milliseconds: up to a quarter of the wait,
/// drawn from the nanoseconds of the clock.
pub open spec fn jitter_millis(attempt: nat, seconds: nat, clock_nanos: nat) -> nat {
    let entropy = ((clock_nanos * JITTER_MULTIPLIER) % 0x1_0000_0000_0000_0000 + attempt)
        % 0x1_0000_0000_0000_0000;
    if seconds == 0 {
        0
    } else {
        entropy as nat % (seconds * 250)
    }
}

/// The jitter before an attempt, in milliseconds.
pub fn retry_jitter_ms_for_attempt(attempt: u32, base_secs: u64, clock_nanos: u32) -> (millis: u64)
    requires
        base_secs <= LONGEST_BACKOFF_SECONDS,
    ensures
        millis == jitter_millis(attempt as nat, base_secs as nat, clock_nanos as nat),
        base_secs > 0 ==> millis < base_secs * 250,
{
    let product: u128 = clock_nanos as u128 * JITTER_MULTIPLIER as u128;
    let scrambled: u64 = (product % 0x1_0000_0000_0000_0000) as u64;
    let entropy: u64 = ((scrambled as u128 + attempt as u128) % 0x1_0000_0000_0000_0000) as u64;
    if base_secs == 0 {
        return 0;
    }
    entropy % (base_secs * 250)
}

/// The seconds that a `Retry-After` value names.
pub open spec fn retry_after(value: Seq<char>) -> Option<nat> {
    text::unsigned_value(text::without_trailing_space(text::without_leading_space(value)))
}

/// Reads a `Retry-After` value in seconds; dates are not read.
pub fn parse_retry_after_seconds(value: &str) -> (seconds: Option<u64>)
    ensures
        match retry_after(value@) {
            Some(number) => seconds is Some && seconds->0 == number,
            None => seconds is None,
        },
{
    let trimmed = trimmed_characters(value);
    parse_unsigned(trimmed.as_slice())
}

/// The wait before an attempt in nanoseconds: the engine's own, or what the
/// server asks for where that is longer.
pub open spec fn backoff_nanos(
    attempt: nat,
    header: Option<Seq<char>>,
    clock_nanos: nat,
) -> nat {
    let seconds = base_seconds(attempt);
    let own = seconds * 1_000_000_000 + jitter_millis(attempt, seconds, clock_nanos) * 1_000_000;
    match header {
        Some(value) => match retry_after(value) {
            Some(asked) => if asked * 1_000_000_000 > own {
                asked * 1_000_000_000
            } else {
                own
            },
            None => own,
        },
        None => own,
    }
}

/// The wait before the next attempt.
pub fn retry_backoff(attempt: u32, retry_after_header: Option<&str>, clock_nanos: u32) -> (wait:
    Duration)
    ensures
        wait.well_formed(),
        wait.total() == backoff_nanos(
            attempt as nat,
            text::opt_str(retry_after_header),
            clock_nanos as nat,
        ),
{
    let base_secs: u64 = backoff_seconds(attempt);
    let jitter: u64 = retry_jitter_ms_for_attempt(attempt, base_secs, clock_nanos);
    let own = match Duration::from_secs(base_secs).checked_add(Duration::from_millis(jitter)) {
        Some(sum) => sum,
        None => Duration::longest(),
    };
    if let Some(header) = retry_after_header {
        if let Some(asked) = parse_retry_after_seconds(header) {
            let server = Duration::from_secs(asked);
            if own.is_shorter(&server) {
                return server;
            }
        }
    }
    own
}

/// Without a longer request from the server, a wait lies between the base wait
/// and a quarter more.
pub proof fn own_waits_are_bounded(attempt: nat, clock_nanos: nat)
    ensures
        base_seconds(attempt) * 1_000_000_000 <= backoff_nanos(attempt, None, clock_nanos),
        backoff_nanos(attempt, None, clock_nanos) < base_seconds(attempt) * 1_250_000_000,
{
    base_seconds_settle(attempt);
}

/// What follows the response to an attempt.
#[derive(Debug, Clone, Copy, PartialEq, Eq, Structural)]
pub enum RetryStep {
    /// The response is taken.
    Accept,
    /// The request is sent again after a wait.
    Wait(Duration),
    /// The response is reported as a failure.
    Fail,
}

/// Whether a status says that the same request may succeed later.
pub open spec fn is_transient(status: u16) -> bool {
    status == 429 || (502 <= status && status <= 504)
}

/// Whether a status says that the request succeeded.
pub open spec fn is_success(status: u16) -> bool {
    200 <= status && status <= 299
}

/// Decides what follows the response to an attempt.
pub fn after_response(
    status: u16,
    attempt: u32,
    retry_after_header: Option<&str>,
    clock_nanos: u32,
) -> (step: RetryStep)
    ensures
        if is_success(status) {
            step == RetryStep::Accept
        } else if is_transient(status) && attempt < RETRY_MAX_ATTEMPTS {
            step matches RetryStep::Wait(wait) && wait.well_formed() && wait.total()
                == backoff_nanos(
                attempt as nat,
                text::opt_str(retry_after_header),
                clock_nanos as nat,
            )
        } else {
            step == RetryStep::Fail
        },
{
    if 200 <= status && status <= 299 {
        return RetryStep::Accept;
    }
    let transient = status == 429 || (502 <= status && status <= 504);
    if !transient || attempt >= RETRY_MAX_ATTEMPTS {
        return RetryStep::Fail;
    }
    RetryStep::Wait(retry_backoff(attempt, retry_after_header, clock_nanos))
}

/// The failure of a request that got no response.
pub fn transport_failure(label: &str, reason: &str) -> (failure: EngineError)
    ensures
        error::is_model(failure, label@ + ": "@ + reason@),
{
    EngineError::Model(label.to_string().concat(": ").concat(reason))
}

/// The failure of a request whose response is not taken.
pub fn status_failure(label: &str, status: &str, body: &str) -> (failure: EngineError)
    ensures
        error::is_model(failure, label@ + " with HTTP "@ + status@ + ": "@ + body@),
{
    EngineError::Model(
        label.to_string().concat(" with HTTP ").concat(status).concat(": ").concat(body),
    )
}

/// Waits double from one second up to eight, and a provider that asks for a
/// longer wait gets it.
pub proof fn waits_grow_and_heed_the_provider(
    attempt: nat,
    header: Option<Seq<char>>,
    clock_nanos: nat,
)
    ensures
        base_seconds(0) == 1 && base_seconds(1) == 2 && base_seconds(2) == 4,
        attempt >= 3 ==> base_seconds(attempt) == 8,
        header matches Some(value) ==> (retry_after(value) matches Some(asked) ==> {
            let wait = backoff_nanos(attempt, header, clock_nanos);
            let own = backoff_nanos(attempt, None, clock_nanos);
            wait == if asked * 1_000_000_000 > own {
                asked * 1_000_000_000
            } else {
                own
            }
        }),
        header matches Some(value) ==> (retry_after(value) is None ==> backoff_nanos(
            attempt,
            header,
            clock_nanos,
        ) == backoff_nanos(attempt, None, clock_nanos)),
    decreases attempt,
{
    reveal_with_fuel(base_seconds, 4);
    if attempt > 3 {
        waits_grow_and_heed_the_provider((attempt - 1) as nat, None, clock_nanos);
    }
}

/// Only answers from 200 to 299 are taken, and only four kinds of failure are
/// tried again: too many requests, a bad gateway, an unavailable service and a
/// gateway that ran out of time.
pub proof fn passing_failures_are_told_apart(status: u16)
    ensures
        is_success(status) <==> status / 100 == 2,
        is_transient(status) <==> status == 429 || status == 502 || status == 503 || status == 504,
        RETRY_MAX_ATTEMPTS == 4,
{
}

/// What a provider asks for is read as a whole number, whatever space stands
/// around it, and anything else is not read.
pub proof fn asked_waits_are_read(seconds: u64)
    ensures
        retry_after(text::decimal(seconds as nat)) == Some(seconds as nat),
{
    let written = text::decimal(seconds as nat);
    text::written_numbers_are_read(seconds as nat);
    text::only_outer_space_goes(written);
    let rest = text::without_leading_space(written);
    let start = written.len() - rest.len();
    let kept = text::without_trailing_space(rest);
    if start > 0 {
        assert(text::whitespace(written[0]));
        text::decimal_has_only_digits(seconds as nat, 0);
    }
    assert(rest =~= written);
    if kept.len() < rest.len() {
        assert(text::whitespace(rest[rest.len() - 1]));
        text::decimal_has_only_digits(seconds as nat, written.len() - 1);
    }
    assert(kept =~= written);
}

} // verus!
