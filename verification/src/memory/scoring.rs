//! How found memories are scored.
use vstd::prelude::*;

use crate::domain::abstract_node::{Abstract, AbstractNode};
use crate::domain::raw_node::{Raw, RawNode};
use crate::float32::Float32;
use crate::time::Timestamp;

verus! {

/// Scores found memories. Implemented by the embedder of the engine; a score
/// depends on the arguments alone.
pub trait ScoringPolicy: Send + Sync {
    /// The score of a raw node. Nothing is known of the scores of an
    /// implementation that does not say what they are.
    closed spec fn raw_score(
        &self,
        base_similarity: Float32,
        node: Raw,
        now: Timestamp,
    ) -> Float32 {
        arbitrary()
    }

    /// The score of an abstract node, of which the same holds.
    closed spec fn abstract_score(
        &self,
        base_similarity: Float32,
        node: Abstract,
        now: Timestamp,
    ) -> Float32 {
        arbitrary()
    }

    /// Scores a raw node.
    fn score_raw(&self, base_similarity: Float32, node: &RawNode, now: Timestamp) -> (score:
        Float32)
        ensures
            score == self.raw_score(base_similarity, node@, now),
    ;

    /// Scores an abstract node.
    fn score_abstract(
        &self,
        base_similarity: Float32,
        node: &AbstractNode,
        now: Timestamp,
    ) -> (score: Float32)
        ensures
            score == self.abstract_score(base_similarity, node@, now),
    ;
}

/// Whether retrieval of a node is relaxed because it fell out of the session
/// window: until its deadline, which a node without one has passed.
pub open spec fn is_relaxed(node: Raw, now: Timestamp) -> bool {
    node.overflow.was_pushed_out_of_session && match node.overflow.relax_retrieval_until {
        Some(deadline) => now.before(deadline),
        None => false,
    }
}

/// Whether retrieval of a node is relaxed at an instant.
pub fn overflow_relaxation_active(node: &RawNode, now: Timestamp) -> (result: bool)
    ensures
        result == is_relaxed(node@, now),
{
    node.overflow.was_pushed_out_of_session && match &node.overflow.relax_retrieval_until {
        Some(deadline) => now.is_before(deadline),
        None => false,
    }
}

/// Whole seconds from an instant to a later one; none to an earlier one.
pub open spec fn age_seconds(timestamp: Timestamp, now: Timestamp) -> int {
    let seconds = now.secs - timestamp.secs - if now.nanos < timestamp.nanos {
        1int
    } else {
        0
    };
    if seconds < 0 {
        0
    } else {
        seconds
    }
}

/// How old a memory is, in whole seconds.
pub fn age_in_seconds(timestamp: Timestamp, now: Timestamp) -> (result: u64)
    ensures
        result == age_seconds(timestamp, now),
{
    let difference: i128 = now.secs as i128 - timestamp.secs as i128;
    let seconds: i128 = if now.nanos < timestamp.nanos {
        difference - 1
    } else {
        difference
    };
    if seconds < 0 {
        0
    } else {
        seconds as u64
    }
}

/// The age of a memory is the time since it in whole seconds, rounded down, and
/// none where it lies ahead. Its retrieval is relaxed from when it falls out of
/// the session window until its deadline.
pub proof fn ages_are_whole_seconds(timestamp: Timestamp, now: Timestamp, node: Raw)
    requires
        timestamp.nanos < 1_000_000_000,
        now.nanos < 1_000_000_000,
    ensures
        ({
            let passed = (now.secs - timestamp.secs) * 1_000_000_000 + (now.nanos
                - timestamp.nanos);
            let age = age_seconds(timestamp, now);
            &&& passed >= 0 ==> age * 1_000_000_000 <= passed < (age + 1) * 1_000_000_000
            &&& passed < 0 ==> age == 0
        }),
        is_relaxed(node, now) <==> node.overflow.was_pushed_out_of_session
            && node.overflow.relax_retrieval_until is Some && now.before(
            node.overflow.relax_retrieval_until->0,
        ),
{
}

} // verus!
