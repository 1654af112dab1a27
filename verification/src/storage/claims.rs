//! Leases on distillation batches: at most one run works on a loop at a time.
use vstd::prelude::*;

use crate::error;
use crate::error::{EngineError, Result};
use crate::ids::{LoopId, LoopKey, SessionId};
use crate::storage::records::{Claim, DistillationClaim};
use crate::table;
use crate::table::{Pair, Table};
use crate::text::same_text;
use crate::time::{Duration, Timestamp, MAX_SECONDS, MIN_SECONDS, NANOS_PER_SECOND};

verus! {

/// The leases that were handed out and not released, by loop.
#[derive(Debug)]
pub struct DistillationClaims {
    pub claims: Table<LoopKey, DistillationClaim>,
}

impl View for DistillationClaims {
    type V = Seq<Pair<LoopKey, Claim>>;

    open spec fn view(&self) -> Seq<Pair<LoopKey, Claim>> {
        self.claims@
    }
}

impl Default for DistillationClaims {
    fn default() -> (claims: Self)
        ensures
            claims@ == Seq::<Pair<LoopKey, Claim>>::empty(),
    {
        DistillationClaims { claims: Table::new() }
    }
}

/// The loop that a lease is for.
pub open spec fn loop_of(claim: Claim) -> LoopKey {
    LoopKey { session_id: claim.session_id, loop_id: claim.loop_id }
}

/// Whether a lease has not run out.
pub open spec fn is_live(claim: Claim, now: Timestamp) -> bool {
    now.before(claim.expires_at)
}

/// Whether a loop is leased at an instant.
pub open spec fn is_held(claims: Seq<Pair<LoopKey, Claim>>, key: LoopKey, now: Timestamp) -> bool {
    table::lookup(claims, key) matches Some(claim) && is_live(claim, now)
}

/// Whether a lease is the one that its loop is leased under.
pub open spec fn is_latest(claims: Seq<Pair<LoopKey, Claim>>, claim: Claim) -> bool {
    table::lookup(claims, loop_of(claim)) matches Some(held) && held.lease_id == claim.lease_id
}

/// Whether a lease holds its loop at an instant.
pub open spec fn is_current(
    claims: Seq<Pair<LoopKey, Claim>>,
    claim: Claim,
    now: Timestamp,
) -> bool {
    is_latest(claims, claim) && is_held(claims, loop_of(claim), now)
}

/// The leases once a lease was given back: one that another has replaced
/// changes nothing.
pub open spec fn released(claims: Seq<Pair<LoopKey, Claim>>, claim: Claim) -> Seq<
    Pair<LoopKey, Claim>,
> {
    if is_latest(claims, claim) {
        table::removed(claims, loop_of(claim))
    } else {
        claims
    }
}

impl DistillationClaims {
    /// Leases a loop, unless it is leased already. The lease runs out after
    /// the given span.
    pub fn try_claim_distillation(
        &mut self,
        session_id: SessionId,
        loop_id: LoopId,
        input_digest: String,
        lease_for: Duration,
        now: Timestamp,
        lease_id: String,
    ) -> (result: Result<Option<DistillationClaim>>)
        requires
            MIN_SECONDS <= now.secs <= MAX_SECONDS,
            now.nanos < NANOS_PER_SECOND,
            lease_for.well_formed(),
        ensures
            ({
                let key = LoopKey { session_id, loop_id };
                let before = old(self)@;
                let after = final(self)@;
                if is_held(before, key, now) {
                    result is Ok && result->Ok_0 is None && after == before
                } else if now.total() + lease_for.total() >= (MAX_SECONDS + 1) * NANOS_PER_SECOND {
                    &&& result is Err
                    &&& error::is_storage(result->Err_0, "distillation lease ends after the calendar"@)
                    &&& after == before
                } else {
                    &&& result is Ok
                    &&& result->Ok_0 is Some
                    &&& result->Ok_0->0.session_id == session_id
                    &&& result->Ok_0->0.loop_id == loop_id
                    &&& result->Ok_0->0.input_digest@ == input_digest@
                    &&& result->Ok_0->0.lease_id@ == lease_id@
                    &&& result->Ok_0->0.expires_at.total() == now.total() + lease_for.total()
                    &&& result->Ok_0->0.expires_at.nanos < NANOS_PER_SECOND
                    &&& after == table::stored(before, key, result->Ok_0->0@)
                }
            }),
    {
        let key = LoopKey { session_id, loop_id };
        if let Some(held) = self.claims.get(&key) {
            if now.is_before(&held.expires_at) {
                return Ok(None);
            }
        }
        let expires_at = match now.plus(lease_for) {
            Some(instant) => instant,
            None => {
                return Err(
                    EngineError::Storage("distillation lease ends after the calendar".to_string()),
                );
            },
        };
        let claim = DistillationClaim { session_id, loop_id, input_digest, lease_id, expires_at };
        self.claims.insert(key, claim.clone());
        Ok(Some(claim))
    }

    /// Whether a lease still holds its loop.
    pub fn distillation_claim_is_current(&self, claim: &DistillationClaim, now: Timestamp) -> (result:
        bool)
        ensures
            result == is_current(self@, claim@, now),
    {
        let key = LoopKey { session_id: claim.session_id, loop_id: claim.loop_id };
        match self.claims.get(&key) {
            Some(held) => same_text(held.lease_id.as_str(), claim.lease_id.as_str())
                && now.is_before(&held.expires_at),
            None => false,
        }
    }

    /// Gives a lease back; one that another has replaced changes nothing.
    pub fn release_distillation_claim(&mut self, claim: &DistillationClaim)
        ensures
            final(self)@ == released(old(self)@, claim@),
    {
        let key = LoopKey { session_id: claim.session_id, loop_id: claim.loop_id };
        let latest = match self.claims.get(&key) {
            Some(held) => same_text(held.lease_id.as_str(), claim.lease_id.as_str()),
            None => false,
        };
        if latest {
            self.claims.remove(&key);
        }
    }
}

/// A loop that was leased is held until the lease runs out, and by that lease
/// alone.
pub proof fn claims_exclude_others(
    claims: Seq<Pair<LoopKey, Claim>>,
    claim: Claim,
    other: Claim,
    now: Timestamp,
)
    requires
        table::is_table(claims),
        is_live(claim, now),
        loop_of(other) == loop_of(claim),
        other.lease_id != claim.lease_id,
    ensures
        ({
            let after = table::stored(claims, loop_of(claim), claim);
            &&& table::is_table(after)
            &&& is_current(after, claim, now)
            &&& is_held(after, loop_of(claim), now)
            &&& !is_current(after, other, now)
        }),
{
    table::stored_is_found(claims, loop_of(claim), claim);
}

/// A lease that was replaced cannot give back its successor.
pub proof fn stale_claims_release_nothing(
    claims: Seq<Pair<LoopKey, Claim>>,
    stale: Claim,
    successor: Claim,
    now: Timestamp,
)
    requires
        table::is_table(claims),
        loop_of(stale) == loop_of(successor),
        stale.lease_id != successor.lease_id,
        is_live(successor, now),
    ensures
        ({
            let after = released(
                table::stored(claims, loop_of(successor), successor),
                stale,
            );
            is_current(after, successor, now) && !is_current(after, stale, now)
        }),
{
    table::stored_is_found(claims, loop_of(successor), successor);
}

/// Once a lease was given back its loop can be leased again, and no other loop
/// is affected.
pub proof fn released_loops_are_free(
    claims: Seq<Pair<LoopKey, Claim>>,
    claim: Claim,
    other: LoopKey,
    now: Timestamp,
)
    requires
        table::is_table(claims),
        is_latest(claims, claim),
        other != loop_of(claim),
    ensures
        !is_held(released(claims, claim), loop_of(claim), now),
        table::lookup(released(claims, claim), other) == table::lookup(claims, other),
        table::is_table(released(claims, claim)),
{
    table::removed_is_gone(claims, loop_of(claim));
}

/// A claim is current exactly as long as its loop is held under its lease and the
/// lease has not run out. Giving a claim back frees its loop only where it is held
/// under that lease, and touches no other loop.
pub proof fn claims_are_current_until_they_end(
    claims: Seq<Pair<LoopKey, Claim>>,
    claim: Claim,
    now: Timestamp,
)
    requires
        table::is_table(claims),
    ensures
        ({
            let key = LoopKey { session_id: claim.session_id, loop_id: claim.loop_id };
            let held = table::lookup(claims, key);
            &&& is_current(claims, claim, now) <==> held is Some && held->0.lease_id
                == claim.lease_id && now.before(held->0.expires_at)
            &&& is_held(claims, key, now) <==> held is Some && now.before(held->0.expires_at)
            &&& held is Some && held->0.lease_id == claim.lease_id ==> table::lookup(
                released(claims, claim),
                key,
            ) is None
            &&& !(held is Some && held->0.lease_id == claim.lease_id) ==> released(claims, claim)
                == claims
            &&& forall|other: LoopKey|
                other != key ==> #[trigger] table::lookup(released(claims, claim), other)
                    == table::lookup(claims, other)
        }),
{
    table::removed_is_gone(claims, loop_of(claim));
}

} // verus!
