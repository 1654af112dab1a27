//! Sessions and their plans.
use vstd::prelude::*;

use crate::ids::SessionId;
use crate::text::IntoText;
use crate::time::{Timestamp, MAX_SECONDS, NANOS_PER_SECOND};

verus! {

/// A session and what it is for.
#[derive(Debug, PartialEq, Eq)]
pub struct Session {
    pub id: SessionId,
    pub goal: String,
    pub created_at: Timestamp,
}

impl Clone for Session {
    fn clone(&self) -> (result: Self)
        ensures
            result == *self,
    {
        Session { id: self.id, goal: self.goal.clone(), created_at: self.created_at }
    }
}

impl Session {
    /// A session that starts now, under a new identifier.
    pub fn new<G: IntoText>(goal: G) -> (session: Self)
        ensures
            session.goal@ == goal.chars(),
            0 <= session.created_at.secs <= MAX_SECONDS,
            session.created_at.nanos < NANOS_PER_SECOND,
    {
        Session { id: SessionId::new(), goal: goal.into_text(), created_at: Timestamp::now() }
    }
}

/// How a session means to proceed.
#[derive(Debug, PartialEq, Eq)]
pub struct SessionPlan {
    pub summary: String,
}

impl Clone for SessionPlan {
    fn clone(&self) -> (result: Self)
        ensures
            result == *self,
    {
        SessionPlan { summary: self.summary.clone() }
    }
}

} // verus!
