//! Raw nodes and their index entries in the order of time.
use vstd::prelude::*;

use crate::domain::raw_node::{Raw, RawNode};
use crate::ids::RawNodeId;
use crate::order;
use crate::order::Order;
use crate::table::Key;
use crate::time::Timestamp;

verus! {

/// The instants from one to another, both included; either end may be open.
#[derive(Debug, Clone, Copy, PartialEq, Eq, Structural)]
pub struct Window {
    pub from: Option<Timestamp>,
    pub to: Option<Timestamp>,
}

impl Window {
    /// Whether an instant lies within.
    pub open spec fn covers(self, instant: Timestamp) -> bool {
        &&& self.from matches Some(from) ==> from.at_most(instant)
        &&& self.to matches Some(to) ==> instant.at_most(to)
    }

    /// Whether an instant lies within.
    pub fn includes(&self, instant: &Timestamp) -> (result: bool)
        ensures
            result == self.covers(*instant),
    {
        let late_enough = match self.from {
            Some(from) => !instant.is_before(&from),
            None => true,
        };
        let early_enough = match self.to {
            Some(to) => !to.is_before(instant),
            None => true,
        };
        late_enough && early_enough
    }
}

/// Orders raw nodes by time.
pub struct TimeOrder;

/// The order of raw nodes by time as a function.
pub open spec fn by_time() -> spec_fn(Raw, Raw) -> bool {
    |left: Raw, right: Raw| left.timestamp.before(right.timestamp)
}

impl Order<RawNode> for TimeOrder {
    open spec fn before(&self, left: Raw, right: Raw) -> bool {
        left.timestamp.before(right.timestamp)
    }

    fn is_before(&self, left: &RawNode, right: &RawNode) -> (result: bool) {
        left.timestamp.is_before(&right.timestamp)
    }
}

/// Orders raw nodes by time, the newest first.
pub struct NewestOrder;

/// The order of raw nodes by time, the newest first, as a function.
pub open spec fn by_newest() -> spec_fn(Raw, Raw) -> bool {
    |left: Raw, right: Raw| right.timestamp.before(left.timestamp)
}

impl Order<RawNode> for NewestOrder {
    open spec fn before(&self, left: Raw, right: Raw) -> bool {
        right.timestamp.before(left.timestamp)
    }

    fn is_before(&self, left: &RawNode, right: &RawNode) -> (result: bool) {
        right.timestamp.is_before(&left.timestamp)
    }
}

/// Raw nodes have a place in time.
pub proof fn time_order_is_weak()
    ensures
        order::is_weak_order(by_time(), |node: Raw| true),
        order::is_weak_order(by_newest(), |node: Raw| true),
{
}

/// What an index keeps of a raw node.
#[derive(Debug, Clone, Copy, PartialEq, Eq, Structural)]
pub struct RawIndexEntry {
    pub id: RawNodeId,
    pub timestamp: Timestamp,
}

impl View for RawIndexEntry {
    type V = RawIndexEntry;

    open spec fn view(&self) -> RawIndexEntry {
        *self
    }
}

impl Key for RawIndexEntry {
    fn same_key(&self, other: &RawIndexEntry) -> (result: bool) {
        *self == *other
    }
}

impl RawIndexEntry {
    /// What an index keeps of a node.
    pub open spec fn entry(node: Raw) -> RawIndexEntry {
        RawIndexEntry { id: node.id, timestamp: node.timestamp }
    }

    /// What an index keeps of a node.
    pub fn of(node: &RawNode) -> (entry: Self)
        ensures
            entry == RawIndexEntry::entry(node@),
    {
        RawIndexEntry { id: node.id, timestamp: node.timestamp }
    }
}

/// Whether an entry goes before another: by time, then by identifier.
pub open spec fn entry_before(left: RawIndexEntry, right: RawIndexEntry) -> bool {
    left.timestamp.before(right.timestamp) || (!right.timestamp.before(left.timestamp)
        && left.id.0.bits < right.id.0.bits)
}

/// Whether an entry goes before another where the newest come first: by time
/// backwards, then by identifier.
pub open spec fn newer_before(left: RawIndexEntry, right: RawIndexEntry) -> bool {
    right.timestamp.before(left.timestamp) || (!left.timestamp.before(right.timestamp)
        && left.id.0.bits < right.id.0.bits)
}

/// The order of an index as a function.
pub open spec fn entry_order() -> spec_fn(RawIndexEntry, RawIndexEntry) -> bool {
    |left: RawIndexEntry, right: RawIndexEntry| entry_before(left, right)
}

/// The order of a timeline as a function.
pub open spec fn newest_order() -> spec_fn(RawIndexEntry, RawIndexEntry) -> bool {
    |left: RawIndexEntry, right: RawIndexEntry| newer_before(left, right)
}

/// Orders entries by time, then by identifier.
pub struct EntryOrder;

impl Order<RawIndexEntry> for EntryOrder {
    open spec fn before(&self, left: RawIndexEntry, right: RawIndexEntry) -> bool {
        entry_before(left, right)
    }

    fn is_before(&self, left: &RawIndexEntry, right: &RawIndexEntry) -> (result: bool) {
        left.timestamp.is_before(&right.timestamp) || (!right.timestamp.is_before(&left.timestamp)
            && left.id.0.bits < right.id.0.bits)
    }
}

/// Orders entries by time backwards, then by identifier.
pub struct NewestEntryOrder;

impl Order<RawIndexEntry> for NewestEntryOrder {
    open spec fn before(&self, left: RawIndexEntry, right: RawIndexEntry) -> bool {
        newer_before(left, right)
    }

    fn is_before(&self, left: &RawIndexEntry, right: &RawIndexEntry) -> (result: bool) {
        right.timestamp.is_before(&left.timestamp) || (!left.timestamp.is_before(&right.timestamp)
            && left.id.0.bits < right.id.0.bits)
    }
}

/// Both orders of entries are strict and tell any two entries apart.
pub proof fn entry_orders_are_total()
    ensures
        order::is_weak_order(entry_order(), |entry: RawIndexEntry| true),
        order::is_weak_order(newest_order(), |entry: RawIndexEntry| true),
        forall|a: RawIndexEntry, b: RawIndexEntry|
            !#[trigger] entry_order()(a, b) && !entry_order()(b, a) ==> a == b,
        forall|a: RawIndexEntry, b: RawIndexEntry|
            !#[trigger] newest_order()(a, b) && !newest_order()(b, a) ==> a == b,
{
    assert forall|a: RawIndexEntry, b: RawIndexEntry| !#[trigger] entry_order()(a, b)
        && !entry_order()(b, a) implies a == b by {
        entries_are_apart(a, b);
    }
    assert forall|a: RawIndexEntry, b: RawIndexEntry| !#[trigger] newest_order()(a, b)
        && !newest_order()(b, a) implies a == b by {
        entries_are_apart(a, b);
    }
}

proof fn entries_are_apart(a: RawIndexEntry, b: RawIndexEntry)
    ensures
        !entry_before(a, b) && !entry_before(b, a) ==> a == b,
        !newer_before(a, b) && !newer_before(b, a) ==> a == b,
{
}

} // verus!
