//! Rebuilding the indexes of a store on disk from the nodes themselves.
use vstd::prelude::*;

use crate::domain::abstract_node;
use crate::domain::abstract_node::{Abstract, AbstractNode};
use crate::domain::raw_node;
use crate::domain::raw_node::{DistillationState, Raw, RawNode};
use crate::ids::{AbstractNodeId, LoopId, RawNodeId, SessionId};
use crate::order;
use crate::order::{insert_in_order, sort_by, Order};
use crate::storage::in_memory;
use crate::storage::object_index;
use crate::storage::object_index::{timeline_bucket, Index};
use crate::storage::timeline;
use crate::storage::timeline::{EntryOrder, RawIndexEntry};
use crate::table;
use crate::table::{Key, Pair, Table};

verus! {

/// Orders scanned raw nodes by time, then by identifier.
pub struct RawScanOrder;

/// The order of scanned raw nodes as a function.
pub open spec fn raw_scan_order() -> spec_fn(Raw, Raw) -> bool {
    |left: Raw, right: Raw|
        timeline::entry_before(RawIndexEntry::entry(left), RawIndexEntry::entry(right))
}

impl Order<RawNode> for RawScanOrder {
    open spec fn before(&self, left: Raw, right: Raw) -> bool {
        timeline::entry_before(RawIndexEntry::entry(left), RawIndexEntry::entry(right))
    }

    fn is_before(&self, left: &RawNode, right: &RawNode) -> (result: bool) {
        EntryOrder.is_before(&RawIndexEntry::of(left), &RawIndexEntry::of(right))
    }
}

/// Orders scanned abstract nodes by time, then by identifier.
pub struct AbstractScanOrder;

/// The order of scanned abstract nodes as a function.
pub open spec fn abstract_scan_order() -> spec_fn(Abstract, Abstract) -> bool {
    |left: Abstract, right: Abstract|
        left.timestamp.before(right.timestamp) || (!right.timestamp.before(left.timestamp)
            && left.id.0.bits < right.id.0.bits)
}

impl Order<AbstractNode> for AbstractScanOrder {
    open spec fn before(&self, left: Abstract, right: Abstract) -> bool {
        left.timestamp.before(right.timestamp) || (!right.timestamp.before(left.timestamp)
            && left.id.0.bits < right.id.0.bits)
    }

    fn is_before(&self, left: &AbstractNode, right: &AbstractNode) -> (result: bool) {
        left.timestamp.is_before(&right.timestamp) || (!right.timestamp.is_before(&left.timestamp)
            && left.id.0.bits < right.id.0.bits)
    }
}

/// The raw nodes in the order in which a rebuild goes through them.
pub open spec fn scanned(nodes: Seq<Raw>) -> Seq<Raw> {
    order::ordered(raw_scan_order(), nodes)
}

/// Which raw node each operation made: the last one under its key.
pub open spec fn raw_operations(nodes: Seq<Raw>) -> Seq<Pair<Seq<char>, RawNodeId>>
    decreases nodes.len(),
{
    if nodes.len() == 0 {
        Seq::empty()
    } else {
        in_memory::operated(
            raw_operations(nodes.drop_last()),
            nodes.last().operation_key,
            nodes.last().id,
        )
    }
}

/// Which abstract node each operation made: the last one under its key.
pub open spec fn abstract_operations(nodes: Seq<Abstract>) -> Seq<
    Pair<Seq<char>, AbstractNodeId>,
>
    decreases nodes.len(),
{
    if nodes.len() == 0 {
        Seq::empty()
    } else {
        in_memory::operated(
            abstract_operations(nodes.drop_last()),
            nodes.last().operation_key,
            nodes.last().id,
        )
    }
}

/// What is written for an index: nothing where it lists no node.
pub open spec fn shelf(nodes: Seq<Raw>, index: Index) -> Option<Seq<RawIndexEntry>> {
    if object_index::listed_entries(nodes, index).len() == 0 {
        None
    } else {
        Some(object_index::index_of(nodes, index))
    }
}

/// The indexes of raw nodes.
#[derive(Debug)]
pub struct RawIndexes {
    /// The timelines, by day.
    pub timeline: Table<String, Vec<RawIndexEntry>>,
    pub sessions: Table<SessionId, Vec<RawIndexEntry>>,
    pub loops: Table<LoopId, Vec<RawIndexEntry>>,
    pub undistilled: Vec<RawIndexEntry>,
    pub pushed_undistilled: Vec<RawIndexEntry>,
    /// Which node each operation made.
    pub operations: Table<String, RawNodeId>,
}

impl RawIndexes {
    /// Whether these are the indexes of nodes, in the order in which they were
    /// scanned.
    pub open spec fn describe(&self, nodes: Seq<Raw>) -> bool {
        &&& table::is_table(self.timeline@)
        &&& table::is_table(self.sessions@)
        &&& table::is_table(self.loops@)
        &&& forall|day: Seq<char>| #[trigger]
            table::lookup(self.timeline@, day) == shelf(nodes, Index::Timeline(day))
        &&& forall|id: SessionId| #[trigger]
            table::lookup(self.sessions@, id) == shelf(nodes, Index::Session(id))
        &&& forall|id: LoopId| #[trigger]
            table::lookup(self.loops@, id) == shelf(nodes, Index::Loop(id))
        &&& self.undistilled@ == object_index::index_of(nodes, Index::Undistilled)
        &&& self.pushed_undistilled@ == object_index::index_of(nodes, Index::PushedUndistilled)
        &&& self.operations@ == raw_operations(nodes)
    }
}

/// Sorting entries one by one sorts them all.
proof fn sorted_with_one_more(entries: Seq<RawIndexEntry>, entry: RawIndexEntry)
    ensures
        order::inserted(
            timeline::entry_order(),
            entry,
            order::ordered(timeline::entry_order(), entries),
        ) == order::ordered(timeline::entry_order(), entries.push(entry)),
{
    broadcast use vstd::seq_lib::group_to_multiset_ensures;

    let before = timeline::entry_order();
    let front = seq![entry] + entries;
    timeline::entry_orders_are_total();
    assert(front.drop_first() =~= entries);
    assert(front[0] == entry);
    assert(seq![entry] =~= Seq::<RawIndexEntry>::empty().push(entry));
    vstd::seq_lib::lemma_multiset_commutative(seq![entry], entries);
    assert(front.to_multiset() =~= entries.push(entry).to_multiset());
    order::sorting_forgets_arrival(before, front, entries.push(entry));
}

/// Puts an entry into an index in its place.
fn add_entry(entries: &mut Vec<RawIndexEntry>, entry: RawIndexEntry)
    ensures
        final(entries)@ == order::inserted(timeline::entry_order(), entry, old(entries)@),
{
    assert(order::views(entries@) =~= entries@);
    insert_in_order(entries, entry, &EntryOrder);
    assert(order::order_of::<RawIndexEntry, EntryOrder>(&EntryOrder) =~= timeline::entry_order());
    assert(order::views(entries@) =~= entries@);
}

/// What is stored under a key, or nothing.
spec fn held<K>(index: Seq<Pair<K, Seq<RawIndexEntry>>>, key: K) -> Seq<RawIndexEntry> {
    match table::lookup(index, key) {
        Some(entries) => entries,
        None => Seq::empty(),
    }
}

/// Puts an entry under a key.
fn add_under<K: Key>(index: &mut Table<K, Vec<RawIndexEntry>>, key: K, entry: RawIndexEntry)
    requires
        table::is_table(old(index)@),
    ensures
        table::is_table(final(index)@),
        table::lookup(final(index)@, key@) == Some(
            order::inserted(timeline::entry_order(), entry, held(old(index)@, key@)),
        ),
        forall|other: K::V|
            other != key@ ==> #[trigger] table::lookup(final(index)@, other) == table::lookup(
                old(index)@,
                other,
            ),
{
    let ghost before = index@;
    let mut entries = match index.take(&key) {
        Some(entries) => entries,
        None => Vec::new(),
    };
    assert(entries@ =~= held(before, key@));
    add_entry(&mut entries, entry);
    proof {
        table::removed_is_gone(before, key@);
        table::stored_is_found(index@, key@, entries@);
    }
    index.insert(key, entries);
}

/// A node that an index lists lands on its shelf.
proof fn shelf_grows(nodes: Seq<Raw>, node: Raw, index: Index)
    ensures
        object_index::lists(index, node) ==> shelf(nodes.push(node), index) == Some(
            order::inserted(
                timeline::entry_order(),
                RawIndexEntry::entry(node),
                object_index::index_of(nodes, index),
            ),
        ) && object_index::index_of(nodes.push(node), index) == order::inserted(
            timeline::entry_order(),
            RawIndexEntry::entry(node),
            object_index::index_of(nodes, index),
        ),
        !object_index::lists(index, node) ==> shelf(nodes.push(node), index) == shelf(nodes, index)
            && object_index::index_of(nodes.push(node), index) == object_index::index_of(
            nodes,
            index,
        ),
        object_index::listed_entries(nodes, index).len() == 0 ==> object_index::index_of(
            nodes,
            index,
        ) == Seq::<RawIndexEntry>::empty(),
{
    assert(nodes.push(node).drop_last() =~= nodes);
    assert(nodes.push(node).last() == node);
    sorted_with_one_more(
        object_index::listed_entries(nodes, index),
        RawIndexEntry::entry(node),
    );
    if object_index::listed_entries(nodes, index).len() == 0 {
        assert(object_index::index_of(nodes, index) =~= Seq::<RawIndexEntry>::empty());
    }
}

/// Rebuilds the indexes of raw nodes.
pub fn rebuild_raw_indexes(nodes: Vec<RawNode>) -> (indexes: RawIndexes)
    requires
        forall|i: int|
            0 <= i < nodes@.len() ==> object_index::in_calendar((#[trigger] nodes@[i]).timestamp),
    ensures
        indexes.describe(scanned(raw_node::raws(nodes@))),
{
    let ghost given = raw_node::raws(nodes@);
    assert(order::views(nodes@) =~= given);
    assert forall|i: int| 0 <= i < given.len() implies object_index::in_calendar(
        (#[trigger] given[i]).timestamp,
    ) by {
        assert(given[i] == nodes@[i]@);
    }
    let nodes = sort_by(nodes, &RawScanOrder);
    assert(order::order_of::<RawNode, RawScanOrder>(&RawScanOrder) =~= raw_scan_order());
    let ghost all = order::views(nodes@);
    proof {
        scanning_keeps_days(given);
    }
    let mut timeline: Table<String, Vec<RawIndexEntry>> = Table::new();
    let mut sessions: Table<SessionId, Vec<RawIndexEntry>> = Table::new();
    let mut loops: Table<LoopId, Vec<RawIndexEntry>> = Table::new();
    let mut undistilled: Vec<RawIndexEntry> = Vec::new();
    let mut pushed_undistilled: Vec<RawIndexEntry> = Vec::new();
    let mut operations: Table<String, RawNodeId> = Table::new();
    let mut index: usize = 0;
    proof {
        let none = all.take(0);
        assert(none =~= Seq::<Raw>::empty());
        assert(undistilled@ =~= object_index::index_of(none, Index::Undistilled));
        assert(pushed_undistilled@ =~= object_index::index_of(none, Index::PushedUndistilled));
    }
    while index < nodes.len()
        invariant
            index <= nodes.len(),
            all == order::views(nodes@),
            forall|i: int|
                0 <= i < all.len() ==> object_index::in_calendar((#[trigger] all[i]).timestamp),
            table::is_table(timeline@),
            table::is_table(sessions@),
            table::is_table(loops@),
            forall|day: Seq<char>| #[trigger]
                table::lookup(timeline@, day) == shelf(
                    all.take(index as int),
                    Index::Timeline(day),
                ),
            forall|id: SessionId| #[trigger]
                table::lookup(sessions@, id) == shelf(
                    all.take(index as int),
                    Index::Session(id),
                ),
            forall|id: LoopId| #[trigger]
                table::lookup(loops@, id) == shelf(all.take(index as int), Index::Loop(id)),
            undistilled@ == object_index::index_of(all.take(index as int), Index::Undistilled),
            pushed_undistilled@ == object_index::index_of(
                all.take(index as int),
                Index::PushedUndistilled,
            ),
            operations@ == raw_operations(all.take(index as int)),
        decreases nodes.len() - index,
    {
        let node = &nodes[index];
        let ghost seen = all.take(index as int);
        let ghost timeline_before = timeline@;
        let ghost sessions_before = sessions@;
        let ghost loops_before = loops@;
        proof {
            assert(all[index as int] == node@);
            assert(all.take(index + 1) =~= seen.push(node@));
            assert(seen.push(node@).drop_last() =~= seen);
        }
        let entry = RawIndexEntry::of(node);
        let day = timeline_bucket(&node.timestamp);
        add_under(&mut timeline, day, entry);
        if let Some(session_id) = node.session_id {
            add_under(&mut sessions, session_id, entry);
        }
        if let Some(loop_id) = node.loop_id {
            add_under(&mut loops, loop_id, entry);
        }
        if !(node.distillation_state == DistillationState::Distilled) {
            add_entry(&mut undistilled, entry);
            if node.overflow.was_pushed_out_of_session {
                add_entry(&mut pushed_undistilled, entry);
            }
        }
        if let Some(operation_key) = &node.operation_key {
            operations.insert(operation_key.clone(), node.id);
        }
        proof {
            let grown = seen.push(node@);
            shelf_grows(seen, node@, Index::Undistilled);
            shelf_grows(seen, node@, Index::PushedUndistilled);
            assert forall|other: Seq<char>| #[trigger] table::lookup(timeline@, other) == shelf(
                grown,
                Index::Timeline(other),
            ) by {
                shelf_grows(seen, node@, Index::Timeline(other));
                assert(table::lookup(timeline_before, other) == shelf(
                    seen,
                    Index::Timeline(other),
                ));
            }
            assert forall|other: SessionId| #[trigger] table::lookup(sessions@, other) == shelf(
                grown,
                Index::Session(other),
            ) by {
                shelf_grows(seen, node@, Index::Session(other));
                assert(table::lookup(sessions_before, other) == shelf(
                    seen,
                    Index::Session(other),
                ));
            }
            assert forall|other: LoopId| #[trigger] table::lookup(loops@, other) == shelf(
                grown,
                Index::Loop(other),
            ) by {
                shelf_grows(seen, node@, Index::Loop(other));
                assert(table::lookup(loops_before, other) == shelf(seen, Index::Loop(other)));
            }
        }
        index = index + 1;
    }
    assert(all.take(all.len() as int) =~= all);
    RawIndexes { timeline, sessions, loops, undistilled, pushed_undistilled, operations }
}

/// Scanning keeps nodes in the calendar.
proof fn scanning_keeps_days(nodes: Seq<Raw>)
    requires
        forall|i: int|
            0 <= i < nodes.len() ==> object_index::in_calendar((#[trigger] nodes[i]).timestamp),
    ensures
        forall|i: int|
            0 <= i < scanned(nodes).len() ==> object_index::in_calendar(
                (#[trigger] scanned(nodes)[i]).timestamp,
            ),
{
    broadcast use vstd::seq_lib::group_to_multiset_ensures;

    let sorted = scanned(nodes);
    order::ordered_keeps_values(raw_scan_order(), nodes);
    assert forall|i: int| 0 <= i < sorted.len() implies object_index::in_calendar(
        (#[trigger] sorted[i]).timestamp,
    ) by {
        assert(sorted.to_multiset().count(sorted[i]) > 0);
        assert(nodes.to_multiset().count(sorted[i]) > 0);
        assert(nodes.contains(sorted[i]));
        let k = choose|k: int| 0 <= k < nodes.len() && nodes[k] == sorted[i];
        assert(object_index::in_calendar(nodes[k].timestamp));
    }
}

/// Rebuilds the notes which abstract node each operation made.
pub fn rebuild_abstract_operations(nodes: Vec<AbstractNode>) -> (operations: Table<
    String,
    AbstractNodeId,
>)
    ensures
        operations@ == abstract_operations(
            order::ordered(abstract_scan_order(), abstract_node::abstracts(nodes@)),
        ),
{
    assert(order::views(nodes@) =~= abstract_node::abstracts(nodes@));
    let nodes = sort_by(nodes, &AbstractScanOrder);
    assert(order::order_of::<AbstractNode, AbstractScanOrder>(&AbstractScanOrder)
        =~= abstract_scan_order());
    let ghost all = order::views(nodes@);
    let mut operations: Table<String, AbstractNodeId> = Table::new();
    let mut index: usize = 0;
    assert(all.take(0) =~= Seq::<Abstract>::empty());
    while index < nodes.len()
        invariant
            index <= nodes.len(),
            all == order::views(nodes@),
            operations@ == abstract_operations(all.take(index as int)),
        decreases nodes.len() - index,
    {
        let node = &nodes[index];
        proof {
            assert(all.take(index + 1).drop_last() =~= all.take(index as int));
            assert(all.take(index + 1).last() == node@);
        }
        if let Some(operation_key) = &node.operation_key {
            operations.insert(operation_key.clone(), node.id);
        }
        index = index + 1;
    }
    assert(all.take(all.len() as int) =~= all);
    operations
}

/// A rebuild leaves no node out of the timeline of its day.
pub proof fn rebuilt_timelines_are_complete(nodes: Seq<Raw>, index: int)
    requires
        0 <= index < nodes.len(),
    ensures
        ({
            let node = nodes[index];
            let day = Index::Timeline(object_index::bucket(node.timestamp));
            &&& shelf(scanned(nodes), day) is Some
            &&& shelf(scanned(nodes), day)->0.contains(RawIndexEntry::entry(node))
        }),
{
    broadcast use vstd::seq_lib::group_to_multiset_ensures;

    let node = nodes[index];
    let day = Index::Timeline(object_index::bucket(node.timestamp));
    let entry = RawIndexEntry::entry(node);
    let sorted = scanned(nodes);
    order::ordered_keeps_values(raw_scan_order(), nodes);
    assert(nodes.contains(node));
    assert(sorted.to_multiset().count(node) > 0);
    let k = choose|k: int| 0 <= k < sorted.len() && sorted[k] == node;
    listed_nodes_have_entries(sorted, day, k);
    let listed = object_index::listed_entries(sorted, day);
    order::ordered_keeps_values(timeline::entry_order(), listed);
    assert(listed.to_multiset().count(entry) > 0);
    assert(object_index::index_of(sorted, day).to_multiset().count(entry) > 0);
}

/// A node that an index lists has an entry.
pub proof fn listed_nodes_have_entries(nodes: Seq<Raw>, index: Index, k: int)
    requires
        0 <= k < nodes.len(),
        object_index::lists(index, nodes[k]),
    ensures
        object_index::listed_entries(nodes, index).contains(RawIndexEntry::entry(nodes[k])),
    decreases nodes.len(),
{
    let entry = RawIndexEntry::entry(nodes[k]);
    let all = object_index::listed_entries(nodes, index);
    if k == nodes.len() - 1 {
        assert(all[all.len() - 1] == entry);
    } else {
        let rest = nodes.drop_last();
        listed_nodes_have_entries(rest, index, k);
        let before = object_index::listed_entries(rest, index);
        let m = choose|m: int| 0 <= m < before.len() && before[m] == entry;
        assert(all[m] == entry);
    }
}

/// A rebuilt operation leads to the node that was put in last under its key, by
/// time and then by identifier, and a key that no node has leads nowhere.
pub proof fn rebuilt_operations_lead_to_the_last(nodes: Seq<Raw>, key: Seq<char>)
    ensures
        table::is_table(raw_operations(nodes)),
        ({
            let own = nodes.filter(|node: Raw| node.operation_key == Some(key));
            table::lookup(raw_operations(nodes), key) == if own.len() == 0 {
                None
            } else {
                Some(own.last().id)
            }
        }),
        order::is_ordered(
            |left: Raw, right: Raw| left.timestamp.before(right.timestamp),
            scanned(nodes),
        ),
        scanned(nodes).to_multiset() == nodes.to_multiset(),
{
    operations_lead_to_the_last(nodes, key);
    let any = |node: Raw| true;
    order::ordered_keeps_values(raw_scan_order(), nodes);
    assert(order::all_are(any, nodes));
    order::ordered_is_ordered(raw_scan_order(), any, nodes);
    let all = scanned(nodes);
    let earlier = |left: Raw, right: Raw| left.timestamp.before(right.timestamp);
    assert forall|i: int, j: int| 0 <= i < j < all.len() implies !earlier(
        #[trigger] all[j],
        #[trigger] all[i],
    ) by {
        assert(!raw_scan_order()(all[j], all[i]));
    }
}

proof fn operations_lead_to_the_last(nodes: Seq<Raw>, key: Seq<char>)
    ensures
        table::is_table(raw_operations(nodes)),
        ({
            let own = nodes.filter(|node: Raw| node.operation_key == Some(key));
            table::lookup(raw_operations(nodes), key) == if own.len() == 0 {
                None
            } else {
                Some(own.last().id)
            }
        }),
    decreases nodes.len(),
{
    reveal(Seq::filter);
    if nodes.len() > 0 {
        operations_lead_to_the_last(nodes.drop_last(), key);
        if let Some(own) = nodes.last().operation_key {
            table::stored_is_found(raw_operations(nodes.drop_last()), own, nodes.last().id);
        }
    } else {
        table::position_is_first(raw_operations(nodes), key);
    }
}

/// The same holds of abstract nodes.
pub proof fn rebuilt_abstract_operations_lead_to_the_last(nodes: Seq<Abstract>, key: Seq<char>)
    ensures
        table::is_table(abstract_operations(nodes)),
        ({
            let own = nodes.filter(|node: Abstract| node.operation_key == Some(key));
            table::lookup(abstract_operations(nodes), key) == if own.len() == 0 {
                None
            } else {
                Some(own.last().id)
            }
        }),
        order::is_ordered(
            |left: Abstract, right: Abstract| left.timestamp.before(right.timestamp),
            order::ordered(abstract_scan_order(), nodes),
        ),
        order::ordered(abstract_scan_order(), nodes).to_multiset() == nodes.to_multiset(),
{
    abstract_operations_lead_to_the_last(nodes, key);
    let any = |node: Abstract| true;
    order::ordered_keeps_values(abstract_scan_order(), nodes);
    assert(order::all_are(any, nodes));
    order::ordered_is_ordered(abstract_scan_order(), any, nodes);
    let all = order::ordered(abstract_scan_order(), nodes);
    let earlier = |left: Abstract, right: Abstract| left.timestamp.before(right.timestamp);
    assert forall|i: int, j: int| 0 <= i < j < all.len() implies !earlier(
        #[trigger] all[j],
        #[trigger] all[i],
    ) by {
        assert(!abstract_scan_order()(all[j], all[i]));
    }
}

proof fn abstract_operations_lead_to_the_last(nodes: Seq<Abstract>, key: Seq<char>)
    ensures
        table::is_table(abstract_operations(nodes)),
        ({
            let own = nodes.filter(|node: Abstract| node.operation_key == Some(key));
            table::lookup(abstract_operations(nodes), key) == if own.len() == 0 {
                None
            } else {
                Some(own.last().id)
            }
        }),
    decreases nodes.len(),
{
    reveal(Seq::filter);
    if nodes.len() > 0 {
        abstract_operations_lead_to_the_last(nodes.drop_last(), key);
        if let Some(own) = nodes.last().operation_key {
            table::stored_is_found(abstract_operations(nodes.drop_last()), own, nodes.last().id);
        }
    } else {
        table::position_is_first(abstract_operations(nodes), key);
    }
}

} // verus!
