//! Nodes and checkpoints held in memory.
use vstd::prelude::*;

use crate::domain::abstract_node;
use crate::domain::abstract_node::{Abstract, AbstractNode};
use crate::domain::loop_state::{Checkpoint, LoopState};
use crate::domain::raw_node;
use crate::domain::raw_node::{DistillationState, Raw, RawNode};
use crate::ids::{AbstractNodeId, LoopId, LoopKey, RawNodeId, SessionId};
use crate::order;
use crate::order::sort_by;
use crate::storage::records::{commit_abstract_once, commit_once, NodeCommit, RawLifecyclePatch};
use crate::storage::timeline;
use crate::storage::timeline::{NewestOrder, TimeOrder, Window};
use crate::storage::vector;
use crate::table;
use crate::table::{Key, Pair, Table};
use crate::time::Timestamp;

verus! {

/// Nodes held in memory, with the indexes that find them.
#[derive(Debug)]
pub struct InMemoryNodeRepository {
    pub raw_nodes: Table<RawNodeId, RawNode>,
    pub abstract_nodes: Table<AbstractNodeId, AbstractNode>,
    pub session_index: Table<SessionId, Vec<RawNodeId>>,
    pub loop_index: Table<LoopId, Vec<RawNodeId>>,
    pub raw_operation_index: Table<String, RawNodeId>,
    pub abstract_operation_index: Table<String, AbstractNodeId>,
}

/// The nodes and their indexes as mathematical values.
#[verifier::ext_equal]
pub struct Nodes {
    pub raws: Seq<Pair<RawNodeId, Raw>>,
    pub abstracts: Seq<Pair<AbstractNodeId, Abstract>>,
    pub sessions: Seq<Pair<SessionId, Seq<RawNodeId>>>,
    pub loops: Seq<Pair<LoopId, Seq<RawNodeId>>>,
    pub raw_operations: Seq<Pair<Seq<char>, RawNodeId>>,
    pub abstract_operations: Seq<Pair<Seq<char>, AbstractNodeId>>,
}

impl View for InMemoryNodeRepository {
    type V = Nodes;

    open spec fn view(&self) -> Nodes {
        Nodes {
            raws: self.raw_nodes@,
            abstracts: self.abstract_nodes@,
            sessions: self.session_index@,
            loops: self.loop_index@,
            raw_operations: self.raw_operation_index@,
            abstract_operations: self.abstract_operation_index@,
        }
    }
}

/// The identifiers that an index lists under a key.
pub open spec fn listed<K>(index: Seq<Pair<K, Seq<RawNodeId>>>, key: K) -> Seq<RawNodeId> {
    match table::lookup(index, key) {
        Some(ids) => ids,
        None => Seq::empty(),
    }
}

/// An index with one more identifier under a key.
pub open spec fn extended<K>(
    index: Seq<Pair<K, Seq<RawNodeId>>>,
    key: Option<K>,
    id: RawNodeId,
) -> Seq<Pair<K, Seq<RawNodeId>>> {
    match key {
        Some(key) => table::stored(index, key, listed(index, key).push(id)),
        None => index,
    }
}

/// An operation index with an identifier under a key.
pub open spec fn operated<I>(
    index: Seq<Pair<Seq<char>, I>>,
    key: Option<Seq<char>>,
    id: I,
) -> Seq<Pair<Seq<char>, I>> {
    match key {
        Some(key) => table::stored(index, key, id),
        None => index,
    }
}

/// The values stored under keys, in the order of the keys; keys with nothing
/// stored under them are left out.
pub open spec fn present<K, V>(entries: Seq<Pair<K, V>>, keys: Seq<K>) -> Seq<V>
    decreases keys.len(),
{
    if keys.len() == 0 {
        Seq::empty()
    } else {
        let rest = present(entries, keys.drop_last());
        match table::lookup(entries, keys.last()) {
            Some(value) => rest.push(value),
            None => rest,
        }
    }
}

/// A list of as many values as keys has the value of every key at its place.
pub proof fn complete_lists_miss_nothing<K, V>(entries: Seq<Pair<K, V>>, keys: Seq<K>)
    ensures
        present(entries, keys).len() <= keys.len(),
        present(entries, keys).len() == keys.len() ==> forall|i: int|
            0 <= i < keys.len() ==> table::lookup(entries, #[trigger] keys[i]) == Some(
                present(entries, keys)[i],
            ),
    decreases keys.len(),
{
    if keys.len() > 0 {
        complete_lists_miss_nothing(entries, keys.drop_last());
        let found = present(entries, keys);
        if found.len() == keys.len() {
            assert forall|i: int| 0 <= i < keys.len() implies table::lookup(
                entries,
                #[trigger] keys[i],
            ) == Some(found[i]) by {
                if i < keys.len() - 1 {
                    assert(keys.drop_last()[i] == keys[i]);
                }
            }
        }
    }
}

/// The values of a table, in order.
pub open spec fn values<K, V>(entries: Seq<Pair<K, V>>) -> Seq<V> {
    entries.map_values(|entry: Pair<K, V>| entry.value)
}

/// The raw nodes with changes made to some of them.
pub open spec fn patched(
    entries: Seq<Pair<RawNodeId, Raw>>,
    ids: Seq<RawNodeId>,
    patch: RawLifecyclePatch,
) -> Seq<Pair<RawNodeId, Raw>>
    decreases ids.len(),
{
    if ids.len() == 0 {
        entries
    } else {
        let before = patched(entries, ids.drop_last(), patch);
        match table::lookup(before, ids.last()) {
            Some(node) => table::stored(before, ids.last(), patch.applied(node)),
            None => before,
        }
    }
}

/// Whether a raw node still waits for distillation.
pub open spec fn is_backlog(node: Raw, only_pushed_out: bool) -> bool {
    &&& node.distillation_state != DistillationState::Distilled
    &&& only_pushed_out ==> node.overflow.was_pushed_out_of_session
}

impl Nodes {
    /// A store that holds nothing.
    pub open spec fn empty() -> Nodes {
        Nodes {
            raws: Seq::empty(),
            abstracts: Seq::empty(),
            sessions: Seq::empty(),
            loops: Seq::empty(),
            raw_operations: Seq::empty(),
            abstract_operations: Seq::empty(),
        }
    }

    /// The store with a raw node put in.
    pub open spec fn with_raw(self, node: Raw) -> Nodes {
        Nodes {
            raws: table::stored(self.raws, node.id, node),
            sessions: extended(self.sessions, node.session_id, node.id),
            loops: extended(self.loops, node.loop_id, node.id),
            raw_operations: operated(self.raw_operations, node.operation_key, node.id),
            ..self
        }
    }

    /// The store with an abstract node put in.
    pub open spec fn with_abstract(self, node: Abstract) -> Nodes {
        Nodes {
            abstracts: table::stored(self.abstracts, node.id, node),
            abstract_operations: operated(self.abstract_operations, node.operation_key, node.id),
            ..self
        }
    }

    /// The raw node that was put in last under an operation key.
    pub open spec fn raw_under(self, key: Seq<char>) -> Option<Raw> {
        match table::lookup(self.raw_operations, key) {
            Some(id) => table::lookup(self.raws, id),
            None => None,
        }
    }

    /// The abstract node that was put in last under an operation key.
    pub open spec fn abstract_under(self, key: Seq<char>) -> Option<Abstract> {
        match table::lookup(self.abstract_operations, key) {
            Some(id) => table::lookup(self.abstracts, id),
            None => None,
        }
    }

    /// The raw node that a commit would repeat.
    pub open spec fn repeated_raw(self, node: Raw) -> Option<Raw> {
        match node.operation_key {
            Some(key) => self.raw_under(key),
            None => None,
        }
    }

    /// The abstract node that a commit would repeat.
    pub open spec fn repeated_abstract(self, node: Abstract) -> Option<Abstract> {
        match node.operation_key {
            Some(key) => self.abstract_under(key),
            None => None,
        }
    }

    /// The raw nodes of a session, oldest first.
    pub open spec fn of_session(self, session_id: SessionId) -> Seq<Raw> {
        order::ordered(timeline::by_time(), present(self.raws, listed(self.sessions, session_id)))
    }

    /// The raw nodes of a loop, oldest first.
    pub open spec fn of_loop(self, loop_id: LoopId) -> Seq<Raw> {
        order::ordered(timeline::by_time(), present(self.raws, listed(self.loops, loop_id)))
    }

    /// The raw nodes that a timeline goes through: those of a session, or all.
    pub open spec fn on_timeline(self, session_id: Option<SessionId>) -> Seq<Raw> {
        match session_id {
            Some(session_id) => self.of_session(session_id),
            None => values(self.raws),
        }
    }

    /// The raw nodes of a timeline within a window, newest first.
    pub open spec fn timeline(
        self,
        session_id: Option<SessionId>,
        window: Window,
        limit: nat,
    ) -> Seq<Raw> {
        vector::first(
            order::ordered(
                timeline::by_newest(),
                self.on_timeline(session_id).filter(|node: Raw| window.covers(node.timestamp)),
            ),
            limit,
        )
    }

    /// The raw nodes that wait for distillation, oldest first.
    pub open spec fn backlog(self, limit: nat, only_pushed_out: bool) -> Seq<Raw> {
        vector::first(
            order::ordered(
                timeline::by_time(),
                values(self.raws).filter(|node: Raw| is_backlog(node, only_pushed_out)),
            ),
            limit,
        )
    }

    /// No key occurs twice, and every node is stored under its identifier.
    pub open spec fn well_formed(self) -> bool {
        &&& table::is_table(self.raws)
        &&& table::is_table(self.abstracts)
        &&& table::is_table(self.sessions)
        &&& table::is_table(self.loops)
        &&& table::is_table(self.raw_operations)
        &&& table::is_table(self.abstract_operations)
        &&& forall|i: int|
            0 <= i < self.raws.len() ==> (#[trigger] self.raws[i]).value.id == self.raws[i].key
        &&& forall|i: int|
            0 <= i < self.abstracts.len() ==> (#[trigger] self.abstracts[i]).value.id
                == self.abstracts[i].key
    }
}

/// The last values of a sequence, at most a number of them.
pub open spec fn last_of<T>(items: Seq<T>, limit: nat) -> Seq<T> {
    if limit < items.len() {
        items.skip(items.len() - limit)
    } else {
        items
    }
}

/// Lists the identifiers under a key.
fn list_ids<K: Key>(index: &Table<K, Vec<RawNodeId>>, key: &K) -> (ids: Vec<RawNodeId>)
    ensures
        ids@ == listed(index@, key@),
{
    match index.get(key) {
        Some(found) => {
            let ids = found.clone();
            assert(ids@ =~= found@);
            ids
        },
        None => Vec::new(),
    }
}

/// Keeps at most a number of nodes.
fn keep_first(nodes: Vec<RawNode>, limit: usize) -> (result: Vec<RawNode>)
    ensures
        raw_node::raws(result@) == vector::first(raw_node::raws(nodes@), limit as nat),
{
    let mut result = nodes;
    let ghost all = raw_node::raws(nodes@);
    if limit < result.len() {
        result.truncate(limit);
        assert(raw_node::raws(result@) =~= all.take(limit as int));
    }
    result
}

/// Sorts nodes by time.
fn sort_by_time(nodes: Vec<RawNode>) -> (result: Vec<RawNode>)
    ensures
        raw_node::raws(result@) == order::ordered(timeline::by_time(), raw_node::raws(nodes@)),
{
    assert(order::views(nodes@) =~= raw_node::raws(nodes@));
    let result = sort_by(nodes, &TimeOrder);
    assert(order::order_of::<RawNode, TimeOrder>(&TimeOrder) =~= timeline::by_time());
    assert(order::views(result@) =~= raw_node::raws(result@));
    result
}

/// Sorts nodes by time, the newest first.
fn sort_by_newest(nodes: Vec<RawNode>) -> (result: Vec<RawNode>)
    ensures
        raw_node::raws(result@) == order::ordered(timeline::by_newest(), raw_node::raws(nodes@)),
{
    assert(order::views(nodes@) =~= raw_node::raws(nodes@));
    let result = sort_by(nodes, &NewestOrder);
    assert(order::order_of::<RawNode, NewestOrder>(&NewestOrder) =~= timeline::by_newest());
    assert(order::views(result@) =~= raw_node::raws(result@));
    result
}

/// Keeps the nodes within a window.
fn keep_within(nodes: &[RawNode], window: &Window) -> (result: Vec<RawNode>)
    ensures
        raw_node::raws(result@) == raw_node::raws(nodes@).filter(
            |node: Raw| window.covers(node.timestamp),
        ),
{
    let ghost all = raw_node::raws(nodes@);
    let ghost kind = |node: Raw| window.covers(node.timestamp);
    let mut result: Vec<RawNode> = Vec::new();
    let mut index: usize = 0;
    proof {
        reveal(Seq::filter);
        assert(all.take(0) =~= Seq::<Raw>::empty());
        assert(raw_node::raws(result@) =~= Seq::<Raw>::empty());
    }
    while index < nodes.len()
        invariant
            index <= nodes.len(),
            all == raw_node::raws(nodes@),
            kind == (|node: Raw| window.covers(node.timestamp)),
            raw_node::raws(result@) == all.take(index as int).filter(kind),
        decreases nodes.len() - index,
    {
        let ghost before = raw_node::raws(result@);
        let node = &nodes[index];
        proof {
            reveal(Seq::filter);
            assert(all.take(index + 1).drop_last() =~= all.take(index as int));
            assert(all.take(index + 1).last() == node@);
        }
        if window.includes(&node.timestamp) {
            let copy = node.clone();
            result.push(copy);
            assert(raw_node::raws(result@) =~= before.push(copy@));
        }
        index = index + 1;
    }
    assert(all.take(all.len() as int) =~= all);
    result
}

impl Default for InMemoryNodeRepository {
    fn default() -> (repository: Self)
        ensures
            repository@ == Nodes::empty(),
    {
        InMemoryNodeRepository {
            raw_nodes: Table::new(),
            abstract_nodes: Table::new(),
            session_index: Table::new(),
            loop_index: Table::new(),
            raw_operation_index: Table::new(),
            abstract_operation_index: Table::new(),
        }
    }
}

impl InMemoryNodeRepository {
    /// Puts a raw node in.
    pub fn insert_raw(&mut self, node: RawNode)
        ensures
            final(self)@ == old(self)@.with_raw(node@),
    {
        let ghost before = self@;
        if let Some(session_id) = node.session_id {
            let mut ids = list_ids(&self.session_index, &session_id);
            ids.push(node.id);
            self.session_index.insert(session_id, ids);
        }
        if let Some(loop_id) = node.loop_id {
            let mut ids = list_ids(&self.loop_index, &loop_id);
            ids.push(node.id);
            self.loop_index.insert(loop_id, ids);
        }
        if let Some(operation_key) = &node.operation_key {
            self.raw_operation_index.insert(operation_key.clone(), node.id);
        }
        self.raw_nodes.insert(node.id, node);
        assert(self@ =~= before.with_raw(node@));
    }

    /// Puts an abstract node in.
    pub fn insert_abstract(&mut self, node: AbstractNode)
        ensures
            final(self)@ == old(self)@.with_abstract(node@),
    {
        let ghost before = self@;
        if let Some(operation_key) = &node.operation_key {
            self.abstract_operation_index.insert(operation_key.clone(), node.id);
        }
        self.abstract_nodes.insert(node.id, node);
        assert(self@ =~= before.with_abstract(node@));
    }

    /// Puts a raw node in, unless one was put in under its operation key.
    pub fn insert_raw_once(&mut self, node: RawNode) -> (commit: NodeCommit<RawNode>)
        ensures
            !commit.projections_committed,
            match old(self)@.repeated_raw(node@) {
                Some(existing) => {
                    &&& !commit.inserted
                    &&& commit.node@ == existing
                    &&& final(self)@ == old(self)@
                },
                None => {
                    &&& commit.inserted
                    &&& commit.node@ == node@
                    &&& final(self)@ == old(self)@.with_raw(node@)
                },
            },
    {
        if let Some(operation_key) = &node.operation_key {
            if let Some(existing) = self.get_raw_by_operation_key(operation_key.as_str()) {
                return commit_once(Some(existing), node);
            }
        }
        self.insert_raw(node.clone());
        commit_once(None, node)
    }

    /// Puts an abstract node in, unless one was put in under its operation key.
    pub fn insert_abstract_once(&mut self, node: AbstractNode) -> (commit: NodeCommit<
        AbstractNode,
    >)
        ensures
            !commit.projections_committed,
            match old(self)@.repeated_abstract(node@) {
                Some(existing) => {
                    &&& !commit.inserted
                    &&& commit.node@ == existing
                    &&& final(self)@ == old(self)@
                },
                None => {
                    &&& commit.inserted
                    &&& commit.node@ == node@
                    &&& final(self)@ == old(self)@.with_abstract(node@)
                },
            },
    {
        if let Some(operation_key) = &node.operation_key {
            if let Some(existing) = self.get_abstract_by_operation_key(operation_key.as_str()) {
                return commit_abstract_once(Some(existing), node);
            }
        }
        self.insert_abstract(node.clone());
        commit_abstract_once(None, node)
    }

    /// Finds a raw node.
    pub fn get_raw(&self, id: &RawNodeId) -> (node: Option<RawNode>)
        ensures
            match table::lookup(self@.raws, *id) {
                Some(found) => node is Some && node->0@ == found,
                None => node is None,
            },
    {
        match self.raw_nodes.get(id) {
            Some(node) => Some(node.clone()),
            None => None,
        }
    }

    /// Finds an abstract node.
    pub fn get_abstract(&self, id: &AbstractNodeId) -> (node: Option<AbstractNode>)
        ensures
            match table::lookup(self@.abstracts, *id) {
                Some(found) => node is Some && node->0@ == found,
                None => node is None,
            },
    {
        match self.abstract_nodes.get(id) {
            Some(node) => Some(node.clone()),
            None => None,
        }
    }

    /// Finds the raw node that was put in under an operation key.
    pub fn get_raw_by_operation_key(&self, operation_key: &str) -> (node: Option<RawNode>)
        ensures
            match self@.raw_under(operation_key@) {
                Some(found) => node is Some && node->0@ == found,
                None => node is None,
            },
    {
        match self.raw_operation_index.get(&operation_key.to_string()) {
            Some(id) => self.get_raw(id),
            None => None,
        }
    }

    /// Finds the abstract node that was put in under an operation key.
    pub fn get_abstract_by_operation_key(&self, operation_key: &str) -> (node: Option<
        AbstractNode,
    >)
        ensures
            match self@.abstract_under(operation_key@) {
                Some(found) => node is Some && node->0@ == found,
                None => node is None,
            },
    {
        match self.abstract_operation_index.get(&operation_key.to_string()) {
            Some(id) => self.get_abstract(id),
            None => None,
        }
    }

    /// Finds raw nodes; those that are missing are left out.
    pub fn list_raw(&self, ids: &[RawNodeId]) -> (nodes: Vec<RawNode>)
        ensures
            raw_node::raws(nodes@) == present(self@.raws, ids@),
    {
        let mut nodes: Vec<RawNode> = Vec::new();
        let mut index: usize = 0;
        assert(raw_node::raws(nodes@) =~= Seq::<Raw>::empty());
        while index < ids.len()
            invariant
                index <= ids.len(),
                raw_node::raws(nodes@) == present(self@.raws, ids@.take(index as int)),
            decreases ids.len() - index,
        {
            let ghost before = raw_node::raws(nodes@);
            proof {
                assert(ids@.take(index + 1).drop_last() =~= ids@.take(index as int));
            }
            if let Some(node) = self.get_raw(&ids[index]) {
                nodes.push(node);
                assert(raw_node::raws(nodes@) =~= before.push(node@));
            }
            index = index + 1;
        }
        assert(ids@.take(ids@.len() as int) =~= ids@);
        nodes
    }

    /// Finds abstract nodes; those that are missing are left out.
    pub fn list_abstract(&self, ids: &[AbstractNodeId]) -> (nodes: Vec<AbstractNode>)
        ensures
            abstract_node::abstracts(nodes@) == present(self@.abstracts, ids@),
    {
        let mut nodes: Vec<AbstractNode> = Vec::new();
        let mut index: usize = 0;
        assert(abstract_node::abstracts(nodes@) =~= Seq::<Abstract>::empty());
        while index < ids.len()
            invariant
                index <= ids.len(),
                abstract_node::abstracts(nodes@) == present(
                    self@.abstracts,
                    ids@.take(index as int),
                ),
            decreases ids.len() - index,
        {
            let ghost before = abstract_node::abstracts(nodes@);
            proof {
                assert(ids@.take(index + 1).drop_last() =~= ids@.take(index as int));
            }
            if let Some(node) = self.get_abstract(&ids[index]) {
                nodes.push(node);
                assert(abstract_node::abstracts(nodes@) =~= before.push(node@));
            }
            index = index + 1;
        }
        assert(ids@.take(ids@.len() as int) =~= ids@);
        nodes
    }

    /// The raw nodes of a session, oldest first.
    pub fn session_raw(&self, session_id: &SessionId) -> (nodes: Vec<RawNode>)
        ensures
            raw_node::raws(nodes@) == self@.of_session(*session_id),
    {
        let ids = list_ids(&self.session_index, session_id);
        sort_by_time(self.list_raw(ids.as_slice()))
    }

    /// The newest raw nodes of a session, oldest first.
    pub fn recent_session_raw(&self, session_id: &SessionId, limit: usize) -> (nodes: Vec<RawNode>)
        ensures
            raw_node::raws(nodes@) == last_of(self@.of_session(*session_id), limit as nat),
    {
        let mut nodes = self.session_raw(session_id);
        let ghost all = raw_node::raws(nodes@);
        if limit < nodes.len() {
            let count: usize = nodes.len() - limit;
            let recent = nodes.split_off(count);
            assert(raw_node::raws(recent@) =~= all.skip(count as int));
            recent
        } else {
            nodes
        }
    }

    /// The raw nodes of a loop, oldest first.
    pub fn raw_for_loop(&self, loop_id: &LoopId) -> (nodes: Vec<RawNode>)
        ensures
            raw_node::raws(nodes@) == self@.of_loop(*loop_id),
    {
        let ids = list_ids(&self.loop_index, loop_id);
        sort_by_time(self.list_raw(ids.as_slice()))
    }

    /// The oldest raw nodes of a loop, oldest first.
    pub fn raw_for_loop_bounded(&self, loop_id: &LoopId, limit: usize) -> (nodes: Vec<RawNode>)
        ensures
            raw_node::raws(nodes@) == vector::first(self@.of_loop(*loop_id), limit as nat),
    {
        keep_first(self.raw_for_loop(loop_id), limit)
    }

    /// All raw nodes, in the order in which they were put in.
    fn all_raw(&self) -> (nodes: Vec<RawNode>)
        ensures
            raw_node::raws(nodes@) == values(self@.raws),
    {
        let ghost all = values(self@.raws);
        let mut nodes: Vec<RawNode> = Vec::new();
        let mut index: usize = 0;
        assert(raw_node::raws(nodes@) =~= all.take(0));
        while index < self.raw_nodes.entries.len()
            invariant
                index <= self.raw_nodes.entries.len(),
                all == values(self@.raws),
                raw_node::raws(nodes@) == all.take(index as int),
            decreases self.raw_nodes.entries.len() - index,
        {
            let ghost before = raw_node::raws(nodes@);
            let node = self.raw_nodes.entries[index].value.clone();
            nodes.push(node);
            proof {
                assert(raw_node::raws(nodes@) =~= before.push(node@));
                assert(all[index as int] == node@);
                assert(all.take(index + 1) =~= before.push(node@));
            }
            index = index + 1;
        }
        assert(all.take(all.len() as int) =~= all);
        nodes
    }

    /// The raw nodes of a session, or all, within a window, newest first.
    pub fn timeline_raw(
        &self,
        session_id: Option<&SessionId>,
        from: Option<Timestamp>,
        to: Option<Timestamp>,
        limit: usize,
    ) -> (nodes: Vec<RawNode>)
        ensures
            raw_node::raws(nodes@) == self@.timeline(
                match session_id {
                    Some(id) => Some(*id),
                    None => None,
                },
                (Window { from, to }),
                limit as nat,
            ),
    {
        let window = Window { from, to };
        let all = match session_id {
            Some(id) => self.session_raw(id),
            None => self.all_raw(),
        };
        keep_first(sort_by_newest(keep_within(all.as_slice(), &window)), limit)
    }

    /// Changes the distillation state and the overflow policy of raw nodes;
    /// those that are missing are left out.
    pub fn update_raw_lifecycle(&mut self, ids: &[RawNodeId], patch: &RawLifecyclePatch)
        ensures
            final(self)@ == (Nodes { raws: patched(old(self)@.raws, ids@, *patch), ..old(self)@ }),
    {
        let ghost before = self@;
        let mut index: usize = 0;
        assert(self@ =~= (Nodes { raws: patched(before.raws, ids@.take(0), *patch), ..before }));
        while index < ids.len()
            invariant
                index <= ids.len(),
                before == old(self)@,
                self@ == (Nodes {
                    raws: patched(before.raws, ids@.take(index as int), *patch),
                    ..before
                }),
            decreases ids.len() - index,
        {
            let ghost current = self@;
            proof {
                assert(ids@.take(index + 1).drop_last() =~= ids@.take(index as int));
            }
            if let Some(node) = self.get_raw(&ids[index]) {
                self.raw_nodes.insert(ids[index], patch.apply(node));
                assert(self@ =~= (Nodes { raws: self@.raws, ..current }));
            }
            index = index + 1;
        }
        assert(ids@.take(ids@.len() as int) =~= ids@);
    }

    /// The oldest raw nodes that wait for distillation, oldest first.
    pub fn undistilled_raw(&self, limit: usize, only_pushed_out: bool) -> (nodes: Vec<RawNode>)
        ensures
            raw_node::raws(nodes@) == self@.backlog(limit as nat, only_pushed_out),
    {
        let all = self.all_raw();
        let ghost given = raw_node::raws(all@);
        let ghost kind = |node: Raw| is_backlog(node, only_pushed_out);
        let mut found: Vec<RawNode> = Vec::new();
        let mut index: usize = 0;
        proof {
            reveal(Seq::filter);
            assert(given.take(0) =~= Seq::<Raw>::empty());
            assert(raw_node::raws(found@) =~= Seq::<Raw>::empty());
        }
        while index < all.len()
            invariant
                index <= all.len(),
                given == raw_node::raws(all@),
                kind == (|node: Raw| is_backlog(node, only_pushed_out)),
                raw_node::raws(found@) == given.take(index as int).filter(kind),
            decreases all.len() - index,
        {
            let ghost before = raw_node::raws(found@);
            let node = &all[index];
            proof {
                reveal(Seq::filter);
                assert(given.take(index + 1).drop_last() =~= given.take(index as int));
                assert(given.take(index + 1).last() == node@);
            }
            let distilled = node.distillation_state == DistillationState::Distilled;
            if !distilled && (!only_pushed_out || node.overflow.was_pushed_out_of_session) {
                let copy = node.clone();
                found.push(copy);
                assert(raw_node::raws(found@) =~= before.push(copy@));
            }
            index = index + 1;
        }
        assert(given.take(given.len() as int) =~= given);
        keep_first(sort_by_time(found), limit)
    }
}

/// Every raw node stays stored under its identifier.
proof fn storing_keeps_ids(entries: Seq<Pair<RawNodeId, Raw>>, node: Raw)
    requires
        forall|i: int| 0 <= i < entries.len() ==> (#[trigger] entries[i]).value.id == entries[i].key,
    ensures
        ({
            let after = table::stored(entries, node.id, node);
            forall|i: int| 0 <= i < after.len() ==> (#[trigger] after[i]).value.id == after[i].key
        }),
{
    table::position_is_first(entries, node.id);
    let after = table::stored(entries, node.id, node);
    let index = table::position(entries, node.id);
    assert forall|i: int| 0 <= i < after.len() implies (#[trigger] after[i]).value.id
        == after[i].key by {
        if i != index {
            assert(after[i] == entries[i]);
        }
    }
}

/// Every abstract node stays stored under its identifier.
proof fn storing_keeps_abstract_ids(entries: Seq<Pair<AbstractNodeId, Abstract>>, node: Abstract)
    requires
        forall|i: int| 0 <= i < entries.len() ==> (#[trigger] entries[i]).value.id == entries[i].key,
    ensures
        ({
            let after = table::stored(entries, node.id, node);
            forall|i: int| 0 <= i < after.len() ==> (#[trigger] after[i]).value.id == after[i].key
        }),
{
    table::position_is_first(entries, node.id);
    let after = table::stored(entries, node.id, node);
    let index = table::position(entries, node.id);
    assert forall|i: int| 0 <= i < after.len() implies (#[trigger] after[i]).value.id
        == after[i].key by {
        if i != index {
            assert(after[i] == entries[i]);
        }
    }
}

/// A value that is stored under one of the keys is among those present.
proof fn stored_values_are_present<K, V>(entries: Seq<Pair<K, V>>, keys: Seq<K>, index: int)
    requires
        0 <= index < keys.len(),
        table::lookup(entries, keys[index]) is Some,
    ensures
        present(entries, keys).contains(table::lookup(entries, keys[index])->0),
    decreases keys.len(),
{
    let value = table::lookup(entries, keys[index])->0;
    let all = present(entries, keys);
    if index == keys.len() - 1 {
        assert(all[all.len() - 1] == value);
    } else {
        let rest = keys.drop_last();
        stored_values_are_present(entries, rest, index);
        let found = present(entries, rest);
        let k = choose|k: int| 0 <= k < found.len() && found[k] == value;
        assert(all[k] == value);
    }
}

/// Sorting loses nothing.
proof fn sorted_contains(before: spec_fn(Raw, Raw) -> bool, items: Seq<Raw>, item: Raw)
    requires
        items.contains(item),
    ensures
        order::ordered(before, items).contains(item),
{
    broadcast use vstd::seq_lib::group_to_multiset_ensures;

    order::ordered_keeps_values(before, items);
    assert(items.to_multiset().count(item) > 0);
    assert(order::ordered(before, items).to_multiset().count(item) > 0);
}

/// A raw node that was put in is found again: by its identifier, by its
/// operation key, in its session, in its loop and among all nodes. No other
/// node changes.
pub proof fn raw_writes_are_read_back(nodes: Nodes, node: Raw)
    requires
        nodes.well_formed(),
    ensures
        ({
            let after = nodes.with_raw(node);
            &&& after.well_formed()
            &&& table::lookup(after.raws, node.id) == Some(node)
            &&& forall|other: RawNodeId|
                other != node.id ==> #[trigger] table::lookup(after.raws, other)
                    == table::lookup(nodes.raws, other)
            &&& node.operation_key matches Some(key) ==> after.raw_under(key) == Some(node)
            &&& node.session_id matches Some(session_id) ==> after.of_session(
                session_id,
            ).contains(node)
            &&& node.loop_id matches Some(loop_id) ==> after.of_loop(loop_id).contains(node)
            &&& after.on_timeline(None).contains(node)
        }),
{
    let after = nodes.with_raw(node);
    table::stored_is_found(nodes.raws, node.id, node);
    storing_keeps_ids(nodes.raws, node);
    if let Some(key) = node.operation_key {
        table::stored_is_found(nodes.raw_operations, key, node.id);
    }
    if let Some(session_id) = node.session_id {
        let ids = listed(nodes.sessions, session_id).push(node.id);
        table::stored_is_found(nodes.sessions, session_id, ids);
        assert(ids[ids.len() - 1] == node.id);
        stored_values_are_present(after.raws, ids, ids.len() - 1);
        sorted_contains(timeline::by_time(), present(after.raws, ids), node);
    }
    if let Some(loop_id) = node.loop_id {
        let ids = listed(nodes.loops, loop_id).push(node.id);
        table::stored_is_found(nodes.loops, loop_id, ids);
        assert(ids[ids.len() - 1] == node.id);
        stored_values_are_present(after.raws, ids, ids.len() - 1);
        sorted_contains(timeline::by_time(), present(after.raws, ids), node);
    }
    table::position_is_first(after.raws, node.id);
    let index = table::position(after.raws, node.id) as int;
    assert(values(after.raws)[index] == node);
}

/// An abstract node that was put in is found again by its identifier and by
/// its operation key. No other node changes.
pub proof fn abstract_writes_are_read_back(nodes: Nodes, node: Abstract)
    requires
        nodes.well_formed(),
    ensures
        ({
            let after = nodes.with_abstract(node);
            &&& after.well_formed()
            &&& table::lookup(after.abstracts, node.id) == Some(node)
            &&& forall|other: AbstractNodeId|
                other != node.id ==> #[trigger] table::lookup(after.abstracts, other)
                    == table::lookup(nodes.abstracts, other)
            &&& node.operation_key matches Some(key) ==> after.abstract_under(key) == Some(node)
        }),
{
    table::stored_is_found(nodes.abstracts, node.id, node);
    storing_keeps_abstract_ids(nodes.abstracts, node);
    if let Some(key) = node.operation_key {
        table::stored_is_found(nodes.abstract_operations, key, node.id);
    }
}

/// What was committed under an operation key is not committed again: the next
/// commit under the key finds the first node and leaves the store alone.
pub proof fn commits_happen_once(nodes: Nodes, node: Raw, again: Raw, key: Seq<char>)
    requires
        nodes.well_formed(),
        node.operation_key == Some(key),
        again.operation_key == Some(key),
        nodes.repeated_raw(node) is None,
    ensures
        nodes.with_raw(node).repeated_raw(again) == Some(node),
{
    raw_writes_are_read_back(nodes, node);
}

/// The same holds of abstract nodes.
pub proof fn abstract_commits_happen_once(
    nodes: Nodes,
    node: Abstract,
    again: Abstract,
    key: Seq<char>,
)
    requires
        nodes.well_formed(),
        node.operation_key == Some(key),
        again.operation_key == Some(key),
        nodes.repeated_abstract(node) is None,
    ensures
        nodes.with_abstract(node).repeated_abstract(again) == Some(node),
{
    abstract_writes_are_read_back(nodes, node);
}

/// A change of lifecycle reaches the listed nodes, each once however often it
/// is listed, and no others; it adds none.
pub proof fn patches_reach_listed_nodes(
    entries: Seq<Pair<RawNodeId, Raw>>,
    ids: Seq<RawNodeId>,
    patch: RawLifecyclePatch,
    id: RawNodeId,
)
    requires
        table::is_table(entries),
    ensures
        table::is_table(patched(entries, ids, patch)),
        table::lookup(patched(entries, ids, patch), id) == match table::lookup(entries, id) {
            Some(node) => if ids.contains(id) {
                Some(patch.applied(node))
            } else {
                Some(node)
            },
            None => None,
        },
    decreases ids.len(),
{
    if ids.len() > 0 {
        let rest = ids.drop_last();
        let last = ids.last();
        let before = patched(entries, rest, patch);
        patches_reach_listed_nodes(entries, rest, patch, id);
        patches_reach_listed_nodes(entries, rest, patch, last);
        if let Some(node) = table::lookup(before, last) {
            table::stored_is_found(before, last, patch.applied(node));
        }
        assert(ids[ids.len() - 1] == last);
        if rest.contains(id) {
            let k = choose|k: int| 0 <= k < rest.len() && rest[k] == id;
            assert(ids[k] == id);
        }
        if ids.contains(id) && id != last {
            let k = choose|k: int| 0 <= k < ids.len() && ids[k] == id;
            assert(rest[k] == id);
        }
        if let Some(node) = table::lookup(entries, id) {
            assert(patch.applied(patch.applied(node)) =~= patch.applied(node));
        }
    }
}

/// Sessions and loops read oldest first, timelines newest first.
pub proof fn reads_are_chronological(
    nodes: Nodes,
    session_id: SessionId,
    loop_id: LoopId,
    scope: Option<SessionId>,
    window: Window,
)
    ensures
        order::is_ordered(timeline::by_time(), nodes.of_session(session_id)),
        order::is_ordered(timeline::by_time(), nodes.of_loop(loop_id)),
        forall|limit: nat|
            order::is_ordered(
                timeline::by_newest(),
                #[trigger] nodes.timeline(scope, window, limit),
            ),
{
    let any = |node: Raw| true;
    timeline::time_order_is_weak();
    let in_session = present(nodes.raws, listed(nodes.sessions, session_id));
    let in_loop = present(nodes.raws, listed(nodes.loops, loop_id));
    let within = nodes.on_timeline(scope).filter(|node: Raw| window.covers(node.timestamp));
    assert(order::all_are(any, in_session));
    assert(order::all_are(any, in_loop));
    assert(order::all_are(any, within));
    order::ordered_is_ordered(timeline::by_time(), any, in_session);
    order::ordered_is_ordered(timeline::by_time(), any, in_loop);
    order::ordered_is_ordered(timeline::by_newest(), any, within);
    assert forall|limit: nat| order::is_ordered(
        timeline::by_newest(),
        #[trigger] nodes.timeline(scope, window, limit),
    ) by {
        let all = order::ordered(timeline::by_newest(), within);
        let kept = nodes.timeline(scope, window, limit);
        assert forall|i: int, j: int| 0 <= i < j < kept.len() implies !timeline::by_newest()(
            #[trigger] kept[j],
            #[trigger] kept[i],
        ) by {
            assert(kept[i] == all[i] && kept[j] == all[j]);
        }
    }
}

/// A timeline keeps the newest: as many nodes of its scope within its window as
/// the limit allows, newest first, and none that is left out is later than one
/// that is kept.
pub proof fn timelines_keep_the_newest(
    nodes: Nodes,
    scope: Option<SessionId>,
    window: Window,
    limit: nat,
)
    ensures
        ({
            let all = match scope {
                Some(session_id) => nodes.of_session(session_id),
                None => nodes.raws.map_values(|entry: Pair<RawNodeId, Raw>| entry.value),
            };
            order::are_first_of(
                |left: Raw, right: Raw| right.timestamp.before(left.timestamp),
                nodes.timeline(scope, window, limit),
                all.filter(
                    |node: Raw|
                        (window.from matches Some(from) ==> !node.timestamp.before(from)) && (
                        window.to matches Some(to) ==> !to.before(node.timestamp)),
                ),
                limit as int,
            )
        }),
{
    let all = nodes.on_timeline(scope);
    let given = |node: Raw| window.covers(node.timestamp);
    let meant = |node: Raw|
        (window.from matches Some(from) ==> !node.timestamp.before(from)) && (window.to matches Some(
            to,
        ) ==> !to.before(node.timestamp));
    order::filter_alike(given, meant, all);
    let within = all.filter(meant);
    timeline::time_order_is_weak();
    order::ordered_keeps_values(timeline::by_newest(), within);
    order::sorting_brings_the_first(timeline::by_newest(), |node: Raw| true, within, limit as int);
    assert(timeline::by_newest() =~= (|left: Raw, right: Raw|
        right.timestamp.before(left.timestamp)));
    let sorted = order::ordered(timeline::by_newest(), within);
    if limit >= within.len() {
        assert(sorted.take(within.len() as int) =~= sorted);
    }
}

/// The backlog keeps the oldest: as many nodes that were not distilled, and that
/// fell out of their session where that is asked, as the limit allows, oldest
/// first, and none that is left out is earlier than one that is kept.
pub proof fn backlogs_keep_the_oldest(nodes: Nodes, limit: nat, only_pushed_out: bool)
    ensures
        order::are_first_of(
            |left: Raw, right: Raw| left.timestamp.before(right.timestamp),
            nodes.backlog(limit, only_pushed_out),
            nodes.raws.map_values(|entry: Pair<RawNodeId, Raw>| entry.value).filter(
                |node: Raw|
                    node.distillation_state != DistillationState::Distilled && (only_pushed_out
                        ==> node.overflow.was_pushed_out_of_session),
            ),
            limit as int,
        ),
{
    let all = values(nodes.raws);
    let given = |node: Raw| is_backlog(node, only_pushed_out);
    let meant = |node: Raw|
        node.distillation_state != DistillationState::Distilled && (only_pushed_out
            ==> node.overflow.was_pushed_out_of_session);
    order::filter_alike(given, meant, all);
    let waiting = all.filter(meant);
    timeline::time_order_is_weak();
    order::ordered_keeps_values(timeline::by_time(), waiting);
    order::sorting_brings_the_first(timeline::by_time(), |node: Raw| true, waiting, limit as int);
    assert(timeline::by_time() =~= (|left: Raw, right: Raw|
        left.timestamp.before(right.timestamp)));
    let sorted = order::ordered(timeline::by_time(), waiting);
    if limit >= waiting.len() {
        assert(sorted.take(waiting.len() as int) =~= sorted);
    }
}

/// The recent nodes of a session are its newest, as many as the limit allows,
/// oldest first: the nodes that are left out come before them in the session, and
/// none of those is later than one of them. The bounded nodes of a loop are its
/// oldest in the same way.
pub proof fn recent_nodes_are_the_newest(
    nodes: Nodes,
    session_id: SessionId,
    loop_id: LoopId,
    limit: nat,
)
    ensures
        ({
            let all = nodes.of_session(session_id);
            let recent = last_of(all, limit);
            &&& recent.len() == if limit < all.len() {
                limit
            } else {
                all.len()
            }
            &&& forall|i: int|
                0 <= i < recent.len() ==> #[trigger] recent[i] == all[all.len() - recent.len() + i]
            &&& forall|i: int, j: int|
                0 <= i < recent.len() && 0 <= j < all.len() - recent.len() ==> !(
                #[trigger] recent[i]).timestamp.before((#[trigger] all[j]).timestamp)
        }),
        ({
            let all = nodes.of_loop(loop_id);
            let bounded = vector::first(all, limit);
            &&& bounded.len() == if limit < all.len() {
                limit
            } else {
                all.len()
            }
            &&& forall|i: int| 0 <= i < bounded.len() ==> #[trigger] bounded[i] == all[i]
            &&& forall|i: int, j: int|
                0 <= i < bounded.len() <= j < all.len() ==> !(
                #[trigger] all[j]).timestamp.before((#[trigger] bounded[i]).timestamp)
        }),
{
    reads_are_chronological(
        nodes,
        session_id,
        loop_id,
        None,
        Window { from: None, to: None },
    );
    let all = nodes.of_session(session_id);
    let recent = last_of(all, limit);
    assert forall|i: int, j: int|
        0 <= i < recent.len() && 0 <= j < all.len() - recent.len() implies !(
    #[trigger] recent[i]).timestamp.before((#[trigger] all[j]).timestamp) by {
        let k = all.len() - recent.len() + i;
        assert(recent[i] == all[k]);
        assert(!timeline::by_time()(all[k], all[j]));
    }
    let of_loop = nodes.of_loop(loop_id);
    let bounded = vector::first(of_loop, limit);
    assert forall|i: int, j: int| 0 <= i < bounded.len() <= j < of_loop.len() implies !(
    #[trigger] of_loop[j]).timestamp.before((#[trigger] bounded[i]).timestamp) by {
        assert(bounded[i] == of_loop[i]);
        assert(!timeline::by_time()(of_loop[j], of_loop[i]));
    }
}

/// A store in which raw nodes were put one after the other.
pub open spec fn holding(history: Seq<Raw>) -> Nodes
    decreases history.len(),
{
    if history.len() == 0 {
        Nodes::empty()
    } else {
        holding(history.drop_last()).with_raw(history.last())
    }
}

/// Whether no two nodes have the same identifier.
pub open spec fn have_own_ids(history: Seq<Raw>) -> bool {
    forall|i: int, j: int|
        0 <= i < j < history.len() ==> (#[trigger] history[i]).id != (#[trigger] history[j]).id
}

proof fn present_values<K, V>(entries: Seq<Pair<K, V>>, keys: Seq<K>, found: Seq<V>)
    requires
        keys.len() == found.len(),
        forall|i: int|
            0 <= i < keys.len() ==> table::lookup(entries, #[trigger] keys[i]) == Some(found[i]),
    ensures
        present(entries, keys) == found,
    decreases keys.len(),
{
    if keys.len() > 0 {
        assert forall|i: int| 0 <= i < keys.drop_last().len() implies table::lookup(
            entries,
            #[trigger] keys.drop_last()[i],
        ) == Some(found.drop_last()[i]) by {
            assert(keys[i] == keys.drop_last()[i]);
        }
        present_values(entries, keys.drop_last(), found.drop_last());
        assert(keys[keys.len() - 1] == keys.last());
        assert(found.drop_last().push(found.last()) =~= found);
    }
    assert(present(entries, keys) =~= found);
}

proof fn history_is_listed(history: Seq<Raw>, session_id: SessionId, loop_id: LoopId)
    requires
        have_own_ids(history),
    ensures
        ({
            let nodes = holding(history);
            &&& nodes.well_formed()
            &&& nodes.raws == history.map_values(|node: Raw| Pair { key: node.id, value: node })
            &&& listed(nodes.sessions, session_id) == history.filter(
                |node: Raw| node.session_id == Some(session_id),
            ).map_values(|node: Raw| node.id)
            &&& listed(nodes.loops, loop_id) == history.filter(
                |node: Raw| node.loop_id == Some(loop_id),
            ).map_values(|node: Raw| node.id)
        }),
    decreases history.len(),
{
    reveal(Seq::filter);
    let nodes = holding(history);
    let in_session = |node: Raw| node.session_id == Some(session_id);
    let in_loop = |node: Raw| node.loop_id == Some(loop_id);
    let pair = |node: Raw| Pair { key: node.id, value: node };
    let id = |node: Raw| node.id;
    if history.len() > 0 {
        let rest = history.drop_last();
        let last = history.last();
        let before = holding(rest);
        assert(have_own_ids(rest)) by {
            assert forall|i: int, j: int| 0 <= i < j < rest.len() implies (#[trigger] rest[i]).id
                != (#[trigger] rest[j]).id by {
                assert(history[i].id != history[j].id);
            }
        }
        history_is_listed(rest, session_id, loop_id);
        raw_writes_are_read_back(before, last);
        assert forall|i: int| 0 <= i < before.raws.len() implies (#[trigger] before.raws[i]).key
            != last.id by {
            assert(before.raws[i].key == rest[i].id);
            assert(history[i].id != history[history.len() - 1].id);
        }
        table::first_is_position(before.raws, last.id, before.raws.len());
        if let Some(own) = last.session_id {
            table::stored_is_found(
                before.sessions,
                own,
                listed(before.sessions, own).push(last.id),
            );
        }
        if let Some(own) = last.loop_id {
            table::stored_is_found(before.loops, own, listed(before.loops, own).push(last.id));
        }
        assert(nodes.raws =~= history.map_values(pair));
        assert(rest.filter(in_session).push(last).map_values(id) =~= rest.filter(
            in_session,
        ).map_values(id).push(last.id));
        assert(rest.filter(in_loop).push(last).map_values(id) =~= rest.filter(
            in_loop,
        ).map_values(id).push(last.id));
    } else {
        assert(nodes.raws =~= history.map_values(pair));
        assert(listed(nodes.sessions, session_id) =~= history.filter(in_session).map_values(id));
        assert(listed(nodes.loops, loop_id) =~= history.filter(in_loop).map_values(id));
    }
}

proof fn history_is_found(history: Seq<Raw>, kind: spec_fn(Raw) -> bool)
    requires
        have_own_ids(history),
    ensures
        present(
            history.map_values(|node: Raw| Pair { key: node.id, value: node }),
            history.filter(kind).map_values(|node: Raw| node.id),
        ) == history.filter(kind),
{
    let entries = history.map_values(|node: Raw| Pair { key: node.id, value: node });
    let own = history.filter(kind);
    let keys = own.map_values(|node: Raw| node.id);
    assert forall|i: int| 0 <= i < keys.len() implies table::lookup(entries, #[trigger] keys[i])
        == Some(own[i]) by {
        filtered_come_from(history, kind, i);
        let k = choose|k: int| 0 <= k < history.len() && history[k] == own[i];
        assert(entries[k].key == own[i].id);
        assert forall|j: int| 0 <= j < k implies (#[trigger] entries[j]).key != own[i].id by {
            assert(history[j].id != history[k].id);
        }
        table::first_is_position(entries, own[i].id, k as nat);
    }
    present_values(entries, keys, own);
}

proof fn filtered_come_from(history: Seq<Raw>, kind: spec_fn(Raw) -> bool, index: int)
    requires
        0 <= index < history.filter(kind).len(),
    ensures
        history.contains(history.filter(kind)[index]),
    decreases history.len(),
{
    reveal(Seq::filter);
    if history.len() > 0 {
        let rest = history.drop_last();
        let value = history.filter(kind)[index];
        if index < rest.filter(kind).len() {
            filtered_come_from(rest, kind, index);
            let k = choose|k: int| 0 <= k < rest.len() && rest[k] == value;
            assert(history[k] == value);
        } else {
            assert(history[history.len() - 1] == value);
        }
    }
}

/// What was put in is what is read: a session reads exactly the nodes that were
/// put in with it, oldest first, a loop likewise, and all nodes are read where no
/// session is asked for. Nodes of one instant keep the order in which they came.
pub proof fn stores_hold_what_was_put_in(
    history: Seq<Raw>,
    session_id: SessionId,
    loop_id: LoopId,
    instant: Timestamp,
)
    requires
        have_own_ids(history),
    ensures
        ({
            let nodes = holding(history);
            let in_session = history.filter(|node: Raw| node.session_id == Some(session_id));
            let in_loop = history.filter(|node: Raw| node.loop_id == Some(loop_id));
            let earlier = |left: Raw, right: Raw| left.timestamp.before(right.timestamp);
            let then = |node: Raw| node.timestamp == instant;
            &&& nodes.on_timeline(None) == history
            &&& order::is_ordered(earlier, nodes.of_session(session_id))
            &&& nodes.of_session(session_id).to_multiset() == in_session.to_multiset()
            &&& order::those(then, nodes.of_session(session_id)) == order::those(then, in_session)
            &&& order::is_ordered(earlier, nodes.of_loop(loop_id))
            &&& nodes.of_loop(loop_id).to_multiset() == in_loop.to_multiset()
            &&& order::those(then, nodes.of_loop(loop_id)) == order::those(then, in_loop)
        }),
{
    let nodes = holding(history);
    let in_session = history.filter(|node: Raw| node.session_id == Some(session_id));
    let in_loop = history.filter(|node: Raw| node.loop_id == Some(loop_id));
    let then = |node: Raw| node.timestamp == instant;
    history_is_listed(history, session_id, loop_id);
    history_is_found(history, |node: Raw| node.session_id == Some(session_id));
    history_is_found(history, |node: Raw| node.loop_id == Some(loop_id));
    reads_are_chronological(
        nodes,
        session_id,
        loop_id,
        None,
        Window { from: None, to: None },
    );
    order::ordered_keeps_values(timeline::by_time(), in_session);
    order::ordered_keeps_values(timeline::by_time(), in_loop);
    order::ordered_is_stable(timeline::by_time(), then, in_session);
    order::ordered_is_stable(timeline::by_time(), then, in_loop);
    assert(timeline::by_time() =~= (|left: Raw, right: Raw|
        left.timestamp.before(right.timestamp)));
    assert(nodes.on_timeline(None) =~= history);
}

/// Checkpoints held in memory, one for each loop.
#[derive(Debug)]
pub struct InMemoryLoopStateRepository {
    pub checkpoints: Table<LoopKey, LoopState>,
}

impl View for InMemoryLoopStateRepository {
    type V = Seq<Pair<LoopKey, Checkpoint>>;

    open spec fn view(&self) -> Seq<Pair<LoopKey, Checkpoint>> {
        self.checkpoints@
    }
}

impl Default for InMemoryLoopStateRepository {
    fn default() -> (repository: Self)
        ensures
            repository@ == Seq::<Pair<LoopKey, Checkpoint>>::empty(),
    {
        InMemoryLoopStateRepository { checkpoints: Table::new() }
    }
}

impl InMemoryLoopStateRepository {
    /// Keeps a checkpoint in place of the one that its loop had.
    pub fn save_checkpoint(&mut self, state: LoopState)
        ensures
            final(self)@ == table::stored(
                old(self)@,
                (LoopKey { session_id: state.session_id, loop_id: state.loop_id }),
                state@,
            ),
    {
        let key = LoopKey { session_id: state.session_id, loop_id: state.loop_id };
        self.checkpoints.insert(key, state);
    }

    /// Finds the checkpoint of a loop.
    pub fn load_checkpoint(&self, session_id: &SessionId, loop_id: &LoopId) -> (state: Option<
        LoopState,
    >)
        ensures
            match table::lookup(
                self@,
                (LoopKey { session_id: *session_id, loop_id: *loop_id }),
            ) {
                Some(found) => state is Some && state->0@ == found,
                None => state is None,
            },
    {
        let key = LoopKey { session_id: *session_id, loop_id: *loop_id };
        match self.checkpoints.get(&key) {
            Some(state) => Some(state.clone()),
            None => None,
        }
    }

    /// Drops the checkpoint of a loop, if there is one.
    pub fn clear_checkpoint(&mut self, session_id: &SessionId, loop_id: &LoopId)
        ensures
            final(self)@ == table::removed(
                old(self)@,
                (LoopKey { session_id: *session_id, loop_id: *loop_id }),
            ),
    {
        let key = LoopKey { session_id: *session_id, loop_id: *loop_id };
        self.checkpoints.remove(&key);
    }
}

/// A saved checkpoint is loaded as it was saved, until it is cleared; no other
/// loop is affected by either.
pub proof fn checkpoints_are_kept(
    checkpoints: Seq<Pair<LoopKey, Checkpoint>>,
    key: LoopKey,
    state: Checkpoint,
    other: LoopKey,
)
    requires
        table::is_table(checkpoints),
        other != key,
    ensures
        ({
            let saved = table::stored(checkpoints, key, state);
            let cleared = table::removed(saved, key);
            &&& table::is_table(saved) && table::is_table(cleared)
            &&& table::lookup(saved, key) == Some(state)
            &&& table::lookup(cleared, key) is None
            &&& table::lookup(saved, other) == table::lookup(checkpoints, other)
            &&& table::lookup(cleared, other) == table::lookup(checkpoints, other)
        }),
{
    let saved = table::stored(checkpoints, key, state);
    table::stored_is_found(checkpoints, key, state);
    table::removed_is_gone(saved, key);
}

/// Of keys that are asked for, each that something is stored under gives what is
/// stored, in the order of the keys, as often as it is asked for, and the others
/// give nothing.
pub proof fn lists_hold_what_is_stored<K, V>(entries: Seq<Pair<K, V>>, keys: Seq<K>)
    ensures
        present(entries, keys) == keys.filter(
            |key: K| table::lookup(entries, key) is Some,
        ).map_values(|key: K| table::lookup(entries, key)->0),
    decreases keys.len(),
{
    reveal(Seq::filter);
    if keys.len() > 0 {
        lists_hold_what_is_stored(entries, keys.drop_last());
    }
    assert(present(entries, keys) =~= keys.filter(
        |key: K| table::lookup(entries, key) is Some,
    ).map_values(|key: K| table::lookup(entries, key)->0));
}

} // verus!
