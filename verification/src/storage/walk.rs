//! Breadth-first walks through the graph of abstract nodes.
use vstd::prelude::*;

use crate::domain::abstract_node::{Abstract, AbstractNode};
use crate::ids::{AbstractNodeId, SessionId};
use crate::order;
use crate::storage::graph;
use crate::storage::graph::{edges_for_abstract, Edge, GraphEdge};
use crate::storage::records::{GraphTraversalHit, Hit};
use crate::table;
use crate::table::{Pair, Table};
use crate::text;

verus! {

/// The edges of one node, with the session that may follow them.
#[derive(Debug, PartialEq, Eq)]
pub struct StoredGraphEdges {
    pub node_id: AbstractNodeId,
    pub session_id: Option<SessionId>,
    pub edges: Vec<GraphEdge>,
}

/// The edges of one node as a mathematical value.
#[verifier::ext_equal]
pub struct Record {
    pub node_id: AbstractNodeId,
    pub session_id: Option<SessionId>,
    pub edges: Seq<Edge>,
}

impl View for StoredGraphEdges {
    type V = Record;

    open spec fn view(&self) -> Record {
        Record {
            node_id: self.node_id,
            session_id: self.session_id,
            edges: graph::edges(self.edges@),
        }
    }
}

/// How far a walk goes and which edges it follows.
#[derive(Debug)]
pub struct WalkPlan {
    pub max_depth: usize,
    /// The predicates to follow; all of them where there is no list.
    pub relation_types: Option<Vec<String>>,
    /// The session that the nodes must belong to, if any.
    pub session_id: Option<SessionId>,
    /// How many nodes are found at most, but at least one.
    pub max_hits: Option<usize>,
}

/// A plan as a mathematical value.
pub struct Plan {
    pub max_depth: nat,
    pub relation_types: Option<Seq<Seq<char>>>,
    pub session_id: Option<SessionId>,
    pub max_hits: Option<nat>,
}

impl View for WalkPlan {
    type V = Plan;

    open spec fn view(&self) -> Plan {
        Plan {
            max_depth: self.max_depth as nat,
            relation_types: match self.relation_types {
                Some(types) => Some(text::texts(types@)),
                None => None,
            },
            session_id: self.session_id,
            max_hits: match self.max_hits {
                Some(limit) => Some(limit as nat),
                None => None,
            },
        }
    }
}

impl Plan {
    /// Whether so many nodes are as many as the walk may find.
    pub open spec fn full(self, count: nat) -> bool {
        match self.max_hits {
            Some(limit) => count >= 1 && count >= limit,
            None => false,
        }
    }

    /// Whether the walk follows an edge.
    pub open spec fn follows(self, edge: Edge) -> bool {
        match self.relation_types {
            Some(types) => types.contains(edge.predicate),
            None => true,
        }
    }

    /// Whether the walk may enter a node.
    pub open spec fn admits(self, record: Record) -> bool {
        match self.session_id {
            Some(scope) => record.session_id == Some(scope),
            None => true,
        }
    }

    /// The queue with the ends of edges behind it, as far as they may still be
    /// found.
    pub open spec fn queued(
        self,
        found: nat,
        depth: nat,
        queue: Seq<Hit>,
        edges: Seq<Edge>,
    ) -> Seq<Hit>
        decreases edges.len(),
    {
        if edges.len() == 0 {
            queue
        } else {
            let before = self.queued(found, depth, queue, edges.drop_last());
            let edge = edges.last();
            if self.follows(edge) && !self.full(found + before.len()) {
                before.push(
                    Hit { node_id: edge.to, depth: depth + 1, via_predicate: Some(edge.predicate) },
                )
            } else {
                before
            }
        }
    }
}

/// A walk under way.
#[verifier::ext_equal]
pub struct Walk {
    /// Where the walk goes next, in order.
    pub queue: Seq<Hit>,
    /// The nodes that were entered or found missing.
    pub visited: Seq<AbstractNodeId>,
    /// The nodes that were found, in order.
    pub hits: Seq<Hit>,
    /// The node that waits for its record.
    pub current: Option<Hit>,
}

impl Walk {
    /// A walk that has not left its first node.
    pub open spec fn starting(start: AbstractNodeId) -> Walk {
        Walk {
            queue: seq![Hit { node_id: start, depth: 0, via_predicate: None }],
            visited: Seq::empty(),
            hits: Seq::empty(),
            current: None,
        }
    }

    /// The walk once it has come to the next node whose record it needs, or to
    /// its end.
    pub open spec fn advanced(self, plan: Plan) -> Walk
        decreases self.queue.len(),
    {
        if self.queue.len() == 0 || plan.full(self.hits.len()) {
            Walk { current: None, ..self }
        } else {
            let stop = self.queue[0];
            let rest = Walk { queue: self.queue.drop_first(), ..self };
            if stop.depth > plan.max_depth || self.visited.contains(stop.node_id) {
                rest.advanced(plan)
            } else {
                Walk { visited: self.visited.push(stop.node_id), current: Some(stop), ..rest }
            }
        }
    }

    /// The walk once it has the record of the node it waits at.
    pub open spec fn entered(self, plan: Plan, record: Option<Record>) -> Walk {
        match (self.current, record) {
            (Some(stop), Some(record)) => if plan.admits(record) {
                Walk {
                    queue: plan.queued(
                        self.hits.len() + 1,
                        stop.depth,
                        self.queue,
                        record.edges,
                    ),
                    hits: self.hits.push(stop),
                    current: None,
                    ..self
                }
            } else {
                Walk { current: None, ..self }
            },
            _ => Walk { current: None, ..self },
        }
    }

    /// Every queued node lies within as many steps as nodes were found, so that
    /// depths stay within the length of a list.
    pub open spec fn is_shallow(self) -> bool {
        &&& forall|i: int|
            0 <= i < self.queue.len() ==> (#[trigger] self.queue[i]).depth <= self.hits.len()
        &&& self.current matches Some(stop) ==> stop.depth <= self.hits.len()
    }
}

/// A walk through the graph that asks for one record after the other.
#[derive(Debug)]
pub struct GraphWalk {
    plan: WalkPlan,
    queue: Vec<GraphTraversalHit>,
    visited: Vec<AbstractNodeId>,
    hits: Vec<GraphTraversalHit>,
    current: Option<GraphTraversalHit>,
}

impl View for GraphWalk {
    type V = Walk;

    closed spec fn view(&self) -> Walk {
        Walk {
            queue: order::views(self.queue@),
            visited: self.visited@,
            hits: order::views(self.hits@),
            current: match self.current {
                Some(stop) => Some(stop@),
                None => None,
            },
        }
    }
}

impl GraphWalk {
    /// The plan of the walk.
    pub closed spec fn plan(&self) -> Plan {
        self.plan@
    }

    /// Depths stay within the number of nodes found.
    pub open spec fn well_formed(&self) -> bool {
        self@.is_shallow()
    }

    /// A walk from a node.
    pub fn from(start: AbstractNodeId, plan: WalkPlan) -> (walk: Self)
        ensures
            walk.well_formed(),
            walk@ == Walk::starting(start),
            walk.plan() == plan@,
    {
        let mut queue: Vec<GraphTraversalHit> = Vec::new();
        queue.push(GraphTraversalHit { node_id: start, depth: 0, via_predicate: None });
        let walk = GraphWalk {
            plan,
            queue,
            visited: Vec::new(),
            hits: Vec::new(),
            current: None,
        };
        assert(walk@ =~= Walk::starting(start));
        walk
    }

    /// Whether as many nodes were found as the walk may find.
    fn is_full(&self, count: usize) -> (result: bool)
        ensures
            result == self.plan().full(count as nat),
    {
        match self.plan.max_hits {
            Some(limit) => count >= 1 && count >= limit,
            None => false,
        }
    }

    /// Whether the walk has entered a node.
    fn has_visited(&self, id: AbstractNodeId) -> (result: bool)
        ensures
            result == self@.visited.contains(id),
    {
        let mut index: usize = 0;
        while index < self.visited.len()
            invariant
                index <= self.visited.len(),
                forall|i: int| 0 <= i < index ==> self.visited@[i] != id,
            decreases self.visited.len() - index,
        {
            if self.visited[index] == id {
                assert(self.visited@[index as int] == id);
                return true;
            }
            index = index + 1;
        }
        false
    }

    /// Goes on to the next node whose record the walk needs.
    pub fn advance(&mut self) -> (id: Option<AbstractNodeId>)
        requires
            old(self).well_formed(),
        ensures
            final(self).well_formed(),
            final(self)@ == old(self)@.advanced(old(self).plan()),
            final(self).plan() == old(self).plan(),
            match final(self)@.current {
                Some(stop) => id == Some(stop.node_id),
                None => id is None,
            },
    {
        let ghost target = self@.advanced(self.plan());
        let ghost plan = self.plan();
        loop
            invariant
                self@.is_shallow(),
                self.plan() == plan,
                self@.advanced(plan) == target,
                plan == old(self).plan(),
                target == old(self)@.advanced(plan),
            decreases self@.queue.len(),
        {
            let ghost before = self@;
            if self.queue.len() == 0 || self.is_full(self.hits.len()) {
                self.current = None;
                assert(self@ =~= (Walk { current: None, ..before }));
                return None;
            }
            let stop = self.queue.remove(0);
            proof {
                assert(stop@ == before.queue[0]);
                assert(self@.queue =~= before.queue.drop_first());
                assert(self@ =~= (Walk { queue: before.queue.drop_first(), ..before }));
                assert forall|i: int| 0 <= i < self@.queue.len() implies (
                #[trigger] self@.queue[i]).depth <= self@.hits.len() by {
                    assert(self@.queue[i] == before.queue[i + 1]);
                }
            }
            if stop.depth <= self.plan.max_depth && !self.has_visited(stop.node_id) {
                let id = stop.node_id;
                self.visited.push(id);
                self.current = Some(stop);
                proof {
                    assert(self@.queue =~= before.queue.drop_first());
                    assert(self@.visited =~= before.visited.push(id));
                    assert(self@ =~= target);
                }
                return Some(id);
            }
        }
    }

    /// Whether the walk follows an edge.
    fn follows(&self, edge: &GraphEdge) -> (result: bool)
        ensures
            result == self.plan().follows(edge@),
    {
        match &self.plan.relation_types {
            Some(types) => {
                let mut index: usize = 0;
                let ghost names = text::texts(types@);
                while index < types.len()
                    invariant
                        index <= types.len(),
                        names == text::texts(types@),
                        self.plan().relation_types == Some(names),
                        forall|i: int| 0 <= i < index ==> names[i] != edge.predicate@,
                    decreases types.len() - index,
                {
                    if types[index] == edge.predicate {
                        assert(names[index as int] == edge.predicate@);
                        return true;
                    }
                    assert(names[index as int] == types@[index as int]@);
                    index = index + 1;
                }
                false
            },
            None => true,
        }
    }

    /// Enters the node that the walk waits at, given its record.
    pub fn enter(&mut self, record: Option<&StoredGraphEdges>)
        requires
            old(self).well_formed(),
        ensures
            final(self).well_formed(),
            final(self).plan() == old(self).plan(),
            final(self)@ == old(self)@.entered(
                old(self).plan(),
                match record {
                    Some(record) => Some(record@),
                    None => None,
                },
            ),
    {
        let ghost plan = self.plan();
        let ghost before = self@;
        let stop = match self.current.take() {
            Some(stop) => stop,
            None => {
                assert(self@ =~= (Walk { current: None, ..before }));
                return;
            },
        };
        assert(self@ =~= (Walk { current: None, ..before }));
        let record = match record {
            Some(record) => record,
            None => {
                return;
            },
        };
        let admitted = match self.plan.session_id {
            Some(scope) => match record.session_id {
                Some(session) => session == scope,
                None => false,
            },
            None => true,
        };
        assert(admitted == plan.admits(record@));
        if !admitted {
            return;
        }
        let depth: usize = stop.depth;
        self.hits.push(stop);
        proof {
            assert(self@.hits =~= before.hits.push(stop@));
        }
        let ghost edges = record@.edges;
        let ghost found = (before.hits.len() + 1) as nat;
        let mut index: usize = 0;
        assert(edges.take(0) =~= Seq::<Edge>::empty());
        while index < record.edges.len()
            invariant
                index <= record.edges.len(),
                edges == record@.edges,
                self.plan() == plan,
                found == before.hits.len() + 1,
                self@.hits == before.hits.push(stop@),
                depth == stop@.depth,
                depth < self.hits@.len(),
                self@.visited == before.visited,
                self@.current is None,
                self@.queue == plan.queued(
                    found,
                    depth as nat,
                    before.queue,
                    edges.take(index as int),
                ),
                self@.is_shallow(),
            decreases record.edges.len() - index,
        {
            let ghost queue = self@.queue;
            let edge = &record.edges[index];
            proof {
                assert(edges.take(index + 1).drop_last() =~= edges.take(index as int));
                assert(edges.take(index + 1).last() == edge@);
                assert(self@.hits.len() == self.hits@.len());
                assert(self@.queue.len() == self.queue@.len());
            }
            if self.follows(edge) {
                let count: usize = self.hits.len().saturating_add(self.queue.len());
                assert(plan.full(count as nat) == plan.full(found + queue.len()));
                if !self.is_full(count) {
                    let next = GraphTraversalHit {
                        node_id: edge.to,
                        depth: depth + 1,
                        via_predicate: Some(edge.predicate.clone()),
                    };
                    self.queue.push(next);
                    proof {
                        assert(self@.queue =~= queue.push(next@));
                    }
                }
            }
            index = index + 1;
        }
        assert(edges.take(edges.len() as int) =~= edges);
    }

    /// The nodes that were found, in order.
    pub fn into_hits(self) -> (hits: Vec<GraphTraversalHit>)
        ensures
            order::views(hits@) == self@.hits,
    {
        self.hits
    }
}

/// How many records a walk has not come to.
pub open spec fn unseen(records: Seq<Pair<AbstractNodeId, Record>>, visited: Seq<AbstractNodeId>) -> nat
    decreases records.len(),
{
    if records.len() == 0 {
        0
    } else {
        let rest = unseen(records.drop_last(), visited);
        if visited.contains(records.last().key) {
            rest
        } else {
            rest + 1
        }
    }
}

/// Entering a node leaves no more records unseen, and fewer where the node has
/// a record.
proof fn entering_shrinks(
    records: Seq<Pair<AbstractNodeId, Record>>,
    visited: Seq<AbstractNodeId>,
    id: AbstractNodeId,
)
    requires
        !visited.contains(id),
    ensures
        unseen(records, visited.push(id)) <= unseen(records, visited),
        (exists|i: int| 0 <= i < records.len() && (#[trigger] records[i]).key == id) ==> unseen(
            records,
            visited.push(id),
        ) < unseen(records, visited),
    decreases records.len(),
{
    let after = visited.push(id);
    assert forall|other: AbstractNodeId| visited.contains(other) implies #[trigger] after.contains(
        other,
    ) by {
        let k = choose|k: int| 0 <= k < visited.len() && visited[k] == other;
        assert(after[k] == other);
    }
    assert(after.contains(id)) by {
        assert(after[visited.len() as int] == id);
    }
    if records.len() > 0 {
        let rest = records.drop_last();
        entering_shrinks(rest, visited, id);
        if after.contains(records.last().key) && records.last().key != id {
            let k = choose|k: int| 0 <= k < after.len() && after[k] == records.last().key;
            assert(visited[k] == records.last().key);
        }
        if exists|i: int| 0 <= i < records.len() && (#[trigger] records[i]).key == id {
            let i = choose|i: int| 0 <= i < records.len() && (#[trigger] records[i]).key == id;
            if i < rest.len() {
                assert(rest[i].key == id);
            } else {
                assert(records.last().key == id);
            }
        }
    }
}

/// Going on takes nodes off the queue; the node that the walk comes to was not
/// visited before.
proof fn advancing_consumes(plan: Plan, walk: Walk)
    ensures
        ({
            let after = walk.advanced(plan);
            &&& after.hits == walk.hits
            &&& after.current is None ==> after.visited == walk.visited
            &&& after.current matches Some(stop) ==> {
                &&& after.queue.len() < walk.queue.len()
                &&& !walk.visited.contains(stop.node_id)
                &&& after.visited == walk.visited.push(stop.node_id)
                &&& stop.depth <= plan.max_depth
                &&& !plan.full(walk.hits.len())
            }
        }),
        forall|i: int|
            0 <= i < walk.advanced(plan).queue.len() ==> walk.queue.contains(
                #[trigger] walk.advanced(plan).queue[i],
            ),
        walk.advanced(plan).current matches Some(stop) ==> walk.queue.contains(stop),
    decreases walk.queue.len(),
{
    if walk.queue.len() > 0 && !plan.full(walk.hits.len()) {
        let stop = walk.queue[0];
        let rest = Walk { queue: walk.queue.drop_first(), ..walk };
        let after = walk.advanced(plan);
        if stop.depth > plan.max_depth || walk.visited.contains(stop.node_id) {
            advancing_consumes(plan, rest);
            assert forall|i: int| 0 <= i < after.queue.len() implies walk.queue.contains(
                #[trigger] after.queue[i],
            ) by {
                assert(rest.queue.contains(after.queue[i]));
                let k = choose|k: int|
                    0 <= k < rest.queue.len() && rest.queue[k] == after.queue[i];
                assert(walk.queue[k + 1] == after.queue[i]);
            }
            if after.current is Some {
                let found = after.current->0;
                let k = choose|k: int| 0 <= k < rest.queue.len() && rest.queue[k] == found;
                assert(walk.queue[k + 1] == found);
            }
        } else {
            assert forall|i: int| 0 <= i < after.queue.len() implies walk.queue.contains(
                #[trigger] after.queue[i],
            ) by {
                assert(walk.queue[i + 1] == after.queue[i]);
            }
            assert(walk.queue[0] == stop);
        }
    }
}

/// What is known of a node: its record, or, where nodes without one count too,
/// a record without edges.
pub open spec fn known(
    records: Seq<Pair<AbstractNodeId, Record>>,
    keeps_unknown: bool,
    id: AbstractNodeId,
) -> Option<Record> {
    match table::lookup(records, id) {
        Some(record) => Some(record),
        None => if keeps_unknown {
            Some(Record { node_id: id, session_id: None, edges: Seq::empty() })
        } else {
            None
        },
    }
}

/// The walk after one more node.
pub open spec fn stepped(
    records: Seq<Pair<AbstractNodeId, Record>>,
    keeps_unknown: bool,
    plan: Plan,
    walk: Walk,
) -> Walk {
    let at = walk.advanced(plan);
    at.entered(plan, known(records, keeps_unknown, at.current->0.node_id))
}

/// A step leaves fewer records unseen, or as many and a shorter queue.
proof fn stepping_shrinks(
    records: Seq<Pair<AbstractNodeId, Record>>,
    keeps_unknown: bool,
    plan: Plan,
    walk: Walk,
)
    requires
        walk.advanced(plan).current is Some,
    ensures
        ({
            let after = stepped(records, keeps_unknown, plan, walk);
            ||| unseen(records, after.visited) < unseen(records, walk.visited)
            ||| {
                &&& unseen(records, after.visited) <= unseen(records, walk.visited)
                &&& after.queue.len() < walk.queue.len()
            }
        }),
{
    advancing_consumes(plan, walk);
    let at = walk.advanced(plan);
    let id = at.current->0.node_id;
    entering_shrinks(records, walk.visited, id);
    table::position_is_first(records, id);
    if table::lookup(records, id) is Some {
        assert(records[table::position(records, id) as int].key == id);
    }
}

/// The nodes that a walk finds, in order.
pub open spec fn traversed(
    records: Seq<Pair<AbstractNodeId, Record>>,
    keeps_unknown: bool,
    plan: Plan,
    walk: Walk,
) -> Seq<Hit>
    decreases unseen(records, walk.visited), walk.queue.len(),
    via traversal_ends
{
    if walk.advanced(plan).current is Some {
        traversed(records, keeps_unknown, plan, stepped(records, keeps_unknown, plan, walk))
    } else {
        walk.hits
    }
}

#[via_fn]
proof fn traversal_ends(
    records: Seq<Pair<AbstractNodeId, Record>>,
    keeps_unknown: bool,
    plan: Plan,
    walk: Walk,
) {
    if walk.advanced(plan).current is Some {
        stepping_shrinks(records, keeps_unknown, plan, walk);
    }
}

/// Walks through a graph that is held in memory.
pub fn traverse(
    records: &Table<AbstractNodeId, StoredGraphEdges>,
    keeps_unknown: bool,
    start: AbstractNodeId,
    plan: WalkPlan,
) -> (hits: Vec<GraphTraversalHit>)
    ensures
        order::views(hits@) == traversed(
            records@,
            keeps_unknown,
            plan@,
            Walk::starting(start),
        ),
{
    let ghost ways = plan@;
    let ghost target = traversed(records@, keeps_unknown, ways, Walk::starting(start));
    let mut walk = GraphWalk::from(start, plan);
    loop
        invariant_except_break
            walk.well_formed(),
            walk.plan() == ways,
            traversed(records@, keeps_unknown, ways, walk@) == target,
        ensures
            walk@.hits == target,
        decreases unseen(records@, walk@.visited), walk@.queue.len(),
    {
        let ghost before = walk@;
        proof {
            advancing_consumes(ways, before);
        }
        let id = match walk.advance() {
            Some(id) => id,
            None => {
                break;
            },
        };
        proof {
            stepping_shrinks(records@, keeps_unknown, ways, before);
        }
        match records.get(&id) {
            Some(record) => {
                walk.enter(Some(record));
            },
            None => {
                if keeps_unknown {
                    let empty = StoredGraphEdges {
                        node_id: id,
                        session_id: None,
                        edges: Vec::new(),
                    };
                    assert(empty@.edges =~= Seq::<Edge>::empty());
                    walk.enter(Some(&empty));
                } else {
                    walk.enter(None);
                }
            },
        }
        assert(walk@ == stepped(records@, keeps_unknown, ways, before));
    }
    walk.into_hits()
}

/// The first node of a walk.
pub open spec fn start_hit(start: AbstractNodeId) -> Hit {
    Hit { node_id: start, depth: 0, via_predicate: None }
}

/// Whether a walk finds a node once it comes to it.
pub open spec fn admitted(
    records: Seq<Pair<AbstractNodeId, Record>>,
    keeps_unknown: bool,
    plan: Plan,
    id: AbstractNodeId,
) -> bool {
    known(records, keeps_unknown, id) matches Some(record) && plan.admits(record)
}

/// Whether a node has an edge that the walk follows.
pub open spec fn has_edge(
    records: Seq<Pair<AbstractNodeId, Record>>,
    keeps_unknown: bool,
    plan: Plan,
    id: AbstractNodeId,
    edge: Edge,
) -> bool {
    &&& known(records, keeps_unknown, id) matches Some(record) && record.edges.contains(edge)
    &&& plan.follows(edge)
}

/// Whether an edge leads from one node of the walk to another.
pub open spec fn leads_to(
    records: Seq<Pair<AbstractNodeId, Record>>,
    keeps_unknown: bool,
    plan: Plan,
    from: Hit,
    to: Hit,
) -> bool {
    &&& to.depth == from.depth + 1
    &&& to.via_predicate is Some
    &&& has_edge(
        records,
        keeps_unknown,
        plan,
        from.node_id,
        Edge { to: to.node_id, predicate: to.via_predicate->0 },
    )
}

/// Whether a node is the first one or an edge leads to it from a node that was
/// found.
pub open spec fn reached(
    records: Seq<Pair<AbstractNodeId, Record>>,
    keeps_unknown: bool,
    plan: Plan,
    start: AbstractNodeId,
    hits: Seq<Hit>,
    hit: Hit,
) -> bool {
    hit == start_hit(start) || exists|j: int|
        0 <= j < hits.len() && leads_to(records, keeps_unknown, plan, #[trigger] hits[j], hit)
}

/// Whether each of some nodes is the first one or was reached from a node that
/// was found.
#[verifier::opaque]
spec fn all_reached(
    records: Seq<Pair<AbstractNodeId, Record>>,
    keeps_unknown: bool,
    plan: Plan,
    start: AbstractNodeId,
    hits: Seq<Hit>,
    items: Seq<Hit>,
) -> bool {
    forall|i: int|
        0 <= i < items.len() ==> reached(
            records,
            keeps_unknown,
            plan,
            start,
            hits,
            #[trigger] items[i],
        )
}

/// Whether a node, where it was found, lies within so many steps.
spec fn is_near(hits: Seq<Hit>, id: AbstractNodeId, depth: nat) -> bool {
    forall|j: int|
        0 <= j < hits.len() && (#[trigger] hits[j]).node_id == id ==> hits[j].depth <= depth
}

/// Whether the walk came to the end of an edge, by no longer way than this edge,
/// will come to it, or need not.
spec fn explored(plan: Plan, walk: Walk, from: Hit, edge: Edge) -> bool {
    ||| walk.visited.contains(edge.to) && is_near(walk.hits, edge.to, from.depth + 1)
    ||| from.depth >= plan.max_depth
    ||| walk.queue.contains(
        Hit { node_id: edge.to, depth: from.depth + 1, via_predicate: Some(edge.predicate) },
    )
}

/// Whether every edge that the walk follows from a node it found is explored.
#[verifier::opaque]
spec fn all_explored(
    records: Seq<Pair<AbstractNodeId, Record>>,
    keeps_unknown: bool,
    plan: Plan,
    walk: Walk,
) -> bool {
    forall|i: int, edge: Edge|
        0 <= i < walk.hits.len() && #[trigger] has_edge(
            records,
            keeps_unknown,
            plan,
            (#[trigger] walk.hits[i]).node_id,
            edge,
        ) ==> explored(plan, walk, walk.hits[i], edge)
}

/// Whether a node is among those that were found.
pub open spec fn found(hits: Seq<Hit>, id: AbstractNodeId) -> bool {
    exists|j: int| 0 <= j < hits.len() && (#[trigger] hits[j]).node_id == id
}

/// What holds of every walk between two nodes.
spec fn sound(
    records: Seq<Pair<AbstractNodeId, Record>>,
    keeps_unknown: bool,
    plan: Plan,
    start: AbstractNodeId,
    walk: Walk,
) -> bool {
    &&& forall|i: int|
        0 <= i < walk.hits.len() ==> {
            &&& (#[trigger] walk.hits[i]).depth <= plan.max_depth
            &&& admitted(records, keeps_unknown, plan, walk.hits[i].node_id)
            &&& walk.visited.contains(walk.hits[i].node_id)
        }
    &&& forall|i: int, j: int|
        0 <= i < j < walk.hits.len() ==> {
            &&& (#[trigger] walk.hits[i]).node_id != (#[trigger] walk.hits[j]).node_id
            &&& walk.hits[i].depth <= walk.hits[j].depth
        }
    &&& all_reached(records, keeps_unknown, plan, start, walk.hits, walk.hits)
    &&& all_reached(records, keeps_unknown, plan, start, walk.hits, walk.queue)
    &&& forall|i: int, j: int|
        0 <= i < j < walk.queue.len() ==> (#[trigger] walk.queue[i]).depth <= (
        #[trigger] walk.queue[j]).depth
    &&& forall|i: int|
        0 <= i < walk.queue.len() && walk.hits.len() > 0 ==> walk.hits.last().depth <= (
        #[trigger] walk.queue[i]).depth <= walk.hits.last().depth + 1
    &&& walk.hits.len() > 0 ==> walk.hits[0] == start_hit(start)
    &&& walk.hits.len() == 0 ==> {
        ||| walk.visited.len() == 0 && walk.queue == seq![start_hit(start)]
        ||| walk.queue.len() == 0 && !admitted(records, keeps_unknown, plan, start)
    }
    &&& plan.max_hits matches Some(limit) ==> walk.hits.len() <= limit || walk.hits.len() <= 1
    &&& plan.max_hits is None ==> all_explored(records, keeps_unknown, plan, walk)
    &&& forall|id: AbstractNodeId| #[trigger]
        walk.visited.contains(id) && admitted(records, keeps_unknown, plan, id) ==> found(
            walk.hits,
            id,
        )
}

/// Nodes that were reached are so without the first one.
proof fn rest_is_reached(
    records: Seq<Pair<AbstractNodeId, Record>>,
    keeps_unknown: bool,
    plan: Plan,
    start: AbstractNodeId,
    hits: Seq<Hit>,
    queue: Seq<Hit>,
)
    requires
        all_reached(records, keeps_unknown, plan, start, hits, queue),
        queue.len() > 0,
    ensures
        all_reached(records, keeps_unknown, plan, start, hits, queue.drop_first()),
{
    let rest = queue.drop_first();
    assert forall|i: int| 0 <= i < rest.len() implies reached(
        records,
        keeps_unknown,
        plan,
        start,
        hits,
        #[trigger] rest[i],
    ) by {
        reveal(all_reached);
        assert(rest[i] == queue[i + 1]);
    }
    reveal(all_reached);
}

/// Passing over a node keeps the walk sound.
proof fn skipping_keeps(
    records: Seq<Pair<AbstractNodeId, Record>>,
    keeps_unknown: bool,
    plan: Plan,
    start: AbstractNodeId,
    walk: Walk,
)
    requires
        sound(records, keeps_unknown, plan, start, walk),
        walk.queue.len() > 0,
        walk.queue[0].depth > plan.max_depth || walk.visited.contains(walk.queue[0].node_id),
    ensures
        sound(
            records,
            keeps_unknown,
            plan,
            start,
            (Walk { queue: walk.queue.drop_first(), ..walk }),
        ),
{
    let rest = Walk { queue: walk.queue.drop_first(), ..walk };
    assert forall|i: int| 0 <= i < rest.queue.len() implies #[trigger] rest.queue[i]
        == walk.queue[i + 1] by {}
    if walk.hits.len() == 0 {
        assert(walk.queue[0] == start_hit(start));
    }
    rest_is_reached(records, keeps_unknown, plan, start, walk.hits, walk.queue);
    if plan.max_hits is None {
        reveal(all_explored);
        assert forall|i: int, edge: Edge|
            0 <= i < rest.hits.len() && #[trigger] has_edge(
                records,
                keeps_unknown,
                plan,
                (#[trigger] rest.hits[i]).node_id,
                edge,
            ) implies explored(plan, rest, rest.hits[i], edge) by {
            assert(explored(plan, walk, walk.hits[i], edge));
            let next = Hit {
                node_id: edge.to,
                depth: walk.hits[i].depth + 1,
                via_predicate: Some(edge.predicate),
            };
            if walk.queue.contains(next) {
                let k = choose|k: int| 0 <= k < walk.queue.len() && walk.queue[k] == next;
                if k > 0 {
                    assert(rest.queue[k - 1] == next);
                } else {
                    assert forall|j: int|
                        0 <= j < rest.hits.len() && (#[trigger] rest.hits[j]).node_id
                            == edge.to implies rest.hits[j].depth <= next.depth by {
                        assert(walk.hits[j].depth <= walk.hits.last().depth);
                        assert(walk.hits.last().depth <= walk.queue[0].depth);
                    }
                }
            }
        }
    }
}

/// The queue grows at its end, by ends of edges that the walk follows.
proof fn queued_grows(plan: Plan, count: nat, depth: nat, queue: Seq<Hit>, edges: Seq<Edge>)
    ensures
        ({
            let after = plan.queued(count, depth, queue, edges);
            &&& after.len() >= queue.len()
            &&& forall|i: int| 0 <= i < queue.len() ==> #[trigger] after[i] == queue[i]
            &&& forall|i: int|
                queue.len() <= i < after.len() ==> {
                    let next = #[trigger] after[i];
                    &&& next.depth == depth + 1
                    &&& next.via_predicate is Some
                    &&& edges.contains(
                        Edge { to: next.node_id, predicate: next.via_predicate->0 },
                    )
                    &&& plan.follows(Edge { to: next.node_id, predicate: next.via_predicate->0 })
                }
            &&& plan.max_hits is None ==> forall|edge: Edge| #[trigger]
                edges.contains(edge) && plan.follows(edge) ==> after.contains(
                    Hit {
                        node_id: edge.to,
                        depth: depth + 1,
                        via_predicate: Some(edge.predicate),
                    },
                )
        }),
    decreases edges.len(),
{
    if edges.len() > 0 {
        let rest = edges.drop_last();
        let last = edges.last();
        queued_grows(plan, count, depth, queue, rest);
        let before = plan.queued(count, depth, queue, rest);
        let after = plan.queued(count, depth, queue, edges);
        let next = Hit {
            node_id: last.to,
            depth: depth + 1,
            via_predicate: Some(last.predicate),
        };
        assert(edges[edges.len() - 1] == last);
        assert forall|edge: Edge| #[trigger] rest.contains(edge) implies edges.contains(edge) by {
            let k = choose|k: int| 0 <= k < rest.len() && rest[k] == edge;
            assert(edges[k] == edge);
        }
        assert forall|i: int| queue.len() <= i < after.len() implies ({
            let next = #[trigger] after[i];
            &&& next.depth == depth + 1
            &&& next.via_predicate is Some
            &&& edges.contains(Edge { to: next.node_id, predicate: next.via_predicate->0 })
            &&& plan.follows(Edge { to: next.node_id, predicate: next.via_predicate->0 })
        }) by {
            if i < before.len() {
                assert(after[i] == before[i]);
                let found = before[i];
                assert(rest.contains(
                    Edge { to: found.node_id, predicate: found.via_predicate->0 },
                ));
            } else {
                assert(after[i] == next);
                assert((Edge { to: next.node_id, predicate: next.via_predicate->0 }) =~= last);
                assert(edges.contains(last));
            }
        }
        if plan.max_hits is None {
            assert forall|edge: Edge| #[trigger] edges.contains(edge) && plan.follows(
                edge,
            ) implies after.contains(
                Hit { node_id: edge.to, depth: depth + 1, via_predicate: Some(edge.predicate) },
            ) by {
                let k = choose|k: int| 0 <= k < edges.len() && edges[k] == edge;
                let end = Hit {
                    node_id: edge.to,
                    depth: depth + 1,
                    via_predicate: Some(edge.predicate),
                };
                if k < rest.len() {
                    assert(rest[k] == edge);
                    assert(rest.contains(edge));
                    let m = choose|m: int| 0 <= m < before.len() && before[m] == end;
                    assert(after[m] == end);
                } else {
                    assert(edge == last);
                    assert(after[after.len() - 1] == end);
                }
            }
        }
    }
}

/// Entering a node leaves every node reached.
proof fn finding_reaches(
    records: Seq<Pair<AbstractNodeId, Record>>,
    keeps_unknown: bool,
    plan: Plan,
    start: AbstractNodeId,
    walk: Walk,
    after: Walk,
    rest: Seq<Hit>,
    edges: Seq<Edge>,
)
    requires
        all_reached(records, keeps_unknown, plan, start, walk.hits, walk.hits),
        all_reached(records, keeps_unknown, plan, start, walk.hits, walk.queue),
        walk.queue.len() > 0,
        rest == walk.queue.drop_first(),
        after.hits == walk.hits.push(walk.queue[0]),
        known(records, keeps_unknown, walk.queue[0].node_id) is Some,
        edges == known(records, keeps_unknown, walk.queue[0].node_id)->0.edges,
        after.queue == plan.queued(
            (walk.hits.len() + 1) as nat,
            walk.queue[0].depth,
            rest,
            edges,
        ),
    ensures
        all_reached(records, keeps_unknown, plan, start, after.hits, after.hits),
        all_reached(records, keeps_unknown, plan, start, after.hits, after.queue),
{
    let stop = walk.queue[0];
    queued_grows(plan, (walk.hits.len() + 1) as nat, stop.depth, rest, edges);
    assert forall|hit: Hit| reached(
        records,
        keeps_unknown,
        plan,
        start,
        walk.hits,
        hit,
    ) implies #[trigger] reached(records, keeps_unknown, plan, start, after.hits, hit) by {
        if hit != start_hit(start) {
            let j = choose|j: int|
                0 <= j < walk.hits.len() && leads_to(
                    records,
                    keeps_unknown,
                    plan,
                    #[trigger] walk.hits[j],
                    hit,
                );
            assert(after.hits[j] == walk.hits[j]);
        }
    }
    assert forall|i: int| 0 <= i < after.hits.len() implies reached(
        records,
        keeps_unknown,
        plan,
        start,
        walk.hits,
        #[trigger] after.hits[i],
    ) by {
        reveal(all_reached);
        if i < walk.hits.len() {
            assert(after.hits[i] == walk.hits[i]);
        } else {
            assert(after.hits[i] == walk.queue[0]);
        }
    }
    assert forall|i: int| 0 <= i < after.queue.len() implies reached(
        records,
        keeps_unknown,
        plan,
        start,
        after.hits,
        #[trigger] after.queue[i],
    ) by {
        if i < rest.len() {
            assert(after.queue[i] == walk.queue[i + 1]);
            assert(reached(records, keeps_unknown, plan, start, walk.hits, walk.queue[i + 1])) by {
                reveal(all_reached);
            }
        } else {
            let from = after.hits[walk.hits.len() as int];
            assert(leads_to(records, keeps_unknown, plan, from, after.queue[i]));
        }
    }
    reveal(all_reached);
}

/// Entering a node leaves every edge explored.
proof fn finding_explores(
    records: Seq<Pair<AbstractNodeId, Record>>,
    keeps_unknown: bool,
    plan: Plan,
    walk: Walk,
    after: Walk,
    rest: Seq<Hit>,
    edges: Seq<Edge>,
)
    requires
        plan.max_hits is None,
        all_explored(records, keeps_unknown, plan, walk),
        walk.queue.len() > 0,
        rest == walk.queue.drop_first(),
        after.hits == walk.hits.push(walk.queue[0]),
        after.visited == walk.visited.push(walk.queue[0].node_id),
        !walk.visited.contains(walk.queue[0].node_id),
        forall|i: int|
            0 <= i < walk.hits.len() ==> walk.visited.contains((#[trigger] walk.hits[i]).node_id),
        known(records, keeps_unknown, walk.queue[0].node_id) is Some,
        edges == known(records, keeps_unknown, walk.queue[0].node_id)->0.edges,
        after.queue == plan.queued(
            (walk.hits.len() + 1) as nat,
            walk.queue[0].depth,
            rest,
            edges,
        ),
    ensures
        all_explored(records, keeps_unknown, plan, after),
{
    reveal(all_explored);
    let stop = walk.queue[0];
    queued_grows(plan, (walk.hits.len() + 1) as nat, stop.depth, rest, edges);
    assert forall|i: int, edge: Edge|
        0 <= i < after.hits.len() && #[trigger] has_edge(
            records,
            keeps_unknown,
            plan,
            (#[trigger] after.hits[i]).node_id,
            edge,
        ) implies explored(plan, after, after.hits[i], edge) by {
        if i < walk.hits.len() {
            assert(after.hits[i] == walk.hits[i]);
            assert(has_edge(records, keeps_unknown, plan, walk.hits[i].node_id, edge));
            queued_edge_stays(plan, walk, after, stop, rest, walk.hits[i], edge);
        } else {
            assert(edges.contains(edge));
        }
    }
}

/// Entering a node that the walk may enter keeps the walk sound.
proof fn finding_keeps(
    records: Seq<Pair<AbstractNodeId, Record>>,
    keeps_unknown: bool,
    plan: Plan,
    start: AbstractNodeId,
    walk: Walk,
)
    requires
        sound(records, keeps_unknown, plan, start, walk),
        walk.queue.len() > 0,
        !plan.full(walk.hits.len()),
        walk.queue[0].depth <= plan.max_depth,
        !walk.visited.contains(walk.queue[0].node_id),
        admitted(records, keeps_unknown, plan, walk.queue[0].node_id),
    ensures
        sound(
            records,
            keeps_unknown,
            plan,
            start,
            stepped(records, keeps_unknown, plan, walk),
        ),
{
    let stop = walk.queue[0];
    let rest = walk.queue.drop_first();
    let after = stepped(records, keeps_unknown, plan, walk);
    let visited = walk.visited.push(stop.node_id);
    assert(after.visited == visited);
    assert forall|id: AbstractNodeId| walk.visited.contains(id) implies #[trigger] visited.contains(
        id,
    ) by {
        let k = choose|k: int| 0 <= k < walk.visited.len() && walk.visited[k] == id;
        assert(visited[k] == id);
    }
    assert(visited.contains(stop.node_id)) by {
        assert(visited[walk.visited.len() as int] == stop.node_id);
    }
    assert forall|id: AbstractNodeId| #[trigger]
        visited.contains(id) && id != stop.node_id implies walk.visited.contains(id) by {
        let k = choose|k: int| 0 <= k < visited.len() && visited[k] == id;
        assert(walk.visited[k] == id);
    }
    assert forall|i: int| 0 <= i < rest.len() implies #[trigger] rest[i] == walk.queue[i + 1] by {}
    let record = known(records, keeps_unknown, stop.node_id);
    let edges = record->0.edges;
    let count = (walk.hits.len() + 1) as nat;
    queued_grows(plan, count, stop.depth, rest, edges);
    assert(after.hits == walk.hits.push(stop));
    assert(after.queue == plan.queued(count, stop.depth, rest, edges));
    assert(after.hits.last() == stop);
    finding_reaches(records, keeps_unknown, plan, start, walk, after, rest, edges);
    assert forall|i: int| 0 <= i < after.hits.len() implies ({
        &&& (#[trigger] after.hits[i]).depth <= plan.max_depth
        &&& admitted(records, keeps_unknown, plan, after.hits[i].node_id)
        &&& after.visited.contains(after.hits[i].node_id)
    }) by {
        if i < walk.hits.len() {
            assert(after.hits[i] == walk.hits[i]);
        }
    }
    assert forall|i: int, j: int| 0 <= i < j < after.hits.len() implies ({
        &&& (#[trigger] after.hits[i]).node_id != (#[trigger] after.hits[j]).node_id
        &&& after.hits[i].depth <= after.hits[j].depth
    }) by {
        assert(after.hits[i] == walk.hits[i]);
        if j < walk.hits.len() {
            assert(after.hits[j] == walk.hits[j]);
        } else {
            assert(walk.visited.contains(walk.hits[i].node_id));
            assert(walk.hits[i].depth <= walk.hits.last().depth);
        }
    }
    assert forall|i: int| 0 <= i < after.queue.len() implies stop.depth <= (
    #[trigger] after.queue[i]).depth <= stop.depth + 1 by {
        if i < rest.len() {
            assert(after.queue[i] == walk.queue[i + 1]);
            assert(walk.queue[0].depth <= walk.queue[i + 1].depth);
        }
    }
    assert forall|i: int, j: int| 0 <= i < j < after.queue.len() implies (
    #[trigger] after.queue[i]).depth <= (#[trigger] after.queue[j]).depth by {
        if j < rest.len() {
            assert(after.queue[i] == walk.queue[i + 1]);
            assert(after.queue[j] == walk.queue[j + 1]);
        }
    }
    if walk.hits.len() == 0 {
        assert(walk.queue[0] == start_hit(start));
    }
    assert forall|id: AbstractNodeId| #[trigger]
        after.visited.contains(id) && admitted(
            records,
            keeps_unknown,
            plan,
            id,
        ) implies found(after.hits, id) by {
        if id == stop.node_id {
            assert(after.hits[walk.hits.len() as int].node_id == id);
        } else {
            assert(found(walk.hits, id));
            let j = choose|j: int|
                0 <= j < walk.hits.len() && (#[trigger] walk.hits[j]).node_id == id;
            assert(after.hits[j].node_id == id);
        }
    }
    if plan.max_hits is None {
        finding_explores(records, keeps_unknown, plan, walk, after, rest, edges);
    }
}

/// Passing by a node that the walk may not enter keeps the walk sound.
proof fn missing_keeps(
    records: Seq<Pair<AbstractNodeId, Record>>,
    keeps_unknown: bool,
    plan: Plan,
    start: AbstractNodeId,
    walk: Walk,
)
    requires
        sound(records, keeps_unknown, plan, start, walk),
        walk.queue.len() > 0,
        !plan.full(walk.hits.len()),
        walk.queue[0].depth <= plan.max_depth,
        !walk.visited.contains(walk.queue[0].node_id),
        !admitted(records, keeps_unknown, plan, walk.queue[0].node_id),
    ensures
        sound(
            records,
            keeps_unknown,
            plan,
            start,
            stepped(records, keeps_unknown, plan, walk),
        ),
{
    let stop = walk.queue[0];
    let rest = walk.queue.drop_first();
    let after = stepped(records, keeps_unknown, plan, walk);
    let visited = walk.visited.push(stop.node_id);
    assert(after.visited == visited);
    assert forall|id: AbstractNodeId| walk.visited.contains(id) implies #[trigger] visited.contains(
        id,
    ) by {
        let k = choose|k: int| 0 <= k < walk.visited.len() && walk.visited[k] == id;
        assert(visited[k] == id);
    }
    assert(visited.contains(stop.node_id)) by {
        assert(visited[walk.visited.len() as int] == stop.node_id);
    }
    assert forall|id: AbstractNodeId| #[trigger]
        visited.contains(id) && id != stop.node_id implies walk.visited.contains(id) by {
        let k = choose|k: int| 0 <= k < visited.len() && visited[k] == id;
        assert(walk.visited[k] == id);
    }
    assert forall|i: int| 0 <= i < rest.len() implies #[trigger] rest[i] == walk.queue[i + 1] by {}
    let record = known(records, keeps_unknown, stop.node_id);
    assert(after.hits == walk.hits);
    assert(after.queue == rest);
    rest_is_reached(records, keeps_unknown, plan, start, walk.hits, walk.queue);
    assert forall|i: int| 0 <= i < after.queue.len() implies #[trigger] after.queue[i]
        == walk.queue[i + 1] by {}
    if walk.hits.len() == 0 {
        assert(walk.queue[0] == start_hit(start));
    }
    if plan.max_hits is None {
        reveal(all_explored);
        assert forall|i: int, edge: Edge|
            0 <= i < after.hits.len() && #[trigger] has_edge(
                records,
                keeps_unknown,
                plan,
                (#[trigger] after.hits[i]).node_id,
                edge,
            ) implies explored(plan, after, after.hits[i], edge) by {
            assert(has_edge(records, keeps_unknown, plan, walk.hits[i].node_id, edge));
            queued_edge_stays(plan, walk, after, stop, rest, walk.hits[i], edge);
        }
    }
    assert forall|id: AbstractNodeId| #[trigger]
        after.visited.contains(id) && admitted(
            records,
            keeps_unknown,
            plan,
            id,
        ) implies found(after.hits, id) by {
        assert(walk.visited.contains(id));
    }
}

/// An edge that was explored stays so when the first node of the queue is
/// entered.
proof fn queued_edge_stays(
    plan: Plan,
    walk: Walk,
    after: Walk,
    stop: Hit,
    rest: Seq<Hit>,
    from: Hit,
    edge: Edge,
)
    requires
        explored(plan, walk, from, edge),
        walk.queue.len() > 0,
        stop == walk.queue[0],
        rest == walk.queue.drop_first(),
        after.visited == walk.visited.push(stop.node_id),
        after.hits == walk.hits || after.hits == walk.hits.push(stop),
        !walk.visited.contains(stop.node_id),
        forall|i: int|
            0 <= i < walk.hits.len() ==> walk.visited.contains((#[trigger] walk.hits[i]).node_id),
        after.queue.len() >= rest.len(),
        forall|i: int| 0 <= i < rest.len() ==> #[trigger] after.queue[i] == rest[i],
    ensures
        explored(plan, after, from, edge),
{
    let next = Hit {
        node_id: edge.to,
        depth: from.depth + 1,
        via_predicate: Some(edge.predicate),
    };
    if walk.visited.contains(edge.to) && is_near(walk.hits, edge.to, next.depth) {
        let k = choose|k: int| 0 <= k < walk.visited.len() && walk.visited[k] == edge.to;
        assert(after.visited[k] == edge.to);
        assert forall|j: int|
            0 <= j < after.hits.len() && (#[trigger] after.hits[j]).node_id
                == edge.to implies after.hits[j].depth <= next.depth by {
            if j < walk.hits.len() {
                assert(after.hits[j] == walk.hits[j]);
            } else {
                assert(after.hits[j] == stop);
            }
        }
    } else if walk.queue.contains(next) {
        let k = choose|k: int| 0 <= k < walk.queue.len() && walk.queue[k] == next;
        if k > 0 {
            assert(after.queue[k - 1] == rest[k - 1]);
            assert(after.queue[k - 1] == next);
        } else {
            assert(after.visited[walk.visited.len() as int] == edge.to);
            assert forall|j: int|
                0 <= j < after.hits.len() && (#[trigger] after.hits[j]).node_id
                    == edge.to implies after.hits[j].depth <= next.depth by {
                if j < walk.hits.len() {
                    assert(after.hits[j] == walk.hits[j]);
                    assert(walk.visited.contains(walk.hits[j].node_id));
                } else {
                    assert(after.hits[j] == stop);
                }
            }
        }
    }
}

/// A walk ends in a sound state in which nothing is left to do.
proof fn walk_ends_soundly(
    records: Seq<Pair<AbstractNodeId, Record>>,
    keeps_unknown: bool,
    plan: Plan,
    start: AbstractNodeId,
    walk: Walk,
) -> (end: Walk)
    requires
        sound(records, keeps_unknown, plan, start, walk),
    ensures
        sound(records, keeps_unknown, plan, start, end),
        end.hits == traversed(records, keeps_unknown, plan, walk),
        end.queue.len() == 0 || plan.full(end.hits.len()),
    decreases unseen(records, walk.visited), walk.queue.len(),
{
    if walk.queue.len() == 0 || plan.full(walk.hits.len()) {
        walk
    } else if walk.queue[0].depth > plan.max_depth || walk.visited.contains(
        walk.queue[0].node_id,
    ) {
        let rest = Walk { queue: walk.queue.drop_first(), ..walk };
        skipping_keeps(records, keeps_unknown, plan, start, walk);
        assert(walk.advanced(plan) == rest.advanced(plan));
        walk_ends_soundly(records, keeps_unknown, plan, start, rest)
    } else {
        let next = stepped(records, keeps_unknown, plan, walk);
        if admitted(records, keeps_unknown, plan, walk.queue[0].node_id) {
            finding_keeps(records, keeps_unknown, plan, start, walk);
        } else {
            missing_keeps(records, keeps_unknown, plan, start, walk);
        }
        stepping_shrinks(records, keeps_unknown, plan, walk);
        walk_ends_soundly(records, keeps_unknown, plan, start, next)
    }
}

proof fn whole_walk(
    records: Seq<Pair<AbstractNodeId, Record>>,
    keeps_unknown: bool,
    plan: Plan,
    start: AbstractNodeId,
) -> (end: Walk)
    ensures
        sound(records, keeps_unknown, plan, start, end),
        end.hits == traversed(records, keeps_unknown, plan, Walk::starting(start)),
        end.queue.len() == 0 || plan.full(end.hits.len()),
{
    let walk = Walk::starting(start);
    assert(walk.queue[0] == start_hit(start));
    assert(walk.queue =~= seq![start_hit(start)]);
    reveal(all_explored);
    reveal(all_reached);
    walk_ends_soundly(records, keeps_unknown, plan, start, walk)
}

/// A walk finds no node twice, goes outwards and stays within its depth, its
/// session and its number of nodes.
pub proof fn walks_stay_within_their_plan(
    records: Seq<Pair<AbstractNodeId, Record>>,
    keeps_unknown: bool,
    plan: Plan,
    start: AbstractNodeId,
)
    ensures
        ({
            let hits = traversed(records, keeps_unknown, plan, Walk::starting(start));
            &&& forall|i: int|
                0 <= i < hits.len() ==> (#[trigger] hits[i]).depth <= plan.max_depth && admitted(
                    records,
                    keeps_unknown,
                    plan,
                    hits[i].node_id,
                )
            &&& forall|i: int, j: int|
                0 <= i < j < hits.len() ==> {
                    &&& (#[trigger] hits[i]).node_id != (#[trigger] hits[j]).node_id
                    &&& hits[i].depth <= hits[j].depth
                }
            &&& plan.max_hits matches Some(limit) ==> hits.len() <= limit || hits.len() <= 1
        }),
{
    let end = whole_walk(records, keeps_unknown, plan, start);
}

/// A walk begins at its first node, if it may enter it at all, and every other
/// node was reached along an edge that the plan follows, from a node one step
/// nearer.
pub proof fn walks_follow_edges(
    records: Seq<Pair<AbstractNodeId, Record>>,
    keeps_unknown: bool,
    plan: Plan,
    start: AbstractNodeId,
)
    ensures
        ({
            let hits = traversed(records, keeps_unknown, plan, Walk::starting(start));
            &&& hits.len() > 0 <==> admitted(records, keeps_unknown, plan, start)
            &&& hits.len() > 0 ==> hits[0] == start_hit(start)
            &&& forall|i: int|
                0 <= i < hits.len() ==> reached(
                    records,
                    keeps_unknown,
                    plan,
                    start,
                    hits,
                    #[trigger] hits[i],
                )
        }),
{
    let end = whole_walk(records, keeps_unknown, plan, start);
    reveal(all_reached);
    if end.hits.len() > 0 {
        assert(admitted(records, keeps_unknown, plan, end.hits[0].node_id));
    }
}

/// Whether a node is among those that were found, within so many steps.
pub open spec fn found_within(hits: Seq<Hit>, id: AbstractNodeId, depth: nat) -> bool {
    exists|j: int|
        0 <= j < hits.len() && (#[trigger] hits[j]).node_id == id && hits[j].depth <= depth
}

/// A walk without a limit on its nodes misses none and takes no detour: the end
/// of every edge that it follows from a node above the greatest depth is found,
/// if the walk may enter it, at most one step further out than that node.
pub proof fn unlimited_walks_are_complete(
    records: Seq<Pair<AbstractNodeId, Record>>,
    keeps_unknown: bool,
    plan: Plan,
    start: AbstractNodeId,
    index: int,
    edge: Edge,
)
    requires
        plan.max_hits is None,
        0 <= index < traversed(records, keeps_unknown, plan, Walk::starting(start)).len(),
        traversed(records, keeps_unknown, plan, Walk::starting(start))[index].depth
            < plan.max_depth,
        has_edge(
            records,
            keeps_unknown,
            plan,
            traversed(records, keeps_unknown, plan, Walk::starting(start))[index].node_id,
            edge,
        ),
        admitted(records, keeps_unknown, plan, edge.to),
    ensures
        found_within(
            traversed(records, keeps_unknown, plan, Walk::starting(start)),
            edge.to,
            traversed(records, keeps_unknown, plan, Walk::starting(start))[index].depth + 1,
        ),
{
    let end = whole_walk(records, keeps_unknown, plan, start);
    reveal(all_explored);
    assert(has_edge(records, keeps_unknown, plan, end.hits[index].node_id, edge));
    assert(explored(plan, end, end.hits[index], edge));
    assert(end.visited.contains(edge.to));
    assert(found(end.hits, edge.to));
    let j = choose|j: int| 0 <= j < end.hits.len() && (#[trigger] end.hits[j]).node_id == edge.to;
    assert(end.hits[j].depth <= end.hits[index].depth + 1);
}

/// The node at the end of a way, or the first node where there is none.
pub open spec fn way_end(start: AbstractNodeId, way: Seq<Edge>) -> AbstractNodeId {
    if way.len() == 0 {
        start
    } else {
        way.last().to
    }
}

/// Whether a way leads on from its first node, along edges that the plan follows
/// and over nodes that the walk may enter.
pub open spec fn is_way(
    records: Seq<Pair<AbstractNodeId, Record>>,
    keeps_unknown: bool,
    plan: Plan,
    start: AbstractNodeId,
    way: Seq<Edge>,
) -> bool
    decreases way.len(),
{
    if way.len() == 0 {
        admitted(records, keeps_unknown, plan, start)
    } else {
        &&& is_way(records, keeps_unknown, plan, start, way.drop_last())
        &&& has_edge(
            records,
            keeps_unknown,
            plan,
            way_end(start, way.drop_last()),
            way.last(),
        )
        &&& admitted(records, keeps_unknown, plan, way.last().to)
    }
}

/// A walk without a limit on its nodes finds the end of every way that is no
/// longer than its greatest depth, and no further out than that way is long.
pub proof fn walks_take_shortest_ways(
    records: Seq<Pair<AbstractNodeId, Record>>,
    keeps_unknown: bool,
    plan: Plan,
    start: AbstractNodeId,
    way: Seq<Edge>,
)
    requires
        plan.max_hits is None,
        way.len() <= plan.max_depth,
        is_way(records, keeps_unknown, plan, start, way),
    ensures
        found_within(
            traversed(records, keeps_unknown, plan, Walk::starting(start)),
            way_end(start, way),
            way.len(),
        ),
    decreases way.len(),
{
    let hits = traversed(records, keeps_unknown, plan, Walk::starting(start));
    if way.len() == 0 {
        walks_follow_edges(records, keeps_unknown, plan, start);
        assert(hits[0] == start_hit(start));
    } else {
        walks_take_shortest_ways(records, keeps_unknown, plan, start, way.drop_last());
        let from = way_end(start, way.drop_last());
        let index = choose|j: int|
            0 <= j < hits.len() && (#[trigger] hits[j]).node_id == from && hits[j].depth
                <= way.len() - 1;
        unlimited_walks_are_complete(records, keeps_unknown, plan, start, index, way.last());
        let j = choose|j: int|
            0 <= j < hits.len() && (#[trigger] hits[j]).node_id == way.last().to && hits[j].depth
                <= hits[index].depth + 1;
        assert(hits[j].node_id == way_end(start, way));
    }
}

/// The graph of abstract nodes, held in memory.
#[derive(Debug)]
pub struct InMemoryGraphRepository {
    pub adjacency: Table<AbstractNodeId, StoredGraphEdges>,
}

impl View for InMemoryGraphRepository {
    type V = Seq<Pair<AbstractNodeId, Record>>;

    open spec fn view(&self) -> Seq<Pair<AbstractNodeId, Record>> {
        self.adjacency@
    }
}

/// The record of the edges of a node.
pub open spec fn record_of(node: Abstract) -> Record {
    Record { node_id: node.id, session_id: node.session_id, edges: graph::node_edges(node) }
}

/// Records the edges of a node.
pub fn stored_edges(node: &AbstractNode) -> (record: StoredGraphEdges)
    ensures
        record@ == record_of(node@),
{
    StoredGraphEdges {
        node_id: node.id,
        session_id: node.session_id,
        edges: edges_for_abstract(node),
    }
}

impl Default for InMemoryGraphRepository {
    fn default() -> (repository: Self)
        ensures
            repository@ == Seq::<Pair<AbstractNodeId, Record>>::empty(),
    {
        InMemoryGraphRepository { adjacency: Table::new() }
    }
}

impl InMemoryGraphRepository {
    /// Records the edges of a node in place of those it had.
    pub fn index_abstract(&mut self, node: &AbstractNode)
        ensures
            final(self)@ == table::stored(old(self)@, node@.id, record_of(node@)),
    {
        self.adjacency.insert(node.id, stored_edges(node));
    }

    /// Finds the nodes within some steps of a node, itself included, nearest
    /// first. Nodes that were never recorded are found too.
    pub fn traverse(
        &self,
        start: &AbstractNodeId,
        max_depth: usize,
        relation_types: Option<Vec<String>>,
    ) -> (hits: Vec<GraphTraversalHit>)
        ensures
            order::views(hits@) == traversed(
                self@,
                true,
                (Plan {
                    max_depth: max_depth as nat,
                    relation_types: match relation_types {
                        Some(types) => Some(text::texts(types@)),
                        None => None,
                    },
                    session_id: None,
                    max_hits: None,
                }),
                Walk::starting(*start),
            ),
    {
        let plan = WalkPlan { max_depth, relation_types, session_id: None, max_hits: None };
        traverse(&self.adjacency, true, *start, plan)
    }

    /// Finds the nodes of a session within some steps of a node, itself
    /// included, nearest first, and no more than a number of them.
    pub fn traverse_scoped(
        &self,
        start: &AbstractNodeId,
        max_depth: usize,
        relation_types: Option<Vec<String>>,
        session_id: Option<SessionId>,
        max_hits: usize,
    ) -> (hits: Vec<GraphTraversalHit>)
        ensures
            order::views(hits@) == traversed(
                self@,
                false,
                (Plan {
                    max_depth: max_depth as nat,
                    relation_types: match relation_types {
                        Some(types) => Some(text::texts(types@)),
                        None => None,
                    },
                    session_id,
                    max_hits: Some(max_hits as nat),
                }),
                Walk::starting(*start),
            ),
    {
        let plan = WalkPlan { max_depth, relation_types, session_id, max_hits: Some(max_hits) };
        traverse(&self.adjacency, false, *start, plan)
    }
}

/// A walk follows every edge, or only those with a predicate that it is given; it
/// enters every node, or only those of the session that it is given; and it is
/// full once it has found as many nodes as it may, but never before the first.
pub proof fn plans_mean_what_they_say(plan: Plan, edge: Edge, record: Record, count: nat)
    ensures
        plan.relation_types is None ==> plan.follows(edge),
        plan.relation_types matches Some(types) ==> (plan.follows(edge) <==> types.contains(
            edge.predicate,
        )),
        plan.session_id is None ==> plan.admits(record),
        plan.session_id matches Some(id) ==> (plan.admits(record) <==> record.session_id == Some(
            id,
        )),
        plan.max_hits is None ==> !plan.full(count),
        plan.max_hits matches Some(limit) ==> (plan.full(count) <==> count >= 1 && count >= limit),
{
}

/// What is recorded of a node is its identifier, its session and its edges.
pub proof fn records_hold_the_edges_of_their_nodes(node: Abstract)
    ensures
        record_of(node).node_id == node.id,
        record_of(node).session_id == node.session_id,
        record_of(node).edges == graph::node_edges(node),
{
}

/// Edges of the nodes that a walk has not come to.
spec fn edges_left(
    records: Seq<Pair<AbstractNodeId, Record>>,
    visited: Seq<AbstractNodeId>,
) -> nat
    decreases records.len(),
{
    if records.len() == 0 {
        0
    } else {
        edges_left(records.drop_first(), visited) + if visited.contains(records[0].key) {
            0
        } else {
            records[0].value.edges.len()
        }
    }
}

/// Edges of all nodes.
pub open spec fn edge_count(records: Seq<Pair<AbstractNodeId, Record>>) -> nat
    decreases records.len(),
{
    if records.len() == 0 {
        0
    } else {
        edge_count(records.drop_first()) + records[0].value.edges.len()
    }
}

proof fn all_edges_are_left(records: Seq<Pair<AbstractNodeId, Record>>)
    ensures
        edges_left(records, Seq::empty()) == edge_count(records),
    decreases records.len(),
{
    if records.len() > 0 {
        all_edges_are_left(records.drop_first());
    }
}

proof fn coming_to_a_node_uses_its_edges(
    records: Seq<Pair<AbstractNodeId, Record>>,
    visited: Seq<AbstractNodeId>,
    id: AbstractNodeId,
)
    requires
        !visited.contains(id),
    ensures
        edges_left(records, visited.push(id)) + (match table::lookup(records, id) {
            Some(record) => record.edges.len(),
            None => 0,
        }) <= edges_left(records, visited),
        edges_left(records, visited.push(id)) <= edges_left(records, visited),
    decreases records.len(),
{
    let after = visited.push(id);
    if records.len() > 0 {
        let rest = records.drop_first();
        let key = records[0].key;
        coming_to_a_node_uses_its_edges(rest, visited, id);
        assert(after[visited.len() as int] == id);
        if visited.contains(key) {
            let k = choose|k: int| 0 <= k < visited.len() && visited[k] == key;
            assert(after[k] == key);
        }
        if key != id {
            let p = table::position(rest, id) as int;
            assert(table::position(records, id) == 1 + p);
            if p < rest.len() {
                assert(records[1 + p] == rest[p]);
            }
        } else {
            assert(table::position(records, id) == 0);
        }
    }
}

proof fn wide_limits_do_not_stop(plan: Plan, free: Plan, walk: Walk)
    requires
        free == (Plan { max_hits: None, ..plan }),
        walk.queue.len() > 0 ==> !plan.full(walk.hits.len()),
    ensures
        walk.advanced(plan) == walk.advanced(free),
    decreases walk.queue.len(),
{
    if walk.queue.len() > 0 {
        let stop = walk.queue[0];
        if stop.depth > plan.max_depth || walk.visited.contains(stop.node_id) {
            wide_limits_do_not_stop(
                plan,
                free,
                Walk { queue: walk.queue.drop_first(), ..walk },
            );
        }
    }
}

proof fn wide_limits_take_all_edges(
    plan: Plan,
    free: Plan,
    found: nat,
    depth: nat,
    queue: Seq<Hit>,
    edges: Seq<Edge>,
    limit: nat,
)
    requires
        plan.max_hits == Some(limit),
        free == (Plan { max_hits: None, ..plan }),
        found + queue.len() + edges.len() <= limit,
    ensures
        plan.queued(found, depth, queue, edges) == free.queued(found, depth, queue, edges),
        plan.queued(found, depth, queue, edges).len() <= queue.len() + edges.len(),
    decreases edges.len(),
{
    if edges.len() > 0 {
        wide_limits_take_all_edges(plan, free, found, depth, queue, edges.drop_last(), limit);
    }
}

proof fn wide_limits_change_no_step(
    records: Seq<Pair<AbstractNodeId, Record>>,
    keeps_unknown: bool,
    plan: Plan,
    free: Plan,
    walk: Walk,
    limit: nat,
)
    requires
        plan.max_hits == Some(limit),
        free == (Plan { max_hits: None, ..plan }),
        walk.hits.len() + walk.queue.len() + edges_left(records, walk.visited) <= limit,
    ensures
        traversed(records, keeps_unknown, plan, walk) == traversed(
            records,
            keeps_unknown,
            free,
            walk,
        ),
    decreases unseen(records, walk.visited), walk.queue.len(),
{
    wide_limits_do_not_stop(plan, free, walk);
    if walk.advanced(plan).current is Some {
        advancing_consumes(plan, walk);
        stepping_shrinks(records, keeps_unknown, plan, walk);
        let at = walk.advanced(plan);
        let stop = at.current->0;
        coming_to_a_node_uses_its_edges(records, walk.visited, stop.node_id);
        if let Some(record) = known(records, keeps_unknown, stop.node_id) {
            wide_limits_take_all_edges(
                plan,
                free,
                at.hits.len() + 1,
                stop.depth,
                at.queue,
                record.edges,
                limit,
            );
        }
        let after = stepped(records, keeps_unknown, plan, walk);
        assert(after == stepped(records, keeps_unknown, free, walk));
        wide_limits_change_no_step(records, keeps_unknown, plan, free, after, limit);
    }
}

/// A limit that is as large as all edges can reach changes nothing: such a walk
/// finds what a walk without a limit finds, in the same order.
pub proof fn wide_limits_change_nothing(
    records: Seq<Pair<AbstractNodeId, Record>>,
    keeps_unknown: bool,
    plan: Plan,
    start: AbstractNodeId,
    limit: nat,
)
    requires
        plan.max_hits == Some(limit),
        1 + edge_count(records) <= limit,
    ensures
        traversed(records, keeps_unknown, plan, Walk::starting(start)) == traversed(
            records,
            keeps_unknown,
            (Plan { max_hits: None, ..plan }),
            Walk::starting(start),
        ),
{
    all_edges_are_left(records);
    wide_limits_change_no_step(
        records,
        keeps_unknown,
        plan,
        Plan { max_hits: None, ..plan },
        Walk::starting(start),
        limit,
    );
}

} // verus!
