//! What is read from the rows of a relational store.
use vstd::prelude::*;

use crate::error;
use crate::error::EngineError;
use crate::ids;
use crate::ids::{AbstractNodeId, RawNodeId, SessionId, Uuid};
use crate::order;
use crate::order::insert_in_order;
use crate::storage::graph;
use crate::storage::graph::{Edge, EdgeOrder, GraphEdge};
use crate::storage::walk::{Record, StoredGraphEdges};
use crate::table;
use crate::table::Table;
use crate::text;

verus! {

/// A stored edge.
#[derive(Debug, PartialEq, Eq)]
pub struct EdgeRow {
    pub from_id: String,
    pub to_id: String,
    pub predicate: String,
}

/// A stored edge as a mathematical value.
pub struct Row {
    pub from_id: Seq<char>,
    pub to_id: Seq<char>,
    pub predicate: Seq<char>,
}

impl View for EdgeRow {
    type V = Row;

    open spec fn view(&self) -> Row {
        Row { from_id: self.from_id@, to_id: self.to_id@, predicate: self.predicate@ }
    }
}

/// What is wrong with a row, if anything is.
pub open spec fn row_fault(row: Row) -> Option<Seq<char>> {
    match (ids::parsed_uuid(row.from_id), ids::parsed_uuid(row.to_id)) {
        (Err(reason), _) => Some("invalid graph from_id stored in sqlite: "@ + reason),
        (_, Err(reason)) => Some("invalid graph to_id stored in sqlite: "@ + reason),
        _ => None,
    }
}

/// What is wrong with the first row that something is wrong with.
pub open spec fn first_fault(rows: Seq<Row>) -> Option<Seq<char>>
    decreases rows.len(),
{
    if rows.len() == 0 {
        None
    } else {
        match first_fault(rows.drop_last()) {
            Some(fault) => Some(fault),
            None => row_fault(rows.last()),
        }
    }
}

/// The edge that a row stores.
pub open spec fn row_edge(row: Row) -> Edge {
    Edge {
        to: AbstractNodeId(Uuid { bits: ids::parsed_uuid(row.to_id)->Ok_0 }),
        predicate: row.predicate,
    }
}

/// The edges of a node, in the order of the rows.
pub open spec fn outgoing(rows: Seq<Row>, id: AbstractNodeId) -> Seq<Edge>
    decreases rows.len(),
{
    if rows.len() == 0 {
        Seq::empty()
    } else {
        let rest = outgoing(rows.drop_last(), id);
        if ids::parsed_uuid(rows.last().from_id) == Ok::<u128, Seq<char>>(id.0.bits) {
            rest.push(row_edge(rows.last()))
        } else {
            rest
        }
    }
}

/// What the rows tell of a node.
pub open spec fn row_record(rows: Seq<Row>, id: AbstractNodeId) -> Option<Record> {
    if outgoing(rows, id).len() == 0 {
        None
    } else {
        Some(
            Record {
                node_id: id,
                session_id: None,
                edges: order::ordered(graph::edge_order(), outgoing(rows, id)),
            },
        )
    }
}

/// Sorting edges one by one sorts them all.
proof fn sorted_with_one_more(edges: Seq<Edge>, edge: Edge)
    ensures
        order::inserted(graph::edge_order(), edge, order::ordered(graph::edge_order(), edges))
            == order::ordered(graph::edge_order(), edges.push(edge)),
{
    broadcast use vstd::seq_lib::group_to_multiset_ensures;

    let before = graph::edge_order();
    let front = seq![edge] + edges;
    graph::edge_order_is_total();
    assert(front.drop_first() =~= edges);
    assert(front[0] == edge);
    assert(seq![edge] =~= Seq::<Edge>::empty().push(edge));
    vstd::seq_lib::lemma_multiset_commutative(seq![edge], edges);
    assert(front.to_multiset() =~= edges.push(edge).to_multiset());
    assert forall|a: Edge, b: Edge| !#[trigger] before(a, b) && !before(b, a) implies a == b by {
        assert(!graph::edge_before(a, b));
    }
    order::sorting_forgets_arrival(before, front, edges.push(edge));
}

/// Gathers stored edges by the node that they leave. The first row with an
/// identifier that cannot be read is reported.
pub fn adjacency_from_rows(rows: Vec<EdgeRow>) -> (result: Result<
    Table<AbstractNodeId, StoredGraphEdges>,
    EngineError,
>)
    ensures
        match first_fault(order::views(rows@)) {
            Some(fault) => result is Err && error::is_storage(result->Err_0, fault),
            None => {
                &&& result is Ok
                &&& table::is_table(result->Ok_0@)
                &&& forall|id: AbstractNodeId|
                    #![trigger table::lookup(result->Ok_0@, id)]
                    table::lookup(result->Ok_0@, id) == row_record(order::views(rows@), id)
            },
        },
{
    let ghost all = order::views(rows@);
    let mut adjacency: Table<AbstractNodeId, StoredGraphEdges> = Table::new();
    let mut index: usize = 0;
    proof {
        assert(all.take(0) =~= Seq::<Row>::empty());
    }
    while index < rows.len()
        invariant
            index <= rows.len(),
            all == order::views(rows@),
            first_fault(all.take(index as int)) is None,
            table::is_table(adjacency@),
            forall|id: AbstractNodeId|
                #![trigger table::lookup(adjacency@, id)]
                table::lookup(adjacency@, id) == row_record(all.take(index as int), id),
        decreases rows.len() - index,
    {
        let row = &rows[index];
        let ghost before = adjacency@;
        proof {
            let grown = all.take(index + 1);
            assert(grown.drop_last() =~= all.take(index as int));
            assert(grown.last() == row@);
            if row_fault(row@) is Some {
                faults_stay(all, index + 1);
            }
        }
        let from = match AbstractNodeId::parse(row.from_id.as_str()) {
            Ok(id) => id,
            Err(invalid) => {
                return Err(
                    EngineError::Storage(
                        "invalid graph from_id stored in sqlite: ".to_string().concat(
                            invalid.reason.as_str(),
                        ),
                    ),
                );
            },
        };
        let to = match AbstractNodeId::parse(row.to_id.as_str()) {
            Ok(id) => id,
            Err(invalid) => {
                return Err(
                    EngineError::Storage(
                        "invalid graph to_id stored in sqlite: ".to_string().concat(
                            invalid.reason.as_str(),
                        ),
                    ),
                );
            },
        };
        let edge = GraphEdge { to, predicate: row.predicate.clone() };
        let ghost added = edge@;
        let mut edges = match adjacency.take(&from) {
            Some(record) => record.edges,
            None => Vec::new(),
        };
        let ghost known = outgoing(all.take(index as int), from);
        proof {
            assert(table::lookup(before, from) == row_record(all.take(index as int), from));
            if known.len() == 0 {
                assert(order::views(edges@) =~= Seq::<Edge>::empty());
                assert(known =~= Seq::<Edge>::empty());
            }
            assert(graph::edges(edges@) == order::ordered(graph::edge_order(), known));
            assert(order::order_of::<GraphEdge, EdgeOrder>(&EdgeOrder) =~= graph::edge_order());
        }
        insert_in_order(&mut edges, edge, &EdgeOrder);
        let record = StoredGraphEdges { node_id: from, session_id: None, edges };
        let ghost without = adjacency@;
        proof {
            table::removed_is_gone(before, from);
            table::stored_is_found(without, from, record@);
            sorted_with_one_more(known, added);
            assert(added == row_edge(row@));
        }
        adjacency.insert(from, record);
        proof {
            let grown = all.take(index + 1);
            assert forall|id: AbstractNodeId|
                #![trigger table::lookup(adjacency@, id)]
                table::lookup(adjacency@, id) == row_record(grown, id) by {
                if id == from {
                    assert(outgoing(grown, id) == known.push(added));
                } else {
                    assert(table::lookup(adjacency@, id) == table::lookup(without, id));
                    assert(table::lookup(without, id) == table::lookup(before, id));
                    assert(outgoing(grown, id) == outgoing(all.take(index as int), id));
                }
            }
        }
        index = index + 1;
    }
    assert(all.take(all.len() as int) =~= all);
    Ok(adjacency)
}

/// The first fault among some rows is the first fault of all.
proof fn faults_stay(rows: Seq<Row>, count: int)
    requires
        0 <= count <= rows.len(),
        first_fault(rows.take(count)) is Some,
    ensures
        first_fault(rows) == first_fault(rows.take(count)),
    decreases rows.len() - count,
{
    if count < rows.len() {
        assert(rows.take(count + 1).drop_last() =~= rows.take(count));
        faults_stay(rows, count + 1);
    } else {
        assert(rows.take(count) =~= rows);
    }
}

/// Reads the stored identifier of a raw node.
pub fn stored_raw_id(text: &str) -> (result: Result<RawNodeId, EngineError>)
    ensures
        match ids::parsed_uuid(text@) {
            Ok(bits) => result is Ok && result->Ok_0 == RawNodeId(Uuid { bits }),
            Err(reason) => result is Err && error::is_storage(
                result->Err_0,
                "invalid raw id stored in sqlite: "@ + reason,
            ),
        },
{
    match RawNodeId::parse(text) {
        Ok(id) => Ok(id),
        Err(invalid) => Err(
            EngineError::Storage(
                "invalid raw id stored in sqlite: ".to_string().concat(invalid.reason.as_str()),
            ),
        ),
    }
}

/// Reads the stored identifier of a session.
pub fn stored_session_id(text: &str) -> (result: Result<SessionId, EngineError>)
    ensures
        match ids::parsed_uuid(text@) {
            Ok(bits) => result is Ok && result->Ok_0 == SessionId(Uuid { bits }),
            Err(reason) => result is Err && error::is_storage(
                result->Err_0,
                "invalid session id stored in sqlite: "@ + reason,
            ),
        },
{
    match SessionId::parse(text) {
        Ok(id) => Ok(id),
        Err(invalid) => Err(
            EngineError::Storage(
                "invalid session id stored in sqlite: ".to_string().concat(
                    invalid.reason.as_str(),
                ),
            ),
        ),
    }
}

/// Reads the stored identifier of an abstract node.
pub fn stored_abstract_id(text: &str) -> (result: Result<AbstractNodeId, EngineError>)
    ensures
        match ids::parsed_uuid(text@) {
            Ok(bits) => result is Ok && result->Ok_0 == AbstractNodeId(Uuid { bits }),
            Err(reason) => result is Err && error::is_storage(
                result->Err_0,
                "invalid abstract id stored in sqlite: "@ + reason,
            ),
        },
{
    match AbstractNodeId::parse(text) {
        Ok(id) => Ok(id),
        Err(invalid) => Err(
            EngineError::Storage(
                "invalid abstract id stored in sqlite: ".to_string().concat(
                    invalid.reason.as_str(),
                ),
            ),
        ),
    }
}

/// Gathered rows lose no edge: a node has a record exactly where some row leaves
/// it, and the record holds the edge of each such row, sorted. Rows are refused
/// exactly where an identifier in one of them cannot be read.
pub proof fn gathered_rows_lose_no_edge(rows: Seq<Row>, id: AbstractNodeId)
    ensures
        ({
            let leaving = rows.filter(
                |row: Row|
                    ids::parsed_uuid(row.from_id) == Ok::<u128, Seq<char>>(id.0.bits),
            );
            match row_record(rows, id) {
                None => leaving.len() == 0,
                Some(record) => {
                    &&& leaving.len() > 0
                    &&& record.node_id == id
                    &&& record.edges.to_multiset() == leaving.map_values(
                        |row: Row|
                            Edge {
                                to: AbstractNodeId(
                                    Uuid { bits: ids::parsed_uuid(row.to_id)->Ok_0 },
                                ),
                                predicate: row.predicate,
                            },
                    ).to_multiset()
                    &&& order::is_ordered(
                        |left: Edge, right: Edge|
                            text::text_before(left.predicate, right.predicate) || (left.predicate
                                == right.predicate && left.to.0.bits < right.to.0.bits),
                        record.edges,
                    )
                },
            }
        }),
        first_fault(rows) is None <==> forall|i: int|
            0 <= i < rows.len() ==> ids::parsed_uuid((#[trigger] rows[i]).from_id) is Ok
                && ids::parsed_uuid(rows[i].to_id) is Ok,
{
    outgoing_are_filtered(rows, id);
    order::ordered_keeps_values(graph::edge_order(), outgoing(rows, id));
    graph::edge_order_is_total();
    assert(order::all_are(|edge: Edge| true, outgoing(rows, id)));
    order::ordered_is_ordered(graph::edge_order(), |edge: Edge| true, outgoing(rows, id));
    assert(graph::edge_order() =~= (|left: Edge, right: Edge|
        text::text_before(left.predicate, right.predicate) || (left.predicate == right.predicate
            && left.to.0.bits < right.to.0.bits)));
    faults_are_found(rows);
}

proof fn outgoing_are_filtered(rows: Seq<Row>, id: AbstractNodeId)
    ensures
        outgoing(rows, id) == rows.filter(
            |row: Row| ids::parsed_uuid(row.from_id) == Ok::<u128, Seq<char>>(id.0.bits),
        ).map_values(
            |row: Row|
                Edge {
                    to: AbstractNodeId(Uuid { bits: ids::parsed_uuid(row.to_id)->Ok_0 }),
                    predicate: row.predicate,
                },
        ),
    decreases rows.len(),
{
    reveal(Seq::filter);
    if rows.len() > 0 {
        outgoing_are_filtered(rows.drop_last(), id);
    }
    assert(outgoing(rows, id) =~= rows.filter(
        |row: Row| ids::parsed_uuid(row.from_id) == Ok::<u128, Seq<char>>(id.0.bits),
    ).map_values(
        |row: Row|
            Edge {
                to: AbstractNodeId(Uuid { bits: ids::parsed_uuid(row.to_id)->Ok_0 }),
                predicate: row.predicate,
            },
    ));
}

proof fn faults_are_found(rows: Seq<Row>)
    ensures
        first_fault(rows) is None <==> forall|i: int|
            0 <= i < rows.len() ==> ids::parsed_uuid((#[trigger] rows[i]).from_id) is Ok
                && ids::parsed_uuid(rows[i].to_id) is Ok,
    decreases rows.len(),
{
    if rows.len() > 0 {
        let rest = rows.drop_last();
        faults_are_found(rest);
        assert(rows[rows.len() - 1] == rows.last());
        if first_fault(rows) is None {
            assert forall|i: int| 0 <= i < rows.len() implies ids::parsed_uuid(
                (#[trigger] rows[i]).from_id,
            ) is Ok && ids::parsed_uuid(rows[i].to_id) is Ok by {
                if i < rest.len() {
                    assert(rest[i] == rows[i]);
                }
            }
        } else if first_fault(rest) is Some {
            let i = choose|i: int|
                0 <= i < rest.len() && !(ids::parsed_uuid((#[trigger] rest[i]).from_id) is Ok
                    && ids::parsed_uuid(rest[i].to_id) is Ok);
            assert(rows[i] == rest[i]);
        }
    }
}

} // verus!
