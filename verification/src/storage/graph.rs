//! Edges between abstract nodes and walks along them.
use vstd::prelude::*;

use crate::domain::abstract_node::{Abstract, AbstractNode};
use crate::domain::relation;
use crate::domain::relation::Link;
use crate::ids;
use crate::ids::{AbstractNodeId, Uuid};
use crate::order;
use crate::order::{dedup, sort_by, Order};
use crate::table::Key;
use crate::text;
use crate::text::is_text_before;

verus! {

/// Predicate of the edges that come from references.
pub const REFERENCE_PREDICATE: &'static str = "reference";

/// An edge to an abstract node.
#[derive(Debug, PartialEq, Eq)]
pub struct GraphEdge {
    pub to: AbstractNodeId,
    pub predicate: String,
}

/// An edge as a mathematical value.
#[verifier::ext_equal]
pub struct Edge {
    pub to: AbstractNodeId,
    pub predicate: Seq<char>,
}

impl View for GraphEdge {
    type V = Edge;

    open spec fn view(&self) -> Edge {
        Edge { to: self.to, predicate: self.predicate@ }
    }
}

impl Key for GraphEdge {
    fn same_key(&self, other: &GraphEdge) -> (result: bool) {
        let result = self.to == other.to && self.predicate == other.predicate;
        assert(result == (self@ =~= other@));
        result
    }
}

impl Clone for GraphEdge {
    fn clone(&self) -> (result: Self)
        ensures
            result@ == self@,
    {
        GraphEdge { to: self.to, predicate: self.predicate.clone() }
    }
}

/// Whether an edge goes before another: by predicate, then by target.
pub open spec fn edge_before(left: Edge, right: Edge) -> bool {
    text::text_before(left.predicate, right.predicate) || (left.predicate == right.predicate
        && left.to.0.bits < right.to.0.bits)
}

/// The order of edges as a function.
pub open spec fn edge_order() -> spec_fn(Edge, Edge) -> bool {
    |left: Edge, right: Edge| edge_before(left, right)
}

/// Orders edges by predicate, then by target.
pub struct EdgeOrder;

impl Order<GraphEdge> for EdgeOrder {
    open spec fn before(&self, left: Edge, right: Edge) -> bool {
        edge_before(left, right)
    }

    fn is_before(&self, left: &GraphEdge, right: &GraphEdge) -> (result: bool) {
        if is_text_before(left.predicate.as_str(), right.predicate.as_str()) {
            return true;
        }
        left.predicate == right.predicate && left.to.0.bits < right.to.0.bits
    }
}

/// The edges as mathematical values, in order.
pub open spec fn edges(items: Seq<GraphEdge>) -> Seq<Edge> {
    order::views(items)
}

/// The edges that references stand for.
pub open spec fn reference_edges(targets: Seq<AbstractNodeId>) -> Seq<Edge> {
    targets.map_values(|to: AbstractNodeId| Edge { to, predicate: REFERENCE_PREDICATE@ })
}

/// The edges that relations stand for: those of the relations whose object is
/// the notation of an abstract node.
pub open spec fn relation_edges(links: Seq<Link>) -> Seq<Edge>
    decreases links.len(),
{
    if links.len() == 0 {
        Seq::empty()
    } else {
        let rest = relation_edges(links.drop_last());
        match ids::parsed_uuid(links.last().object) {
            Ok(bits) => rest.push(
                Edge { to: AbstractNodeId(Uuid { bits }), predicate: links.last().predicate },
            ),
            Err(_) => rest,
        }
    }
}

/// The edges of a node: those of its references and relations, each once, in
/// order.
pub open spec fn node_edges(node: Abstract) -> Seq<Edge> {
    order::deduped(
        order::ordered(
            edge_order(),
            reference_edges(node.abstract_references) + relation_edges(node.links),
        ),
    )
}

/// Collects the edges of a node.
pub fn edges_for_abstract(node: &AbstractNode) -> (result: Vec<GraphEdge>)
    ensures
        edges(result@) == node_edges(node@),
{
    let ghost targets = node.references.abstract_node_ids@;
    let ghost links = relation::links(node.graph.relations@);
    let mut found: Vec<GraphEdge> = Vec::new();
    let mut index: usize = 0;
    assert(edges(found@) =~= reference_edges(targets.take(0)));
    while index < node.references.abstract_node_ids.len()
        invariant
            index <= node.references.abstract_node_ids.len(),
            targets == node.references.abstract_node_ids@,
            edges(found@) == reference_edges(targets.take(index as int)),
        decreases node.references.abstract_node_ids.len() - index,
    {
        let ghost before = edges(found@);
        let edge = GraphEdge {
            to: node.references.abstract_node_ids[index],
            predicate: REFERENCE_PREDICATE.to_string(),
        };
        found.push(edge);
        proof {
            assert(edges(found@) =~= before.push(edge@));
            assert(reference_edges(targets.take(index + 1)) =~= before.push(edge@));
        }
        index = index + 1;
    }
    let ghost referenced = edges(found@);
    assert(targets.take(targets.len() as int) =~= targets);
    index = 0;
    assert(referenced + relation_edges(links.take(0)) =~= referenced);
    while index < node.graph.relations.len()
        invariant
            index <= node.graph.relations.len(),
            links == relation::links(node.graph.relations@),
            edges(found@) == referenced + relation_edges(links.take(index as int)),
        decreases node.graph.relations.len() - index,
    {
        let ghost before = edges(found@);
        let link = &node.graph.relations[index];
        proof {
            assert(links.take(index + 1).drop_last() =~= links.take(index as int));
            assert(links.take(index + 1).last() == link@);
        }
        match AbstractNodeId::parse(link.object.as_str()) {
            Ok(to) => {
                let edge = GraphEdge { to, predicate: link.predicate.clone() };
                found.push(edge);
                proof {
                    assert(edges(found@) =~= before.push(edge@));
                    assert(before.push(edge@) =~= referenced + relation_edges(
                        links.take(index as int),
                    ).push(edge@));
                }
            },
            Err(_) => {},
        }
        index = index + 1;
    }
    assert(links.take(links.len() as int) =~= links);
    assert(order::order_of::<GraphEdge, EdgeOrder>(&EdgeOrder) =~= edge_order());
    let sorted = sort_by(found, &EdgeOrder);
    dedup(sorted)
}

/// The order of edges is strict and tells any two edges apart.
pub proof fn edge_order_is_total()
    ensures
        order::is_weak_order(edge_order(), |edge: Edge| true),
        forall|a: Edge, b: Edge| !#[trigger] edge_before(a, b) && !edge_before(b, a) ==> a == b,
{
    let before = edge_order();
    assert forall|a: Edge, b: Edge| #[trigger] before(a, b) implies !before(b, a) by {
        text::text_order_is_total(a.predicate, b.predicate);
        text::text_order_is_irreflexive(a.predicate);
    }
    assert forall|a: Edge, b: Edge, c: Edge| #[trigger] before(a, b) && #[trigger] before(
        b,
        c,
    ) implies before(a, c) by {
        edges_go_on(a, b, c);
    }
    assert forall|a: Edge, b: Edge, c: Edge| !#[trigger] before(a, b) && !#[trigger] before(
        b,
        c,
    ) implies !before(a, c) by {
        edges_are_apart(a, b);
        edges_are_apart(b, c);
        if before(b, a) && before(c, b) {
            edges_go_on(c, b, a);
            assert(before(c, a));
        }
        text::text_order_is_total(a.predicate, c.predicate);
        text::text_order_is_irreflexive(a.predicate);
    }
    assert forall|a: Edge, b: Edge| !#[trigger] edge_before(a, b) && !edge_before(
        b,
        a,
    ) implies a == b by {
        edges_are_apart(a, b);
    }
}

proof fn edges_go_on(a: Edge, b: Edge, c: Edge)
    requires
        edge_before(a, b),
        edge_before(b, c),
    ensures
        edge_before(a, c),
{
    if text::text_before(a.predicate, b.predicate) && text::text_before(b.predicate, c.predicate) {
        text::text_order_is_transitive(a.predicate, b.predicate, c.predicate);
    }
}

proof fn edges_are_apart(a: Edge, b: Edge)
    ensures
        edge_before(a, b) || edge_before(b, a) || a == b,
{
    text::text_order_is_total(a.predicate, b.predicate);
}

/// A node has each edge once, in order, and exactly the edges that its
/// references and relations stand for.
pub proof fn edges_are_strict(node: Abstract)
    ensures
        order::is_strictly_ordered(edge_order(), node_edges(node)),
        forall|edge: Edge| #[trigger]
            node_edges(node).contains(edge) <==> (reference_edges(
                node.abstract_references,
            ) + relation_edges(node.links)).contains(edge),
{
    let all = reference_edges(node.abstract_references) + relation_edges(node.links);
    let before = edge_order();
    let sorted = order::ordered(before, all);
    edge_order_is_total();
    assert(order::all_are(|edge: Edge| true, all));
    order::ordered_is_ordered(before, |edge: Edge| true, all);
    order::ordered_keeps_values(before, all);
    order::sorted_unique(before, sorted);
    assert forall|edge: Edge| #[trigger] node_edges(node).contains(edge) <==> all.contains(edge) by {
        broadcast use vstd::seq_lib::group_to_multiset_ensures;

        assert(sorted.contains(edge) <==> sorted.to_multiset().count(edge) > 0);
        assert(all.contains(edge) <==> all.to_multiset().count(edge) > 0);
    }
}

/// A node has an edge for each abstract node that it refers to and for each
/// relation whose object is the identifier of a node, under its predicate, and no
/// other edge.
pub proof fn nodes_have_all_their_edges(node: Abstract, edge: Edge)
    ensures
        node_edges(node).contains(edge) <==> (edge.predicate == "reference"@
            && node.abstract_references.contains(edge.to)) || exists|k: int|
            0 <= k < node.links.len() && ids::parsed_uuid((#[trigger] node.links[k]).object)
                == Ok::<u128, Seq<char>>(edge.to.0.bits) && node.links[k].predicate
                == edge.predicate,
{
    edges_are_strict(node);
    let first = reference_edges(node.abstract_references);
    let second = relation_edges(node.links);
    let all = first + second;
    relations_have_their_edges(node.links, edge);
    if all.contains(edge) {
        let k = choose|k: int| 0 <= k < all.len() && all[k] == edge;
        if k < first.len() {
            assert(node.abstract_references[k] == edge.to);
        } else {
            assert(second[k - first.len()] == edge);
        }
    }
    if edge.predicate == "reference"@ && node.abstract_references.contains(edge.to) {
        let k = choose|k: int|
            0 <= k < node.abstract_references.len() && node.abstract_references[k] == edge.to;
        assert(first[k] == edge);
        assert(all[k] == edge);
    }
    if second.contains(edge) {
        let k = choose|k: int| 0 <= k < second.len() && second[k] == edge;
        assert(all[first.len() + k] == edge);
    }
}

proof fn relations_have_their_edges(links: Seq<Link>, edge: Edge)
    ensures
        relation_edges(links).contains(edge) <==> exists|k: int|
            0 <= k < links.len() && ids::parsed_uuid((#[trigger] links[k]).object) == Ok::<
                u128,
                Seq<char>,
            >(edge.to.0.bits) && links[k].predicate == edge.predicate,
    decreases links.len(),
{
    if links.len() > 0 {
        let rest = links.drop_last();
        let last = links.len() - 1;
        relations_have_their_edges(rest, edge);
        let earlier = relation_edges(rest);
        let all = relation_edges(links);
        if earlier.contains(edge) {
            let k = choose|k: int| 0 <= k < earlier.len() && earlier[k] == edge;
            assert(all[k] == edge);
            let m = choose|m: int|
                0 <= m < rest.len() && ids::parsed_uuid((#[trigger] rest[m]).object) == Ok::<
                    u128,
                    Seq<char>,
                >(edge.to.0.bits) && rest[m].predicate == edge.predicate;
            assert(links[m] == rest[m]);
        }
        if ids::parsed_uuid(links[last].object) == Ok::<u128, Seq<char>>(edge.to.0.bits)
            && links[last].predicate == edge.predicate {
            assert(all[all.len() - 1] == edge);
        }
        if all.contains(edge) && !earlier.contains(edge) {
            let k = choose|k: int| 0 <= k < all.len() && all[k] == edge;
            if k < earlier.len() {
                assert(earlier[k] == edge);
            } else {
                assert(ids::parsed_uuid(links[last].object) == Ok::<u128, Seq<char>>(
                    edge.to.0.bits,
                ));
            }
        }
        if exists|k: int|
            0 <= k < links.len() && ids::parsed_uuid((#[trigger] links[k]).object) == Ok::<
                u128,
                Seq<char>,
            >(edge.to.0.bits) && links[k].predicate == edge.predicate {
            let k = choose|k: int|
                0 <= k < links.len() && ids::parsed_uuid((#[trigger] links[k]).object) == Ok::<
                    u128,
                    Seq<char>,
                >(edge.to.0.bits) && links[k].predicate == edge.predicate;
            if k < rest.len() {
                assert(rest[k] == links[k]);
            }
        }
    }
}

} // verus!
