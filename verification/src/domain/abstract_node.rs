//! Abstract nodes: what has been distilled from raw nodes.
use vstd::prelude::*;

use crate::domain::raw_node::HALF_BITS;
use crate::domain::relation;
use crate::domain::relation::{clone_relations, Link, Relation};
use crate::float32::Float32;
use crate::ids;
use crate::ids::{AbstractNodeId, RawNodeId, SessionId};
use crate::model::embedding;
use crate::model::embedding::EmbeddingRef;
use crate::model::runner::clone_texts;
use crate::text;
use crate::text::IntoText;
use crate::time::{Timestamp, MAX_SECONDS, NANOS_PER_SECOND};

verus! {

/// An entity that relations speak of.
#[derive(Debug, PartialEq, Eq)]
pub struct EntityRef {
    pub id: String,
    pub label: String,
}

impl Clone for EntityRef {
    fn clone(&self) -> (result: Self)
        ensures
            result == *self,
    {
        EntityRef { id: self.id.clone(), label: self.label.clone() }
    }
}

/// Entities and the relations between them.
#[derive(Debug, PartialEq, Eq)]
pub struct GraphFragment {
    pub entities: Vec<EntityRef>,
    pub relations: Vec<Relation>,
}

impl Default for GraphFragment {
    fn default() -> (fragment: Self)
        ensures
            fragment.entities@.len() == 0,
            fragment.relations@.len() == 0,
    {
        GraphFragment { entities: Vec::new(), relations: Vec::new() }
    }
}

impl Clone for GraphFragment {
    fn clone(&self) -> (result: Self)
        ensures
            result.entities@ == self.entities@,
            relation::links(result.relations@) == relation::links(self.relations@),
    {
        let mut entities: Vec<EntityRef> = Vec::new();
        let mut index: usize = 0;
        while index < self.entities.len()
            invariant
                index <= self.entities.len(),
                entities@ == self.entities@.take(index as int),
            decreases self.entities.len() - index,
        {
            entities.push(self.entities[index].clone());
            assert(self.entities@.take(index + 1) =~= self.entities@.take(index as int).push(
                self.entities@[index as int],
            ));
            index = index + 1;
        }
        assert(self.entities@.take(self.entities@.len() as int) =~= self.entities@);
        GraphFragment { entities, relations: clone_relations(self.relations.as_slice()) }
    }
}

/// The nodes that an abstract node rests on.
#[derive(Debug, PartialEq, Eq)]
pub struct References {
    pub abstract_node_ids: Vec<AbstractNodeId>,
    pub raw_node_ids: Vec<RawNodeId>,
}

impl Default for References {
    fn default() -> (references: Self)
        ensures
            references.abstract_node_ids@.len() == 0,
            references.raw_node_ids@.len() == 0,
    {
        References { abstract_node_ids: Vec::new(), raw_node_ids: Vec::new() }
    }
}

impl Clone for References {
    fn clone(&self) -> (result: Self)
        ensures
            result.abstract_node_ids@ == self.abstract_node_ids@,
            result.raw_node_ids@ == self.raw_node_ids@,
    {
        let result = References {
            abstract_node_ids: self.abstract_node_ids.clone(),
            raw_node_ids: self.raw_node_ids.clone(),
        };
        assert(result.abstract_node_ids@ =~= self.abstract_node_ids@);
        assert(result.raw_node_ids@ =~= self.raw_node_ids@);
        result
    }
}

/// How abstract a node is, how sure and how much it matters.
#[derive(Debug, PartialEq, Eq)]
pub struct AbstractNodeMetadata {
    pub abstraction_level: u8,
    pub confidence: Float32,
    pub importance: Float32,
    pub tags: Vec<String>,
}

impl Default for AbstractNodeMetadata {
    fn default() -> (metadata: Self)
        ensures
            metadata.abstraction_level == 1,
            metadata.confidence.bits == HALF_BITS,
            metadata.importance.bits == HALF_BITS,
            metadata.tags@.len() == 0,
    {
        AbstractNodeMetadata {
            abstraction_level: 1,
            confidence: Float32::from_bits(HALF_BITS),
            importance: Float32::from_bits(HALF_BITS),
            tags: Vec::new(),
        }
    }
}

impl Clone for AbstractNodeMetadata {
    fn clone(&self) -> (result: Self)
        ensures
            result.abstraction_level == self.abstraction_level,
            result.confidence == self.confidence,
            result.importance == self.importance,
            result.tags@ == self.tags@,
    {
        AbstractNodeMetadata {
            abstraction_level: self.abstraction_level,
            confidence: self.confidence,
            importance: self.importance,
            tags: clone_texts(self.tags.as_slice()),
        }
    }
}

/// A distilled statement with its graph and its sources.
#[derive(Debug, PartialEq, Eq)]
pub struct AbstractNode {
    pub id: AbstractNodeId,
    pub operation_key: Option<String>,
    /// The session whose runs may read the node.
    pub session_id: Option<SessionId>,
    pub timestamp: Timestamp,
    pub title: String,
    pub summary: String,
    pub embedding_ref: EmbeddingRef,
    pub graph: GraphFragment,
    pub references: References,
    pub metadata: AbstractNodeMetadata,
    pub version: u32,
}

/// An abstract node as a mathematical value.
#[verifier::ext_equal]
pub struct Abstract {
    pub id: AbstractNodeId,
    pub operation_key: Option<Seq<char>>,
    pub session_id: Option<SessionId>,
    pub timestamp: Timestamp,
    pub title: Seq<char>,
    pub summary: Seq<char>,
    pub embedding_ref: Seq<char>,
    pub entities: Seq<EntityRef>,
    pub links: Seq<Link>,
    pub abstract_references: Seq<AbstractNodeId>,
    pub raw_references: Seq<RawNodeId>,
    pub abstraction_level: u8,
    pub confidence: Float32,
    pub importance: Float32,
    pub tags: Seq<Seq<char>>,
    pub version: u32,
}

impl View for AbstractNode {
    type V = Abstract;

    open spec fn view(&self) -> Abstract {
        Abstract {
            id: self.id,
            operation_key: text::opt_text(self.operation_key),
            session_id: self.session_id,
            timestamp: self.timestamp,
            title: self.title@,
            summary: self.summary@,
            embedding_ref: self.embedding_ref.0@,
            entities: self.graph.entities@,
            links: relation::links(self.graph.relations@),
            abstract_references: self.references.abstract_node_ids@,
            raw_references: self.references.raw_node_ids@,
            abstraction_level: self.metadata.abstraction_level,
            confidence: self.metadata.confidence,
            importance: self.metadata.importance,
            tags: text::texts(self.metadata.tags@),
            version: self.version,
        }
    }
}

impl Clone for AbstractNode {
    fn clone(&self) -> (result: Self)
        ensures
            result@ == self@,
    {
        AbstractNode {
            id: self.id,
            operation_key: self.operation_key.clone(),
            session_id: self.session_id,
            timestamp: self.timestamp,
            title: self.title.clone(),
            summary: self.summary.clone(),
            embedding_ref: self.embedding_ref.clone(),
            graph: self.graph.clone(),
            references: self.references.clone(),
            metadata: self.metadata.clone(),
            version: self.version,
        }
    }
}

impl Abstract {
    /// A node as it is first recorded.
    pub open spec fn fresh(
        id: AbstractNodeId,
        timestamp: Timestamp,
        title: Seq<char>,
        summary: Seq<char>,
        references: References,
        graph: GraphFragment,
        metadata: AbstractNodeMetadata,
    ) -> Abstract {
        Abstract {
            id,
            operation_key: None,
            session_id: None,
            timestamp,
            title,
            summary,
            embedding_ref: embedding::embedding_ref_text("abstract"@, ids::hyphenated(id.0.bits)),
            entities: graph.entities@,
            links: relation::links(graph.relations@),
            abstract_references: references.abstract_node_ids@,
            raw_references: references.raw_node_ids@,
            abstraction_level: metadata.abstraction_level,
            confidence: metadata.confidence,
            importance: metadata.importance,
            tags: text::texts(metadata.tags@),
            version: 1,
        }
    }

    /// The node under an operation key.
    pub open spec fn keyed(self, key: Seq<char>) -> Abstract {
        Abstract { operation_key: Some(key), ..self }
    }

    /// How the node reads in a prompt.
    pub open spec fn context(self) -> Seq<char> {
        self.title + ": "@ + self.summary
    }
}

impl AbstractNode {
    /// A node with the given identifier and instant, as it is first recorded.
    pub fn recorded(
        id: AbstractNodeId,
        timestamp: Timestamp,
        title: String,
        summary: String,
        references: References,
        graph: GraphFragment,
        metadata: AbstractNodeMetadata,
    ) -> (node: Self)
        ensures
            node@ == Abstract::fresh(id, timestamp, title@, summary@, references, graph, metadata),
    {
        AbstractNode {
            id,
            operation_key: None,
            session_id: None,
            timestamp,
            title,
            summary,
            embedding_ref: EmbeddingRef::for_node("abstract", id.to_string()),
            graph,
            references,
            metadata,
            version: 1,
        }
    }

    /// A node that is recorded now, under a new identifier.
    pub fn new<T: IntoText, S: IntoText>(
        title: T,
        summary: S,
        references: References,
        graph: GraphFragment,
        metadata: AbstractNodeMetadata,
    ) -> (node: Self)
        ensures
            node@ == Abstract::fresh(
                node.id,
                node.timestamp,
                title.chars(),
                summary.chars(),
                references,
                graph,
                metadata,
            ),
            0 <= node.timestamp.secs <= MAX_SECONDS,
            node.timestamp.nanos < NANOS_PER_SECOND,
    {
        AbstractNode::recorded(
            AbstractNodeId::new(),
            Timestamp::now(),
            title.into_text(),
            summary.into_text(),
            references,
            graph,
            metadata,
        )
    }

    /// How the node reads in a prompt.
    pub fn context_text(&self) -> (text: String)
        ensures
            text@ == self@.context(),
    {
        self.title.clone().concat(": ").concat(self.summary.as_str())
    }

    /// The node under an operation key.
    pub fn with_operation_key<K: IntoText>(self, operation_key: K) -> (node: Self)
        ensures
            node@ == self@.keyed(operation_key.chars()),
    {
        let mut node = self;
        node.operation_key = Some(operation_key.into_text());
        node
    }
}

/// The nodes as mathematical values, in order.
pub open spec fn abstracts(nodes: Seq<AbstractNode>) -> Seq<Abstract> {
    nodes.map_values(|node: AbstractNode| node@)
}

/// A new node says what it was made of, belongs to no session and has no
/// operation key until it is given one, which changes nothing else.
pub proof fn new_abstract_nodes_say_what_they_were_made_of(
    id: AbstractNodeId,
    timestamp: Timestamp,
    title: Seq<char>,
    summary: Seq<char>,
    references: References,
    graph: GraphFragment,
    metadata: AbstractNodeMetadata,
    key: Seq<char>,
)
    ensures
        ({
            let node = Abstract::fresh(id, timestamp, title, summary, references, graph, metadata);
            &&& node.id == id && node.timestamp == timestamp
            &&& node.title == title && node.summary == summary
            &&& node.abstract_references == references.abstract_node_ids@
            &&& node.raw_references == references.raw_node_ids@
            &&& node.entities == graph.entities@
            &&& node.links == relation::links(graph.relations@)
            &&& node.abstraction_level == metadata.abstraction_level
            &&& node.confidence == metadata.confidence && node.importance == metadata.importance
            &&& node.tags == text::texts(metadata.tags@)
            &&& node.session_id is None && node.operation_key is None && node.version == 1
            &&& node.embedding_ref == "abstract:"@ + ids::hyphenated(id.0.bits)
            &&& node.keyed(key) == (Abstract { operation_key: Some(key), ..node })
            &&& node.context() == title + ": "@ + summary
        }),
{
    reveal_strlit("abstract:");
    reveal_strlit("abstract");
    reveal_strlit(":");
    let node = Abstract::fresh(id, timestamp, title, summary, references, graph, metadata);
    assert(node.embedding_ref =~= "abstract:"@ + ids::hyphenated(id.0.bits));
}

/// Nodes that are the same as mathematical values are the same in all that they
/// hold.
pub proof fn abstract_views_leave_nothing_out(left: AbstractNode, right: AbstractNode)
    requires
        left@ == right@,
    ensures
        left.id == right.id,
        text::opt_text(left.operation_key) == text::opt_text(right.operation_key),
        left.session_id == right.session_id,
        left.timestamp == right.timestamp,
        left.title@ == right.title@,
        left.summary@ == right.summary@,
        left.embedding_ref.0@ == right.embedding_ref.0@,
        left.graph.entities@ == right.graph.entities@,
        relation::links(left.graph.relations@) == relation::links(right.graph.relations@),
        left.references.abstract_node_ids@ == right.references.abstract_node_ids@,
        left.references.raw_node_ids@ == right.references.raw_node_ids@,
        left.metadata.abstraction_level == right.metadata.abstraction_level,
        left.metadata.confidence == right.metadata.confidence,
        left.metadata.importance == right.metadata.importance,
        text::texts(left.metadata.tags@) == text::texts(right.metadata.tags@),
        left.version == right.version,
{
}

} // verus!
