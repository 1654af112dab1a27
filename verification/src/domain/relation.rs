//! Relations between entities.
use vstd::prelude::*;

use crate::float32::Float32;
use crate::ids::RawNodeId;

verus! {

/// A weighted statement about two entities, with the raw nodes it rests on.
#[derive(Debug, PartialEq, Eq)]
pub struct Relation {
    pub subject: String,
    pub predicate: String,
    pub object: String,
    pub weight: Float32,
    pub provenance_raw_node_ids: Vec<RawNodeId>,
}

/// A relation as a mathematical value.
#[verifier::ext_equal]
pub struct Link {
    pub subject: Seq<char>,
    pub predicate: Seq<char>,
    pub object: Seq<char>,
    pub weight: Float32,
    pub provenance: Seq<RawNodeId>,
}

impl View for Relation {
    type V = Link;

    open spec fn view(&self) -> Link {
        Link {
            subject: self.subject@,
            predicate: self.predicate@,
            object: self.object@,
            weight: self.weight,
            provenance: self.provenance_raw_node_ids@,
        }
    }
}

impl Clone for Relation {
    fn clone(&self) -> (result: Self)
        ensures
            result@ == self@,
    {
        let provenance = self.provenance_raw_node_ids.clone();
        assert(provenance@ =~= self.provenance_raw_node_ids@);
        Relation {
            subject: self.subject.clone(),
            predicate: self.predicate.clone(),
            object: self.object.clone(),
            weight: self.weight,
            provenance_raw_node_ids: provenance,
        }
    }
}

/// The relations as mathematical values, in order.
pub open spec fn links(relations: Seq<Relation>) -> Seq<Link> {
    relations.map_values(|relation: Relation| relation@)
}

/// Copies a list of relations.
pub fn clone_relations(relations: &[Relation]) -> (result: Vec<Relation>)
    ensures
        links(result@) == links(relations@),
{
    let mut result: Vec<Relation> = Vec::new();
    let mut index: usize = 0;
    while index < relations.len()
        invariant
            index <= relations.len(),
            links(result@) == links(relations@.take(index as int)),
        decreases relations.len() - index,
    {
        let ghost before = links(result@);
        let copy = relations[index].clone();
        result.push(copy);
        proof {
            assert(links(result@) =~= before.push(copy@));
            assert(links(relations@.take(index + 1)) =~= before.push(relations@[index as int]@));
        }
        index = index + 1;
    }
    assert(relations@.take(relations@.len() as int) =~= relations@);
    result
}

} // verus!
