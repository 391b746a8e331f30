//! Nodes and edges of the knowledge graph.

use vstd::prelude::*;
use crate::ordered::Duplicate;
use crate::sorted_map::Metadata;

verus! {

/// What a node holds, as mathematical values.
pub struct NodeView {
    pub id: u64,
    pub embedding: Seq<u32>,
    pub data: Seq<char>,
    pub metadata: Map<Seq<char>, Seq<char>>,
}

/// A stored item: an embedding, its text and an open metadata map.
///
/// `embedding` holds single-precision numbers by bit pattern.
#[derive(Debug, PartialEq, Eq)]
pub struct Node {
    pub id: u64,
    pub embedding: Vec<u32>,
    pub data: String,
    pub metadata: Metadata,
}

impl View for Node {
    type V = NodeView;

    open spec fn view(&self) -> NodeView {
        NodeView {
            id: self.id,
            embedding: self.embedding@,
            data: self.data@,
            metadata: self.metadata@,
        }
    }
}

impl Node {
    /// A node with the given contents and no metadata.
    pub fn new(id: u64, embedding: Vec<u32>, data: String) -> (n: Self)
        ensures
            n@ == (NodeView {
                id,
                embedding: embedding@,
                data: data@,
                metadata: Map::<Seq<char>, Seq<char>>::empty(),
            }),
    {
        Node { id, embedding, data, metadata: Metadata::new() }
    }
}

impl Duplicate for Node {
    fn duplicate(&self) -> (r: Self) {
        Node {
            id: self.id,
            embedding: self.embedding.duplicate(),
            data: self.data.clone(),
            metadata: self.metadata.duplicate(),
        }
    }
}

impl Clone for Node {
    fn clone(&self) -> (r: Self)
        ensures
            r@ == self@,
    {
        self.duplicate()
    }
}

/// What an edge holds, as mathematical values.
pub struct EdgeView {
    pub source: u64,
    pub target: u64,
    pub relation: Seq<char>,
    pub weight: u32,
    pub metadata: Map<Seq<char>, Seq<char>>,
}

/// A directed, labelled, weighted edge. Its logical key is
/// `(source, target, relation)`; `weight` is a single-precision number by bit
/// pattern.
#[derive(Debug, PartialEq, Eq)]
pub struct Edge {
    pub source: u64,
    pub target: u64,
    pub relation: String,
    pub weight: u32,
    pub metadata: Metadata,
}

impl View for Edge {
    type V = EdgeView;

    open spec fn view(&self) -> EdgeView {
        EdgeView {
            source: self.source,
            target: self.target,
            relation: self.relation@,
            weight: self.weight,
            metadata: self.metadata@,
        }
    }
}

impl Edge {
    /// An edge with the given key and weight and no metadata.
    pub fn new(source: u64, target: u64, relation: &str, weight: u32) -> (e: Self)
        ensures
            e@ == (EdgeView {
                source,
                target,
                relation: relation@,
                weight,
                metadata: Map::<Seq<char>, Seq<char>>::empty(),
            }),
    {
        Edge { source, target, relation: relation.to_owned(), weight, metadata: Metadata::new() }
    }
}

impl Duplicate for Edge {
    fn duplicate(&self) -> (r: Self) {
        Edge {
            source: self.source,
            target: self.target,
            relation: self.relation.clone(),
            weight: self.weight,
            metadata: self.metadata.duplicate(),
        }
    }
}

impl Clone for Edge {
    fn clone(&self) -> (r: Self)
        ensures
            r@ == self@,
    {
        self.duplicate()
    }
}

} // verus!
