//! The joint index: vectors, graph and an alias table.

use vstd::prelude::*;
use crate::ann::{lists_entries, scored_entries, top_ranked, LinearAnnIndex};
use crate::graph::{
    is_traversal, upserted, without_node, AdjacencyGraph, GraphEdgeView, Visit,
};
use crate::ordered::Duplicate;
use crate::sorted_map::SortedMap;

verus! {

/// What the joint index holds, as mathematical values.
pub struct HyperIndexView {
    pub vectors: Map<u64, Seq<u32>>,
    pub edges: Seq<GraphEdgeView>,
    pub aliases: Map<Seq<char>, u64>,
}

/// The aliases of `m` that do not point to `id`.
pub open spec fn aliases_without(m: Map<Seq<char>, u64>, id: u64) -> Map<Seq<char>, u64> {
    Map::new(|k: Seq<char>| m.contains_key(k) && m[k] != id, |k: Seq<char>| m[k])
}

/// The vector index and the graph index side by side, with named aliases for
/// ids.
#[derive(Debug, PartialEq, Eq)]
pub struct HyperIndex {
    vector_index: LinearAnnIndex,
    graph_index: AdjacencyGraph,
    id_aliases: SortedMap<String, u64>,
}

impl View for HyperIndex {
    type V = HyperIndexView;

    closed spec fn view(&self) -> HyperIndexView {
        HyperIndexView {
            vectors: self.vector_index@,
            edges: self.graph_index@,
            aliases: self.id_aliases@,
        }
    }
}

impl HyperIndex {
    /// The index with no vector, edge or alias.
    pub fn new() -> (r: Self)
        ensures
            r@ == (HyperIndexView {
                vectors: Map::<u64, Seq<u32>>::empty(),
                edges: Seq::<GraphEdgeView>::empty(),
                aliases: Map::<Seq<char>, u64>::empty(),
            }),
            r.vector_pairs() == Seq::<(u64, Seq<u32>)>::empty(),
    {
        HyperIndex {
            vector_index: LinearAnnIndex::new(),
            graph_index: AdjacencyGraph::new(),
            id_aliases: SortedMap::new(),
        }
    }

    /// The vector index.
    pub fn vector_index(&self) -> (r: &LinearAnnIndex)
        ensures
            r@ == self@.vectors,
            r.pairs() == self.vector_pairs(),
    {
        &self.vector_index
    }

    /// The graph index.
    pub fn graph_index(&self) -> (r: &AdjacencyGraph)
        ensures
            r@ == self@.edges,
    {
        &self.graph_index
    }

    /// The entries of the vector index in increasing order of id: the list of
    /// the vectors of the view.
    pub closed spec fn vector_pairs(&self) -> Seq<(u64, Seq<u32>)> {
        self.vector_index.pairs()
    }

    /// Stores the embedding of node `id`.
    pub fn insert_node(&mut self, id: u64, embedding: Vec<u32>)
        ensures
            final(self)@ == (HyperIndexView {
                vectors: old(self)@.vectors.insert(id, embedding@),
                ..old(self)@
            }),
    {
        self.vector_index.insert(id, embedding);
    }

    /// Appends an edge.
    pub fn insert_edge(&mut self, source: u64, target: u64, relation: &str, weight: u32)
        ensures
            final(self)@ == (HyperIndexView {
                edges: old(self)@.edges.push(
                    GraphEdgeView { source, target, relation: relation@, weight },
                ),
                ..old(self)@
            }),
    {
        self.graph_index.add_edge(source, target, relation, weight);
    }

    /// Puts the edge `(source, target, relation)` at `weight`, in place of any
    /// edge with that logical key.
    pub fn upsert_edge(&mut self, source: u64, target: u64, relation: &str, weight: u32)
        ensures
            final(self)@ == (HyperIndexView {
                edges: upserted(
                    old(self)@.edges,
                    GraphEdgeView { source, target, relation: relation@, weight },
                ),
                ..old(self)@
            }),
    {
        self.graph_index.upsert_edge(source, target, relation, weight);
    }

    /// Removes node `id`: its embedding, the edges at it and the aliases for
    /// it.
    pub fn remove_node(&mut self, id: u64)
        ensures
            final(self)@ == (HyperIndexView {
                vectors: old(self)@.vectors.remove(id),
                edges: without_node(old(self)@.edges, id),
                aliases: aliases_without(old(self)@.aliases, id),
            }),
    {
        self.vector_index.delete(id);
        self.graph_index.remove_node(id);
        let n = self.id_aliases.len();
        let mut kept: SortedMap<String, u64> = SortedMap::new();
        let mut i: usize = 0;
        let ghost pairs = self.id_aliases.pairs();
        let ghost m = self.id_aliases@;
        while i < n
            invariant
                n == pairs.len(),
                i <= n,
                pairs == self.id_aliases.pairs(),
                m == self.id_aliases@,
                m == crate::sorted_map::pairs_map(pairs),
                crate::sorted_map::sorted_keys::<String, u64>(pairs),
                forall|k: Seq<char>|
                    kept@.contains_key(k) <==> (exists|j: int|
                        0 <= j < i && (#[trigger] pairs[j]).0 == k && pairs[j].1 != id),
                forall|k: Seq<char>| kept@.contains_key(k) ==> kept@[k] == m[k],
            decreases n - i,
        {
            let v = *self.id_aliases.value_at(i);
            let ghost kb = kept@;
            if v != id {
                let key = self.id_aliases.key_at(i).duplicate();
                kept.insert(key, v);
            }
            proof {
                crate::sorted_map::lemma_pairs_map_at::<String, u64>(pairs, i as int);
                assert forall|k: Seq<char>|
                    kept@.contains_key(k) <==> (exists|j: int|
                        0 <= j < i + 1 && (#[trigger] pairs[j]).0 == k && pairs[j].1 != id) by {
                    if kb.contains_key(k) {
                        let j = choose|j: int|
                            0 <= j < i && (#[trigger] pairs[j]).0 == k && pairs[j].1 != id;
                        assert(0 <= j < i + 1 && pairs[j].0 == k && pairs[j].1 != id);
                    }
                    if exists|j: int|
                        0 <= j < i + 1 && (#[trigger] pairs[j]).0 == k && pairs[j].1 != id {
                        let j = choose|j: int|
                            0 <= j < i + 1 && (#[trigger] pairs[j]).0 == k && pairs[j].1 != id;
                        if j < i {
                            assert(kb.contains_key(k));
                        }
                    }
                    if v != id && k == pairs[i as int].0 {
                        assert(pairs[i as int].0 == k && pairs[i as int].1 != id);
                    }
                }
            }
            i += 1;
        }
        proof {
            assert(kept@ =~= aliases_without(m, id)) by {
                assert forall|k: Seq<char>| kept@.contains_key(k) <==> (m.contains_key(k) && m[k]
                    != id) by {
                    if kept@.contains_key(k) {
                        let j = choose|j: int|
                            0 <= j < n && (#[trigger] pairs[j]).0 == k && pairs[j].1 != id;
                        crate::sorted_map::lemma_pairs_map_at::<String, u64>(pairs, j);
                    }
                    if m.contains_key(k) && m[k] != id {
                        let j = crate::sorted_map::key_index(pairs, k);
                        crate::sorted_map::lemma_pairs_map_at::<String, u64>(pairs, j);
                        assert(pairs[j].0 == k && pairs[j].1 != id);
                    }
                }
            }
        }
        self.id_aliases = kept;
    }

    /// Names `id` by `alias`, in place of what `alias` named before.
    pub fn register_alias(&mut self, alias: &str, id: u64)
        ensures
            final(self)@ == (HyperIndexView {
                aliases: old(self)@.aliases.insert(alias@, id),
                ..old(self)@
            }),
    {
        self.id_aliases.insert(alias.to_owned(), id);
    }

    /// The id that `alias` names, if any.
    pub fn resolve_alias(&self, alias: &str) -> (r: Option<u64>)
        ensures
            r == if self@.aliases.contains_key(alias@) {
                Some(self@.aliases[alias@])
            } else {
                None
            },
    {
        let key = alias.to_owned();
        match self.id_aliases.get(&key) {
            Some(id) => Some(*id),
            None => None,
        }
    }

    /// The `k` entries most similar to `query`; see `LinearAnnIndex::search`.
    pub fn search_vector(&self, query: &Vec<u32>, similarities: &Vec<u32>, k: usize) -> (out: Vec<
        (u64, u32),
    >)
        requires
            similarities@.len() == self.vector_pairs().len(),
        ensures
            lists_entries(self.vector_pairs(), self@.vectors),
            out@ == top_ranked(
                scored_entries(self.vector_pairs(), query@, similarities@),
                k as int,
            ),
            out@.len() <= k,
    {
        self.vector_index.search(query, similarities, k)
    }

    /// The nodes within `max_hops` hops of `id`; see `AdjacencyGraph::expand`.
    pub fn expand_graph(&self, id: u64, max_hops: u8) -> (out: Vec<(u64, u8)>)
        ensures
            exists|v: Seq<Visit>|
                is_traversal(self@.edges, Set::<Seq<char>>::empty(), id, max_hops, v)
                    && #[trigger] v.len() == out@.len() && forall|i: int|
                    0 <= i < v.len() ==> out@[i] == ((#[trigger] v[i]).node, v[i].hop),
            max_hops == 0 ==> out@.len() == 0,
    {
        self.graph_index.expand(id, max_hops)
    }
}

impl Duplicate for AdjacencyGraph {
    fn duplicate(&self) -> (r: Self) {
        let mut g = AdjacencyGraph::new();
        let n = self.edge_count();
        let mut i: usize = 0;
        while i < n
            invariant
                n == self@.len(),
                i <= n,
                g@ == self@.take(i as int),
            decreases n - i,
        {
            let e = self.edge_at(i);
            g.add_edge(e.source, e.target, e.relation.as_str(), e.weight);
            i += 1;
            assert(g@ =~= self@.take(i as int));
        }
        assert(self@.take(n as int) =~= self@);
        g
    }
}

impl Duplicate for HyperIndex {
    fn duplicate(&self) -> (r: Self) {
        HyperIndex {
            vector_index: self.vector_index.duplicate(),
            graph_index: self.graph_index.duplicate(),
            id_aliases: self.id_aliases.duplicate(),
        }
    }
}

} // verus!
