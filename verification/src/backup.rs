//! Backup snapshots: the full materialised state at one lsn, in a fixed order.

use vstd::prelude::*;
use crate::graph::{upserted, GraphEdgeView};
use crate::hyper_index::HyperIndexView;
use crate::model::{Node, NodeView};
use crate::ordered::{Duplicate, Ordered, Ranked};
use crate::sorted_map::{Metadata, SortedMap};
use crate::sorting::{keyed_by, lemma_sort_is_stable, lemma_sort_keeps_counts, sort_by_key};
use crate::state::{
    apply_op, empty_state, EdgeMetaKey, MaterializedState, OpView, RepoState,
};

verus! {

/// One edge of a backup snapshot. `weight` is a single-precision number by bit
/// pattern.
#[derive(Debug, PartialEq, Eq)]
pub struct BackupEdgeRecord {
    pub source: u64,
    pub target: u64,
    pub relation: String,
    pub weight: u32,
}

impl View for BackupEdgeRecord {
    type V = GraphEdgeView;

    open spec fn view(&self) -> GraphEdgeView {
        GraphEdgeView {
            source: self.source,
            target: self.target,
            relation: self.relation@,
            weight: self.weight,
        }
    }
}

/// One idempotency record of a backup snapshot.
#[derive(Debug, PartialEq, Eq)]
pub struct BackupIdempotencyRecord {
    pub key: String,
    pub node_ids: Vec<u64>,
}

/// The metadata of one edge in a backup snapshot.
#[derive(Debug, PartialEq, Eq)]
pub struct BackupEdgeMetadataRecord {
    pub source: u64,
    pub target: u64,
    pub relation: String,
    pub metadata: Metadata,
}

/// The full state of a repository at `lsn`: nodes by id, edges by logical key,
/// idempotency records by key and edge metadata by logical key, each in
/// increasing order.
#[derive(Debug, PartialEq, Eq)]
pub struct RepositoryBackupSnapshot {
    pub lsn: u64,
    pub nodes: Vec<Node>,
    pub edges: Vec<BackupEdgeRecord>,
    pub idempotency: Vec<BackupIdempotencyRecord>,
    pub edge_metadata: Vec<BackupEdgeMetadataRecord>,
}

/// The state after the nodes `nodes` were put, in order.
pub open spec fn load_nodes(s: RepoState, nodes: Seq<Node>) -> RepoState
    decreases nodes.len(),
{
    if nodes.len() == 0 {
        s
    } else {
        apply_op(load_nodes(s, nodes.drop_last()), OpView::Put(nodes.last()@))
    }
}

/// The state after the edges `edges` were put into the graph, in order.
pub open spec fn load_edges(s: RepoState, edges: Seq<BackupEdgeRecord>) -> RepoState
    decreases edges.len(),
{
    if edges.len() == 0 {
        s
    } else {
        let prev = load_edges(s, edges.drop_last());
        RepoState {
            index: HyperIndexView { edges: upserted(prev.index.edges, edges.last()@), ..prev.index },
            ..prev
        }
    }
}

/// The state after the idempotency records `records` were stored, in order.
pub open spec fn load_idempotency(s: RepoState, records: Seq<BackupIdempotencyRecord>) -> RepoState
    decreases records.len(),
{
    if records.len() == 0 {
        s
    } else {
        let prev = load_idempotency(s, records.drop_last());
        RepoState {
            idempotency: prev.idempotency.insert(records.last().key@, records.last().node_ids@),
            ..prev
        }
    }
}

/// The state after the edge metadata `records` were stored, in order.
pub open spec fn load_edge_metadata(
    s: RepoState,
    records: Seq<BackupEdgeMetadataRecord>,
) -> RepoState
    decreases records.len(),
{
    if records.len() == 0 {
        s
    } else {
        let prev = load_edge_metadata(s, records.drop_last());
        let r = records.last();
        RepoState {
            edge_metadata: prev.edge_metadata.insert(
                (r.source, r.target, r.relation@),
                r.metadata@,
            ),
            ..prev
        }
    }
}

/// The state that a backup snapshot describes.
pub open spec fn backup_state(b: RepositoryBackupSnapshot) -> RepoState {
    load_edge_metadata(
        load_idempotency(load_edges(load_nodes(empty_state(), b.nodes@), b.edges@), b.idempotency@),
        b.edge_metadata@,
    )
}

/// Builds the state that a backup snapshot describes.
pub fn state_from_backup(snapshot: &RepositoryBackupSnapshot) -> (state: MaterializedState)
    ensures
        state@ == backup_state(*snapshot),
{
    let mut state = MaterializedState::empty();
    let mut i: usize = 0;
    assert(snapshot.nodes@.take(0) =~= Seq::<Node>::empty());
    while i < snapshot.nodes.len()
        invariant
            i <= snapshot.nodes.len(),
            state@ == load_nodes(empty_state(), snapshot.nodes@.take(i as int)),
        decreases snapshot.nodes.len() - i,
    {
        proof {
            let t = snapshot.nodes@.take(i + 1);
            assert(t.drop_last() =~= snapshot.nodes@.take(i as int));
            assert(t.last() == snapshot.nodes@[i as int]);
        }
        state.put_node(snapshot.nodes[i].duplicate());
        i += 1;
    }
    assert(snapshot.nodes@.take(snapshot.nodes.len() as int) =~= snapshot.nodes@);
    let ghost s1 = state@;
    let mut j: usize = 0;
    assert(snapshot.edges@.take(0) =~= Seq::<BackupEdgeRecord>::empty());
    while j < snapshot.edges.len()
        invariant
            j <= snapshot.edges.len(),
            state@ == load_edges(s1, snapshot.edges@.take(j as int)),
        decreases snapshot.edges.len() - j,
    {
        proof {
            let t = snapshot.edges@.take(j + 1);
            assert(t.drop_last() =~= snapshot.edges@.take(j as int));
            assert(t.last() == snapshot.edges@[j as int]);
        }
        let e = &snapshot.edges[j];
        state.upsert_graph_edge(e.source, e.target, e.relation.as_str(), e.weight);
        j += 1;
    }
    assert(snapshot.edges@.take(snapshot.edges.len() as int) =~= snapshot.edges@);
    let ghost s2 = state@;
    let mut k: usize = 0;
    assert(snapshot.idempotency@.take(0) =~= Seq::<BackupIdempotencyRecord>::empty());
    while k < snapshot.idempotency.len()
        invariant
            k <= snapshot.idempotency.len(),
            state@ == load_idempotency(s2, snapshot.idempotency@.take(k as int)),
        decreases snapshot.idempotency.len() - k,
    {
        proof {
            let t = snapshot.idempotency@.take(k + 1);
            assert(t.drop_last() =~= snapshot.idempotency@.take(k as int));
            assert(t.last() == snapshot.idempotency@[k as int]);
        }
        let r = &snapshot.idempotency[k];
        state.record_idempotency(r.key.as_str(), r.node_ids.duplicate());
        k += 1;
    }
    assert(snapshot.idempotency@.take(snapshot.idempotency.len() as int)
        =~= snapshot.idempotency@);
    let ghost s3 = state@;
    let mut l: usize = 0;
    assert(snapshot.edge_metadata@.take(0) =~= Seq::<BackupEdgeMetadataRecord>::empty());
    while l < snapshot.edge_metadata.len()
        invariant
            l <= snapshot.edge_metadata.len(),
            state@ == load_edge_metadata(s3, snapshot.edge_metadata@.take(l as int)),
        decreases snapshot.edge_metadata.len() - l,
    {
        proof {
            let t = snapshot.edge_metadata@.take(l + 1);
            assert(t.drop_last() =~= snapshot.edge_metadata@.take(l as int));
            assert(t.last() == snapshot.edge_metadata@[l as int]);
        }
        let r = &snapshot.edge_metadata[l];
        state.set_edge_metadata((r.source, r.target, r.relation.clone()), r.metadata.duplicate());
        l += 1;
    }
    assert(snapshot.edge_metadata@.take(snapshot.edge_metadata.len() as int)
        =~= snapshot.edge_metadata@);
    state
}

/// The edges of `edges` as the graph holds them.
pub open spec fn edge_views(edges: Seq<BackupEdgeRecord>) -> Seq<GraphEdgeView> {
    edges.map_values(|r: BackupEdgeRecord| r@)
}

/// The edges of `s` with the logical key `k`, in their order.
pub open spec fn edges_keyed(s: Seq<GraphEdgeView>, k: (u64, u64, Seq<char>)) -> Seq<GraphEdgeView>
    decreases s.len(),
{
    if s.len() == 0 {
        s
    } else if (s.last().source, s.last().target, s.last().relation) == k {
        edges_keyed(s.drop_last(), k).push(s.last())
    } else {
        edges_keyed(s.drop_last(), k)
    }
}

/// Whether `edges` lists the edges of a graph ordered by logical key: it holds
/// the edges of `graph`, each as often; no edge comes before one with a
/// smaller key; and the edges with one key stand in the order in which the
/// graph holds them.
pub open spec fn is_edge_backup(graph: Seq<GraphEdgeView>, edges: Seq<BackupEdgeRecord>) -> bool {
    &&& edges.len() == graph.len()
    &&& forall|i: int, j: int|
        0 <= i < j < edges.len() ==> !<EdgeMetaKey as Ranked>::key_lt(
            ((#[trigger] edges[j]).source, edges[j].target, edges[j].relation@),
            ((#[trigger] edges[i]).source, edges[i].target, edges[i].relation@),
        )
    &&& edge_views(edges).to_multiset() == graph.to_multiset()
    &&& forall|k: (u64, u64, Seq<char>)|
        edges_keyed(edge_views(edges), k) == #[trigger] edges_keyed(graph, k)
}

/// The edges with one key among the edges that items stand for are what the
/// items with that key stand for.
proof fn lemma_edges_keyed_of_items(items: Seq<(EdgeMetaKey, u32)>, k: (u64, u64, Seq<char>))
    ensures
        edges_keyed(items.map_values(|item: (EdgeMetaKey, u32)| item_edge(item)), k) == keyed_by(
            items,
            k,
        ).map_values(|item: (EdgeMetaKey, u32)| item_edge(item)),
    decreases items.len(),
{
    let f = |item: (EdgeMetaKey, u32)| item_edge(item);
    let mapped = items.map_values(f);
    if items.len() == 0 {
        assert(edges_keyed(mapped, k) =~= keyed_by(items, k).map_values(f));
    } else {
        let head = items.drop_last();
        lemma_edges_keyed_of_items(head, k);
        assert(mapped.drop_last() =~= head.map_values(f));
        assert(mapped.last() == item_edge(items.last()));
        assert(items.last().0@ == (items.last().0.0, items.last().0.1, items.last().0.2@));
        if items.last().0@ == k {
            assert(keyed_by(head, k).push(items.last()).map_values(f) =~= keyed_by(
                head,
                k,
            ).map_values(f).push(item_edge(items.last())));
        }
    }
}

/// What an item to sort stands for: the edge with its key and weight.
pub open spec fn item_edge(item: (EdgeMetaKey, u32)) -> GraphEdgeView {
    GraphEdgeView { source: item.0.0, target: item.0.1, relation: item.0.2@, weight: item.1 }
}

/// The edges of the graph of `state`, ordered by logical key; edges with the
/// same key keep their insertion order.
pub fn collect_backup_edges(state: &MaterializedState) -> (edges: Vec<BackupEdgeRecord>)
    ensures
        is_edge_backup(state@.index.edges, edges@),
{
    let graph = state.hyper_index().graph_index();
    let n = graph.edge_count();
    let mut items: Vec<(EdgeMetaKey, u32)> = Vec::new();
    let mut i: usize = 0;
    while i < n
        invariant
            n == graph@.len(),
            i <= n,
            items@.len() == i,
            forall|j: int|
                0 <= j < i ==> (#[trigger] items@[j]).0.0 == graph@[j].source && items@[j].0.1
                    == graph@[j].target && items@[j].0.2@ == graph@[j].relation && items@[j].1
                    == graph@[j].weight,
        decreases n - i,
    {
        let e = graph.edge_at(i);
        items.push(((e.source, e.target, e.relation.clone()), e.weight));
        i += 1;
    }
    let ghost unsorted = items@;
    let sorted = sort_by_key(items);
    let mut edges: Vec<BackupEdgeRecord> = Vec::new();
    let mut k: usize = 0;
    while k < sorted.len()
        invariant
            k <= sorted.len(),
            edges@.len() == k,
            forall|j: int|
                0 <= j < k ==> (#[trigger] edges@[j]).source == sorted@[j].0.0 && edges@[j].target
                    == sorted@[j].0.1 && edges@[j].relation@ == sorted@[j].0.2@ && edges@[j].weight
                    == sorted@[j].1,
        decreases sorted.len() - k,
    {
        let item = &sorted[k];
        edges.push(
            BackupEdgeRecord {
                source: item.0.0,
                target: item.0.1,
                relation: item.0.2.clone(),
                weight: item.1,
            },
        );
        k += 1;
    }
    proof {
        let g = state@.index.edges;
        assert forall|a: int, b: int| 0 <= a < b < edges@.len() implies !<EdgeMetaKey as Ranked>::key_lt(
            ((#[trigger] edges@[b]).source, edges@[b].target, edges@[b].relation@),
            ((#[trigger] edges@[a]).source, edges@[a].target, edges@[a].relation@),
        ) by {
            assert(!<EdgeMetaKey as Ranked>::key_lt(sorted@[b].0@, sorted@[a].0@));
        }
        let f = |item: (EdgeMetaKey, u32)| item_edge(item);
        lemma_sort_keeps_counts(unsorted, f);
        assert(unsorted.map_values(f) =~= g);
        assert(sorted@.map_values(f) =~= edge_views(edges@));
        assert forall|k: (u64, u64, Seq<char>)|
            edges_keyed(edge_views(edges@), k) == #[trigger] edges_keyed(g, k) by {
            lemma_edges_keyed_of_items(unsorted, k);
            lemma_edges_keyed_of_items(sorted@, k);
            lemma_sort_is_stable(unsorted, k);
        }
    }
    edges
}

} // verus!
