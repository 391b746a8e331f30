//! The materialised state of a repository and the mutations that change it.

use vstd::prelude::*;
use crate::graph::{upserted, without_node, GraphEdgeView};
use crate::hyper_index::{aliases_without, HyperIndex, HyperIndexView};
use crate::model::{Edge, EdgeView, Node, NodeView};
use crate::ordered::Duplicate;
use crate::seqs::{lemma_filter_bounds, lemma_filter_step};
use crate::sorted_map::{
    key_index, lemma_pairs_map_at, sorted_keys, strictly_sorted, Metadata, SortedMap,
};
use crate::sorting::{lemma_sorted_ids, sort_ids, sorted_ids};

verus! {

/// The logical key of an edge: `(source, target, relation)`.
pub type EdgeMetaKey = (u64, u64, String);

/// A mutation, as mathematical values.
pub enum OpView {
    Put(NodeView),
    PutEdge(EdgeView),
    Delete(u64),
}

/// One operation of a logged transaction.
#[derive(Debug, PartialEq, Eq)]
pub enum TxOperation {
    Put(Node),
    PutEdge(Edge),
    Delete(u64),
}

impl View for TxOperation {
    type V = OpView;

    open spec fn view(&self) -> OpView {
        match self {
            TxOperation::Put(n) => OpView::Put(n@),
            TxOperation::PutEdge(e) => OpView::PutEdge(e@),
            TxOperation::Delete(id) => OpView::Delete(*id),
        }
    }
}

impl Duplicate for TxOperation {
    fn duplicate(&self) -> (r: Self) {
        match self {
            TxOperation::Put(n) => TxOperation::Put(n.duplicate()),
            TxOperation::PutEdge(e) => TxOperation::PutEdge(e.duplicate()),
            TxOperation::Delete(id) => TxOperation::Delete(*id),
        }
    }
}

/// One mutation of an index transaction.
#[derive(Debug, PartialEq, Eq)]
pub enum IndexMutation {
    PutNode(Node),
    PutEdge(Edge),
    DeleteNode(u64),
}

impl View for IndexMutation {
    type V = OpView;

    open spec fn view(&self) -> OpView {
        match self {
            IndexMutation::PutNode(n) => OpView::Put(n@),
            IndexMutation::PutEdge(e) => OpView::PutEdge(e@),
            IndexMutation::DeleteNode(id) => OpView::Delete(*id),
        }
    }
}

impl Duplicate for IndexMutation {
    fn duplicate(&self) -> (r: Self) {
        match self {
            IndexMutation::PutNode(n) => IndexMutation::PutNode(n.duplicate()),
            IndexMutation::PutEdge(e) => IndexMutation::PutEdge(e.duplicate()),
            IndexMutation::DeleteNode(id) => IndexMutation::DeleteNode(*id),
        }
    }
}

/// A log entry, as mathematical values.
pub enum EntryView {
    Op(OpView),
    IdempotencyKey(Seq<char>, Seq<u64>),
    Transaction(Seq<OpView>),
}

/// What one record of the log holds.
#[derive(Debug, PartialEq, Eq)]
pub enum WalEntry {
    Put(Node),
    PutEdge(Edge),
    Delete(u64),
    IdempotencyKey { key: String, node_ids: Vec<u64> },
    Transaction(Vec<TxOperation>),
}

/// The operations of `ops`, as mathematical values.
pub open spec fn op_views(ops: Seq<TxOperation>) -> Seq<OpView> {
    ops.map_values(|o: TxOperation| o@)
}

/// The mutations of `ms`, as mathematical values.
pub open spec fn mutation_views(ms: Seq<IndexMutation>) -> Seq<OpView> {
    ms.map_values(|m: IndexMutation| m@)
}

impl View for WalEntry {
    type V = EntryView;

    open spec fn view(&self) -> EntryView {
        match self {
            WalEntry::Put(n) => EntryView::Op(OpView::Put(n@)),
            WalEntry::PutEdge(e) => EntryView::Op(OpView::PutEdge(e@)),
            WalEntry::Delete(id) => EntryView::Op(OpView::Delete(*id)),
            WalEntry::IdempotencyKey { key, node_ids } => EntryView::IdempotencyKey(
                key@,
                node_ids@,
            ),
            WalEntry::Transaction(ops) => EntryView::Transaction(op_views(ops@)),
        }
    }
}

/// The operations of a batch of mutations, in order, for the log record of the
/// transaction.
pub fn mutations_to_tx_operations(mutations: &Vec<IndexMutation>) -> (ops: Vec<TxOperation>)
    ensures
        op_views(ops@) == mutation_views(mutations@),
{
    let mut ops: Vec<TxOperation> = Vec::new();
    let mut i: usize = 0;
    while i < mutations.len()
        invariant
            i <= mutations.len(),
            ops@.len() == i,
            forall|j: int| 0 <= j < i ==> (#[trigger] ops@[j])@ == mutations@[j]@,
        decreases mutations.len() - i,
    {
        let op = match &mutations[i] {
            IndexMutation::PutNode(n) => TxOperation::Put(n.duplicate()),
            IndexMutation::PutEdge(e) => TxOperation::PutEdge(e.duplicate()),
            IndexMutation::DeleteNode(id) => TxOperation::Delete(*id),
        };
        ops.push(op);
        i += 1;
    }
    assert(op_views(ops@) =~= mutation_views(mutations@));
    ops
}

/// The state of a repository, as mathematical values.
pub struct RepoState {
    pub nodes: Map<u64, NodeView>,
    pub index: HyperIndexView,
    pub idempotency: Map<Seq<char>, Seq<u64>>,
    pub edge_metadata: Map<(u64, u64, Seq<char>), Map<Seq<char>, Seq<char>>>,
}

/// The state that holds nothing.
pub open spec fn empty_state() -> RepoState {
    RepoState {
        nodes: Map::empty(),
        index: HyperIndexView {
            vectors: Map::empty(),
            edges: Seq::empty(),
            aliases: Map::empty(),
        },
        idempotency: Map::empty(),
        edge_metadata: Map::empty(),
    }
}

/// The edge metadata of `m` without the entries of edges at node `id`.
pub open spec fn meta_without(
    m: Map<(u64, u64, Seq<char>), Map<Seq<char>, Seq<char>>>,
    id: u64,
) -> Map<(u64, u64, Seq<char>), Map<Seq<char>, Seq<char>>> {
    Map::new(
        |k: (u64, u64, Seq<char>)| m.contains_key(k) && k.0 != id && k.1 != id,
        |k: (u64, u64, Seq<char>)| m[k],
    )
}

/// The state after one mutation.
///
/// A node put replaces the node and its embedding. An edge put replaces the
/// edge with the same logical key, and its metadata replaces the stored
/// metadata wholesale: empty metadata clears it. A node delete removes the
/// node, its embedding, the edges at it, their metadata and the aliases for it.
pub open spec fn apply_op(s: RepoState, op: OpView) -> RepoState {
    match op {
        OpView::Put(n) => RepoState {
            nodes: s.nodes.insert(n.id, n),
            index: HyperIndexView { vectors: s.index.vectors.insert(n.id, n.embedding), ..s.index },
            ..s
        },
        OpView::PutEdge(e) => RepoState {
            index: HyperIndexView {
                edges: upserted(
                    s.index.edges,
                    GraphEdgeView {
                        source: e.source,
                        target: e.target,
                        relation: e.relation,
                        weight: e.weight,
                    },
                ),
                ..s.index
            },
            edge_metadata: if e.metadata == Map::<Seq<char>, Seq<char>>::empty() {
                s.edge_metadata.remove((e.source, e.target, e.relation))
            } else {
                s.edge_metadata.insert((e.source, e.target, e.relation), e.metadata)
            },
            ..s
        },
        OpView::Delete(id) => RepoState {
            nodes: s.nodes.remove(id),
            index: HyperIndexView {
                vectors: s.index.vectors.remove(id),
                edges: without_node(s.index.edges, id),
                aliases: aliases_without(s.index.aliases, id),
            },
            edge_metadata: meta_without(s.edge_metadata, id),
            ..s
        },
    }
}

/// The state after the mutations `ops`, applied in order.
pub open spec fn apply_ops(s: RepoState, ops: Seq<OpView>) -> RepoState
    decreases ops.len(),
{
    if ops.len() == 0 {
        s
    } else {
        apply_op(apply_ops(s, ops.drop_last()), ops.last())
    }
}

/// The state after one log entry. An idempotency entry records its key; the
/// other entries apply their mutations.
pub open spec fn apply_entry(s: RepoState, e: EntryView) -> RepoState {
    match e {
        EntryView::Op(op) => apply_op(s, op),
        EntryView::IdempotencyKey(key, ids) => RepoState {
            idempotency: s.idempotency.insert(key, ids),
            ..s
        },
        EntryView::Transaction(ops) => apply_ops(s, ops),
    }
}

/// The nodes of a repository, each stored under its own id.
#[derive(Debug, PartialEq, Eq)]
pub struct NodeTable {
    map: SortedMap<u64, Node>,
}

impl View for NodeTable {
    type V = Map<u64, NodeView>;

    closed spec fn view(&self) -> Map<u64, NodeView> {
        self.map@
    }
}

impl NodeTable {
    #[verifier::type_invariant]
    spec fn inv(&self) -> bool {
        forall|id: u64| self.map@.contains_key(id) ==> (#[trigger] self.map@[id]).id == id
    }

    /// The table without nodes.
    pub fn new() -> (t: Self)
        ensures
            t@ == Map::<u64, NodeView>::empty(),
    {
        NodeTable { map: SortedMap::new() }
    }

    /// The nodes by id. Every node is stored under its own id.
    pub fn map(&self) -> (r: &SortedMap<u64, Node>)
        ensures
            r@ == self@,
            forall|id: u64| r@.contains_key(id) ==> (#[trigger] r@[id]).id == id,
    {
        proof {
            use_type_invariant(self);
        }
        &self.map
    }

    /// Stores `node` under its id, in place of what was stored there.
    pub fn put(&mut self, node: Node)
        ensures
            final(self)@ == old(self)@.insert(node.id, node@),
    {
        proof {
            use_type_invariant(&*self);
        }
        let mut map: SortedMap<u64, Node> = SortedMap::new();
        core::mem::swap(&mut map, &mut self.map);
        map.insert(node.id, node);
        self.map = map;
    }

    /// Removes the node stored under `id`, if any.
    pub fn remove(&mut self, id: u64)
        ensures
            final(self)@ == old(self)@.remove(id),
    {
        proof {
            use_type_invariant(&*self);
        }
        let mut map: SortedMap<u64, Node> = SortedMap::new();
        core::mem::swap(&mut map, &mut self.map);
        map.remove(&id);
        self.map = map;
    }
}

impl Duplicate for NodeTable {
    fn duplicate(&self) -> (r: Self) {
        proof {
            use_type_invariant(self);
        }
        NodeTable { map: self.map.duplicate() }
    }
}

/// The materialised state: nodes by id, the joint index, the idempotency
/// records and the metadata of edges by logical key.
#[derive(Debug, PartialEq, Eq)]
pub struct MaterializedState {
    nodes: NodeTable,
    hyper_index: HyperIndex,
    idempotency_index: SortedMap<String, Vec<u64>>,
    edge_metadata: SortedMap<EdgeMetaKey, Metadata>,
}

impl View for MaterializedState {
    type V = RepoState;

    closed spec fn view(&self) -> RepoState {
        RepoState {
            nodes: self.nodes@,
            index: self.hyper_index@,
            idempotency: self.idempotency_index@,
            edge_metadata: self.edge_metadata@,
        }
    }
}

impl MaterializedState {
    /// The state that holds nothing.
    pub fn empty() -> (s: Self)
        ensures
            s@ == empty_state(),
            s.vector_pairs() == Seq::<(u64, Seq<u32>)>::empty(),
    {
        MaterializedState {
            nodes: NodeTable::new(),
            hyper_index: HyperIndex::new(),
            idempotency_index: SortedMap::new(),
            edge_metadata: SortedMap::new(),
        }
    }

    /// The nodes by id. Every node is stored under its own id.
    pub fn nodes(&self) -> (r: &SortedMap<u64, Node>)
        ensures
            r@ == self@.nodes,
            forall|id: u64| r@.contains_key(id) ==> (#[trigger] r@[id]).id == id,
    {
        self.nodes.map()
    }

    /// The joint index.
    pub fn hyper_index(&self) -> (r: &HyperIndex)
        ensures
            r@ == self@.index,
            r.vector_pairs() == self.vector_pairs(),
    {
        &self.hyper_index
    }

    /// The idempotency records by key.
    pub fn idempotency_index(&self) -> (r: &SortedMap<String, Vec<u64>>)
        ensures
            r@ == self@.idempotency,
    {
        &self.idempotency_index
    }

    /// The metadata of edges by logical key.
    pub fn edge_metadata(&self) -> (r: &SortedMap<EdgeMetaKey, Metadata>)
        ensures
            r@ == self@.edge_metadata,
    {
        &self.edge_metadata
    }

    /// Puts a node: the node and its embedding replace what was stored under
    /// its id.
    pub fn put_node(&mut self, node: Node)
        ensures
            final(self)@ == apply_op(old(self)@, OpView::Put(node@)),
    {
        let id = node.id;
        let embedding = node.embedding.duplicate();
        self.nodes.put(node);
        self.hyper_index.insert_node(id, embedding);
    }

    /// Puts an edge: the edge replaces the one with the same logical key, and
    /// its metadata replaces the stored metadata, empty metadata clearing it.
    pub fn put_edge(&mut self, edge: Edge)
        ensures
            final(self)@ == apply_op(old(self)@, OpView::PutEdge(edge@)),
    {
        let key = (edge.source, edge.target, edge.relation.clone());
        self.hyper_index.upsert_edge(edge.source, edge.target, edge.relation.as_str(), edge.weight);
        if edge.metadata.is_empty() {
            self.edge_metadata.remove(&key);
        } else {
            self.edge_metadata.insert(key, edge.metadata);
        }
    }

    /// Deletes a node with the edges at it, their metadata and its aliases.
    pub fn delete_node(&mut self, id: u64)
        ensures
            final(self)@ == apply_op(old(self)@, OpView::Delete(id)),
    {
        self.nodes.remove(id);
        self.hyper_index.remove_node(id);
        let n = self.edge_metadata.len();
        let ghost pairs = self.edge_metadata.pairs();
        let ghost m = self.edge_metadata@;
        let mut keep: Vec<bool> = Vec::new();
        let mut i: usize = 0;
        while i < n
            invariant
                n == pairs.len(),
                pairs == self.edge_metadata.pairs(),
                i <= n,
                keep@.len() == i,
                forall|j: int|
                    0 <= j < i ==> keep@[j] == ((#[trigger] pairs[j]).0.0 != id && pairs[j].0.1
                        != id),
            decreases n - i,
        {
            let k = self.edge_metadata.key_at(i);
            keep.push(k.0 != id && k.1 != id);
            i += 1;
        }
        let kept = self.edge_metadata.restrict(&keep);
        proof {
            assert(kept@ =~= meta_without(m, id)) by {
                assert forall|k: (u64, u64, Seq<char>)|
                    kept@.contains_key(k) <==> (m.contains_key(k) && k.0 != id && k.1 != id) by {
                    if kept@.contains_key(k) {
                        let j = choose|j: int|
                            0 <= j < keep@.len() && (#[trigger] pairs[j]).0 == k && keep@[j];
                        assert(pairs[j].0.0 != id);
                    }
                    if m.contains_key(k) && k.0 != id && k.1 != id {
                        let j = key_index(pairs, k);
                        lemma_pairs_map_at::<EdgeMetaKey, Map<Seq<char>, Seq<char>>>(pairs, j);
                        assert(pairs[j].0 == k && keep@[j]);
                    }
                }
            }
        }
        self.edge_metadata = kept;
    }

    /// Puts the graph edge `(source, target, relation)` at `weight` and leaves
    /// the metadata of edges as it is.
    pub fn upsert_graph_edge(&mut self, source: u64, target: u64, relation: &str, weight: u32)
        ensures
            final(self)@ == (RepoState {
                index: HyperIndexView {
                    edges: upserted(
                        old(self)@.index.edges,
                        GraphEdgeView { source, target, relation: relation@, weight },
                    ),
                    ..old(self)@.index
                },
                ..old(self)@
            }),
    {
        self.hyper_index.upsert_edge(source, target, relation, weight);
    }

    /// Stores `metadata` for the edge with logical key `key`.
    pub fn set_edge_metadata(&mut self, key: EdgeMetaKey, metadata: Metadata)
        ensures
            final(self)@ == (RepoState {
                edge_metadata: old(self)@.edge_metadata.insert(key@, metadata@),
                ..old(self)@
            }),
    {
        self.edge_metadata.insert(key, metadata);
    }

    /// Applies one mutation.
    pub fn apply_mutation(&mut self, mutation: IndexMutation)
        ensures
            final(self)@ == apply_op(old(self)@, mutation@),
    {
        match mutation {
            IndexMutation::PutNode(node) => self.put_node(node),
            IndexMutation::PutEdge(edge) => self.put_edge(edge),
            IndexMutation::DeleteNode(id) => self.delete_node(id),
        }
    }

    /// Applies a batch of mutations in order.
    pub fn apply_mutations(&mut self, mutations: Vec<IndexMutation>)
        ensures
            final(self)@ == apply_ops(old(self)@, mutation_views(mutations@)),
    {
        let ghost all = mutation_views(mutations@);
        let mut rest = mutations;
        let ghost n = all.len() as int;
        assert(all.take(0) =~= Seq::<OpView>::empty());
        while rest.len() > 0
            invariant
                n == all.len(),
                rest@.len() <= n,
                mutation_views(rest@) == all.skip(n - rest@.len()),
                self@ == apply_ops(old(self)@, all.take(n - rest@.len())),
            decreases rest.len(),
        {
            let ghost done = n - rest@.len();
            let ghost before = rest@;
            let m = rest.remove(0);
            proof {
                assert(m@ == mutation_views(before)[0]);
                assert forall|j: int| 0 <= j < rest@.len() implies mutation_views(rest@)[j]
                    == all.skip(done + 1)[j] by {
                    assert(rest@[j] == before[j + 1]);
                    assert(mutation_views(before)[j + 1] == all.skip(done)[j + 1]);
                }
                assert(mutation_views(rest@) =~= all.skip(done + 1));
                let t = all.take(done + 1);
                assert(t.drop_last() =~= all.take(done));
                assert(t.last() == m@);
            }
            self.apply_mutation(m);
        }
        assert(all.take(n) =~= all);
    }

    /// Applies one operation of a replayed transaction.
    pub fn apply_replayed_tx_operation(&mut self, operation: &TxOperation)
        ensures
            final(self)@ == apply_op(old(self)@, operation@),
    {
        match operation {
            TxOperation::Put(node) => self.put_node(node.duplicate()),
            TxOperation::PutEdge(edge) => self.put_edge(edge.duplicate()),
            TxOperation::Delete(id) => self.delete_node(*id),
        }
    }

    /// Applies one replayed log entry.
    pub fn apply_replayed_entry(&mut self, entry: &WalEntry)
        ensures
            final(self)@ == apply_entry(old(self)@, entry@),
    {
        match entry {
            WalEntry::Put(node) => self.put_node(node.duplicate()),
            WalEntry::PutEdge(edge) => self.put_edge(edge.duplicate()),
            WalEntry::Delete(id) => self.delete_node(*id),
            WalEntry::IdempotencyKey { key, node_ids } => {
                self.idempotency_index.insert(key.clone(), node_ids.duplicate());
            },
            WalEntry::Transaction(operations) => {
                let ghost all = op_views(operations@);
                let mut i: usize = 0;
                assert(all.take(0) =~= Seq::<OpView>::empty());
                while i < operations.len()
                    invariant
                        i <= operations.len(),
                        all == op_views(operations@),
                        self@ == apply_ops(old(self)@, all.take(i as int)),
                    decreases operations.len() - i,
                {
                    proof {
                        let t = all.take(i + 1);
                        assert(t.drop_last() =~= all.take(i as int));
                        assert(t.last() == operations@[i as int]@);
                    }
                    self.apply_replayed_tx_operation(&operations[i]);
                    i += 1;
                }
                assert(all.take(operations.len() as int) =~= all);
            },
        }
    }
}

/// The ids of `ids` that are nodes of `nodes`, in order.
pub open spec fn known_ids(nodes: Map<u64, NodeView>, ids: Seq<u64>) -> Seq<u64> {
    ids.filter(|id: u64| nodes.contains_key(id))
}

/// The metadata of `m` under the keys that occur in `keys`.
pub open spec fn meta_for(
    m: Map<(u64, u64, Seq<char>), Map<Seq<char>, Seq<char>>>,
    keys: Seq<EdgeMetaKey>,
) -> Map<(u64, u64, Seq<char>), Map<Seq<char>, Seq<char>>> {
    Map::new(
        |k: (u64, u64, Seq<char>)|
            m.contains_key(k) && exists|i: int| 0 <= i < keys.len() && (#[trigger] keys[i])@ == k,
        |k: (u64, u64, Seq<char>)| m[k],
    )
}

/// Whether `d` is the dimension of the node with the least id among the nodes
/// of `nodes` that have an embedding.
pub open spec fn is_first_dimension(nodes: Map<u64, NodeView>, d: usize) -> bool {
    exists|id: u64|
        #![trigger nodes[id]]
        nodes.contains_key(id) && nodes[id].embedding.len() == d && d > 0 && forall|other: u64|
            other < id && nodes.contains_key(other) ==> (#[trigger] nodes[other]).embedding.len()
                == 0
}

impl MaterializedState {
    /// The entries of the vector index in increasing order of id: the list of
    /// the vectors of the view.
    pub closed spec fn vector_pairs(&self) -> Seq<(u64, Seq<u32>)> {
        self.hyper_index.vector_pairs()
    }

    /// The `k` entries most similar to `query`; see `LinearAnnIndex::search`.
    pub fn search_vector(&self, query: &Vec<u32>, similarities: &Vec<u32>, k: usize) -> (out: Vec<
        (u64, u32),
    >)
        requires
            similarities@.len() == self.vector_pairs().len(),
        ensures
            crate::ann::lists_entries(self.vector_pairs(), self@.index.vectors),
            out@ == crate::ann::top_ranked(
                crate::ann::scored_entries(self.vector_pairs(), query@, similarities@),
                k as int,
            ),
            out@.len() <= k,
    {
        self.hyper_index.search_vector(query, similarities, k)
    }

    /// The node stored under `id`, if any.
    pub fn get_node(&self, id: u64) -> (r: Option<Node>)
        ensures
            match r {
                Some(n) => self@.nodes.contains_key(id) && n@ == self@.nodes[id],
                None => !self@.nodes.contains_key(id),
            },
    {
        match self.nodes.map().get(&id) {
            Some(n) => Some(n.duplicate()),
            None => None,
        }
    }

    /// The ids of the nodes, in increasing order.
    pub fn list_node_ids(&self) -> (out: Vec<u64>)
        ensures
            strictly_sorted::<u64>(out@),
            forall|id: u64| out@.contains(id) <==> self@.nodes.contains_key(id),
    {
        let table = self.nodes.map();
        let n = table.len();
        let ghost pairs = table.pairs();
        let mut out: Vec<u64> = Vec::new();
        let mut i: usize = 0;
        while i < n
            invariant
                n == pairs.len(),
                pairs == table.pairs(),
                i <= n,
                out@.len() == i,
                forall|j: int| 0 <= j < i ==> out@[j] == (#[trigger] pairs[j]).0,
            decreases n - i,
        {
            out.push(*table.key_at(i));
            i += 1;
        }
        proof {
            assert forall|a: int, b: int| 0 <= a < b < out@.len() implies (#[trigger] out@[a])
                < #[trigger] out@[b] by {
                assert(<u64 as crate::ordered::Ranked>::key_lt(pairs[a].0, pairs[b].0));
            }
            assert forall|id: u64| out@.contains(id) <==> self@.nodes.contains_key(id) by {
                if out@.contains(id) {
                    let j = choose|j: int| 0 <= j < out@.len() && out@[j] == id;
                    lemma_pairs_map_at::<u64, NodeView>(pairs, j);
                }
                if self@.nodes.contains_key(id) {
                    let j = key_index(pairs, id);
                    assert(out@[j] == pairs[j].0);
                }
            }
        }
        out
    }

    /// The nodes stored under the given ids, ordered by id. An id that occurs
    /// twice gives its node twice; an id without a node gives nothing.
    pub fn get_nodes_by_ids(&self, ids: &[u64]) -> (out: Vec<Node>)
        ensures
            out@.len() == sorted_ids(known_ids(self@.nodes, ids@)).len(),
            forall|i: int|
                0 <= i < out@.len() ==> {
                    let id = #[trigger] sorted_ids(known_ids(self@.nodes, ids@))[i];
                    self@.nodes.contains_key(id) && out@[i]@ == self@.nodes[id]
                },
    {
        let ghost pred = |id: u64| self@.nodes.contains_key(id);
        let mut found: Vec<u64> = Vec::new();
        let mut i: usize = 0;
        proof {
            lemma_filter_bounds(ids@, pred);
        }
        while i < ids.len()
            invariant
                i <= ids@.len(),
                pred == (|id: u64| self@.nodes.contains_key(id)),
                found@ == ids@.take(i as int).filter(pred),
            decreases ids@.len() - i,
        {
            proof {
                lemma_filter_step(ids@, pred, i as int);
            }
            if self.nodes.map().contains_key(&ids[i]) {
                found.push(ids[i]);
            }
            i += 1;
        }
        proof {
            lemma_filter_bounds(ids@, pred);
            lemma_sorted_ids(found@);
        }
        let sorted = sort_ids(&found);
        let mut out: Vec<Node> = Vec::new();
        let mut j: usize = 0;
        while j < sorted.len()
            invariant
                j <= sorted.len(),
                out@.len() == j,
                sorted@ == sorted_ids(found@),
                found@ == ids@.filter(pred),
                pred == (|id: u64| self@.nodes.contains_key(id)),
                forall|x: u64| sorted@.contains(x) <==> found@.contains(x),
                forall|k: int|
                    0 <= k < j ==> self@.nodes.contains_key(#[trigger] sorted@[k]) && out@[k]@
                        == self@.nodes[sorted@[k]],
            decreases sorted.len() - j,
        {
            proof {
                assert(sorted@.contains(sorted@[j as int]));
                crate::seqs::lemma_filter_contains_iff(ids@, pred, sorted@[j as int]);
            }
            let ghost prev = out@;
            match self.nodes.map().get(&sorted[j]) {
                Some(n) => {
                    out.push(n.duplicate());
                },
                None => {
                    assert(false);
                },
            }
            proof {
                assert forall|k: int| 0 <= k < j + 1 implies self@.nodes.contains_key(
                    #[trigger] sorted@[k],
                ) && out@[k]@ == self@.nodes[sorted@[k]] by {
                    if k < j {
                        assert(out@[k] == prev[k]);
                    }
                }
            }
            j += 1;
        }
        out
    }

    /// The dimension of the embeddings: that of the node with the least id
    /// among the nodes that have an embedding.
    pub fn embedding_dimension(&self) -> (r: Option<usize>)
        ensures
            match r {
                Some(d) => is_first_dimension(self@.nodes, d),
                None => forall|id: u64|
                    self@.nodes.contains_key(id) ==> (#[trigger] self@.nodes[id]).embedding.len()
                        == 0,
            },
    {
        let table = self.nodes.map();
        let n = table.len();
        let ghost pairs = table.pairs();
        let mut i: usize = 0;
        while i < n
            invariant
                n == pairs.len(),
                pairs == table.pairs(),
                sorted_keys::<u64, NodeView>(pairs),
                self@.nodes == crate::sorted_map::pairs_map(pairs),
                i <= n,
                forall|j: int| 0 <= j < i ==> (#[trigger] pairs[j]).1.embedding.len() == 0,
            decreases n - i,
        {
            let node = table.value_at(i);
            if node.embedding.len() > 0 {
                proof {
                    let id = pairs[i as int].0;
                    lemma_pairs_map_at::<u64, NodeView>(pairs, i as int);
                    assert forall|other: u64|
                        other < id && self@.nodes.contains_key(other) implies (
                    #[trigger] self@.nodes[other]).embedding.len() == 0 by {
                        let j = key_index(pairs, other);
                        lemma_pairs_map_at::<u64, NodeView>(pairs, j);
                        if j > i {
                            assert(<u64 as crate::ordered::Ranked>::key_lt(
                                pairs[i as int].0,
                                pairs[j].0,
                            ));
                        }
                    }
                    assert(self@.nodes[id].embedding.len() == node.embedding.len());
                }
                return Some(node.embedding.len());
            }
            i += 1;
        }
        proof {
            assert forall|id: u64| self@.nodes.contains_key(id) implies (
            #[trigger] self@.nodes[id]).embedding.len() == 0 by {
                let j = key_index(pairs, id);
                lemma_pairs_map_at::<u64, NodeView>(pairs, j);
            }
        }
        None
    }

    /// The metadata of the edge `(source, target, relation)`; empty where none
    /// is stored.
    pub fn get_edge_metadata(&self, source: u64, target: u64, relation: &str) -> (m: Metadata)
        ensures
            m@ == if self@.edge_metadata.contains_key((source, target, relation@)) {
                self@.edge_metadata[(source, target, relation@)]
            } else {
                Map::<Seq<char>, Seq<char>>::empty()
            },
    {
        let key = (source, target, relation.to_owned());
        match self.edge_metadata.get(&key) {
            Some(m) => m.duplicate(),
            None => Metadata::new(),
        }
    }

    /// The metadata of the edges with the given logical keys, for the keys
    /// that have any.
    pub fn get_edge_metadata_bulk(&self, keys: &Vec<EdgeMetaKey>) -> (out: SortedMap<
        EdgeMetaKey,
        Metadata,
    >)
        ensures
            out@ == meta_for(self@.edge_metadata, keys@),
    {
        let mut out: SortedMap<EdgeMetaKey, Metadata> = SortedMap::new();
        let mut i: usize = 0;
        assert(out@ =~= meta_for(self@.edge_metadata, keys@.take(0)));
        while i < keys.len()
            invariant
                i <= keys.len(),
                out@ == meta_for(self@.edge_metadata, keys@.take(i as int)),
            decreases keys.len() - i,
        {
            let ghost before = keys@.take(i as int);
            let ghost after = keys@.take(i + 1);
            let ghost ob = out@;
            match self.edge_metadata.get(&keys[i]) {
                Some(m) => {
                    out.insert(keys[i].duplicate(), m.duplicate());
                },
                None => {},
            }
            proof {
                let m = self@.edge_metadata;
                assert(after[i as int] == keys@[i as int]);
                assert forall|k: (u64, u64, Seq<char>)|
                    out@.contains_key(k) <==> meta_for(m, after).contains_key(k) by {
                    if ob.contains_key(k) {
                        let j = choose|j: int| 0 <= j < before.len() && (#[trigger] before[j])@ == k;
                        assert(after[j]@ == k);
                    }
                    if meta_for(m, after).contains_key(k) {
                        let j = choose|j: int| 0 <= j < after.len() && (#[trigger] after[j])@ == k;
                        if j < i {
                            assert(before[j]@ == k);
                        }
                    }
                }
                assert(out@ =~= meta_for(m, after));
            }
            i += 1;
        }
        assert(keys@.take(keys.len() as int) =~= keys@);
        out
    }

    /// The node ids recorded under the idempotency key `key`, if any.
    pub fn check_idempotency(&self, key: &str) -> (r: Option<Vec<u64>>)
        ensures
            match r {
                Some(ids) => self@.idempotency.contains_key(key@) && ids@
                    == self@.idempotency[key@],
                None => !self@.idempotency.contains_key(key@),
            },
    {
        let k = key.to_owned();
        match self.idempotency_index.get(&k) {
            Some(ids) => Some(ids.duplicate()),
            None => None,
        }
    }

    /// Records `node_ids` under `key`, in place of what was recorded there.
    pub fn record_idempotency(&mut self, key: &str, node_ids: Vec<u64>)
        ensures
            final(self)@ == (RepoState {
                idempotency: old(self)@.idempotency.insert(key@, node_ids@),
                ..old(self)@
            }),
    {
        self.idempotency_index.insert(key.to_owned(), node_ids);
    }
}

impl Duplicate for MaterializedState {
    fn duplicate(&self) -> (r: Self) {
        MaterializedState {
            nodes: self.nodes.duplicate(),
            hyper_index: self.hyper_index.duplicate(),
            idempotency_index: self.idempotency_index.duplicate(),
            edge_metadata: self.edge_metadata.duplicate(),
        }
    }
}

/// The state after the entries of a log whose lsn lies above `base` and not
/// above `target`, applied in log order.
pub open spec fn replay_range(
    s: RepoState,
    entries: Seq<(u64, EntryView)>,
    base: u64,
    target: u64,
) -> RepoState
    decreases entries.len(),
{
    if entries.len() == 0 {
        s
    } else {
        let prev = replay_range(s, entries.drop_last(), base, target);
        let last = entries.last();
        if base < last.0 <= target {
            apply_entry(prev, last.1)
        } else {
            prev
        }
    }
}

/// The decoded entries of `v` with their lsns, as mathematical values.
pub open spec fn entry_views(v: Seq<(u64, WalEntry)>) -> Seq<(u64, EntryView)> {
    v.map_values(|e: (u64, WalEntry)| (e.0, e.1@))
}

impl MaterializedState {
    /// Replays decoded log entries onto the state: those whose lsn lies above
    /// `base_lsn` and not above `target_lsn`, in log order.
    pub fn replay(&mut self, entries: &Vec<(u64, WalEntry)>, base_lsn: u64, target_lsn: u64)
        ensures
            final(self)@ == replay_range(old(self)@, entry_views(entries@), base_lsn, target_lsn),
    {
        let ghost all = entry_views(entries@);
        let mut i: usize = 0;
        assert(all.take(0) =~= Seq::<(u64, EntryView)>::empty());
        while i < entries.len()
            invariant
                i <= entries.len(),
                all == entry_views(entries@),
                self@ == replay_range(old(self)@, all.take(i as int), base_lsn, target_lsn),
            decreases entries.len() - i,
        {
            proof {
                let t = all.take(i + 1);
                assert(t.drop_last() =~= all.take(i as int));
                assert(t.last() == (entries@[i as int].0, entries@[i as int].1@));
            }
            let lsn = entries[i].0;
            if base_lsn < lsn && lsn <= target_lsn {
                self.apply_replayed_entry(&entries[i].1);
            }
            i += 1;
        }
        assert(all.take(entries.len() as int) =~= all);
    }
}

} // verus!
