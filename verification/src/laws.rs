//! What holds of the repository across commits, crashes and snapshots, and of
//! the answers to queries.

use vstd::prelude::*;
use crate::dsl::QueryRequest;
use crate::engine::{
    citation_places, cited_places, ids_apart, kept_count, lemma_ranking_keeps_ids_apart,
    node_id_set, opt_text, ranking, Candidate, Citation, RankedNode,
};
use crate::ordered::{Ordered, Ranked};
use crate::scalar::RankKey;
use crate::sorting::{key_sorted, lemma_stable_sort};
use crate::graph::{has_edge_key, upserted, GraphEdgeView};
use crate::model::{EdgeView, NodeView};
use crate::processor::recorded_ids;
use crate::state::{apply_entry, apply_op, apply_ops, replay_range, EntryView, OpView, RepoState};

verus! {

/// The state after the entries `entries` were committed one after the other.
pub open spec fn committed(s: RepoState, entries: Seq<EntryView>) -> RepoState
    decreases entries.len(),
{
    if entries.len() == 0 {
        s
    } else {
        apply_entry(committed(s, entries.drop_last()), entries.last())
    }
}

/// The log of the commits `entries` behind lsn `base`: the `i`-th commit has
/// lsn `base + 1 + i`.
pub open spec fn numbered(base: u64, entries: Seq<EntryView>) -> Seq<(u64, EntryView)> {
    Seq::new(entries.len(), |i: int| ((base + 1 + i) as u64, entries[i]))
}

/// Snapshot pinning: a view at lsn `base + k` shows the state after the first
/// `k` commits behind `base`, whatever was committed later.
pub proof fn lemma_view_is_pinned(s: RepoState, base: u64, entries: Seq<EntryView>, k: int)
    requires
        0 <= k <= entries.len(),
        base + entries.len() <= u64::MAX,
    ensures
        replay_range(s, numbered(base, entries), base, (base + k) as u64) == committed(
            s,
            entries.take(k),
        ),
    decreases entries.len(),
{
    let log = numbered(base, entries);
    if entries.len() == 0 {
        assert(entries.take(k) =~= entries);
    } else {
        let head = entries.drop_last();
        assert(log.drop_last() =~= numbered(base, head));
        assert(log.last() == ((base + entries.len()) as u64, entries.last()));
        if k == entries.len() {
            lemma_view_is_pinned(s, base, head, k - 1);
            assert(entries.take(k) =~= entries);
            assert(head.take(k - 1) =~= head);
            assert(replay_range(s, numbered(base, head), base, (base + k - 1) as u64)
                == replay_range(s, numbered(base, head), base, (base + k) as u64)) by {
                lemma_target_beyond(s, base, head, (base + k - 1) as u64, (base + k) as u64);
            }
        } else {
            lemma_view_is_pinned(s, base, head, k);
            assert(entries.take(k) =~= head.take(k));
        }
    }
}

/// A target at or beyond the last lsn of a log replays the whole log.
pub proof fn lemma_target_beyond(
    s: RepoState,
    base: u64,
    entries: Seq<EntryView>,
    t1: u64,
    t2: u64,
)
    requires
        base + entries.len() <= t1 <= t2,
    ensures
        replay_range(s, numbered(base, entries), base, t1) == replay_range(
            s,
            numbered(base, entries),
            base,
            t2,
        ),
    decreases entries.len(),
{
    let log = numbered(base, entries);
    if entries.len() > 0 {
        let head = entries.drop_last();
        assert(log.drop_last() =~= numbered(base, head));
        assert(log.last() == ((base + entries.len()) as u64, entries.last()));
        lemma_target_beyond(s, base, head, t1, t2);
    }
}

/// Crash recovery: replaying the log of the commits behind a base state gives
/// exactly the state after the last commit, neither less nor more.
pub proof fn lemma_restart_restores(s: RepoState, base: u64, entries: Seq<EntryView>)
    requires
        base + entries.len() <= u64::MAX,
    ensures
        replay_range(s, numbered(base, entries), base, u64::MAX) == committed(s, entries),
{
    lemma_view_is_pinned(s, base, entries, entries.len() as int);
    assert(entries.take(entries.len() as int) =~= entries);
    lemma_target_beyond(s, base, entries, (base + entries.len()) as u64, u64::MAX);
}

/// The graph edge that an edge put writes.
pub open spec fn graph_edge_of(e: EdgeView) -> GraphEdgeView {
    GraphEdgeView { source: e.source, target: e.target, relation: e.relation, weight: e.weight }
}

/// The edges of `s` with the logical key of `e`.
pub open spec fn edges_keyed_like(s: Seq<GraphEdgeView>, e: EdgeView) -> Seq<GraphEdgeView> {
    s.filter(|x: GraphEdgeView| has_edge_key(x, e.source, e.target, e.relation))
}

/// Whether the state `s` holds the edge `e` as its only edge with that logical
/// key, with the weight of `e` and with the metadata of `e`, none where that
/// is empty.
pub open spec fn holds_edge(s: RepoState, e: EdgeView) -> bool {
    &&& edges_keyed_like(s.index.edges, e) == seq![graph_edge_of(e)]
    &&& if e.metadata == Map::<Seq<char>, Seq<char>>::empty() {
        !s.edge_metadata.contains_key((e.source, e.target, e.relation))
    } else {
        s.edge_metadata.contains_key((e.source, e.target, e.relation)) && s.edge_metadata[(
            e.source,
            e.target,
            e.relation,
        )] == e.metadata
    }
}

/// After an edge put the state holds that edge, whatever it held before.
pub proof fn lemma_put_edge_holds(s: RepoState, e: EdgeView)
    ensures
        holds_edge(apply_op(s, OpView::PutEdge(e)), e),
{
    let after = apply_op(s, OpView::PutEdge(e));
    let same = |x: GraphEdgeView| has_edge_key(x, e.source, e.target, e.relation);
    let other = |x: GraphEdgeView| !has_edge_key(x, e.source, e.target, e.relation);
    let kept = s.index.edges.filter(other);
    assert(after.index.edges == kept.push(graph_edge_of(e)));
    assert forall|i: int| 0 <= i < kept.len() implies !same(#[trigger] kept[i]) by {
        s.index.edges.lemma_filter_pred(other, i);
    }
    kept.lemma_all_neg_filter_empty(same);
    kept.lemma_filter_push(graph_edge_of(e), same);
    assert(kept.filter(same) =~= Seq::<GraphEdgeView>::empty());
    assert(edges_keyed_like(after.index.edges, e) =~= seq![graph_edge_of(e)]);
}

/// The upsert law: after two successive puts of edges with the same logical
/// key, exactly one edge has that key; the later weight and the later metadata
/// win, and empty metadata in the later put clears the metadata of the
/// earlier.
pub proof fn lemma_upsert(s: RepoState, first: EdgeView, second: EdgeView)
    requires
        first.source == second.source,
        first.target == second.target,
        first.relation == second.relation,
    ensures
        holds_edge(apply_op(apply_op(s, OpView::PutEdge(first)), OpView::PutEdge(second)), second),
{
    lemma_put_edge_holds(apply_op(s, OpView::PutEdge(first)), second);
}

/// Replay of an upsert: a log that holds a put of an edge and then a put of an
/// edge with the same logical key replays to a state that holds the later
/// edge, as the state did before the restart.
pub proof fn lemma_upsert_survives_replay(s: RepoState, base: u64, first: EdgeView, second: EdgeView)
    requires
        first.source == second.source,
        first.target == second.target,
        first.relation == second.relation,
        base + 2 <= u64::MAX,
    ensures
        ({
            let log = numbered(
                base,
                seq![
                    EntryView::Transaction(seq![OpView::PutEdge(first)]),
                    EntryView::Transaction(seq![OpView::PutEdge(second)]),
                ],
            );
            &&& replay_range(s, log, base, u64::MAX) == apply_op(
                apply_op(s, OpView::PutEdge(first)),
                OpView::PutEdge(second),
            )
            &&& holds_edge(replay_range(s, log, base, u64::MAX), second)
        }),
{
    let t1 = EntryView::Transaction(seq![OpView::PutEdge(first)]);
    let t2 = EntryView::Transaction(seq![OpView::PutEdge(second)]);
    let entries = seq![t1, t2];
    lemma_restart_restores(s, base, entries);
    assert(entries.drop_last() =~= seq![t1]);
    assert(seq![t1].drop_last() =~= Seq::<EntryView>::empty());
    assert(committed(s, seq![t1].drop_last()) == s);
    assert(committed(s, seq![t1]) == apply_entry(s, t1));
    let ops1 = seq![OpView::PutEdge(first)];
    let ops2 = seq![OpView::PutEdge(second)];
    assert(ops1.drop_last() =~= Seq::<OpView>::empty());
    assert(ops2.drop_last() =~= Seq::<OpView>::empty());
    let s1 = apply_op(s, OpView::PutEdge(first));
    assert(apply_ops(s, ops1.drop_last()) == s);
    assert(apply_ops(s, ops1) == s1);
    assert(apply_ops(s1, ops2.drop_last()) == s1);
    assert(apply_ops(s1, ops2) == apply_op(s1, OpView::PutEdge(second)));
    lemma_upsert(s, first, second);
}

/// The idempotency records after `ids` were recorded under `key`: a key that
/// is recorded keeps its record.
pub open spec fn record_once(
    m: Map<Seq<char>, Seq<u64>>,
    key: Seq<char>,
    ids: Seq<u64>,
) -> Map<Seq<char>, Seq<u64>> {
    if m.contains_key(key) {
        m
    } else {
        m.insert(key, ids)
    }
}

/// Idempotency keys are write-once: recording a key again changes nothing,
/// and no later record changes what a key holds.
pub proof fn lemma_idempotency_is_write_once(
    m: Map<Seq<char>, Seq<u64>>,
    key: Seq<char>,
    first: Seq<u64>,
    other_key: Seq<char>,
    later: Seq<u64>,
)
    ensures
        record_once(record_once(m, key, first), key, later) == record_once(m, key, first),
        record_once(record_once(m, key, first), other_key, later).contains_key(key),
        record_once(record_once(m, key, first), other_key, later)[key] == record_once(
            m,
            key,
            first,
        )[key],
{
}

/// Idempotent ingest: once node ids are recorded under an idempotency key, a
/// request with that key is answered with those ids, whatever its content
/// hash is and whatever was recorded since.
pub proof fn lemma_second_ingest_returns_first_ids(
    m: Map<Seq<char>, Seq<u64>>,
    key: Seq<char>,
    ids: Seq<u64>,
    hash: Seq<char>,
    other_key: Seq<char>,
    later: Seq<u64>,
)
    ensures
        recorded_ids(record_once(m, key, ids), Some(key), hash) == Some(
            record_once(m, key, ids)[key],
        ),
        recorded_ids(record_once(record_once(m, key, ids), other_key, later), Some(key), hash)
            == recorded_ids(record_once(m, key, ids), Some(key), hash),
{
}

/// Whether `nodes` are the evidence nodes of a ranking of `scored` under the
/// limit `top_k`: the best of them, in ranking order.
pub open spec fn is_evidence_of(scored: Seq<RankedNode>, top_k: usize, nodes: Seq<RankedNode>) -> bool {
    &&& nodes.len() == kept_count(scored.len() as int, top_k)
    &&& ranking(scored).len() == scored.len()
    &&& forall|i: int| 0 <= i < nodes.len() ==> #[trigger] nodes[i] == ranking(scored)[i].1
}

/// The evidence of a query is bounded and holds no node twice: where the
/// scored nodes have the ids of candidates that come by increasing id, the
/// evidence holds at most `top_k` nodes with different ids, and every node
/// that the limit cut off is absent from it and ranks behind every node of it:
/// its score is not higher, and at the same score its id is greater.
pub proof fn lemma_evidence_is_bounded_and_distinct(
    candidates: Seq<Candidate>,
    scored: Seq<RankedNode>,
    top_k: usize,
    nodes: Seq<RankedNode>,
)
    requires
        forall|i: int, j: int|
            0 <= i < j < candidates.len() ==> (#[trigger] candidates[i]).id < (
            #[trigger] candidates[j]).id,
        scored.len() == candidates.len(),
        forall|i: int| 0 <= i < scored.len() ==> (#[trigger] scored[i]).id == candidates[i].id,
        is_evidence_of(scored, top_k, nodes),
    ensures
        nodes.len() <= top_k,
        ids_apart(nodes),
        forall|j: int|
            nodes.len() <= j < scored.len() ==> !node_id_set(nodes).contains(
                (#[trigger] ranking(scored)[j]).1.id,
            ),
        forall|i: int, j: int|
            0 <= i < nodes.len() <= j < scored.len() ==> <RankKey as Ranked>::key_lt(
                (#[trigger] ranking(scored)[i]).0,
                (#[trigger] ranking(scored)[j]).0,
            ),
{
    let order = ranking(scored);
    assert(ids_apart(scored)) by {
        assert forall|a: int, b: int| 0 <= a < b < scored.len() implies (#[trigger] scored[a]).id != (
        #[trigger] scored[b]).id by {
            assert(candidates[a].id < candidates[b].id);
        }
    }
    lemma_ranking_keeps_ids_apart(scored);
    lemma_stable_sort(crate::engine::keyed_nodes(scored));
    crate::engine::lemma_ranking_keys(scored);
    assert forall|i: int, j: int| 0 <= i < j < nodes.len() implies (#[trigger] nodes[i]).id != (
    #[trigger] nodes[j]).id by {
        assert(nodes[i] == order[i].1 && nodes[j] == order[j].1);
        assert(order[i].1.id != order[j].1.id);
    }
    assert forall|j: int| nodes.len() <= j < scored.len() implies !node_id_set(nodes).contains(
        (#[trigger] order[j]).1.id,
    ) by {
        if node_id_set(nodes).contains(order[j].1.id) {
            let i = choose|i: int| 0 <= i < nodes.len() && (#[trigger] nodes[i]).id == order[j].1.id;
            assert(nodes[i] == order[i].1);
            assert(order[i].1.id != order[j].1.id);
        }
    }
    assert forall|i: int, j: int| 0 <= i < nodes.len() <= j < scored.len() implies <RankKey as Ranked>::key_lt(
        (#[trigger] order[i]).0,
        (#[trigger] order[j]).0,
    ) by {
        assert(!<RankKey as Ranked>::key_lt(order[j].0@, order[i].0@));
        assert(order[i].1.id != order[j].1.id);
        assert(order[i].0.id == order[i].1.id && order[j].0.id == order[j].1.id);
        <RankKey as Ordered>::lemma_total(order[i].0, order[j].0);
    }
}

/// A query with a candidate has evidence: where there is a scored node and
/// the limit is at least one, the evidence is not empty.
pub proof fn lemma_candidates_give_evidence(scored: Seq<RankedNode>, top_k: usize, nodes: Seq<RankedNode>)
    requires
        scored.len() > 0,
        top_k >= 1,
        is_evidence_of(scored, top_k, nodes),
    ensures
        nodes.len() > 0,
        nodes[0] == ranking(scored)[0].1,
{
}

/// Evidence comes from the state that was read: where the scored nodes have
/// the ids of candidates that are nodes of a state, every node of the evidence
/// is a node of that state. A query on a pinned view therefore shows no node
/// that was committed after the view was pinned.
pub proof fn lemma_evidence_is_of_state(
    stored: Map<u64, NodeView>,
    candidates: Seq<Candidate>,
    scored: Seq<RankedNode>,
    top_k: usize,
    nodes: Seq<RankedNode>,
)
    requires
        forall|i: int|
            0 <= i < candidates.len() ==> stored.contains_key((#[trigger] candidates[i]).id),
        scored.len() == candidates.len(),
        forall|i: int| 0 <= i < scored.len() ==> (#[trigger] scored[i]).id == candidates[i].id,
        is_evidence_of(scored, top_k, nodes),
    ensures
        forall|i: int| 0 <= i < nodes.len() ==> stored.contains_key((#[trigger] nodes[i]).id),
{
    let items = crate::engine::keyed_nodes(scored);
    let order = ranking(scored);
    lemma_stable_sort(items);
    crate::sorting::lemma_sort_same_items(items);
    assert forall|i: int| 0 <= i < nodes.len() implies stored.contains_key(
        (#[trigger] nodes[i]).id,
    ) by {
        assert(nodes[i] == order[i].1);
        assert(order.contains(order[i]));
        assert(items.contains(order[i]));
        let a = choose|a: int| 0 <= a < items.len() && items[a] == order[i];
        assert(order[i].1 == scored[a]);
        assert(stored.contains_key(candidates[a].id));
    }
}

/// Whether `id` is the snapshot id of a response to `request` from a
/// repository whose current snapshot id is `current`: the pinned one, else
/// the current one.
pub open spec fn is_response_snapshot(request: QueryRequest, current: Seq<char>, id: Option<String>) -> bool {
    opt_text(id) == Some(
        match request.snapshot_id {
            Some(pinned) => pinned@,
            None => current,
        },
    )
}

/// Reproducible queries: two answers to one request that rest on the same
/// scored candidates and the same snapshot hold the same evidence nodes in
/// the same order, the same citations and the same snapshot id.
pub proof fn lemma_query_is_reproducible(
    request: QueryRequest,
    current: Seq<char>,
    scored: Seq<RankedNode>,
    first_nodes: Seq<RankedNode>,
    first_citations: Seq<Citation>,
    first_snapshot: Option<String>,
    second_nodes: Seq<RankedNode>,
    second_citations: Seq<Citation>,
    second_snapshot: Option<String>,
)
    requires
        is_evidence_of(scored, request.top_k, first_nodes),
        is_evidence_of(scored, request.top_k, second_nodes),
        citation_places(
            first_nodes,
            first_citations,
            cited_places(first_nodes, first_nodes.len() as int),
        ),
        citation_places(
            second_nodes,
            second_citations,
            cited_places(second_nodes, second_nodes.len() as int),
        ),
        is_response_snapshot(request, current, first_snapshot),
        is_response_snapshot(request, current, second_snapshot),
    ensures
        first_nodes == second_nodes,
        first_citations.len() == second_citations.len(),
        forall|i: int|
            0 <= i < first_citations.len() ==> (#[trigger] first_citations[i]).source@
                == second_citations[i].source@ && first_citations[i].node_id
                == second_citations[i].node_id && first_citations[i].span
                == second_citations[i].span && first_citations[i].confidence
                == second_citations[i].confidence,
        opt_text(first_snapshot) == opt_text(second_snapshot),
{
    assert(first_nodes =~= second_nodes);
    let places = cited_places(first_nodes, first_nodes.len() as int);
    assert forall|i: int| 0 <= i < first_citations.len() implies (#[trigger] first_citations[i]).source@
        == second_citations[i].source@ && first_citations[i].node_id == second_citations[i].node_id
        && first_citations[i].span == second_citations[i].span && first_citations[i].confidence
        == second_citations[i].confidence by {
        let n = first_nodes[places[i]];
        assert(crate::engine::cites(first_citations[i], n));
        assert(crate::engine::cites(second_citations[i], n));
    }
}

} // verus!
