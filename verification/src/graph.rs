//! The graph index: directed, labelled, weighted edges in insertion order.

use vstd::prelude::*;
use crate::ordered::Duplicate;
use crate::sorted_map::{strictly_sorted, SortedSet};
use crate::sorting::{sort_by_key, stable_sort};
use crate::seqs::{lemma_filter_bounds, lemma_filter_step};

verus! {

/// What a stored edge holds, as mathematical values.
pub struct GraphEdgeView {
    pub source: u64,
    pub target: u64,
    pub relation: Seq<char>,
    pub weight: u32,
}

/// One stored edge. `weight` is a single-precision number by bit pattern.
#[derive(Debug, PartialEq, Eq)]
pub struct GraphEdge {
    pub source: u64,
    pub target: u64,
    pub relation: String,
    pub weight: u32,
}

impl View for GraphEdge {
    type V = GraphEdgeView;

    open spec fn view(&self) -> GraphEdgeView {
        GraphEdgeView {
            source: self.source,
            target: self.target,
            relation: self.relation@,
            weight: self.weight,
        }
    }
}

impl Duplicate for GraphEdge {
    fn duplicate(&self) -> (r: Self) {
        GraphEdge {
            source: self.source,
            target: self.target,
            relation: self.relation.clone(),
            weight: self.weight,
        }
    }
}

/// What `neighbors` reports of an edge: `(target, relation, weight)`.
pub type EdgeData = (u64, String, u32);

/// The views of the edges of `v`.
pub open spec fn edge_views(v: Seq<GraphEdge>) -> Seq<GraphEdgeView> {
    v.map_values(|e: GraphEdge| e@)
}

/// Whether `e` has the logical key `(source, target, relation)`.
pub open spec fn has_edge_key(e: GraphEdgeView, source: u64, target: u64, relation: Seq<char>) -> bool {
    e.source == source && e.target == target && e.relation == relation
}

/// The edges of `s` without those that have the given logical key, followed by
/// `e`.
pub open spec fn upserted(s: Seq<GraphEdgeView>, e: GraphEdgeView) -> Seq<GraphEdgeView> {
    s.filter(|x: GraphEdgeView| !has_edge_key(x, e.source, e.target, e.relation)).push(e)
}

/// The edges of `s` that neither start nor end at `id`.
pub open spec fn without_node(s: Seq<GraphEdgeView>, id: u64) -> Seq<GraphEdgeView> {
    s.filter(|x: GraphEdgeView| x.source != id && x.target != id)
}

/// The edges of `s` that do not run from `source` to `target`.
pub open spec fn without_link(s: Seq<GraphEdgeView>, source: u64, target: u64) -> Seq<
    GraphEdgeView,
> {
    s.filter(|x: GraphEdgeView| !(x.source == source && x.target == target))
}

/// The edges of `s` that start at `id`, in order.
pub open spec fn outgoing(s: Seq<GraphEdgeView>, id: u64) -> Seq<GraphEdgeView> {
    s.filter(|x: GraphEdgeView| x.source == id)
}

/// Whether `id` is an endpoint of some edge of `s`.
pub open spec fn mentions(s: Seq<GraphEdgeView>, id: u64) -> bool {
    exists|i: int| 0 <= i < s.len() && ((#[trigger] s[i]).source == id || s[i].target == id)
}

/// A graph as the list of its edges, in the order in which they were added.
#[derive(Debug, PartialEq, Eq)]
pub struct AdjacencyGraph {
    edges: Vec<GraphEdge>,
}

impl View for AdjacencyGraph {
    type V = Seq<GraphEdgeView>;

    closed spec fn view(&self) -> Seq<GraphEdgeView> {
        edge_views(self.edges@)
    }
}

impl AdjacencyGraph {
    /// The graph without edges.
    pub fn new() -> (g: Self)
        ensures
            g@ == Seq::<GraphEdgeView>::empty(),
    {
        let g = AdjacencyGraph { edges: Vec::new() };
        assert(g@ =~= Seq::<GraphEdgeView>::empty());
        g
    }

    /// Appends an edge, whatever edges are there already.
    pub fn add_edge(&mut self, source: u64, target: u64, relation: &str, weight: u32)
        ensures
            final(self)@ == old(self)@.push(
                GraphEdgeView { source, target, relation: relation@, weight },
            ),
    {
        let e = GraphEdge { source, target, relation: relation.to_owned(), weight };
        let ghost before = self.edges@;
        self.edges.push(e);
        assert(edge_views(self.edges@) =~= edge_views(before).push(e@));
    }

    /// The edges that the chosen filter keeps, copied in order.
    fn filtered(&self, mode: u8, a: u64, b: u64, relation: &str) -> (out: Vec<GraphEdge>)
        requires
            mode < 3,
        ensures
            mode == 0 ==> edge_views(out@) == self@.filter(
                |x: GraphEdgeView| !has_edge_key(x, a, b, relation@),
            ),
            mode == 1 ==> edge_views(out@) == without_node(self@, a),
            mode == 2 ==> edge_views(out@) == without_link(self@, a, b),
    {
        let ghost p0 = |x: GraphEdgeView| !has_edge_key(x, a, b, relation@);
        let ghost p1 = |x: GraphEdgeView| x.source != a && x.target != a;
        let ghost p2 = |x: GraphEdgeView| !(x.source == a && x.target == b);
        let ghost pred = if mode == 0 {
            p0
        } else if mode == 1 {
            p1
        } else {
            p2
        };
        let mut out: Vec<GraphEdge> = Vec::new();
        let mut i: usize = 0;
        proof {
            lemma_filter_bounds(self@, pred);
            assert(edge_views(out@) =~= Seq::<GraphEdgeView>::empty());
        }
        while i < self.edges.len()
            invariant
                i <= self.edges.len(),
                mode < 3,
                pred == (if mode == 0 {
                    p0
                } else if mode == 1 {
                    p1
                } else {
                    p2
                }),
                p0 == (|x: GraphEdgeView| !has_edge_key(x, a, b, relation@)),
                p1 == (|x: GraphEdgeView| x.source != a && x.target != a),
                p2 == (|x: GraphEdgeView| !(x.source == a && x.target == b)),
                edge_views(out@) == self@.take(i as int).filter(pred),
            decreases self.edges.len() - i,
        {
            let e = &self.edges[i];
            assert(self@[i as int] == e@);
            let keep = if mode == 0 {
                !(e.source == a && e.target == b && crate::text::same_text(
                    e.relation.as_str(),
                    relation,
                ))
            } else if mode == 1 {
                e.source != a && e.target != a
            } else {
                !(e.source == a && e.target == b)
            };
            assert(keep == pred(e@));
            proof {
                lemma_filter_step(self@, pred, i as int);
            }
            if keep {
                let ghost prev = out@;
                let copy = e.duplicate();
                out.push(copy);
                assert(edge_views(out@) =~= edge_views(prev).push(e@));
            }
            i += 1;
        }
        proof {
            lemma_filter_bounds(self@, pred);
        }
        out
    }

    /// Puts `(source, target, relation)` at `weight`: every edge with that
    /// logical key leaves, and the new edge is appended.
    pub fn upsert_edge(&mut self, source: u64, target: u64, relation: &str, weight: u32)
        ensures
            final(self)@ == upserted(
                old(self)@,
                GraphEdgeView { source, target, relation: relation@, weight },
            ),
    {
        let mut edges = self.filtered(0, source, target, relation);
        let e = GraphEdge { source, target, relation: relation.to_owned(), weight };
        let ghost prev = edges@;
        edges.push(e);
        assert(edge_views(edges@) =~= edge_views(prev).push(e@));
        self.edges = edges;
    }

    /// Removes every edge from `source` to `target`, whatever its relation.
    /// Returns whether there was one.
    pub fn remove_edge(&mut self, source: u64, target: u64) -> (removed: bool)
        ensures
            final(self)@ == without_link(old(self)@, source, target),
            removed == (final(self)@.len() < old(self)@.len()),
    {
        let before = self.edges.len();
        let edges = self.filtered(2, source, target, "");
        proof {
            self@.lemma_filter_len(|x: GraphEdgeView| !(x.source == source && x.target == target));
        }
        self.edges = edges;
        self.edges.len() < before
    }

    /// Removes every edge that starts or ends at `id`.
    pub fn remove_node(&mut self, id: u64)
        ensures
            final(self)@ == without_node(old(self)@, id),
    {
        let edges = self.filtered(1, id, 0, "");
        self.edges = edges;
    }

    /// The number of edges.
    pub fn edge_count(&self) -> (n: usize)
        ensures
            n == self@.len(),
    {
        self.edges.len()
    }

    /// The `i`-th edge in insertion order.
    pub fn edge_at(&self, i: usize) -> (e: &GraphEdge)
        requires
            i < self@.len(),
        ensures
            e@ == self@[i as int],
    {
        &self.edges[i]
    }

    /// The edges that start at `id`, as `(target, relation, weight)`, in
    /// insertion order.
    pub fn neighbors(&self, id: u64) -> (out: Vec<EdgeData>)
        ensures
            out@.len() == outgoing(self@, id).len(),
            forall|i: int|
                0 <= i < out@.len() ==> {
                    let e = #[trigger] outgoing(self@, id)[i];
                    out@[i].0 == e.target && out@[i].1@ == e.relation && out@[i].2 == e.weight
                },
    {
        let ghost pred = |x: GraphEdgeView| x.source == id;
        let mut out: Vec<EdgeData> = Vec::new();
        let mut i: usize = 0;
        proof {
            lemma_filter_bounds(self@, pred);
        }
        while i < self.edges.len()
            invariant
                i <= self.edges.len(),
                pred == (|x: GraphEdgeView| x.source == id),
                out@.len() == self@.take(i as int).filter(pred).len(),
                forall|j: int|
                    0 <= j < out@.len() ==> {
                        let e = #[trigger] self@.take(i as int).filter(pred)[j];
                        out@[j].0 == e.target && out@[j].1@ == e.relation && out@[j].2 == e.weight
                    },
            decreases self.edges.len() - i,
        {
            let e = &self.edges[i];
            assert(self@[i as int] == e@);
            proof {
                lemma_filter_step(self@, pred, i as int);
            }
            if e.source == id {
                out.push((e.target, e.relation.clone(), e.weight));
            }
            i += 1;
        }
        proof {
            lemma_filter_bounds(self@, pred);
        }
        out
    }

    /// Whether `id` is an endpoint of some edge.
    pub fn contains_node(&self, id: u64) -> (b: bool)
        ensures
            b == mentions(self@, id),
    {
        let mut i: usize = 0;
        while i < self.edges.len()
            invariant
                i <= self.edges.len(),
                forall|j: int|
                    0 <= j < i ==> (#[trigger] self@[j]).source != id && self@[j].target != id,
            decreases self.edges.len() - i,
        {
            let e = &self.edges[i];
            assert(self@[i as int] == e@);
            if e.source == id || e.target == id {
                return true;
            }
            i += 1;
        }
        false
    }
}


/// One step of a breadth-first walk: a node, its distance from the start and
/// the place in the walk of the node it was reached from.
///
/// Places count the start as 0 and the `i`-th visit as `i + 1`.
#[derive(Debug, Clone, Copy, PartialEq, Eq)]
pub struct Visit {
    pub node: u64,
    pub hop: u8,
    pub parent: usize,
}

/// Whether a relation may be followed: an empty filter allows every relation.
pub open spec fn relation_allowed(filter: Set<Seq<char>>, relation: Seq<char>) -> bool {
    filter == Set::<Seq<char>>::empty() || filter.contains(relation)
}

/// The node at place `q` of the walk `v` from `start`.
pub open spec fn walk_node(start: u64, v: Seq<Visit>, q: int) -> u64 {
    if q == 0 {
        start
    } else {
        v[q - 1].node
    }
}

/// The distance of the node at place `q` of the walk `v`.
pub open spec fn walk_hop(v: Seq<Visit>, q: int) -> int {
    if q == 0 {
        0
    } else {
        v[q - 1].hop as int
    }
}

/// Whether `id` is in the walk at a distance of at most `h`.
pub open spec fn reached_within(start: u64, v: Seq<Visit>, id: u64, h: int) -> bool {
    exists|q: int| 0 <= q <= v.len() && #[trigger] walk_node(start, v, q) == id && walk_hop(v, q) <= h
}

/// Whether the `i`-th visit is justified: its parent comes earlier in the walk,
/// lies one hop nearer and has an allowed edge to it.
pub open spec fn visit_ok(
    edges: Seq<GraphEdgeView>,
    filter: Set<Seq<char>>,
    start: u64,
    max_hops: u8,
    v: Seq<Visit>,
    i: int,
) -> bool {
    &&& 1 <= v[i].hop <= max_hops
    &&& v[i].parent <= i
    &&& walk_hop(v, v[i].parent as int) + 1 == v[i].hop
    &&& exists|e: int|
        0 <= e < edges.len() && (#[trigger] edges[e]).source == walk_node(
            start,
            v,
            v[i].parent as int,
        ) && edges[e].target == v[i].node && relation_allowed(filter, edges[e].relation)
}

/// Whether every allowed edge `e` that leaves place `q` ends in the walk, at
/// most one hop further, for the places before `qn` and, at place `qn`, for
/// the edges before `en`. Places at `max_hops` are not expanded.
pub open spec fn closed_upto(
    edges: Seq<GraphEdgeView>,
    filter: Set<Seq<char>>,
    start: u64,
    max_hops: u8,
    v: Seq<Visit>,
    qn: int,
    en: int,
) -> bool {
    forall|q: int, e: int|
        0 <= q <= v.len() && 0 <= e < edges.len() && (q < qn || (q == qn && e < en)) && walk_hop(
            v,
            q,
        ) < max_hops && (#[trigger] edges[e]).source == #[trigger] walk_node(start, v, q)
            && relation_allowed(filter, edges[e].relation) ==> reached_within(
            start,
            v,
            edges[e].target,
            walk_hop(v, q) + 1,
        )
}

/// Whether the places of the walk hold different nodes at distances that never
/// decrease.
pub open spec fn walk_ordered(start: u64, v: Seq<Visit>) -> bool {
    forall|i: int, j: int|
        0 <= i < j <= v.len() ==> #[trigger] walk_node(start, v, i) != #[trigger] walk_node(
            start,
            v,
            j,
        ) && walk_hop(v, i) <= walk_hop(v, j)
}

/// Whether the edge at place `e` leads from `a` to `b` with an allowed
/// relation.
pub open spec fn links_at(
    edges: Seq<GraphEdgeView>,
    filter: Set<Seq<char>>,
    e: int,
    a: u64,
    b: u64,
) -> bool {
    0 <= e < edges.len() && edges[e].source == a && edges[e].target == b && relation_allowed(
        filter,
        edges[e].relation,
    )
}

/// Whether an edge with an allowed relation leads from `a` to `b`.
pub open spec fn linked(edges: Seq<GraphEdgeView>, filter: Set<Seq<char>>, a: u64, b: u64) -> bool {
    exists|e: int|
        0 <= e < edges.len() && (#[trigger] edges[e]).source == a && edges[e].target == b
            && relation_allowed(filter, edges[e].relation)
}

/// Whether an allowed edge from `a` to `b` is stored before every allowed edge
/// from `a` to `c`.
pub open spec fn stored_before(
    edges: Seq<GraphEdgeView>,
    filter: Set<Seq<char>>,
    a: u64,
    b: u64,
    c: u64,
) -> bool {
    exists|e: int|
        #[trigger] links_at(edges, filter, e, a, b) && forall|k: int|
            0 <= k <= e ==> !#[trigger] links_at(edges, filter, k, a, c)
}

/// Whether no place before its parent has an allowed edge to the `i`-th visit.
pub open spec fn parent_is_first(
    edges: Seq<GraphEdgeView>,
    filter: Set<Seq<char>>,
    start: u64,
    v: Seq<Visit>,
    i: int,
) -> bool {
    forall|q: int|
        0 <= q < v[i].parent ==> !linked(edges, filter, #[trigger] walk_node(start, v, q), v[i].node)
}

/// Whether the visits stand in the order in which a queue hands them out:
/// each node under the first place that has an allowed edge to it, the visits
/// in the order of their parents, and under one parent in the order in which
/// the edges to them are stored.
pub open spec fn walk_in_order(
    edges: Seq<GraphEdgeView>,
    filter: Set<Seq<char>>,
    start: u64,
    v: Seq<Visit>,
) -> bool {
    &&& forall|i: int| 0 <= i < v.len() ==> #[trigger] parent_is_first(edges, filter, start, v, i)
    &&& forall|i: int, j: int|
        0 <= i < j < v.len() ==> (#[trigger] v[i]).parent <= (#[trigger] v[j]).parent
    &&& forall|i: int, j: int|
        0 <= i < j < v.len() && (#[trigger] v[i]).parent == (#[trigger] v[j]).parent
            ==> stored_before(
            edges,
            filter,
            walk_node(start, v, v[i].parent as int),
            v[i].node,
            v[j].node,
        )
}

/// Whether an allowed edge stored before place `j` leads from the node at
/// place `pos` of the walk to the `i`-th visit.
pub open spec fn linked_before(
    edges: Seq<GraphEdgeView>,
    filter: Set<Seq<char>>,
    start: u64,
    v: Seq<Visit>,
    pos: int,
    j: int,
    i: int,
) -> bool {
    exists|e: int| 0 <= e < j && #[trigger] links_at(edges, filter, e, walk_node(start, v, pos), v[i].node)
}

/// Whether `v` is the breadth-first walk of `edges` from `start` over at most
/// `max_hops` hops along allowed relations: every visit is justified, no node
/// is visited twice, distances never decrease, every allowed edge that leaves
/// a node nearer than `max_hops` ends at a visited node at most one hop
/// further, and the visits stand in the order of a queue.
pub open spec fn is_traversal(
    edges: Seq<GraphEdgeView>,
    filter: Set<Seq<char>>,
    start: u64,
    max_hops: u8,
    v: Seq<Visit>,
) -> bool {
    &&& forall|i: int| 0 <= i < v.len() ==> #[trigger] visit_ok(edges, filter, start, max_hops, v, i)
    &&& walk_ordered(start, v)
    &&& closed_upto(edges, filter, start, max_hops, v, v.len() as int + 1, 0)
    &&& walk_in_order(edges, filter, start, v)
}

/// Whether `p` is a path along allowed edges: one node or more, each linked
/// to the next by an edge with an allowed relation.
pub open spec fn is_allowed_path(edges: Seq<GraphEdgeView>, filter: Set<Seq<char>>, p: Seq<u64>) -> bool {
    &&& p.len() > 0
    &&& forall|i: int| 0 <= i < p.len() - 1 ==> linked(edges, filter, #[trigger] p[i], p[i + 1])
}

/// A breadth-first walk misses nothing: the end of every allowed path from
/// the start that is short enough is in the walk, at a distance that is not
/// greater than the length of the path.
pub proof fn lemma_walk_reaches(
    edges: Seq<GraphEdgeView>,
    filter: Set<Seq<char>>,
    start: u64,
    max_hops: u8,
    v: Seq<Visit>,
    p: Seq<u64>,
)
    requires
        is_traversal(edges, filter, start, max_hops, v),
        is_allowed_path(edges, filter, p),
        p[0] == start,
        p.len() - 1 <= max_hops,
    ensures
        reached_within(start, v, p.last(), p.len() - 1),
    decreases p.len(),
{
    if p.len() == 1 {
        assert(walk_node(start, v, 0) == start && walk_hop(v, 0) <= 0);
    } else {
        let head = p.drop_last();
        assert forall|i: int| 0 <= i < head.len() - 1 implies linked(
            edges,
            filter,
            #[trigger] head[i],
            head[i + 1],
        ) by {
            assert(head[i] == p[i] && head[i + 1] == p[i + 1]);
            assert(linked(edges, filter, p[i], p[i + 1]));
        }
        lemma_walk_reaches(edges, filter, start, max_hops, v, head);
        let n = p.len() as int;
        assert(head.last() == p[n - 2]);
        let q = choose|q: int|
            0 <= q <= v.len() && #[trigger] walk_node(start, v, q) == p[n - 2] && walk_hop(v, q) <= n
                - 2;
        assert(linked(edges, filter, p[n - 2], p[n - 2 + 1]));
        let e = choose|e: int|
            0 <= e < edges.len() && (#[trigger] edges[e]).source == p[n - 2] && edges[e].target
                == p[n - 2 + 1] && relation_allowed(filter, edges[e].relation);
        assert(edges[e].source == walk_node(start, v, q));
        assert(reached_within(start, v, edges[e].target, walk_hop(v, q) + 1));
        let r = choose|r: int|
            0 <= r <= v.len() && #[trigger] walk_node(start, v, r) == edges[e].target && walk_hop(
                v,
                r,
            ) <= walk_hop(v, q) + 1;
        assert(walk_node(start, v, r) == p.last() && walk_hop(v, r) <= n - 1);
    }
}

/// A breadth-first walk invents nothing: an allowed path leads from the start
/// to every place of the walk, and its length is the distance of the place.
pub proof fn lemma_walk_is_reached(
    edges: Seq<GraphEdgeView>,
    filter: Set<Seq<char>>,
    start: u64,
    max_hops: u8,
    v: Seq<Visit>,
    q: int,
) -> (p: Seq<u64>)
    requires
        is_traversal(edges, filter, start, max_hops, v),
        0 <= q <= v.len(),
    ensures
        is_allowed_path(edges, filter, p),
        p[0] == start,
        p.last() == walk_node(start, v, q),
        p.len() - 1 == walk_hop(v, q),
    decreases q,
{
    if q == 0 {
        seq![start]
    } else {
        let i = q - 1;
        assert(visit_ok(edges, filter, start, max_hops, v, i));
        let parent = v[i].parent as int;
        let head = lemma_walk_is_reached(edges, filter, start, max_hops, v, parent);
        let p = head.push(v[i].node);
        assert forall|k: int| 0 <= k < p.len() - 1 implies linked(
            edges,
            filter,
            #[trigger] p[k],
            p[k + 1],
        ) by {
            if k < head.len() - 1 {
                assert(p[k] == head[k] && p[k + 1] == head[k + 1]);
                assert(linked(edges, filter, head[k], head[k + 1]));
            } else {
                assert(p[k] == head.last());
                assert(p[k + 1] == v[i].node);
            }
        }
        p
    }
}

/// Every place of one breadth-first walk has a place in every other, at a
/// distance that is not greater.
proof fn lemma_walk_shares_nodes(
    edges: Seq<GraphEdgeView>,
    filter: Set<Seq<char>>,
    start: u64,
    max_hops: u8,
    v: Seq<Visit>,
    w: Seq<Visit>,
    q: int,
) -> (r: int)
    requires
        is_traversal(edges, filter, start, max_hops, v),
        is_traversal(edges, filter, start, max_hops, w),
        0 <= q <= v.len(),
    ensures
        0 <= r <= w.len(),
        walk_node(start, w, r) == walk_node(start, v, q),
        walk_hop(w, r) <= walk_hop(v, q),
{
    let p = lemma_walk_is_reached(edges, filter, start, max_hops, v, q);
    if q > 0 {
        assert(visit_ok(edges, filter, start, max_hops, v, q - 1));
    }
    lemma_walk_reaches(edges, filter, start, max_hops, w, p);
    choose|r: int|
        0 <= r <= w.len() && #[trigger] walk_node(start, w, r) == p.last() && walk_hop(w, r)
            <= p.len() - 1
}

/// Where two breadth-first walks agree before the visit `k`, and the node of
/// that visit of `v` stands later in `w`, the parent of that visit of `w` is
/// not later than the parent of the visit of `v`.
proof fn lemma_later_node(
    edges: Seq<GraphEdgeView>,
    filter: Set<Seq<char>>,
    start: u64,
    max_hops: u8,
    v: Seq<Visit>,
    w: Seq<Visit>,
    k: int,
    m: int,
)
    requires
        is_traversal(edges, filter, start, max_hops, v),
        is_traversal(edges, filter, start, max_hops, w),
        0 <= k < v.len(),
        k < m < w.len(),
        forall|i: int| 0 <= i < k ==> v[i] == w[i],
        w[m].node == v[k].node,
    ensures
        w[k].parent <= w[m].parent <= v[k].parent,
{
    assert(visit_ok(edges, filter, start, max_hops, v, k));
    assert(parent_is_first(edges, filter, start, w, m));
    let px = v[k].parent as int;
    if px < w[m].parent {
        if px > 0 {
            assert(v[px - 1] == w[px - 1]);
        }
        assert(walk_node(start, w, px) == walk_node(start, v, px));
        assert(!linked(edges, filter, walk_node(start, w, px), w[m].node));
    }
}

/// Two breadth-first walks from one start agree in the visits that both have.
proof fn lemma_walks_agree(
    edges: Seq<GraphEdgeView>,
    filter: Set<Seq<char>>,
    start: u64,
    max_hops: u8,
    v: Seq<Visit>,
    w: Seq<Visit>,
    n: int,
)
    requires
        is_traversal(edges, filter, start, max_hops, v),
        is_traversal(edges, filter, start, max_hops, w),
        0 <= n <= v.len(),
        n <= w.len(),
    ensures
        forall|i: int| 0 <= i < n ==> v[i] == w[i],
    decreases n,
{
    if n > 0 {
        let k = n - 1;
        lemma_walks_agree(edges, filter, start, max_hops, v, w, k);
        assert forall|q: int| 0 <= q <= k implies walk_node(start, v, q) == walk_node(start, w, q)
            && walk_hop(v, q) == walk_hop(w, q) by {
            if q > 0 {
                assert(v[q - 1] == w[q - 1]);
            }
        }
        let x = v[k];
        let y = w[k];
        assert(visit_ok(edges, filter, start, max_hops, v, k));
        assert(visit_ok(edges, filter, start, max_hops, w, k));
        assert(parent_is_first(edges, filter, start, v, k));
        assert(parent_is_first(edges, filter, start, w, k));
        let px = x.parent as int;
        let py = y.parent as int;
        let rx = lemma_walk_shares_nodes(edges, filter, start, max_hops, v, w, k + 1);
        let ry = lemma_walk_shares_nodes(edges, filter, start, max_hops, w, v, k + 1);
        assert(walk_node(start, v, k + 1) == x.node);
        assert(walk_node(start, w, k + 1) == y.node);
        if rx <= k {
            assert(walk_node(start, v, rx) != walk_node(start, v, k + 1));
        }
        if ry <= k {
            assert(walk_node(start, w, ry) != walk_node(start, w, k + 1));
        }
        let m = rx - 1;
        let l = ry - 1;
        assert(w[m].node == x.node);
        assert(v[l].node == y.node);
        if m > k {
            if l == k {
                assert(walk_node(start, w, k + 1) != walk_node(start, w, m + 1));
            }
            lemma_later_node(edges, filter, start, max_hops, v, w, k, m);
            assert forall|i: int| 0 <= i < k implies w[i] == v[i] by {}
            lemma_later_node(edges, filter, start, max_hops, w, v, k, l);
            let a = walk_node(start, v, px);
            assert(walk_node(start, w, w[k].parent as int) == a);
            assert(stored_before(edges, filter, a, y.node, x.node));
            assert(stored_before(edges, filter, a, x.node, y.node));
            let e1 = choose|e: int|
                #[trigger] links_at(edges, filter, e, a, y.node) && forall|j: int|
                    0 <= j <= e ==> !#[trigger] links_at(edges, filter, j, a, x.node);
            let e2 = choose|e: int|
                #[trigger] links_at(edges, filter, e, a, x.node) && forall|j: int|
                    0 <= j <= e ==> !#[trigger] links_at(edges, filter, j, a, y.node);
            if e1 <= e2 {
                assert(!links_at(edges, filter, e1, a, y.node));
            } else {
                assert(!links_at(edges, filter, e2, a, x.node));
            }
            assert(false);
        }
        assert(x.node == y.node);
        if py < px {
            assert(!linked(edges, filter, walk_node(start, v, py), x.node));
        }
        if px < py {
            assert(!linked(edges, filter, walk_node(start, w, px), y.node));
        }
        assert(x.hop == y.hop);
    }
}

/// The breadth-first walk is one: two walks of the same edges from the same
/// start, over the same number of hops and along the same relations, hold the
/// same visits in the same order.
pub proof fn lemma_traversal_is_unique(
    edges: Seq<GraphEdgeView>,
    filter: Set<Seq<char>>,
    start: u64,
    max_hops: u8,
    v: Seq<Visit>,
    w: Seq<Visit>,
)
    requires
        is_traversal(edges, filter, start, max_hops, v),
        is_traversal(edges, filter, start, max_hops, w),
    ensures
        v == w,
{
    let n = if v.len() <= w.len() {
        v.len() as int
    } else {
        w.len() as int
    };
    lemma_walks_agree(edges, filter, start, max_hops, v, w, n);
    assert forall|q: int| 0 <= q <= n implies walk_node(start, v, q) == walk_node(start, w, q) by {
        if q > 0 {
            assert(v[q - 1] == w[q - 1]);
        }
    }
    if n < w.len() {
        let r = lemma_walk_shares_nodes(edges, filter, start, max_hops, w, v, n + 1);
        assert(walk_node(start, w, r) != walk_node(start, w, n + 1));
    }
    if n < v.len() {
        let r = lemma_walk_shares_nodes(edges, filter, start, max_hops, v, w, n + 1);
        assert(walk_node(start, v, r) != walk_node(start, v, n + 1));
    }
    assert(v =~= w);
}

/// What holds of a walk while it is being built.
pub open spec fn walk_inv(
    edges: Seq<GraphEdgeView>,
    filter: Set<Seq<char>>,
    start: u64,
    max_hops: u8,
    v: Seq<Visit>,
    seen: Set<u64>,
) -> bool {
    &&& forall|i: int| 0 <= i < v.len() ==> #[trigger] visit_ok(edges, filter, start, max_hops, v, i)
    &&& walk_ordered(start, v)
    &&& forall|id: u64| seen.contains(id) <==> reached_within(start, v, id, 255)
}

/// A visit appended to a walk leaves the earlier places as they were.
proof fn lemma_push_keeps(
    edges: Seq<GraphEdgeView>,
    filter: Set<Seq<char>>,
    start: u64,
    max_hops: u8,
    v: Seq<Visit>,
    x: Visit,
    qn: int,
    en: int,
)
    requires
        closed_upto(edges, filter, start, max_hops, v, qn, en),
        qn <= v.len(),
        forall|i: int| 0 <= i < v.len() ==> #[trigger] visit_ok(edges, filter, start, max_hops, v, i),
    ensures
        closed_upto(edges, filter, start, max_hops, v.push(x), qn, en),
        forall|i: int|
            0 <= i < v.len() ==> #[trigger] visit_ok(edges, filter, start, max_hops, v.push(x), i),
        forall|id: u64, h: int|
            reached_within(start, v, id, h) ==> reached_within(start, v.push(x), id, h),
{
    let w = v.push(x);
    assert forall|q: int| 0 <= q <= v.len() implies walk_node(start, w, q) == walk_node(start, v, q)
        && walk_hop(w, q) == walk_hop(v, q) by {
        if q > 0 {
            assert(w[q - 1] == v[q - 1]);
        }
    }
    assert forall|id: u64, h: int| reached_within(start, v, id, h) implies reached_within(
        start,
        w,
        id,
        h,
    ) by {
        let q = choose|q: int|
            0 <= q <= v.len() && #[trigger] walk_node(start, v, q) == id && walk_hop(v, q) <= h;
        assert(walk_node(start, w, q) == id && walk_hop(w, q) <= h);
    }
    assert forall|i: int| 0 <= i < v.len() implies #[trigger] visit_ok(
        edges,
        filter,
        start,
        max_hops,
        w,
        i,
    ) by {
        assert(visit_ok(edges, filter, start, max_hops, v, i));
        assert(w[i] == v[i]);
        let e = choose|e: int|
            0 <= e < edges.len() && (#[trigger] edges[e]).source == walk_node(
                start,
                v,
                v[i].parent as int,
            ) && edges[e].target == v[i].node && relation_allowed(filter, edges[e].relation);
        assert(edges[e].source == walk_node(start, w, w[i].parent as int));
    }
    assert forall|q: int, e: int|
        0 <= q <= w.len() && 0 <= e < edges.len() && (q < qn || (q == qn && e < en)) && walk_hop(
            w,
            q,
        ) < max_hops && (#[trigger] edges[e]).source == #[trigger] walk_node(start, w, q)
            && relation_allowed(filter, edges[e].relation) implies reached_within(
        start,
        w,
        edges[e].target,
        walk_hop(w, q) + 1,
    ) by {
        assert(edges[e].source == walk_node(start, v, q));
        assert(reached_within(start, v, edges[e].target, walk_hop(v, q) + 1));
    }
}

/// A visit appended for the edge at place `j` that leaves place `pos`, to a
/// node not reached before, keeps the walk in the order of a queue.
proof fn lemma_push_in_order(
    edges: Seq<GraphEdgeView>,
    filter: Set<Seq<char>>,
    start: u64,
    max_hops: u8,
    v: Seq<Visit>,
    x: Visit,
    pos: int,
    j: int,
    base: int,
)
    requires
        walk_in_order(edges, filter, start, v),
        walk_ordered(start, v),
        closed_upto(edges, filter, start, max_hops, v, pos, j),
        0 <= pos <= v.len(),
        0 <= base <= v.len(),
        walk_hop(v, pos) < max_hops,
        x.parent == pos,
        links_at(edges, filter, j, walk_node(start, v, pos), x.node),
        !reached_within(start, v, x.node, 255),
        forall|i: int| 0 <= i < base ==> (#[trigger] v[i]).parent < pos,
        forall|i: int| base <= i < v.len() ==> (#[trigger] v[i]).parent == pos,
        forall|i: int| base <= i < v.len() ==> #[trigger] linked_before(edges, filter, start, v, pos, j, i),
    ensures
        walk_in_order(edges, filter, start, v.push(x)),
        linked_before(edges, filter, start, v.push(x), pos, j + 1, v.len() as int),
        forall|i: int|
            base <= i < v.len() ==> #[trigger] linked_before(
                edges,
                filter,
                start,
                v.push(x),
                pos,
                j + 1,
                i,
            ),
{
    let w = v.push(x);
    let n = v.len() as int;
    let from = walk_node(start, v, pos);
    assert forall|q: int| 0 <= q <= n implies walk_node(start, w, q) == walk_node(start, v, q)
        && walk_hop(w, q) == walk_hop(v, q) by {
        if q > 0 {
            assert(w[q - 1] == v[q - 1]);
        }
    }
    assert forall|k: int, q: int| 0 <= q <= pos && 0 <= k && (q < pos || k < j) implies !#[trigger] links_at(
        edges,
        filter,
        k,
        walk_node(start, v, q),
        x.node,
    ) by {
        if links_at(edges, filter, k, walk_node(start, v, q), x.node) {
            if q < pos {
                assert(walk_node(start, v, q) != walk_node(start, v, pos) && walk_hop(v, q)
                    <= walk_hop(v, pos));
            }
            assert(edges[k].source == walk_node(start, v, q));
            assert(reached_within(start, v, edges[k].target, walk_hop(v, q) + 1));
            let r = choose|r: int|
                0 <= r <= v.len() && #[trigger] walk_node(start, v, r) == x.node && walk_hop(v, r)
                    <= walk_hop(v, q) + 1;
            assert(walk_hop(v, r) <= 255);
            assert(reached_within(start, v, x.node, 255));
        }
    }
    assert forall|i: int| 0 <= i < w.len() implies #[trigger] parent_is_first(
        edges,
        filter,
        start,
        w,
        i,
    ) by {
        if i < n {
            assert(parent_is_first(edges, filter, start, v, i));
            assert(w[i] == v[i]);
            assert forall|q: int| 0 <= q < w[i].parent implies !linked(
                edges,
                filter,
                #[trigger] walk_node(start, w, q),
                w[i].node,
            ) by {
                assert(!linked(edges, filter, walk_node(start, v, q), v[i].node));
            }
        } else {
            assert forall|q: int| 0 <= q < w[i].parent implies !linked(
                edges,
                filter,
                #[trigger] walk_node(start, w, q),
                w[i].node,
            ) by {
                if linked(edges, filter, walk_node(start, w, q), x.node) {
                    let e = choose|e: int|
                        0 <= e < edges.len() && (#[trigger] edges[e]).source == walk_node(
                            start,
                            w,
                            q,
                        ) && edges[e].target == x.node && relation_allowed(
                            filter,
                            edges[e].relation,
                        );
                    assert(links_at(edges, filter, e, walk_node(start, v, q), x.node));
                }
            }
        }
    }
    assert forall|i: int| base <= i < n implies #[trigger] linked_before(
        edges,
        filter,
        start,
        w,
        pos,
        j + 1,
        i,
    ) by {
        assert(linked_before(edges, filter, start, v, pos, j, i));
        let e = choose|e: int| 0 <= e < j && links_at(edges, filter, e, from, v[i].node);
        assert(w[i] == v[i]);
        assert(links_at(edges, filter, e, walk_node(start, w, pos), w[i].node));
    }
    assert(linked_before(edges, filter, start, w, pos, j + 1, n)) by {
        assert(w[n] == x);
        assert(links_at(edges, filter, j, walk_node(start, w, pos), w[n].node));
    }
    assert forall|a: int, b: int|
        0 <= a < b < w.len() && (#[trigger] w[a]).parent == (#[trigger] w[b]).parent
        implies stored_before(
        edges,
        filter,
        walk_node(start, w, w[a].parent as int),
        w[a].node,
        w[b].node,
    ) by {
        assert(w[a] == v[a]);
        if b < n {
            assert(w[b] == v[b]);
            assert(stored_before(
                edges,
                filter,
                walk_node(start, v, v[a].parent as int),
                v[a].node,
                v[b].node,
            ));
        } else {
            assert(a >= base);
            assert(linked_before(edges, filter, start, v, pos, j, a));
            let e = choose|e: int| 0 <= e < j && links_at(edges, filter, e, from, v[a].node);
            assert(links_at(edges, filter, e, from, v[a].node));
            assert forall|k: int| 0 <= k <= e implies !#[trigger] links_at(
                edges,
                filter,
                k,
                from,
                x.node,
            ) by {
                assert(!links_at(edges, filter, k, walk_node(start, v, pos), x.node));
            }
        }
    }
    assert forall|a: int, b: int| 0 <= a < b < w.len() implies (#[trigger] w[a]).parent <= (
    #[trigger] w[b]).parent by {
        assert(w[a] == v[a]);
        if b < n {
            assert(w[b] == v[b]);
        }
    }
}

impl AdjacencyGraph {
    /// Follows the allowed edges that leave the node at place `pos` of the
    /// walk, and appends the nodes that were not reached before.
    fn expand_from(
        &self,
        v: &mut Vec<Visit>,
        seen: &mut SortedSet<u64>,
        pos: usize,
        start: u64,
        max_hops: u8,
        filter: &SortedSet<String>,
    )
        requires
            walk_inv(self@, filter@, start, max_hops, old(v)@, old(seen)@),
            closed_upto(self@, filter@, start, max_hops, old(v)@, pos as int, 0),
            pos <= old(v)@.len(),
            walk_hop(old(v)@, pos as int) < max_hops,
            forall|q: int|
                0 <= q <= old(v)@.len() ==> #[trigger] walk_hop(old(v)@, q) <= walk_hop(
                    old(v)@,
                    pos as int,
                ) + 1,
            walk_in_order(self@, filter@, start, old(v)@),
            forall|i: int| 0 <= i < old(v)@.len() ==> (#[trigger] old(v)@[i]).parent < pos,
        ensures
            walk_inv(self@, filter@, start, max_hops, final(v)@, final(seen)@),
            walk_in_order(self@, filter@, start, final(v)@),
            forall|i: int|
                old(v)@.len() <= i < final(v)@.len() ==> (#[trigger] final(v)@[i]).parent == pos,
            closed_upto(self@, filter@, start, max_hops, final(v)@, pos + 1, 0),
            final(v)@.len() >= old(v)@.len(),
            final(v)@.subrange(0, old(v)@.len() as int) == old(v)@,
            forall|i: int|
                old(v)@.len() <= i < final(v)@.len() ==> (#[trigger] final(v)@[i]).hop == walk_hop(
                    old(v)@,
                    pos as int,
                ) + 1,
    {
        let from = if pos == 0 {
            start
        } else {
            v[pos - 1].node
        };
        let from_hop: u8 = if pos == 0 {
            0
        } else {
            v[pos - 1].hop
        };
        let next_hop: u8 = from_hop + 1;
        let allow_all = filter.is_empty();
        let ghost v0 = v@;
        let mut j: usize = 0;
        assert(v@.subrange(0, v0.len() as int) =~= v0);
        while j < self.edges.len()
            invariant
                j <= self.edges.len(),
                pos <= v0.len() <= v@.len(),
                v@.subrange(0, v0.len() as int) == v0,
                from == walk_node(start, v@, pos as int),
                from_hop == walk_hop(v@, pos as int),
                walk_hop(v0, pos as int) == from_hop,
                next_hop == from_hop + 1,
                from_hop < max_hops,
                allow_all == (filter@ == Set::<Seq<char>>::empty()),
                walk_inv(self@, filter@, start, max_hops, v@, seen@),
                closed_upto(self@, filter@, start, max_hops, v@, pos as int, j as int),
                forall|q: int| 0 <= q <= v@.len() ==> #[trigger] walk_hop(v@, q) <= from_hop + 1,
                forall|i: int| v0.len() <= i < v@.len() ==> (#[trigger] v@[i]).hop == next_hop,
                walk_in_order(self@, filter@, start, v@),
                forall|i: int| 0 <= i < v0.len() ==> (#[trigger] v@[i]).parent < pos,
                forall|i: int| v0.len() <= i < v@.len() ==> (#[trigger] v@[i]).parent == pos,
                forall|i: int|
                    v0.len() <= i < v@.len() ==> #[trigger] linked_before(
                        self@,
                        filter@,
                        start,
                        v@,
                        pos as int,
                        j as int,
                        i,
                    ),
            decreases self.edges.len() - j,
        {
            let e = &self.edges[j];
            assert(self@[j as int] == e@);
            let ghost vb = v@;
            let ghost sb = seen@;
            if e.source == from && (allow_all || filter.contains(&e.relation)) {
                let target = e.target;
                if !seen.contains(&target) {
                    let x = Visit { node: target, hop: next_hop, parent: pos };
                    seen.insert(target);
                    v.push(x);
                    proof {
                        let w = v@;
                        let n = vb.len() as int;
                        lemma_push_keeps(self@, filter@, start, max_hops, vb, x, pos as int, j as int);
                        lemma_push_in_order(
                            self@,
                            filter@,
                            start,
                            max_hops,
                            vb,
                            x,
                            pos as int,
                            j as int,
                            v0.len() as int,
                        );
                        assert forall|i: int| 0 <= i < v0.len() implies (#[trigger] w[i]).parent
                            < pos by {
                            assert(w[i] == vb[i]);
                        }
                        assert forall|i: int| v0.len() <= i < w.len() implies (#[trigger] w[i]).parent
                            == pos by {
                            if i < n {
                                assert(w[i] == vb[i]);
                            }
                        }
                        assert(w[n] == x);
                        assert(walk_node(start, w, n + 1) == target);
                        assert(walk_hop(w, n + 1) == next_hop);
                        assert forall|q: int| 0 <= q <= n implies walk_node(start, w, q)
                            == walk_node(start, vb, q) && walk_hop(w, q) == walk_hop(vb, q) by {
                            if q > 0 {
                                assert(w[q - 1] == vb[q - 1]);
                            }
                        }
                        assert(visit_ok(self@, filter@, start, max_hops, w, n)) by {
                            assert(self@[j as int].source == walk_node(start, w, pos as int));
                        }
                        assert(walk_ordered(start, w)) by {
                            assert forall|a: int, b: int| 0 <= a < b <= w.len() implies walk_node(
                                start,
                                w,
                                a,
                            ) != walk_node(start, w, b) && walk_hop(w, a) <= walk_hop(w, b) by {
                                if b <= n {
                                    assert(walk_node(start, vb, a) != walk_node(start, vb, b));
                                } else {
                                    assert(walk_hop(vb, a) <= from_hop + 1);
                                    if walk_node(start, vb, a) == target {
                                        assert(reached_within(start, vb, target, 255));
                                    }
                                }
                            }
                        }
                        assert forall|id: u64| seen@.contains(id) <==> reached_within(
                            start,
                            w,
                            id,
                            255,
                        ) by {
                            if reached_within(start, w, id, 255) {
                                let q = choose|q: int|
                                    0 <= q <= w.len() && #[trigger] walk_node(start, w, q) == id
                                        && walk_hop(w, q) <= 255;
                                if q <= n {
                                    assert(walk_node(start, vb, q) == id);
                                    assert(reached_within(start, vb, id, 255));
                                }
                            }
                            if id == target {
                                assert(walk_node(start, w, n + 1) == id);
                            }
                        }
                        assert(reached_within(start, w, target, from_hop + 1)) by {
                            assert(walk_node(start, w, n + 1) == target);
                        }
                        assert(w.subrange(0, v0.len() as int) =~= v0);
                    }
                } else {
                    proof {
                        assert(reached_within(start, vb, target, 255));
                        let q = choose|q: int|
                            0 <= q <= vb.len() && #[trigger] walk_node(start, vb, q) == target
                                && walk_hop(vb, q) <= 255;
                        assert(walk_hop(vb, q) <= from_hop + 1);
                        assert(reached_within(start, vb, target, from_hop + 1));
                    }
                }
            }
            proof {
                if v@ == vb {
                    assert forall|i: int| v0.len() <= i < v@.len() implies #[trigger] linked_before(
                        self@,
                        filter@,
                        start,
                        v@,
                        pos as int,
                        j + 1,
                        i,
                    ) by {
                        assert(linked_before(self@, filter@, start, vb, pos as int, j as int, i));
                        let e = choose|e: int|
                            0 <= e < j && #[trigger] links_at(
                                self@,
                                filter@,
                                e,
                                walk_node(start, vb, pos as int),
                                vb[i].node,
                            );
                        assert(links_at(
                            self@,
                            filter@,
                            e,
                            walk_node(start, v@, pos as int),
                            v@[i].node,
                        ));
                    }
                }
            }
            j += 1;
        }
    }

    /// Walks the graph breadth-first from `start` over at most `max_hops` hops,
    /// along the relations that `filter` allows (all of them where it is
    /// empty). The start itself is not among the visits. The nodes of one
    /// distance come in the order of the places that they were reached from
    /// and, under one place, in the order in which the edges are stored; there
    /// is one such walk (`lemma_traversal_is_unique`).
    pub fn traverse(&self, start: u64, max_hops: u8, filter: &SortedSet<String>) -> (v: Vec<Visit>)
        ensures
            is_traversal(self@, filter@, start, max_hops, v@),
    {
        let mut v: Vec<Visit> = Vec::new();
        if max_hops == 0 {
            return v;
        }
        let mut seen: SortedSet<u64> = SortedSet::new();
        seen.insert(start);
        proof {
            assert forall|id: u64| seen@.contains(id) <==> reached_within(start, v@, id, 255) by {
                if id == start {
                    assert(walk_node(start, v@, 0) == id);
                }
            }
        }
        self.expand_from(&mut v, &mut seen, 0, start, max_hops, filter);
        let mut lo: usize = 0;
        let mut hop: u8 = 1;
        while hop < max_hops
            invariant
                1 <= hop <= max_hops,
                lo <= v@.len(),
                walk_inv(self@, filter@, start, max_hops, v@, seen@),
                closed_upto(self@, filter@, start, max_hops, v@, lo + 1, 0),
                forall|i: int| lo <= i < v@.len() ==> (#[trigger] v@[i]).hop == hop,
                walk_in_order(self@, filter@, start, v@),
                forall|i: int| 0 <= i < v@.len() ==> (#[trigger] v@[i]).parent <= lo,
            decreases max_hops - hop,
        {
            let hi = v.len();
            let mut i: usize = lo;
            while i < hi
                invariant
                    1 <= hop < max_hops,
                    lo <= i <= hi <= v@.len(),
                    walk_inv(self@, filter@, start, max_hops, v@, seen@),
                    closed_upto(self@, filter@, start, max_hops, v@, i + 1, 0),
                    forall|k: int| lo <= k < hi ==> (#[trigger] v@[k]).hop == hop,
                    forall|k: int| hi <= k < v@.len() ==> (#[trigger] v@[k]).hop == hop + 1,
                    walk_in_order(self@, filter@, start, v@),
                    forall|k: int| 0 <= k < v@.len() ==> (#[trigger] v@[k]).parent <= i,
                decreases hi - i,
            {
                proof {
                    assert forall|q: int| 0 <= q <= v@.len() implies #[trigger] walk_hop(v@, q)
                        <= walk_hop(v@, i + 1) + 1 by {
                        if q > 0 {
                            if q - 1 < i {
                                assert(walk_node(start, v@, q) != walk_node(start, v@, i + 1));
                            }
                        }
                    }
                }
                let ghost vb = v@;
                self.expand_from(&mut v, &mut seen, i + 1, start, max_hops, filter);
                proof {
                    assert forall|k: int| lo <= k < hi implies (#[trigger] v@[k]).hop == hop by {
                        assert(v@.subrange(0, vb.len() as int)[k] == vb[k]);
                    }
                    assert forall|k: int| hi <= k < v@.len() implies (#[trigger] v@[k]).hop == hop
                        + 1 by {
                        if k < vb.len() {
                            assert(v@.subrange(0, vb.len() as int)[k] == vb[k]);
                        }
                    }
                    assert forall|k: int| 0 <= k < v@.len() implies (#[trigger] v@[k]).parent <= i
                        + 1 by {
                        if k < vb.len() {
                            assert(v@.subrange(0, vb.len() as int)[k] == vb[k]);
                        }
                    }
                }
                i += 1;
            }
            lo = hi;
            hop += 1;
        }
        proof {
            assert forall|q: int, e: int|
                0 <= q <= v@.len() && 0 <= e < self@.len() && (q < v@.len() + 1 || (q == v@.len()
                    + 1 && e < 0)) && walk_hop(v@, q) < max_hops && (#[trigger] self@[e]).source
                    == #[trigger] walk_node(start, v@, q) && relation_allowed(
                    filter@,
                    self@[e].relation,
                ) implies reached_within(start, v@, self@[e].target, walk_hop(v@, q) + 1) by {
                if q >= lo + 1 {
                    assert(v@[q - 1].hop == hop);
                }
            }
        }
        v
    }

    /// The nodes within `max_hops` hops of `start_id` with their distances, in
    /// the order in which a breadth-first walk reaches them.
    pub fn expand(&self, start_id: u64, max_hops: u8) -> (out: Vec<(u64, u8)>)
        ensures
            exists|v: Seq<Visit>|
                is_traversal(self@, Set::<Seq<char>>::empty(), start_id, max_hops, v)
                    && #[trigger] v.len() == out@.len() && forall|i: int|
                    0 <= i < v.len() ==> out@[i] == ((#[trigger] v[i]).node, v[i].hop),
            max_hops == 0 ==> out@.len() == 0,
    {
        let filter: SortedSet<String> = SortedSet::new();
        let v = self.traverse(start_id, max_hops, &filter);
        let mut out: Vec<(u64, u8)> = Vec::new();
        let mut i: usize = 0;
        while i < v.len()
            invariant
                i <= v.len(),
                out@.len() == i,
                forall|k: int| 0 <= k < i ==> out@[k] == ((#[trigger] v@[k]).node, v@[k].hop),
            decreases v.len() - i,
        {
            out.push((v[i].node, v[i].hop));
            i += 1;
        }
        proof {
            if max_hops == 0 {
                if v@.len() > 0 {
                    assert(visit_ok(self@, filter@, start_id, max_hops, v@, 0));
                }
            }
        }
        out
    }

    /// The nodes within two hops of `id`, with their distances.
    pub fn neighbors_2hop(&self, id: u64) -> (out: Vec<(u64, u8)>)
        ensures
            exists|v: Seq<Visit>|
                is_traversal(self@, Set::<Seq<char>>::empty(), id, 2, v) && #[trigger] v.len()
                    == out@.len() && forall|i: int|
                    0 <= i < v.len() ==> out@[i] == ((#[trigger] v[i]).node, v[i].hop),
    {
        self.expand(id, 2)
    }
}

/// The edges of `s` as items to sort: the key `(source, target)` with the
/// weight.
pub open spec fn link_items(s: Seq<GraphEdgeView>) -> Seq<((u64, u64), u32)> {
    s.map_values(|e: GraphEdgeView| ((e.source, e.target), e.weight))
}

impl AdjacencyGraph {
    /// Every edge as `(source, target, weight)`, ordered by source, then by
    /// target; edges between the same two nodes keep their insertion order.
    pub fn edges(&self) -> (out: Vec<(u64, u64, u32)>)
        ensures
            out@.len() == self@.len(),
            forall|i: int|
                0 <= i < out@.len() ==> {
                    let item = #[trigger] stable_sort(link_items(self@))[i];
                    out@[i] == (item.0.0, item.0.1, item.1)
                },
    {
        let mut items: Vec<((u64, u64), u32)> = Vec::new();
        let mut i: usize = 0;
        while i < self.edges.len()
            invariant
                i <= self.edges.len(),
                items@ == link_items(self@).take(i as int),
            decreases self.edges.len() - i,
        {
            let e = &self.edges[i];
            assert(self@[i as int] == e@);
            items.push(((e.source, e.target), e.weight));
            i += 1;
            assert(items@ =~= link_items(self@).take(i as int));
        }
        assert(link_items(self@).take(self@.len() as int) =~= link_items(self@));
        let sorted = sort_by_key(items);
        let mut out: Vec<(u64, u64, u32)> = Vec::new();
        let mut k: usize = 0;
        while k < sorted.len()
            invariant
                k <= sorted.len(),
                out@.len() == k,
                forall|j: int|
                    0 <= j < k ==> out@[j] == (
                        (#[trigger] sorted@[j]).0.0,
                        sorted@[j].0.1,
                        sorted@[j].1,
                    ),
            decreases sorted.len() - k,
        {
            let item = sorted[k];
            out.push((item.0.0, item.0.1, item.1));
            k += 1;
        }
        out
    }

    /// The endpoints of the edges, each once, in increasing order.
    pub fn node_ids(&self) -> (out: Vec<u64>)
        ensures
            strictly_sorted::<u64>(out@),
            forall|id: u64| out@.contains(id) <==> mentions(self@, id),
    {
        let mut set: SortedSet<u64> = SortedSet::new();
        let mut i: usize = 0;
        while i < self.edges.len()
            invariant
                i <= self.edges.len(),
                forall|id: u64| set@.contains(id) <==> mentions(self@.take(i as int), id),
            decreases self.edges.len() - i,
        {
            let e = &self.edges[i];
            assert(self@[i as int] == e@);
            let ghost before = set@;
            set.insert(e.source);
            set.insert(e.target);
            proof {
                let a = self@.take(i as int);
                let b = self@.take(i + 1);
                assert forall|id: u64| set@.contains(id) <==> mentions(b, id) by {
                    if mentions(b, id) {
                        let k = choose|k: int|
                            0 <= k < b.len() && ((#[trigger] b[k]).source == id || b[k].target
                                == id);
                        if k < i {
                            assert(a[k] == b[k]);
                            assert(mentions(a, id));
                        }
                    }
                    if before.contains(id) {
                        let k = choose|k: int|
                            0 <= k < a.len() && ((#[trigger] a[k]).source == id || a[k].target
                                == id);
                        assert(b[k] == a[k]);
                    }
                    if id == e.source || id == e.target {
                        assert(b[i as int] == e@);
                    }
                }
            }
            i += 1;
        }
        assert(self@.take(self@.len() as int) =~= self@);
        let n = set.len();
        let out = set.to_vec();
        proof {
            assert(out@ =~= set.elems());
        }
        out
    }

    /// The number of nodes that are an endpoint of some edge.
    pub fn node_count(&self) -> (n: usize)
        ensures
            exists|ids: Seq<u64>|
                #[trigger] ids.len() == n && strictly_sorted::<u64>(ids) && forall|id: u64|
                    ids.contains(id) <==> mentions(self@, id),
    {
        let ids = self.node_ids();
        assert(ids@.len() == ids.len());
        ids.len()
    }
}

} // verus!
