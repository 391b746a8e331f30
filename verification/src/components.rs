//! Connected components of a graph, edges read as undirected.

use vstd::prelude::*;
use vstd::set_lib::lemma_len_subset;
use crate::graph::{AdjacencyGraph, GraphEdgeView};
use crate::sorted_map::{strictly_sorted, SortedSet};

verus! {

/// Whether an edge of `edges` joins `a` and `b`, whichever way it runs.
pub open spec fn adjacent(edges: Seq<GraphEdgeView>, a: u64, b: u64) -> bool {
    exists|k: int|
        0 <= k < edges.len() && (((#[trigger] edges[k]).source == a && edges[k].target == b) || (
        edges[k].source == b && edges[k].target == a))
}

/// Whether `p` is a walk of one node or more within `members`, each step along
/// an edge of `edges`.
pub open spec fn is_walk(edges: Seq<GraphEdgeView>, members: Set<u64>, p: Seq<u64>) -> bool {
    &&& p.len() > 0
    &&& forall|i: int| 0 <= i < p.len() ==> members.contains(#[trigger] p[i])
    &&& forall|i: int| 0 <= i < p.len() - 1 ==> adjacent(edges, #[trigger] p[i], p[i + 1])
}

/// Whether `a` and `b` are connected within `members`: whether a walk within
/// `members` leads from `a` to `b`.
pub open spec fn connected(edges: Seq<GraphEdgeView>, members: Set<u64>, a: u64, b: u64) -> bool {
    exists|p: Seq<u64>| #[trigger] is_walk(edges, members, p) && p[0] == a && p.last() == b
}

/// Whether `comp` is closed within `members`: every member next to a node of
/// `comp` is in `comp`.
pub open spec fn closed_in(edges: Seq<GraphEdgeView>, members: Set<u64>, comp: Set<u64>) -> bool {
    forall|k: int|
        0 <= k < edges.len() ==> (comp.contains((#[trigger] edges[k]).source) && members.contains(
            edges[k].target,
        ) ==> comp.contains(edges[k].target)) && (comp.contains(edges[k].target)
            && members.contains(edges[k].source) ==> comp.contains(edges[k].source))
}

/// A closed set that holds the start of a walk holds its end.
pub proof fn lemma_closed_holds_walk(
    edges: Seq<GraphEdgeView>,
    members: Set<u64>,
    comp: Set<u64>,
    p: Seq<u64>,
)
    requires
        closed_in(edges, members, comp),
        is_walk(edges, members, p),
        comp.contains(p[0]),
    ensures
        comp.contains(p.last()),
    decreases p.len(),
{
    if p.len() > 1 {
        let q = p.drop_last();
        assert forall|i: int| 0 <= i < q.len() implies members.contains(#[trigger] q[i]) by {
            assert(q[i] == p[i]);
        }
        assert forall|i: int| 0 <= i < q.len() - 1 implies adjacent(
            edges,
            #[trigger] q[i],
            q[i + 1],
        ) by {
            assert(q[i] == p[i] && q[i + 1] == p[i + 1]);
        }
        lemma_closed_holds_walk(edges, members, comp, q);
        let a = p[p.len() - 2];
        let b = p.last();
        assert(q.last() == a);
        assert(adjacent(edges, p[p.len() - 2], p[p.len() - 2 + 1]));
        let k = choose|k: int|
            0 <= k < edges.len() && (((#[trigger] edges[k]).source == a && edges[k].target == b)
                || (edges[k].source == b && edges[k].target == a));
        assert(members.contains(p[p.len() - 1]));
    }
}

/// Whether `comp` is the component of `start` within `members`: the members
/// that are connected to `start`.
pub open spec fn is_component(
    edges: Seq<GraphEdgeView>,
    members: Set<u64>,
    start: u64,
    comp: Set<u64>,
) -> bool {
    forall|x: u64| comp.contains(x) <==> connected(edges, members, start, x)
}

/// Whether `walks` holds a walk within `members` from `start` to `x`.
pub open spec fn reached_by(
    edges: Seq<GraphEdgeView>,
    members: Set<u64>,
    start: u64,
    walks: Map<u64, Seq<u64>>,
    x: u64,
) -> bool {
    walks.contains_key(x) && is_walk(edges, members, walks[x]) && walks[x][0] == start
        && walks[x].last() == x
}

/// Whether the members next to `node` along the first `kn` edges are in
/// `seen`.
pub open spec fn neighbours_seen(
    edges: Seq<GraphEdgeView>,
    members: Set<u64>,
    seen: Set<u64>,
    node: u64,
    kn: int,
) -> bool {
    forall|k: int|
        0 <= k < kn && k < edges.len() ==> (node == (#[trigger] edges[k]).source
            && members.contains(edges[k].target) ==> seen.contains(edges[k].target)) && (node
            == edges[k].target && members.contains(edges[k].source) ==> seen.contains(
            edges[k].source,
        ))
}

/// A walk that is extended by a member next to its end is a walk.
proof fn lemma_extend_walk(edges: Seq<GraphEdgeView>, members: Set<u64>, w: Seq<u64>, y: u64)
    requires
        is_walk(edges, members, w),
        members.contains(y),
        adjacent(edges, w.last(), y),
    ensures
        is_walk(edges, members, w.push(y)),
        w.push(y)[0] == w[0],
        w.push(y).last() == y,
{
    let p = w.push(y);
    assert forall|i: int| 0 <= i < p.len() implies members.contains(#[trigger] p[i]) by {
        if i < w.len() {
            assert(p[i] == w[i]);
        }
    }
    assert forall|i: int| 0 <= i < p.len() - 1 implies adjacent(edges, #[trigger] p[i], p[i + 1]) by {
        if i < w.len() - 1 {
            assert(p[i] == w[i] && p[i + 1] == w[i + 1]);
        } else {
            assert(p[i] == w.last());
        }
    }
}

/// The component of `start` within `members`: the members that a walk within
/// `members` reaches from `start`, edges read as undirected.
pub fn component_of(graph: &AdjacencyGraph, members: &SortedSet<u64>, start: u64) -> (comp:
    SortedSet<u64>)
    requires
        members@.contains(start),
    ensures
        is_component(graph@, members@, start, comp@),
        comp@.contains(start),
        comp@.subset_of(members@),
{
    let total = members.len();
    let n = graph.edge_count();
    let mut seen: SortedSet<u64> = SortedSet::new();
    let mut queue: Vec<u64> = Vec::new();
    let ghost mut walks: Map<u64, Seq<u64>> = Map::empty();
    seen.insert(start);
    queue.push(start);
    proof {
        walks = walks.insert(start, seq![start]);
        assert(is_walk(graph@, members@, seq![start]));
        assert(queue@ =~= seq![start]);
        assert(queue@.to_set() =~= seen@) by {
            assert forall|x: u64| queue@.to_set().contains(x) <==> seen@.contains(x) by {
                if x == start {
                    assert(queue@[0] == x);
                }
            }
        }
        assert(total >= 1) by {
            lemma_len_subset(seen@, members@);
        }
    }
    let mut head: usize = 0;
    while head < queue.len()
        invariant
            n == graph@.len(),
            total == members@.len(),
            members@.finite(),
            head <= queue@.len(),
            queue@.len() <= total,
            queue@.no_duplicates(),
            queue@.to_set() == seen@,
            seen@.contains(start),
            seen@.subset_of(members@),
            forall|x: u64| seen@.contains(x) ==> #[trigger] reached_by(graph@, members@, start, walks, x),
            forall|q: int|
                0 <= q < head ==> neighbours_seen(
                    graph@,
                    members@,
                    seen@,
                    #[trigger] queue@[q],
                    n as int,
                ),
        decreases total - head,
    {
        let node = queue[head];
        let mut k: usize = 0;
        assert(seen@.contains(node)) by {
            assert(queue@.contains(queue@[head as int]));
        }
        while k < n
            invariant
                n == graph@.len(),
                total == members@.len(),
                members@.finite(),
                k <= n,
                head < queue@.len(),
                node == queue@[head as int],
                queue@.len() <= total,
                queue@.no_duplicates(),
                queue@.to_set() == seen@,
                seen@.contains(start),
                seen@.contains(node),
                seen@.subset_of(members@),
                forall|x: u64|
                    seen@.contains(x) ==> #[trigger] reached_by(graph@, members@, start, walks, x),
                forall|q: int|
                    0 <= q < head ==> neighbours_seen(
                        graph@,
                        members@,
                        seen@,
                        #[trigger] queue@[q],
                        n as int,
                    ),
                neighbours_seen(graph@, members@, seen@, node, k as int),
            decreases n - k,
        {
            let e = graph.edge_at(k);
            let other: Option<u64> = if e.source == node {
                Some(e.target)
            } else if e.target == node {
                Some(e.source)
            } else {
                None
            };
            let ghost qb = queue@;
            let ghost sb = seen@;
            let ghost wb = walks;
            match other {
                Some(y) => {
                    if members.contains(&y) && !seen.contains(&y) {
                        seen.insert(y);
                        queue.push(y);
                        proof {
                            assert(reached_by(graph@, members@, start, wb, node));
                            assert(adjacent(graph@, node, y)) by {
                                assert(graph@[k as int].source == node || graph@[k as int].target
                                    == node);
                            }
                            lemma_extend_walk(graph@, members@, wb[node], y);
                            walks = wb.insert(y, wb[node].push(y));
                            assert forall|x: u64| seen@.contains(x) implies #[trigger] reached_by(
                                graph@,
                                members@,
                                start,
                                walks,
                                x,
                            ) by {
                                if x != y {
                                    assert(reached_by(graph@, members@, start, wb, x));
                                }
                            }
                            assert(queue@.no_duplicates()) by {
                                assert forall|a: int, b: int|
                                    0 <= a < queue@.len() && 0 <= b < queue@.len() && a
                                        != b implies queue@[a] != queue@[b] by {
                                    if a < qb.len() && b < qb.len() {
                                        assert(qb[a] != qb[b]);
                                    } else if a < qb.len() {
                                        assert(qb.contains(qb[a]));
                                    } else if b < qb.len() {
                                        assert(qb.contains(qb[b]));
                                    }
                                }
                            }
                            assert(queue@.to_set() =~= seen@) by {
                                assert forall|x: u64| queue@.to_set().contains(x) <==> seen@.contains(
                                    x,
                                ) by {
                                    if queue@.contains(x) {
                                        let i = choose|i: int|
                                            0 <= i < queue@.len() && queue@[i] == x;
                                        if i < qb.len() {
                                            assert(qb.contains(qb[i]));
                                        }
                                    }
                                    if sb.contains(x) {
                                        assert(qb.contains(x));
                                        let i = choose|i: int| 0 <= i < qb.len() && qb[i] == x;
                                        assert(queue@[i] == x);
                                    }
                                    if x == y {
                                        assert(queue@[qb.len() as int] == y);
                                    }
                                }
                            }
                            queue@.unique_seq_to_set();
                            lemma_len_subset(seen@, members@);
                        }
                    }
                },
                None => {},
            }
            proof {
                assert forall|q: int| 0 <= q < qb.len() implies queue@[q] == qb[q] by {}
                assert(queue@[head as int] == node);
            }
            k += 1;
        }
        head += 1;
    }
    proof {
        assert(closed_in(graph@, members@, seen@)) by {
            assert forall|k: int| 0 <= k < graph@.len() implies (seen@.contains(
                (#[trigger] graph@[k]).source,
            ) && members@.contains(graph@[k].target) ==> seen@.contains(graph@[k].target)) && (
            seen@.contains(graph@[k].target) && members@.contains(graph@[k].source)
                ==> seen@.contains(graph@[k].source)) by {
                if seen@.contains(graph@[k].source) {
                    assert(queue@.contains(graph@[k].source));
                    let q = choose|q: int| 0 <= q < queue@.len() && queue@[q] == graph@[k].source;
                    assert(neighbours_seen(graph@, members@, seen@, queue@[q], n as int));
                }
                if seen@.contains(graph@[k].target) {
                    assert(queue@.contains(graph@[k].target));
                    let q = choose|q: int| 0 <= q < queue@.len() && queue@[q] == graph@[k].target;
                    assert(neighbours_seen(graph@, members@, seen@, queue@[q], n as int));
                }
            }
        }
        assert forall|x: u64| seen@.contains(x) <==> connected(graph@, members@, start, x) by {
            if seen@.contains(x) {
                assert(reached_by(graph@, members@, start, walks, x));
                assert(is_walk(graph@, members@, walks[x]));
            }
            if connected(graph@, members@, start, x) {
                let p = choose|p: Seq<u64>| #[trigger]
                    is_walk(graph@, members@, p) && p[0] == start && p.last() == x;
                lemma_closed_holds_walk(graph@, members@, seen@, p);
            }
        }
    }
    seen
}

/// Whether `c` lists a component of `members`: sorted, led by its least node,
/// and holding exactly the members connected to that node.
pub open spec fn lists_component(edges: Seq<GraphEdgeView>, members: Set<u64>, c: Vec<u64>) -> bool {
    &&& c@.len() > 0
    &&& strictly_sorted::<u64>(c@)
    &&& members.contains(c@[0])
    &&& is_component(edges, members, c@[0], c@.to_set())
}

/// Whether `x` is in one of the lists `comps`.
pub open spec fn in_some(comps: Seq<Vec<u64>>, x: u64) -> bool {
    exists|c: int| 0 <= c < comps.len() && (#[trigger] comps[c])@.contains(x)
}

/// Whether `comps` are the connected components of `members`: each lists a
/// component, no node is in two of them, they are ordered by their least
/// nodes, and every member is in one of them.
pub open spec fn are_components(
    edges: Seq<GraphEdgeView>,
    members: Set<u64>,
    comps: Seq<Vec<u64>>,
) -> bool {
    &&& forall|c: int| 0 <= c < comps.len() ==> lists_component(edges, members, #[trigger] comps[c])
    &&& forall|c: int, d: int|
        0 <= c < d < comps.len() ==> (#[trigger] comps[c])@[0] < (#[trigger] comps[d])@[0]
            && comps[c]@.to_set().disjoint(comps[d]@.to_set())
    &&& forall|x: u64| members.contains(x) ==> in_some(comps, x)
}

/// Two listed components of the same members that share a node are led by
/// the same node.
pub proof fn lemma_components_share_start(
    edges: Seq<GraphEdgeView>,
    members: Set<u64>,
    c: Vec<u64>,
    d: Vec<u64>,
    x: u64,
)
    requires
        lists_component(edges, members, c),
        lists_component(edges, members, d),
        c@.contains(x),
        d@.contains(x),
    ensures
        c@[0] == d@[0],
{
    let a = c@[0];
    let b = d@[0];
    assert(c@.to_set().contains(x));
    assert(d@.to_set().contains(x));
    assert(connected(edges, members, a, x));
    assert(connected(edges, members, b, x));
    lemma_connected_symmetric(edges, members, b, x);
    lemma_connected_transitive(edges, members, a, x, b);
    lemma_connected_symmetric(edges, members, a, b);
    assert(c@.to_set().contains(b));
    assert(d@.to_set().contains(a));
    let i = choose|i: int| 0 <= i < c@.len() && c@[i] == b;
    let j = choose|j: int| 0 <= j < d@.len() && d@[j] == a;
    if i > 0 {
        assert(<u64 as crate::ordered::Ranked>::key_lt(c@[0], c@[i]));
    }
    if j > 0 {
        assert(<u64 as crate::ordered::Ranked>::key_lt(d@[0], d@[j]));
    }
}

/// Every node of a listed component is a member.
pub proof fn lemma_component_within(
    edges: Seq<GraphEdgeView>,
    members: Set<u64>,
    c: Vec<u64>,
    x: u64,
)
    requires
        lists_component(edges, members, c),
        c@.contains(x),
    ensures
        members.contains(x),
{
    assert(c@.to_set().contains(x));
    assert(connected(edges, members, c@[0], x));
    let p = choose|p: Seq<u64>| #[trigger] is_walk(edges, members, p) && p[0] == c@[0] && p.last() == x;
    assert(members.contains(p[p.len() - 1]));
}

/// A member is connected to itself.
pub proof fn lemma_connected_reflexive(edges: Seq<GraphEdgeView>, members: Set<u64>, a: u64)
    requires
        members.contains(a),
    ensures
        connected(edges, members, a, a),
{
    let p = seq![a];
    assert(is_walk(edges, members, p));
    assert(p[0] == a && p.last() == a);
}

/// Connectedness goes both ways.
pub proof fn lemma_connected_symmetric(edges: Seq<GraphEdgeView>, members: Set<u64>, a: u64, b: u64)
    requires
        connected(edges, members, a, b),
    ensures
        connected(edges, members, b, a),
{
    let p = choose|p: Seq<u64>| #[trigger] is_walk(edges, members, p) && p[0] == a && p.last() == b;
    let s = p.reverse();
    assert(is_walk(edges, members, s)) by {
        assert forall|i: int| 0 <= i < s.len() implies members.contains(#[trigger] s[i]) by {
            assert(s[i] == p[p.len() - 1 - i]);
        }
        assert forall|i: int| 0 <= i < s.len() - 1 implies adjacent(edges, #[trigger] s[i], s[i + 1]) by {
            let j = p.len() - 2 - i;
            assert(s[i] == p[j + 1]);
            assert(s[i + 1] == p[j]);
            assert(adjacent(edges, p[j], p[j + 1]));
            let k = choose|k: int|
                0 <= k < edges.len() && (((#[trigger] edges[k]).source == p[j] && edges[k].target
                    == p[j + 1]) || (edges[k].source == p[j + 1] && edges[k].target == p[j]));
            assert((edges[k].source == s[i] && edges[k].target == s[i + 1]) || (edges[k].source
                == s[i + 1] && edges[k].target == s[i]));
        }
    }
    assert(s[0] == b && s.last() == a);
}

/// Connectedness chains.
pub proof fn lemma_connected_transitive(
    edges: Seq<GraphEdgeView>,
    members: Set<u64>,
    a: u64,
    b: u64,
    c: u64,
)
    requires
        connected(edges, members, a, b),
        connected(edges, members, b, c),
    ensures
        connected(edges, members, a, c),
{
    let p = choose|p: Seq<u64>| #[trigger] is_walk(edges, members, p) && p[0] == a && p.last() == b;
    let q = choose|q: Seq<u64>| #[trigger] is_walk(edges, members, q) && q[0] == b && q.last() == c;
    let r = p + q.drop_first();
    assert(is_walk(edges, members, r)) by {
        assert forall|i: int| 0 <= i < r.len() implies members.contains(#[trigger] r[i]) by {
            if i < p.len() {
                assert(r[i] == p[i]);
            } else {
                assert(r[i] == q[i - p.len() + 1]);
            }
        }
        assert forall|i: int| 0 <= i < r.len() - 1 implies adjacent(edges, #[trigger] r[i], r[i + 1]) by {
            if i < p.len() - 1 {
                assert(r[i] == p[i] && r[i + 1] == p[i + 1]);
            } else if i == p.len() - 1 {
                assert(r[i] == p.last());
                assert(r[i + 1] == q[1]);
                assert(q[0] == b);
                assert(adjacent(edges, q[0int], q[0int + 1]));
            } else {
                assert(r[i] == q[i - p.len() + 1]);
                assert(r[i + 1] == q[i - p.len() + 2]);
                assert(adjacent(edges, q[i - p.len() + 1], q[i - p.len() + 1 + 1]));
            }
        }
    }
    assert(r[0] == a);
    assert(r.last() == c) by {
        if q.len() > 1 {
            assert(r.last() == q.last());
        } else {
            assert(r =~= p);
        }
    }
}

/// A node that is in no component so far shares no node with any of them.
proof fn lemma_fresh_component(
    edges: Seq<GraphEdgeView>,
    members: Set<u64>,
    comps: Seq<Vec<u64>>,
    list: Seq<u64>,
    start: u64,
)
    requires
        forall|c: int| 0 <= c < comps.len() ==> lists_component(edges, members, #[trigger] comps[c]),
        members.contains(start),
        !in_some(comps, start),
        is_component(edges, members, start, list.to_set()),
    ensures
        forall|c: int| 0 <= c < comps.len() ==> (#[trigger] comps[c])@.to_set().disjoint(list.to_set()),
{
    assert forall|c: int| 0 <= c < comps.len() implies (#[trigger] comps[c])@.to_set().disjoint(
        list.to_set(),
    ) by {
        assert(lists_component(edges, members, comps[c]));
        assert forall|x: u64| !(comps[c]@.to_set().contains(x) && list.to_set().contains(x)) by {
            if comps[c]@.to_set().contains(x) && list.to_set().contains(x) {
                let lead = comps[c]@[0];
                assert(connected(edges, members, lead, x));
                assert(connected(edges, members, start, x));
                lemma_connected_symmetric(edges, members, start, x);
                lemma_connected_transitive(edges, members, lead, x, start);
                assert(comps[c]@.to_set().contains(start));
                assert(comps[c]@.contains(start));
            }
        }
    }
}

/// The connected components of `members` in `graph`, edges read as
/// undirected: each sorted, in the order of their least nodes.
pub fn connected_components(graph: &AdjacencyGraph, members: &SortedSet<u64>) -> (comps: Vec<
    Vec<u64>,
>)
    ensures
        are_components(graph@, members@, comps@),
{
    let total = members.len();
    let ghost elems = members.elems();
    let mut comps: Vec<Vec<u64>> = Vec::new();
    let mut i: usize = 0;
    while i < total
        invariant
            total == elems.len(),
            elems == members.elems(),
            strictly_sorted::<u64>(elems),
            forall|k: u64| members@.contains(k) <==> elems.contains(k),
            i <= total,
            forall|c: int|
                0 <= c < comps@.len() ==> lists_component(graph@, members@, #[trigger] comps@[c]),
            forall|c: int, d: int|
                0 <= c < d < comps@.len() ==> (#[trigger] comps@[c])@[0] < (#[trigger] comps@[d])@[0]
                    && comps@[c]@.to_set().disjoint(comps@[d]@.to_set()),
            forall|c: int|
                0 <= c < comps@.len() ==> exists|j: int|
                    0 <= j < i && (#[trigger] comps@[c])@[0] == elems[j],
            forall|j: int| 0 <= j < i ==> in_some(comps@, #[trigger] elems[j]),
        decreases total - i,
    {
        let start = *members.key_at(i);
        let ghost cb = comps@;
        if !listed(&comps, start) {
            let comp = component_of(graph, members, start);
            let size = comp.len();
            let list = comp.to_vec();
            proof {
                assert(list@ =~= comp.elems());
                assert(list@.to_set() =~= comp@);
                lemma_fresh_component(graph@, members@, cb, list@, start);
                assert(list@[0] == start) by {
                    lemma_least_is_start(graph@, members@, cb, elems, i as int, list@);
                }
            }
            comps.push(list);
            proof {
                let nc = cb.len() as int;
                assert forall|c: int| 0 <= c < cb.len() implies comps@[c] == cb[c] by {}
                assert(lists_component(graph@, members@, comps@[nc]));
                assert forall|c: int, d: int| 0 <= c < d < comps@.len() implies (
                #[trigger] comps@[c])@[0] < (#[trigger] comps@[d])@[0] && comps@[c]@.to_set().disjoint(
                    comps@[d]@.to_set(),
                ) by {
                    if d == nc {
                        let j = choose|j: int| 0 <= j < i && (#[trigger] cb[c])@[0] == elems[j];
                        assert(<u64 as crate::ordered::Ranked>::key_lt(elems[j], elems[i as int]));
                    }
                }
                assert forall|c: int| 0 <= c < comps@.len() implies exists|j: int|
                    0 <= j < i + 1 && (#[trigger] comps@[c])@[0] == elems[j] by {
                    if c < cb.len() {
                        let j = choose|j: int| 0 <= j < i && (#[trigger] cb[c])@[0] == elems[j];
                        assert(comps@[c]@[0] == elems[j]);
                    } else {
                        assert(comps@[c]@[0] == elems[i as int]);
                    }
                }
                assert forall|j: int| 0 <= j < i + 1 implies in_some(comps@, #[trigger] elems[j]) by {
                    if j < i {
                        let c = choose|c: int|
                            0 <= c < cb.len() && (#[trigger] cb[c])@.contains(elems[j]);
                        assert(comps@[c]@.contains(elems[j]));
                    } else {
                        assert(comps@[nc]@[0] == start);
                        assert(comps@[nc]@.contains(start));
                    }
                }
            }
        }
        i += 1;
    }
    proof {
        assert forall|x: u64| members@.contains(x) implies in_some(comps@, x) by {
            assert(elems.contains(x));
            let j = choose|j: int| 0 <= j < elems.len() && elems[j] == x;
            assert(in_some(comps@, elems[j]));
        }
    }
    comps
}

/// Whether `x` is in one of the lists `comps`.
pub fn listed(comps: &Vec<Vec<u64>>, x: u64) -> (r: bool)
    ensures
        r == in_some(comps@, x),
{
    let mut c: usize = 0;
    while c < comps.len()
        invariant
            c <= comps.len(),
            forall|d: int| 0 <= d < c ==> !(#[trigger] comps@[d])@.contains(x),
        decreases comps.len() - c,
    {
        let list = &comps[c];
        let mut k: usize = 0;
        while k < list.len()
            invariant
                k <= list.len(),
                c < comps@.len(),
                *list == comps@[c as int],
                forall|j: int| 0 <= j < k ==> list@[j] != x,
            decreases list.len() - k,
        {
            if list[k] == x {
                assert(comps@[c as int]@.contains(x)) by {
                    assert(list@[k as int] == x);
                }
                return true;
            }
            k += 1;
        }
        c += 1;
    }
    false
}

/// Where every member before the `i`-th is in a component already, the
/// component of the `i`-th member, if it is a new one, has that member as its
/// least node.
proof fn lemma_least_is_start(
    edges: Seq<GraphEdgeView>,
    members: Set<u64>,
    comps: Seq<Vec<u64>>,
    elems: Seq<u64>,
    i: int,
    list: Seq<u64>,
)
    requires
        0 <= i < elems.len(),
        strictly_sorted::<u64>(elems),
        strictly_sorted::<u64>(list),
        forall|k: u64| members.contains(k) <==> elems.contains(k),
        forall|c: int| 0 <= c < comps.len() ==> lists_component(edges, members, #[trigger] comps[c]),
        forall|j: int| 0 <= j < i ==> in_some(comps, #[trigger] elems[j]),
        !in_some(comps, elems[i]),
        is_component(edges, members, elems[i], list.to_set()),
        list.to_set().subset_of(members),
        list.to_set().contains(elems[i]),
        forall|c: int| 0 <= c < comps.len() ==> (#[trigger] comps[c])@.to_set().disjoint(list.to_set()),
    ensures
        list.len() > 0,
        list[0] == elems[i],
{
    let start = elems[i];
    assert(list.contains(start));
    let s = choose|s: int| 0 <= s < list.len() && list[s] == start;
    if s > 0 {
        let y = list[0];
        assert(list.contains(y));
        assert(list.to_set().contains(y));
        assert(<u64 as crate::ordered::Ranked>::key_lt(list[0], list[s]));
        assert(members.contains(y));
        assert(elems.contains(y));
        let j = choose|j: int| 0 <= j < elems.len() && elems[j] == y;
        if j < i {
            assert(in_some(comps, elems[j]));
            let c = choose|c: int| 0 <= c < comps.len() && (#[trigger] comps[c])@.contains(y);
            assert(comps[c]@.to_set().contains(y));
            assert(comps[c]@.to_set().disjoint(list.to_set()));
            assert(false);
        } else if j > i {
            assert(<u64 as crate::ordered::Ranked>::key_lt(elems[i], elems[j]));
            assert(false);
        } else {
            assert(false);
        }
    }
}

} // verus!
