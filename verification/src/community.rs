//! Communities of the graph: partitions, their hierarchy, the most central
//! nodes and the summaries of the communities.
//!
//! Which community a node moves to and how central a node is are computed in
//! floating point by the caller. The library refines and orders the
//! partitions, lifts them level by level, and selects and summarises.

use vstd::prelude::*;
use crate::components::{connected_components, in_some, lists_component};
use crate::graph::{AdjacencyGraph, GraphEdgeView};
use crate::ordered::Duplicate;
use crate::scalar::RankKey64;
use crate::sorted_map::{SortedMap, SortedSet};
use crate::sorting::{key_sorted, lemma_sort_same_items, lemma_stable_sort, sort_by_key, stable_sort};
use crate::text::{decimal_of, join_strs, joined, texts_of, u64_to_decimal};

verus! {

/// A set of nodes, by increasing id, with its number within its level.
#[derive(Debug, PartialEq, Eq)]
pub struct Community {
    pub id: usize,
    pub node_ids: Vec<u64>,
}

impl Duplicate for Community {
    fn duplicate(&self) -> (r: Self)
        ensures
            r.id == self.id,
            r.node_ids@ == self.node_ids@,
    {
        Community { id: self.id, node_ids: self.node_ids.duplicate() }
    }
}

impl View for Community {
    type V = (usize, Seq<u64>);

    open spec fn view(&self) -> (usize, Seq<u64>) {
        (self.id, self.node_ids@)
    }
}

/// The communities of one level of the hierarchy.
#[derive(Debug, PartialEq, Eq)]
pub struct CommunityLevel {
    pub level: usize,
    pub communities: Vec<Community>,
}

/// The summary of one community.
#[derive(Debug, PartialEq, Eq)]
pub struct CommunitySummary {
    pub level: usize,
    pub community_id: usize,
    pub top_nodes: Vec<u64>,
    pub summary: String,
}

/// What writes the summary of a community.
pub trait CommunitySummarizer {
    /// The summary of the community, as characters.
    spec fn summary_of(
        &self,
        level: usize,
        community_id: usize,
        node_ids: Seq<u64>,
        top_nodes: Seq<u64>,
    ) -> Seq<char>;

    fn summarize(
        &self,
        level: usize,
        community_id: usize,
        node_ids: &Vec<u64>,
        top_nodes: &Vec<u64>,
    ) -> (s: String)
        ensures
            s@ == self.summary_of(level, community_id, node_ids@, top_nodes@),
    ;
}

/// The decimal numerals of `ids`.
pub open spec fn id_texts(ids: Seq<u64>) -> Seq<Seq<char>> {
    ids.map_values(|id: u64| decimal_of(id as nat))
}

/// The list `ids` as it is written for reading: `[1, 2, 3]`.
pub open spec fn id_list_text(ids: Seq<u64>) -> Seq<char> {
    "["@ + joined(id_texts(ids), ", "@) + "]"@
}

/// Writes the list `ids` as `[1, 2, 3]`.
pub fn id_list(ids: &Vec<u64>) -> (s: String)
    ensures
        s@ == id_list_text(ids@),
{
    let mut parts: Vec<String> = Vec::new();
    let mut i: usize = 0;
    while i < ids.len()
        invariant
            i <= ids.len(),
            parts@.len() == i,
            forall|j: int| 0 <= j < i ==> (#[trigger] parts@[j])@ == decimal_of(ids@[j] as nat),
        decreases ids.len() - i,
    {
        parts.push(u64_to_decimal(ids[i]));
        i += 1;
    }
    assert(texts_of(parts@) =~= id_texts(ids@));
    let mut s = "[".to_owned();
    s.append(join_strs(&parts, ", ").as_str());
    s.append("]");
    s
}

/// The summarizer that states the level, the number of the community, the
/// number of its nodes and its top nodes.
#[derive(Debug, Clone, Copy, PartialEq, Eq)]
pub struct DeterministicSummarizer;

impl CommunitySummarizer for DeterministicSummarizer {
    open spec fn summary_of(
        &self,
        level: usize,
        community_id: usize,
        node_ids: Seq<u64>,
        top_nodes: Seq<u64>,
    ) -> Seq<char> {
        "L"@ + decimal_of(level as nat) + "-C"@ + decimal_of(community_id as nat) + ": "@
            + decimal_of(node_ids.len()) + " nodes, key "@ + id_list_text(top_nodes)
    }

    fn summarize(
        &self,
        level: usize,
        community_id: usize,
        node_ids: &Vec<u64>,
        top_nodes: &Vec<u64>,
    ) -> (s: String) {
        let mut s = "L".to_owned();
        s.append(u64_to_decimal(level as u64).as_str());
        s.append("-C");
        s.append(u64_to_decimal(community_id as u64).as_str());
        s.append(": ");
        s.append(u64_to_decimal(node_ids.len() as u64).as_str());
        s.append(" nodes, key ");
        s.append(id_list(top_nodes).as_str());
        s
    }
}

/// One community for each node, in order: the partition of a graph without
/// weight, or of a graph that was not partitioned.
pub fn singleton_communities(nodes: &Vec<u64>) -> (out: Vec<Community>)
    ensures
        out@.len() == nodes@.len(),
        forall|i: int|
            0 <= i < out@.len() ==> (#[trigger] out@[i]).id == i && out@[i].node_ids@ == seq![
                nodes@[i],
            ],
{
    let mut out: Vec<Community> = Vec::new();
    let mut i: usize = 0;
    while i < nodes.len()
        invariant
            i <= nodes.len(),
            out@.len() == i,
            forall|j: int|
                0 <= j < i ==> (#[trigger] out@[j]).id == j && out@[j].node_ids@ == seq![nodes@[j]],
        decreases nodes.len() - i,
    {
        let mut node_ids: Vec<u64> = Vec::new();
        node_ids.push(nodes[i]);
        out.push(Community { id: i, node_ids });
        i += 1;
    }
    out
}

/// The nodes that `assignment` puts into the community `cid`.
pub open spec fn members_of(assignment: Map<u64, usize>, cid: usize) -> Set<u64> {
    Set::new(|x: u64| assignment.contains_key(x) && assignment[x] == cid)
}

/// Whether `c` is a refined community of `assignment`: a connected component
/// of one of its communities.
pub open spec fn is_refined(
    edges: Seq<GraphEdgeView>,
    assignment: Map<u64, usize>,
    c: Vec<u64>,
) -> bool {
    exists|cid: usize| #[trigger] lists_component(edges, members_of(assignment, cid), c)
}

/// The ids of the communities that `assignment` uses, each once.
fn used_communities(assignment: &SortedMap<u64, usize>) -> (out: SortedSet<u64>)
    ensures
        forall|cid: u64|
            out@.contains(cid) <==> exists|x: u64|
                assignment@.contains_key(x) && #[trigger] assignment@[x] == cid,
{
    let mut out: SortedSet<u64> = SortedSet::new();
    let n = assignment.len();
    let ghost pairs = assignment.pairs();
    let mut i: usize = 0;
    while i < n
        invariant
            n == pairs.len(),
            pairs == assignment.pairs(),
            i <= n,
            forall|cid: u64|
                out@.contains(cid) <==> exists|j: int| 0 <= j < i && (#[trigger] pairs[j]).1 == cid,
        decreases n - i,
    {
        let cid = *assignment.value_at(i);
        let ghost before = out@;
        out.insert(cid as u64);
        proof {
            assert forall|c: u64|
                out@.contains(c) <==> exists|j: int| 0 <= j < i + 1 && (#[trigger] pairs[j]).1 == c by {
                if before.contains(c) {
                    let j = choose|j: int| 0 <= j < i && (#[trigger] pairs[j]).1 == c;
                    assert(0 <= j < i + 1);
                }
                if exists|j: int| 0 <= j < i + 1 && (#[trigger] pairs[j]).1 == c {
                    let j = choose|j: int| 0 <= j < i + 1 && (#[trigger] pairs[j]).1 == c;
                    if j < i {
                        assert(before.contains(c));
                    }
                }
                if c == cid {
                    assert(pairs[i as int].1 == c);
                }
            }
        }
        i += 1;
    }
    proof {
        assert forall|cid: u64|
            out@.contains(cid) <==> exists|x: u64|
                assignment@.contains_key(x) && #[trigger] assignment@[x] == cid by {
            if out@.contains(cid) {
                let j = choose|j: int| 0 <= j < n && (#[trigger] pairs[j]).1 == cid;
                crate::sorted_map::lemma_pairs_map_at::<u64, usize>(pairs, j);
                assert(assignment@[pairs[j].0] == cid);
            }
            if exists|x: u64| assignment@.contains_key(x) && #[trigger] assignment@[x] == cid {
                let x = choose|x: u64| assignment@.contains_key(x) && #[trigger] assignment@[x] == cid;
                let j = crate::sorted_map::key_index(pairs, x);
                crate::sorted_map::lemma_pairs_map_at::<u64, usize>(pairs, j);
                assert(pairs[j].1 == cid);
            }
        }
    }
    out
}

/// The nodes that `assignment` puts into the community `cid`.
fn members_list(assignment: &SortedMap<u64, usize>, cid: usize) -> (out: SortedSet<u64>)
    ensures
        out@ == members_of(assignment@, cid),
{
    let mut out: SortedSet<u64> = SortedSet::new();
    let n = assignment.len();
    let ghost pairs = assignment.pairs();
    let mut i: usize = 0;
    while i < n
        invariant
            n == pairs.len(),
            pairs == assignment.pairs(),
            i <= n,
            forall|x: u64|
                out@.contains(x) <==> exists|j: int|
                    0 <= j < i && (#[trigger] pairs[j]).0 == x && pairs[j].1 == cid,
        decreases n - i,
    {
        let ghost before = out@;
        if *assignment.value_at(i) == cid {
            out.insert(*assignment.key_at(i));
        }
        proof {
            assert forall|x: u64|
                out@.contains(x) <==> exists|j: int|
                    0 <= j < i + 1 && (#[trigger] pairs[j]).0 == x && pairs[j].1 == cid by {
                if before.contains(x) {
                    let j = choose|j: int| 0 <= j < i && (#[trigger] pairs[j]).0 == x && pairs[j].1 == cid;
                    assert(0 <= j < i + 1);
                }
                if exists|j: int| 0 <= j < i + 1 && (#[trigger] pairs[j]).0 == x && pairs[j].1 == cid {
                    let j = choose|j: int|
                        0 <= j < i + 1 && (#[trigger] pairs[j]).0 == x && pairs[j].1 == cid;
                    if j < i {
                        assert(before.contains(x));
                    }
                }
                if x == pairs[i as int].0 && pairs[i as int].1 == cid {
                    assert(pairs[i as int].0 == x);
                }
            }
        }
        i += 1;
    }
    proof {
        assert forall|x: u64| out@.contains(x) <==> members_of(assignment@, cid).contains(x) by {
            if out@.contains(x) {
                let j = choose|j: int| 0 <= j < n && (#[trigger] pairs[j]).0 == x && pairs[j].1 == cid;
                crate::sorted_map::lemma_pairs_map_at::<u64, usize>(pairs, j);
            }
            if members_of(assignment@, cid).contains(x) {
                let j = crate::sorted_map::key_index(pairs, x);
                crate::sorted_map::lemma_pairs_map_at::<u64, usize>(pairs, j);
                assert(pairs[j].0 == x && pairs[j].1 == cid);
            }
        }
        assert(out@ =~= members_of(assignment@, cid));
    }
    out
}

/// Whether `parts` are the refined parts of the community `cid`, each with
/// its least node: they list its connected components, in the order of their
/// least nodes, and every node of the community is in one of them.
pub open spec fn are_parts(
    edges: Seq<GraphEdgeView>,
    assignment: Map<u64, usize>,
    cid: usize,
    parts: Seq<(u64, Vec<u64>)>,
) -> bool {
    &&& forall|i: int|
        0 <= i < parts.len() ==> lists_component(
            edges,
            members_of(assignment, cid),
            (#[trigger] parts[i]).1,
        ) && parts[i].0 == parts[i].1@[0]
    &&& forall|i: int, j: int|
        0 <= i < j < parts.len() ==> (#[trigger] parts[i]).0 < (#[trigger] parts[j]).0
    &&& forall|x: u64| members_of(assignment, cid).contains(x) ==> #[trigger] item_holds(parts, x)
}

/// The refined parts of the community `cid`.
fn community_parts(graph: &AdjacencyGraph, assignment: &SortedMap<u64, usize>, cid: usize) -> (parts:
    Vec<(u64, Vec<u64>)>)
    ensures
        are_parts(graph@, assignment@, cid, parts@),
{
    let members = members_list(assignment, cid);
    let mut comps = connected_components(graph, &members);
    let ghost all = comps@;
    let ghost total = all.len() as int;
    let mut parts: Vec<(u64, Vec<u64>)> = Vec::new();
    assert(all.skip(0) =~= all);
    while comps.len() > 0
        invariant
            total == all.len(),
            comps@.len() <= total,
            comps@ == all.skip(total - comps@.len()),
            forall|c: int|
                0 <= c < all.len() ==> lists_component(
                    graph@,
                    members_of(assignment@, cid),
                    #[trigger] all[c],
                ),
            parts@.len() == total - comps@.len(),
            forall|c: int|
                0 <= c < parts@.len() ==> (#[trigger] parts@[c]).1 == all[c] && parts@[c].0
                    == all[c]@[0],
        decreases comps.len(),
    {
        let ghost done = total - comps@.len();
        let list = comps.remove(0);
        assert(list == all[done]);
        assert(comps@ =~= all.skip(done + 1));
        assert(lists_component(graph@, members_of(assignment@, cid), all[done]));
        let first = list[0];
        parts.push((first, list));
    }
    proof {
        assert forall|i: int, j: int| 0 <= i < j < parts@.len() implies (#[trigger] parts@[i]).0 < (
        #[trigger] parts@[j]).0 by {
            assert(parts@[i].1 == all[i] && parts@[j].1 == all[j]);
            assert(all[i]@[0] < all[j]@[0]);
        }
        assert forall|x: u64| members_of(assignment@, cid).contains(x) implies #[trigger] item_holds(
            parts@,
            x,
        ) by {
            assert(members@.contains(x));
            assert(in_some(all, x));
            let c = choose|c: int| 0 <= c < all.len() && (#[trigger] all[c])@.contains(x);
            assert(parts@[c].1 == all[c]);
        }
    }
    parts
}

/// Whether `items` are the refined parts of the first `upto` of the
/// communities `used`: refined communities with their least nodes, no two
/// with the same least node, holding every node of those communities.
pub open spec fn parts_upto(
    edges: Seq<GraphEdgeView>,
    assignment: Map<u64, usize>,
    used: Seq<u64>,
    upto: int,
    items: Seq<(u64, Vec<u64>)>,
) -> bool {
    &&& forall|i: int|
        0 <= i < items.len() ==> is_refined(edges, assignment, (#[trigger] items[i]).1)
            && items[i].0 == items[i].1@[0] && lead_placed(assignment, used, upto, items[i].0)
    &&& forall|a: int, b: int|
        0 <= a < b < items.len() ==> (#[trigger] items[a]).0 != (#[trigger] items[b]).0
    &&& forall|j: int, x: u64|
        0 <= j < upto && assignment.contains_key(x) && assignment[x] == (#[trigger] used[j])
            ==> #[trigger] item_holds(items, x)
}

/// The parts of one more community extend the parts of the communities
/// before it.
proof fn lemma_parts_extend(
    edges: Seq<GraphEdgeView>,
    assignment: Map<u64, usize>,
    used: Seq<u64>,
    u: int,
    before: Seq<(u64, Vec<u64>)>,
    parts: Seq<(u64, Vec<u64>)>,
)
    requires
        0 <= u < used.len(),
        used.no_duplicates(),
        used[u] <= usize::MAX,
        parts_upto(edges, assignment, used, u, before),
        are_parts(edges, assignment, used[u] as usize, parts),
    ensures
        parts_upto(edges, assignment, used, u + 1, before + parts),
{
    let cid = used[u] as usize;
    let items = before + parts;
    assert forall|i: int| 0 <= i < items.len() implies is_refined(
        edges,
        assignment,
        (#[trigger] items[i]).1,
    ) && items[i].0 == items[i].1@[0] && lead_placed(assignment, used, u + 1, items[i].0) by {
        if i < before.len() {
            assert(items[i] == before[i]);
            let j = choose|j: int| 0 <= j < u && assignment[before[i].0] == #[trigger] used[j];
            assert(0 <= j < u + 1);
        } else {
            let c = i - before.len();
            assert(items[i] == parts[c]);
            assert(lists_component(edges, members_of(assignment, cid), parts[c].1));
            assert(members_of(assignment, cid).contains(parts[c].0));
            assert(assignment[parts[c].0] == used[u]);
        }
    }
    assert forall|a: int, b: int| 0 <= a < b < items.len() implies (#[trigger] items[a]).0 != (
    #[trigger] items[b]).0 by {
        if b < before.len() {
            assert(items[a] == before[a] && items[b] == before[b]);
        } else if a >= before.len() {
            assert(items[a] == parts[a - before.len()]);
            assert(items[b] == parts[b - before.len()]);
        } else {
            let d = b - before.len();
            assert(items[a] == before[a]);
            assert(items[b] == parts[d]);
            assert(lists_component(edges, members_of(assignment, cid), parts[d].1));
            assert(members_of(assignment, cid).contains(parts[d].0));
            let j = choose|j: int| 0 <= j < u && assignment[before[a].0] == #[trigger] used[j];
            assert(used[j] != used[u]);
        }
    }
    assert forall|j: int, x: u64|
        0 <= j < u + 1 && assignment.contains_key(x) && assignment[x] == (
        #[trigger] used[j]) implies #[trigger] item_holds(items, x) by {
        if j < u {
            assert(item_holds(before, x));
            let i = choose|i: int| 0 <= i < before.len() && (#[trigger] before[i]).1@.contains(x);
            assert(items[i] == before[i]);
        } else {
            assert(members_of(assignment, cid).contains(x));
            assert(item_holds(parts, x));
            let c = choose|c: int| 0 <= c < parts.len() && (#[trigger] parts[c]).1@.contains(x);
            assert(items[before.len() + c] == parts[c]);
        }
    }
}

/// The communities of an assignment of nodes to communities, refined: every
/// community is split into its connected components, edges read as
/// undirected; the parts are ordered by their least nodes and numbered in
/// that order. No node is in two of them, and every assigned node is in one.
pub fn communities_from_assignment(graph: &AdjacencyGraph, assignment: &SortedMap<u64, usize>) -> (out:
    Vec<Community>)
    ensures
        forall|i: int| 0 <= i < out@.len() ==> (#[trigger] out@[i]).id == i,
        forall|i: int|
            0 <= i < out@.len() ==> is_refined(graph@, assignment@, (#[trigger] out@[i]).node_ids),
        forall|i: int, j: int|
            0 <= i < j < out@.len() ==> (#[trigger] out@[i]).node_ids@[0] < (
            #[trigger] out@[j]).node_ids@[0],
        forall|i: int, j: int, x: u64|
            0 <= i < j < out@.len() && #[trigger] out@[i].node_ids@.contains(x)
                ==> !#[trigger] out@[j].node_ids@.contains(x),
        forall|i: int, x: u64|
            0 <= i < out@.len() && #[trigger] out@[i].node_ids@.contains(x)
                ==> assignment@.contains_key(x),
        forall|x: u64|
            assignment@.contains_key(x) ==> exists|i: int|
                0 <= i < out@.len() && (#[trigger] out@[i]).node_ids@.contains(x),
{
    let used = used_communities(assignment);
    let used_n = used.len();
    let mut items: Vec<(u64, Vec<u64>)> = Vec::new();
    let mut u: usize = 0;
    while u < used_n
        invariant
            used_n == used.elems().len(),
            u <= used_n,
            used.elems().no_duplicates(),
            forall|cid: u64|
                used@.contains(cid) <==> exists|x: u64|
                    assignment@.contains_key(x) && #[trigger] assignment@[x] == cid,
            forall|k: u64| used@.contains(k) <==> used.elems().contains(k),
            parts_upto(graph@, assignment@, used.elems(), u as int, items@),
        decreases used_n - u,
    {
        let cid64 = *used.key_at(u);
        let ghost before = items@;
        proof {
            assert(used.elems().contains(used.elems()[u as int]));
            let x = choose|x: u64| assignment@.contains_key(x) && #[trigger] assignment@[x] == cid64;
        }
        let cid = cid64 as usize;
        let mut parts = community_parts(graph, assignment, cid);
        let ghost added = parts@;
        items.append(&mut parts);
        proof {
            lemma_parts_extend(graph@, assignment@, used.elems(), u as int, before, added);
        }
        u += 1;
    }
    let ghost unsorted = items@;
    proof {
        lemma_stable_sort(unsorted);
        lemma_sort_same_items(unsorted);
        crate::sorting::lemma_sort_keeps_keys_apart(unsorted);
    }
    let mut sorted = sort_by_key(items);
    let ghost order = sorted@;
    let ghost n = order.len() as int;
    let mut out: Vec<Community> = Vec::new();
    assert(order.skip(0) =~= order);
    while sorted.len() > 0
        invariant
            n == order.len(),
            sorted@.len() <= n,
            sorted@ == order.skip(n - sorted@.len()),
            out@.len() == n - sorted@.len(),
            forall|i: int|
                0 <= i < out@.len() ==> (#[trigger] out@[i]).id == i && out@[i].node_ids
                    == order[i].1,
        decreases sorted.len(),
    {
        let ghost done = n - sorted@.len();
        let item = sorted.remove(0);
        assert(item == order[done]);
        assert(sorted@ =~= order.skip(done + 1));
        out.push(Community { id: out.len(), node_ids: item.1 });
    }
    proof {
        assert forall|i: int| 0 <= i < out@.len() implies is_refined(
            graph@,
            assignment@,
            (#[trigger] out@[i]).node_ids,
        ) && out@[i].node_ids@[0] == order[i].0 by {
            assert(order.contains(order[i]));
            assert(unsorted.contains(order[i]));
            let j = choose|j: int| 0 <= j < unsorted.len() && unsorted[j] == order[i];
            assert(is_refined(graph@, assignment@, unsorted[j].1));
        }
        assert forall|i: int, j: int| 0 <= i < j < out@.len() implies (
        #[trigger] out@[i]).node_ids@[0] < (#[trigger] out@[j]).node_ids@[0] by {
            assert(is_refined(graph@, assignment@, out@[i].node_ids));
            assert(is_refined(graph@, assignment@, out@[j].node_ids));
            assert(!<u64 as crate::ordered::Ranked>::key_lt(order[j].0@, order[i].0@));
            assert(order[i].0@ != order[j].0@);
        }
        assert forall|i: int, x: u64|
            0 <= i < out@.len() && #[trigger] out@[i].node_ids@.contains(x)
                implies assignment@.contains_key(x) by {
            lemma_refined_within(graph@, assignment@, out@[i].node_ids, x);
        }
        assert forall|i: int, j: int, x: u64|
            0 <= i < j < out@.len() && #[trigger] out@[i].node_ids@.contains(x)
                implies !#[trigger] out@[j].node_ids@.contains(x) by {
            if out@[j].node_ids@.contains(x) {
                lemma_refined_share_start(
                    graph@,
                    assignment@,
                    out@[i].node_ids,
                    out@[j].node_ids,
                    x,
                );
                assert(out@[i].node_ids@[0] < out@[j].node_ids@[0]);
            }
        }
        assert forall|x: u64| assignment@.contains_key(x) implies exists|i: int|
            0 <= i < out@.len() && (#[trigger] out@[i]).node_ids@.contains(x) by {
            let cid = assignment@[x] as u64;
            assert(used@.contains(cid));
            assert(used.elems().contains(cid));
            let j = choose|j: int| 0 <= j < used.elems().len() && used.elems()[j] == cid;
            assert(assignment@[x] == used.elems()[j]);
            assert(item_holds(unsorted, x));
            let k = choose|k: int| 0 <= k < unsorted.len() && (#[trigger] unsorted[k]).1@.contains(x);
            assert(unsorted.contains(unsorted[k]));
            assert(order.contains(unsorted[k]));
            let i = choose|i: int| 0 <= i < order.len() && order[i] == unsorted[k];
            assert(out@[i].node_ids == order[i].1);
        }
    }
    out
}

/// Whether the node `lead` is assigned to one of the first `upto` of the
/// communities `used`.
pub open spec fn lead_placed(assignment: Map<u64, usize>, used: Seq<u64>, upto: int, lead: u64) -> bool {
    assignment.contains_key(lead) && exists|j: int|
        0 <= j < upto && assignment[lead] == #[trigger] used[j]
}

/// Every node of a refined community is assigned.
pub proof fn lemma_refined_within(
    edges: Seq<GraphEdgeView>,
    assignment: Map<u64, usize>,
    c: Vec<u64>,
    x: u64,
)
    requires
        is_refined(edges, assignment, c),
        c@.contains(x),
    ensures
        assignment.contains_key(x),
{
    let cid = choose|cid: usize| #[trigger] lists_component(edges, members_of(assignment, cid), c);
    crate::components::lemma_component_within(edges, members_of(assignment, cid), c, x);
}

/// Two refined communities that share a node are led by the same node.
pub proof fn lemma_refined_share_start(
    edges: Seq<GraphEdgeView>,
    assignment: Map<u64, usize>,
    c: Vec<u64>,
    d: Vec<u64>,
    x: u64,
)
    requires
        is_refined(edges, assignment, c),
        is_refined(edges, assignment, d),
        c@.contains(x),
        d@.contains(x),
    ensures
        c@[0] == d@[0],
{
    let ci = choose|cid: usize| #[trigger] lists_component(edges, members_of(assignment, cid), c);
    let di = choose|cid: usize| #[trigger] lists_component(edges, members_of(assignment, cid), d);
    crate::components::lemma_component_within(edges, members_of(assignment, ci), c, x);
    crate::components::lemma_component_within(edges, members_of(assignment, di), d, x);
    assert(ci == di);
    crate::components::lemma_components_share_start(edges, members_of(assignment, ci), c, d, x);
}

/// Whether one of the items `items` holds the node `x`.
pub open spec fn item_holds(items: Seq<(u64, Vec<u64>)>, x: u64) -> bool {
    exists|i: int| 0 <= i < items.len() && (#[trigger] items[i]).1@.contains(x)
}

/// The community of each node of `communities`: the place of the last
/// community that holds it.
pub open spec fn community_of(communities: Seq<Community>) -> Map<u64, u64>
    decreases communities.len(),
{
    if communities.len() == 0 {
        Map::empty()
    } else {
        with_members(
            community_of(communities.drop_last()),
            communities.last().node_ids@,
            (communities.len() - 1) as u64,
        )
    }
}

/// The map `m` with every node of `nodes` put into the community `idx`.
pub open spec fn with_members(m: Map<u64, u64>, nodes: Seq<u64>, idx: u64) -> Map<u64, u64>
    decreases nodes.len(),
{
    if nodes.len() == 0 {
        m
    } else {
        with_members(m, nodes.drop_last(), idx).insert(nodes.last(), idx)
    }
}

/// The community of each node of `communities`.
fn community_index(communities: &Vec<Community>) -> (m: SortedMap<u64, u64>)
    ensures
        m@ == community_of(communities@),
{
    let mut m: SortedMap<u64, u64> = SortedMap::new();
    let mut c: usize = 0;
    assert(communities@.take(0) =~= Seq::<Community>::empty());
    while c < communities.len()
        invariant
            c <= communities.len(),
            m@ == community_of(communities@.take(c as int)),
        decreases communities.len() - c,
    {
        let ghost base = m@;
        let list = &communities[c].node_ids;
        let mut k: usize = 0;
        assert(list@.take(0) =~= Seq::<u64>::empty());
        while k < list.len()
            invariant
                k <= list.len(),
                m@ == with_members(base, list@.take(k as int), c as u64),
            decreases list.len() - k,
        {
            proof {
                let t = list@.take(k + 1);
                assert(t.drop_last() =~= list@.take(k as int));
                assert(t.last() == list@[k as int]);
            }
            m.insert(list[k], c as u64);
            k += 1;
        }
        proof {
            assert(list@.take(list.len() as int) =~= list@);
            let t = communities@.take(c + 1);
            assert(t.drop_last() =~= communities@.take(c as int));
            assert(t.last() == communities@[c as int]);
        }
        c += 1;
    }
    assert(communities@.take(communities.len() as int) =~= communities@);
    m
}

/// The edges that make every community a node of the graph of communities:
/// one edge from each community to itself, with weight zero.
pub open spec fn self_edges(n: nat) -> Seq<GraphEdgeView> {
    Seq::new(
        n,
        |i: int| GraphEdgeView { source: i as u64, target: i as u64, relation: "self"@, weight: 0 },
    )
}

/// The edges between communities that the edges `links` give: one for each
/// edge whose ends lie in two different communities, with the weight of the
/// edge.
pub open spec fn community_links(index: Map<u64, u64>, links: Seq<(u64, u64, u32)>) -> Seq<
    GraphEdgeView,
>
    decreases links.len(),
{
    if links.len() == 0 {
        Seq::empty()
    } else {
        let rest = community_links(index, links.drop_last());
        let e = links.last();
        if index.contains_key(e.0) && index.contains_key(e.1) && index[e.0] != index[e.1] {
            rest.push(
                GraphEdgeView {
                    source: index[e.0],
                    target: index[e.1],
                    relation: "community_link"@,
                    weight: e.2,
                },
            )
        } else {
            rest
        }
    }
}

/// The graph of the communities: every community is a node with an edge to
/// itself, and every edge of `graph` between two communities is an edge
/// between them. `links` are the edges of `graph` as `AdjacencyGraph::edges`
/// lists them.
pub fn build_super_graph(links: &Vec<(u64, u64, u32)>, communities: &Vec<Community>) -> (g:
    AdjacencyGraph)
    ensures
        g@ == self_edges(communities@.len()) + community_links(
            community_of(communities@),
            links@,
        ),
{
    let index = community_index(communities);
    let mut g = AdjacencyGraph::new();
    let mut c: usize = 0;
    while c < communities.len()
        invariant
            c <= communities.len(),
            g@ == self_edges(c as nat),
        decreases communities.len() - c,
    {
        g.add_edge(c as u64, c as u64, "self", 0);
        c += 1;
        assert(g@ =~= self_edges(c as nat));
    }
    let ghost base = g@;
    let mut k: usize = 0;
    assert(links@.take(0) =~= Seq::<(u64, u64, u32)>::empty());
    assert(base + community_links(index@, links@.take(0)) =~= base);
    while k < links.len()
        invariant
            k <= links.len(),
            index@ == community_of(communities@),
            g@ == base + community_links(index@, links@.take(k as int)),
        decreases links.len() - k,
    {
        let e = links[k];
        proof {
            let t = links@.take(k + 1);
            assert(t.drop_last() =~= links@.take(k as int));
            assert(t.last() == links@[k as int]);
        }
        let ghost before = g@;
        match (index.get(&e.0), index.get(&e.1)) {
            (Some(sc), Some(tc)) => {
                if *sc != *tc {
                    g.add_edge(*sc, *tc, "community_link", e.2);
                    assert(g@ =~= base + community_links(index@, links@.take(k + 1)));
                }
            },
            _ => {},
        }
        k += 1;
    }
    assert(links@.take(links.len() as int) =~= links@);
    g
}

/// The nodes of the communities of `current` that the community `members` of
/// the graph of communities names by their places.
pub open spec fn lifted_nodes(current: Seq<Community>, members: Seq<u64>) -> Set<u64> {
    Set::new(
        |x: u64|
            exists|k: int|
                0 <= k < members.len() && (#[trigger] members[k]) < current.len()
                    && current[members[k] as int].node_ids@.contains(x),
    )
}

/// Whether `c` is the lift of the community at its place in `supers`: it
/// holds the nodes of the communities of `current` that that community names,
/// by increasing id, and there is at least one.
pub open spec fn is_lift(current: Seq<Community>, supers: Seq<Community>, c: Community) -> bool {
    &&& c.id < supers.len()
    &&& c.node_ids@.len() > 0
    &&& crate::sorted_map::strictly_sorted::<u64>(c.node_ids@)
    &&& c.node_ids@.to_set() == lifted_nodes(current, supers[c.id as int].node_ids@)
}

/// Whether `out` is the lift of the partition `supers` of the communities
/// `current`: one community for each community of `supers` that lifts to
/// nodes, under its number and in the order of the numbers, each the lift of
/// its community.
pub open spec fn is_lifted_level(
    current: Seq<Community>,
    supers: Seq<Community>,
    out: Seq<Community>,
) -> bool {
    &&& forall|i: int| 0 <= i < out.len() ==> is_lift(current, supers, #[trigger] out[i])
    &&& forall|i: int, j: int| 0 <= i < j < out.len() ==> (#[trigger] out[i]).id < (#[trigger] out[j]).id
    &&& forall|s: int|
        0 <= s < supers.len() && lifted_nodes(current, (#[trigger] supers[s]).node_ids@)
            != Set::<u64>::empty() ==> has_community(out, s)
}

/// Whether no node is in two of the communities `cs`.
pub open spec fn are_apart(cs: Seq<Community>) -> bool {
    forall|i: int, j: int, x: u64|
        0 <= i < j < cs.len() && #[trigger] cs[i].node_ids@.contains(x)
            ==> !#[trigger] cs[j].node_ids@.contains(x)
}

/// Whether `x` is in one of the communities `cs`.
pub open spec fn is_placed(cs: Seq<Community>, x: u64) -> bool {
    exists|i: int| 0 <= i < cs.len() && (#[trigger] cs[i]).node_ids@.contains(x)
}

/// A lifted level is a partition where the levels below are: where no node
/// is in two communities of `current` and no member in two communities of
/// `supers`, no node is in two communities of the lift.
pub proof fn lemma_lift_keeps_apart(
    current: Seq<Community>,
    supers: Seq<Community>,
    out: Seq<Community>,
)
    requires
        is_lifted_level(current, supers, out),
        are_apart(current),
        are_apart(supers),
    ensures
        are_apart(out),
{
    assert forall|i: int, j: int, x: u64|
        0 <= i < j < out.len() && #[trigger] out[i].node_ids@.contains(x)
        implies !#[trigger] out[j].node_ids@.contains(x) by {
        if out[j].node_ids@.contains(x) {
            let a = out[i];
            let b = out[j];
            assert(is_lift(current, supers, a));
            assert(is_lift(current, supers, b));
            assert(a.id < b.id);
            let ma = supers[a.id as int].node_ids@;
            let mb = supers[b.id as int].node_ids@;
            assert(a.node_ids@.to_set().contains(x));
            assert(b.node_ids@.to_set().contains(x));
            assert(lifted_nodes(current, ma).contains(x));
            assert(lifted_nodes(current, mb).contains(x));
            let p = choose|p: int|
                0 <= p < ma.len() && (#[trigger] ma[p]) < current.len()
                    && current[ma[p] as int].node_ids@.contains(x);
            let q = choose|q: int|
                0 <= q < mb.len() && (#[trigger] mb[q]) < current.len()
                    && current[mb[q] as int].node_ids@.contains(x);
            if ma[p] < mb[q] {
                assert(!current[mb[q] as int].node_ids@.contains(x));
            } else if mb[q] < ma[p] {
                assert(!current[ma[p] as int].node_ids@.contains(x));
            } else {
                assert(supers[a.id as int].node_ids@.contains(ma[p]));
                assert(supers[b.id as int].node_ids@.contains(mb[q]));
                assert(!supers[b.id as int].node_ids@.contains(ma[p]));
            }
        }
    }
}

/// A lifted level loses no node: where every community of `current` is a
/// member of some community of `supers`, every node of `current` is in a
/// community of the lift.
pub proof fn lemma_lift_keeps_nodes(
    current: Seq<Community>,
    supers: Seq<Community>,
    out: Seq<Community>,
    x: u64,
)
    requires
        is_lifted_level(current, supers, out),
        current.len() <= usize::MAX,
        forall|m: u64| m < current.len() ==> #[trigger] is_placed(supers, m),
        is_placed(current, x),
    ensures
        is_placed(out, x),
{
    let place = choose|m: int| 0 <= m < current.len() && (#[trigger] current[m]).node_ids@.contains(x);
    let m = place as u64;
    assert(is_placed(supers, m));
    let s = choose|s: int| 0 <= s < supers.len() && (#[trigger] supers[s]).node_ids@.contains(m);
    let members = supers[s].node_ids@;
    let k = choose|k: int| 0 <= k < members.len() && members[k] == m;
    assert(members[k] < current.len() && current[members[k] as int].node_ids@.contains(x));
    assert(lifted_nodes(current, members).contains(x));
    assert(lifted_nodes(current, members) != Set::<u64>::empty());
    assert(has_community(out, s));
    let i = choose|i: int| 0 <= i < out.len() && (#[trigger] out[i]).id == s;
    assert(is_lift(current, supers, out[i]));
    assert(out[i].node_ids@.to_set().contains(x));
    assert(out[i].node_ids@.contains(x));
}

/// Whether one community of `supers` lifts to at least one node.
pub open spec fn lifts_some(current: Seq<Community>, supers: Seq<Community>) -> bool {
    exists|s: int|
        0 <= s < supers.len() && lifted_nodes(current, (#[trigger] supers[s]).node_ids@)
            != Set::<u64>::empty()
}

/// Whether a community with the number `id` is among `cs`.
pub open spec fn has_community(cs: Seq<Community>, id: int) -> bool {
    exists|i: int| 0 <= i < cs.len() && (#[trigger] cs[i]).id == id
}

/// The nodes of `current[place]`, or none where there is no such community.
fn add_members(nodes: &mut SortedSet<u64>, current: &Vec<Community>, place: u64)
    ensures
        final(nodes)@ == old(nodes)@.union(
            if place < current@.len() {
                current@[place as int].node_ids@.to_set()
            } else {
                Set::<u64>::empty()
            },
        ),
{
    if place < current.len() as u64 {
        let list = &current[place as usize].node_ids;
        let ghost before = nodes@;
        let mut j: usize = 0;
        assert(list@.take(0).to_set() =~= Set::<u64>::empty());
        assert(nodes@ =~= before.union(list@.take(0).to_set()));
        while j < list.len()
            invariant
                j <= list.len(),
                nodes@ == before.union(list@.take(j as int).to_set()),
            decreases list.len() - j,
        {
            nodes.insert(list[j]);
            proof {
                assert(list@.take(j + 1) =~= list@.take(j as int).push(list@[j as int]));
                list@.take(j as int).lemma_push_to_set_commute(list@[j as int]);
                assert(nodes@ =~= before.union(list@.take(j + 1).to_set()));
            }
            j += 1;
        }
        assert(list@.take(list.len() as int) =~= list@);
    } else {
        assert(nodes@ =~= old(nodes)@.union(Set::<u64>::empty()));
    }
}

/// The nodes of the communities of `current` that `members` names.
fn collect_lifted(current: &Vec<Community>, members: &Vec<u64>) -> (nodes: SortedSet<u64>)
    ensures
        nodes@ == lifted_nodes(current@, members@),
{
    let mut nodes: SortedSet<u64> = SortedSet::new();
    let mut k: usize = 0;
    assert(nodes@ =~= lifted_nodes(current@, members@.take(0)));
    while k < members.len()
        invariant
            k <= members.len(),
            nodes@ == lifted_nodes(current@, members@.take(k as int)),
        decreases members.len() - k,
    {
        let ghost before = nodes@;
        let ghost mb = members@.take(k as int);
        let ghost ma = members@.take(k + 1);
        let place = members[k];
        assert(ma[k as int] == place);
        add_members(&mut nodes, current, place);
        proof {
            assert forall|x: u64| nodes@.contains(x) <==> lifted_nodes(current@, ma).contains(x) by {
                if lifted_nodes(current@, ma).contains(x) {
                    let q = choose|q: int|
                        0 <= q < ma.len() && (#[trigger] ma[q]) < current@.len()
                            && current@[ma[q] as int].node_ids@.contains(x);
                    if q < k {
                        assert(mb[q] == ma[q]);
                        assert(lifted_nodes(current@, mb).contains(x));
                    }
                }
                if before.contains(x) {
                    let q = choose|q: int|
                        0 <= q < mb.len() && (#[trigger] mb[q]) < current@.len()
                            && current@[mb[q] as int].node_ids@.contains(x);
                    assert(ma[q] == mb[q]);
                }
                if nodes@.contains(x) && !before.contains(x) {
                    assert(current@[ma[k as int] as int].node_ids@.contains(x));
                }
            }
            assert(nodes@ =~= lifted_nodes(current@, ma));
        }
        k += 1;
    }
    assert(members@.take(members.len() as int) =~= members@);
    nodes
}

/// Lifts the communities of the graph of communities to communities of
/// nodes: each holds the nodes of the communities that it names, by
/// increasing id, and keeps its number; a community without nodes is left out.
pub fn lift_level(current: &Vec<Community>, super_communities: &Vec<Community>) -> (out: Vec<
    Community,
>)
    ensures
        out@.len() <= super_communities@.len(),
        is_lifted_level(current@, super_communities@, out@),
{
    let mut out: Vec<Community> = Vec::new();
    let mut s: usize = 0;
    while s < super_communities.len()
        invariant
            s <= super_communities.len(),
            out@.len() <= s,
            forall|i: int|
                0 <= i < out@.len() ==> is_lift(current@, super_communities@, #[trigger] out@[i]),
            forall|i: int, j: int|
                0 <= i < j < out@.len() ==> (#[trigger] out@[i]).id < (#[trigger] out@[j]).id,
            forall|i: int| 0 <= i < out@.len() ==> (#[trigger] out@[i]).id < s,
            forall|q: int|
                0 <= q < s && lifted_nodes(current@, (#[trigger] super_communities@[q]).node_ids@)
                    != Set::<u64>::empty() ==> has_community(out@, q),
        decreases super_communities.len() - s,
    {
        let nodes = collect_lifted(current, &super_communities[s].node_ids);
        let ghost ob = out@;
        let size = nodes.len();
        if size > 0 {
            let list = nodes.to_vec();
            proof {
                assert(list@ =~= nodes.elems());
            }
            out.push(Community { id: s, node_ids: list });
            proof {
                assert(is_lift(current@, super_communities@, out@[ob.len() as int]));
            }
        } else {
            proof {
                assert(nodes@ =~= Set::<u64>::empty());
            }
        }
        proof {
            assert forall|i: int| 0 <= i < ob.len() implies out@[i] == ob[i] by {}
            assert forall|q: int|
                0 <= q < s + 1 && lifted_nodes(
                    current@,
                    (#[trigger] super_communities@[q]).node_ids@,
                ) != Set::<u64>::empty() implies has_community(out@, q) by {
                if q < s {
                    let i = choose|i: int| 0 <= i < ob.len() && (#[trigger] ob[i]).id == q;
                    assert(out@[i].id == q);
                } else {
                    assert(out@[ob.len() as int].id == s);
                }
            }
        }
        s += 1;
    }
    out
}

/// The number of top nodes among `count` ranked nodes: a tenth of them,
/// rounded up, and at least one.
pub open spec fn top_count(count: int) -> int {
    let tenth = (count + 9) / 10;
    if tenth < 1 {
        1
    } else {
        tenth
    }
}

/// The ranked nodes `s` as items to sort.
pub open spec fn keyed_ranks(s: Seq<(u64, u64)>) -> Seq<(RankKey64, ())> {
    s.map_values(|p: (u64, u64)| (RankKey64 { score: p.1, id: p.0 }, ()))
}

/// The most central nodes: the best tenth of the nodes by rank, rounded up
/// and at least one, highest rank first and lowest id first among equal ranks.
/// `ranks` gives each node with its rank, a double-precision number by bit
/// pattern.
pub fn top_nodes_of(ranks: &Vec<(u64, u64)>) -> (out: Vec<u64>)
    ensures
        ranks@.len() == 0 ==> out@.len() == 0,
        ranks@.len() > 0 ==> out@.len() == (if top_count(ranks@.len() as int) < ranks@.len() {
            top_count(ranks@.len() as int)
        } else {
            ranks@.len() as int
        }),
        stable_sort(keyed_ranks(ranks@)).len() == ranks@.len(),
        forall|i: int|
            0 <= i < out@.len() ==> out@[i] == (#[trigger] stable_sort(keyed_ranks(ranks@))[i]).0.id,
{
    let mut items: Vec<(RankKey64, ())> = Vec::new();
    let mut i: usize = 0;
    while i < ranks.len()
        invariant
            i <= ranks.len(),
            items@ == keyed_ranks(ranks@).take(i as int),
        decreases ranks.len() - i,
    {
        items.push((RankKey64 { score: ranks[i].1, id: ranks[i].0 }, ()));
        i += 1;
        assert(items@ =~= keyed_ranks(ranks@).take(i as int));
    }
    assert(keyed_ranks(ranks@).take(ranks.len() as int) =~= keyed_ranks(ranks@));
    proof {
        lemma_stable_sort(keyed_ranks(ranks@));
    }
    let sorted = sort_by_key(items);
    let mut out: Vec<u64> = Vec::new();
    if sorted.len() == 0 {
        return out;
    }
    let count = sorted.len();
    let tenth = count / 10 + (if count % 10 == 0 {
        0
    } else {
        1
    });
    let take = if tenth < 1 {
        1
    } else {
        tenth
    };
    let take = if take < count {
        take
    } else {
        count
    };
    let mut k: usize = 0;
    while k < take
        invariant
            k <= take <= sorted.len(),
            out@.len() == k,
            forall|j: int| 0 <= j < k ==> out@[j] == (#[trigger] sorted@[j]).0.id,
        decreases take - k,
    {
        out.push(sorted[k].0.id);
        k += 1;
    }
    out
}

/// The top nodes of a community: its nodes that are among `top`, in order, or
/// its first node where none of them is.
pub open spec fn community_top(node_ids: Seq<u64>, top: Set<u64>) -> Seq<u64> {
    let hits = node_ids.filter(|id: u64| top.contains(id));
    if hits.len() == 0 && node_ids.len() > 0 {
        seq![node_ids[0]]
    } else {
        hits
    }
}

/// Whether `s` is the summary of the community `c` of level `level`.
pub open spec fn summarises<S: CommunitySummarizer>(
    summarizer: S,
    level: usize,
    c: Community,
    top: Set<u64>,
    s: CommunitySummary,
) -> bool {
    &&& s.level == level
    &&& s.community_id == c.id
    &&& s.top_nodes@ == community_top(c.node_ids@, top)
    &&& s.summary@ == summarizer.summary_of(level, c.id, c.node_ids@, s.top_nodes@)
}

/// The summaries of the communities of `levels`, level after level.
pub open spec fn summaries_of<S: CommunitySummarizer>(
    summarizer: S,
    levels: Seq<CommunityLevel>,
    top: Set<u64>,
    out: Seq<CommunitySummary>,
) -> bool
    decreases levels.len(),
{
    if levels.len() == 0 {
        out.len() == 0
    } else {
        let last = levels.last();
        let n = last.communities@.len();
        &&& out.len() >= n
        &&& summaries_of(summarizer, levels.drop_last(), top, out.take(out.len() - n))
        &&& forall|i: int|
            0 <= i < n ==> summarises(
                summarizer,
                last.level,
                #[trigger] last.communities@[i],
                top,
                out[out.len() - n + i],
            )
    }
}

/// Summarises every community of every level: each summary names the level
/// and the community, lists the top nodes of the community, and holds the
/// text that the summarizer writes.
pub fn build_summaries<S: CommunitySummarizer>(
    levels: &Vec<CommunityLevel>,
    top_nodes: &Vec<u64>,
    summarizer: &S,
) -> (out: Vec<CommunitySummary>)
    ensures
        summaries_of(*summarizer, levels@, top_nodes@.to_set(), out@),
{
    let mut top_set: SortedSet<u64> = SortedSet::new();
    let mut t: usize = 0;
    assert(top_set@ =~= top_nodes@.take(0).to_set());
    while t < top_nodes.len()
        invariant
            t <= top_nodes.len(),
            top_set@ == top_nodes@.take(t as int).to_set(),
        decreases top_nodes.len() - t,
    {
        top_set.insert(top_nodes[t]);
        proof {
            assert(top_nodes@.take(t + 1) =~= top_nodes@.take(t as int).push(top_nodes@[t as int]));
            top_nodes@.take(t as int).lemma_push_to_set_commute(top_nodes@[t as int]);
        }
        t += 1;
    }
    assert(top_nodes@.take(top_nodes.len() as int) =~= top_nodes@);
    let ghost top = top_nodes@.to_set();
    let mut out: Vec<CommunitySummary> = Vec::new();
    let mut l: usize = 0;
    assert(levels@.take(0) =~= Seq::<CommunityLevel>::empty());
    while l < levels.len()
        invariant
            l <= levels.len(),
            top_set@ == top,
            summaries_of(*summarizer, levels@.take(l as int), top, out@),
        decreases levels.len() - l,
    {
        let level = &levels[l];
        let ghost base = out@;
        let mut c: usize = 0;
        while c < level.communities.len()
            invariant
                c <= level.communities.len(),
                top_set@ == top,
                out@.len() == base.len() + c,
                out@.take(base.len() as int) == base,
                forall|i: int|
                    0 <= i < c ==> summarises(
                        *summarizer,
                        level.level,
                        #[trigger] level.communities@[i],
                        top,
                        out@[base.len() + i],
                    ),
            decreases level.communities.len() - c,
        {
            let community = &level.communities[c];
            let ghost pred = |id: u64| top.contains(id);
            let mut community_top: Vec<u64> = Vec::new();
            let mut k: usize = 0;
            proof {
                crate::seqs::lemma_filter_bounds(community.node_ids@, pred);
            }
            while k < community.node_ids.len()
                invariant
                    k <= community.node_ids.len(),
                    top_set@ == top,
                    pred == (|id: u64| top.contains(id)),
                    community_top@ == community.node_ids@.take(k as int).filter(pred),
                decreases community.node_ids.len() - k,
            {
                proof {
                    crate::seqs::lemma_filter_step(community.node_ids@, pred, k as int);
                }
                if top_set.contains(&community.node_ids[k]) {
                    community_top.push(community.node_ids[k]);
                }
                k += 1;
            }
            proof {
                crate::seqs::lemma_filter_bounds(community.node_ids@, pred);
            }
            if community_top.len() == 0 && community.node_ids.len() > 0 {
                community_top.push(community.node_ids[0]);
                assert(community_top@ =~= seq![community.node_ids@[0]]);
            }
            let summary = summarizer.summarize(
                level.level,
                community.id,
                &community.node_ids,
                &community_top,
            );
            let ghost ob = out@;
            out.push(
                CommunitySummary {
                    level: level.level,
                    community_id: community.id,
                    top_nodes: community_top,
                    summary,
                },
            );
            proof {
                assert(out@.take(base.len() as int) =~= base) by {
                    assert(ob.take(base.len() as int) == base);
                    assert forall|i: int| 0 <= i < base.len() implies out@[i] == base[i] by {
                        assert(ob.take(base.len() as int)[i] == ob[i]);
                    }
                }
                assert forall|i: int| 0 <= i < c + 1 implies summarises(
                    *summarizer,
                    level.level,
                    #[trigger] level.communities@[i],
                    top,
                    out@[base.len() + i],
                ) by {
                    if i < c {
                        assert(out@[base.len() + i] == ob[base.len() + i]);
                    }
                }
            }
            c += 1;
        }
        proof {
            let t = levels@.take(l + 1);
            assert(t.drop_last() =~= levels@.take(l as int));
            assert(t.last() == levels@[l as int]);
            let n = level.communities@.len();
            assert(out@.take(out@.len() - n) == base);
        }
        l += 1;
    }
    assert(levels@.take(levels.len() as int) =~= levels@);
    out
}

/// Builds the hierarchy of communities level by level. The caller partitions
/// the graph of the communities of the last level and hands the partition in;
/// the builder lifts it to the next level, or stops.
#[derive(Debug, PartialEq, Eq)]
pub struct HierarchyBuilder {
    levels: Vec<CommunityLevel>,
    max_levels: usize,
    open: bool,
}

impl HierarchyBuilder {
    /// The levels built so far.
    pub closed spec fn levels(&self) -> Seq<CommunityLevel> {
        self.levels@
    }

    /// Whether a further level may follow.
    pub closed spec fn is_open(&self) -> bool {
        self.open
    }

    /// The greatest number of levels.
    pub closed spec fn limit(&self) -> usize {
        self.max_levels
    }

    #[verifier::type_invariant]
    spec fn inv(&self) -> bool {
        &&& self.levels@.len() >= 1
        &&& self.max_levels >= 1
        &&& self.open ==> self.levels@.len() < self.max_levels && self.levels@.last().communities@.len()
            > 1
    }

    /// Starts a hierarchy of at most `max_levels` levels, at least one, with
    /// the partition `level0` of the graph as its first level. A further level
    /// may follow where more than one level is allowed and the first has more
    /// than one community.
    pub fn new(max_levels: usize, level0: Vec<Community>) -> (b: Self)
        ensures
            b.levels().len() == 1,
            b.levels()[0].level == 0,
            b.levels()[0].communities == level0,
            b.limit() == (if max_levels < 1 {
                1
            } else {
                max_levels
            }),
            b.is_open() == (max_levels > 1 && level0@.len() > 1),
    {
        let limit = if max_levels < 1 {
            1
        } else {
            max_levels
        };
        let open = limit > 1 && level0.len() > 1;
        let mut levels: Vec<CommunityLevel> = Vec::new();
        levels.push(CommunityLevel { level: 0, communities: level0 });
        HierarchyBuilder { levels, max_levels: limit, open }
    }

    /// The communities of the last level.
    pub fn current(&self) -> (c: &Vec<Community>)
        ensures
            self.levels().len() >= 1,
            *c == self.levels().last().communities,
    {
        proof {
            use_type_invariant(self);
        }
        &self.levels[self.levels.len() - 1].communities
    }

    /// The graph of the communities of the last level, to be partitioned for
    /// the next level; none where no further level may follow. `links` are the
    /// edges of the graph as `AdjacencyGraph::edges` lists them.
    pub fn super_graph(&self, links: &Vec<(u64, u64, u32)>) -> (g: Option<AdjacencyGraph>)
        ensures
            g is Some == self.is_open(),
            g matches Some(graph) ==> self.levels().len() >= 1 && graph@ == self_edges(
                self.levels().last().communities@.len(),
            ) + community_links(community_of(self.levels().last().communities@), links@),
    {
        proof {
            use_type_invariant(self);
        }
        if !self.open {
            return None;
        }
        Some(build_super_graph(links, self.current()))
    }

    /// Takes in the partition of the graph of communities. The partition
    /// becomes the next level exactly where a further level may follow, the
    /// partition has fewer communities than the last level, at least one, and
    /// one of them lifts to nodes; else the hierarchy is complete. After a new
    /// level a further one may follow where the limit allows it and the new
    /// level has more than one community.
    pub fn absorb(&mut self, super_communities: &Vec<Community>) -> (added: bool)
        ensures
            final(self).limit() == old(self).limit(),
            added == (old(self).is_open() && 0 < super_communities@.len() < old(
                self,
            ).levels().last().communities@.len() && lifts_some(
                old(self).levels().last().communities@,
                super_communities@,
            )),
            !old(self).is_open() ==> !added && final(self).levels() == old(self).levels()
                && !final(self).is_open(),
            !added ==> final(self).levels() == old(self).levels() && !final(self).is_open(),
            added ==> {
                &&& old(self).is_open()
                &&& 0 < super_communities@.len() < old(self).levels().last().communities@.len()
                &&& final(self).levels().len() == old(self).levels().len() + 1
                &&& final(self).levels().take(old(self).levels().len() as int) == old(
                    self,
                ).levels()
                &&& final(self).levels().last().level == old(self).levels().len()
                &&& 0 < final(self).levels().last().communities@.len() < old(
                    self,
                ).levels().last().communities@.len()
                &&& is_lifted_level(
                    old(self).levels().last().communities@,
                    super_communities@,
                    final(self).levels().last().communities@,
                )
                &&& final(self).is_open() == (final(self).levels().len() < final(self).limit()
                    && final(self).levels().last().communities@.len() > 1)
            },
    {
        proof {
            use_type_invariant(&*self);
        }
        if !self.open {
            return false;
        }
        let count = self.levels[self.levels.len() - 1].communities.len();
        if super_communities.len() == 0 || super_communities.len() >= count {
            self.open = false;
            return false;
        }
        let next = lift_level(self.current(), super_communities);
        if next.len() == 0 {
            proof {
                assert forall|s: int| 0 <= s < super_communities@.len() implies lifted_nodes(
                    old(self).levels().last().communities@,
                    (#[trigger] super_communities@[s]).node_ids@,
                ) == Set::<u64>::empty() by {
                    if lifted_nodes(
                        old(self).levels().last().communities@,
                        super_communities@[s].node_ids@,
                    ) != Set::<u64>::empty() {
                        assert(has_community(next@, s));
                    }
                }
            }
            self.open = false;
            return false;
        }
        proof {
            let first = next@[0];
            assert(is_lift(old(self).levels().last().communities@, super_communities@, first));
            assert(first.node_ids@.to_set().contains(first.node_ids@[0]));
            assert(lifted_nodes(
                old(self).levels().last().communities@,
                super_communities@[first.id as int].node_ids@,
            ).contains(first.node_ids@[0]));
        }
        let level = self.levels.len();
        let more = next.len() > 1;
        let ghost before = self.levels@;
        self.open = false;
        let mut levels: Vec<CommunityLevel> = Vec::new();
        levels.push(CommunityLevel { level: 0, communities: Vec::new() });
        core::mem::swap(&mut levels, &mut self.levels);
        levels.push(CommunityLevel { level, communities: next });
        assert(levels@.take(before.len() as int) =~= before);
        let open = levels.len() < self.max_levels && more;
        self.levels = levels;
        self.open = open;
        true
    }

    /// The levels of the hierarchy.
    pub fn finish(self) -> (levels: Vec<CommunityLevel>)
        ensures
            levels@ == self.levels(),
            levels@.len() >= 1,
    {
        proof {
            use_type_invariant(&self);
        }
        self.levels
    }
}

/// The communities of a graph: the hierarchy, the summaries and the most
/// central nodes, and the nodes that changed since they were built.
#[derive(Debug, PartialEq, Eq)]
pub struct CommunityEngine {
    graph: AdjacencyGraph,
    hierarchy: Vec<CommunityLevel>,
    summaries: Vec<CommunitySummary>,
    pagerank: Vec<(u64, u64)>,
    dirty_nodes: SortedSet<u64>,
    max_levels: usize,
}

impl CommunityEngine {
    /// The edges of the graph.
    pub closed spec fn edges(&self) -> Seq<GraphEdgeView> {
        self.graph@
    }

    /// The nodes that changed since the hierarchy was built.
    pub closed spec fn dirty(&self) -> Set<u64> {
        self.dirty_nodes@
    }

    /// The levels of the hierarchy.
    pub closed spec fn levels(&self) -> Seq<CommunityLevel> {
        self.hierarchy@
    }

    /// The summaries of the communities.
    pub closed spec fn summary_list(&self) -> Seq<CommunitySummary> {
        self.summaries@
    }

    /// The nodes with their ranks.
    pub closed spec fn ranks(&self) -> Seq<(u64, u64)> {
        self.pagerank@
    }

    /// The greatest number of levels of the hierarchy.
    pub closed spec fn limit(&self) -> usize {
        self.max_levels
    }

    /// An engine for `graph`, with nothing built yet and a limit of three
    /// levels.
    pub fn new(graph: AdjacencyGraph) -> (e: Self)
        ensures
            e.edges() == graph@,
            e.levels().len() == 0,
            e.summary_list().len() == 0,
            e.ranks().len() == 0,
            e.dirty() == Set::<u64>::empty(),
            e.limit() == 3,
    {
        CommunityEngine {
            graph,
            hierarchy: Vec::new(),
            summaries: Vec::new(),
            pagerank: Vec::new(),
            dirty_nodes: SortedSet::new(),
            max_levels: 3,
        }
    }

    /// The graph.
    pub fn graph(&self) -> (g: &AdjacencyGraph)
        ensures
            g@ == self.edges(),
    {
        &self.graph
    }

    /// The greatest number of levels of the hierarchy.
    pub fn max_levels(&self) -> (n: usize)
        ensures
            n == self.limit(),
    {
        self.max_levels
    }

    /// Takes in a rebuilt hierarchy: the levels at a limit of `max_levels`
    /// levels, at least one, and the ranks of the nodes. Selects the most
    /// central nodes, summarises every community, and forgets which nodes had
    /// changed.
    pub fn rebuild_hierarchy<S: CommunitySummarizer>(
        &mut self,
        max_levels: usize,
        levels: Vec<CommunityLevel>,
        pagerank: Vec<(u64, u64)>,
        summarizer: &S,
    )
        ensures
            final(self).edges() == old(self).edges(),
            final(self).limit() == (if max_levels < 1 {
                1
            } else {
                max_levels
            }),
            final(self).levels() == levels@,
            final(self).ranks() == pagerank@,
            final(self).dirty() == Set::<u64>::empty(),
            exists|top: Seq<u64>|
                #[trigger] is_top_of(pagerank@, top) && summaries_of(
                    *summarizer,
                    levels@,
                    top.to_set(),
                    final(self).summary_list(),
                ),
    {
        self.max_levels = if max_levels < 1 {
            1
        } else {
            max_levels
        };
        self.hierarchy = levels;
        self.pagerank = pagerank;
        let top = self.fastgraphrag_top_nodes();
        self.summaries = build_summaries(&self.hierarchy, &top, summarizer);
        self.dirty_nodes = SortedSet::new();
        assert(is_top_of(pagerank@, top@));
    }

    /// Appends an edge to the graph and notes that its ends changed.
    pub fn add_edge_incremental(&mut self, source: u64, target: u64, relation: &str, weight: u32)
        ensures
            final(self).edges() == old(self).edges().push(
                GraphEdgeView { source, target, relation: relation@, weight },
            ),
            final(self).dirty() == old(self).dirty().insert(source).insert(target),
            final(self).levels() == old(self).levels(),
            final(self).summary_list() == old(self).summary_list(),
            final(self).ranks() == old(self).ranks(),
            final(self).limit() == old(self).limit(),
    {
        self.graph.add_edge(source, target, relation, weight);
        self.dirty_nodes.insert(source);
        self.dirty_nodes.insert(target);
    }

    /// Whether a node changed since the hierarchy was built, so that an
    /// incremental refresh has something to do.
    pub fn needs_refresh(&self) -> (r: bool)
        ensures
            r == (self.dirty() != Set::<u64>::empty()),
    {
        !self.dirty_nodes.is_empty()
    }

    /// The most central nodes: the best tenth of the ranked nodes.
    pub fn fastgraphrag_top_nodes(&self) -> (out: Vec<u64>)
        ensures
            is_top_of(self.ranks(), out@),
    {
        top_nodes_of(&self.pagerank)
    }

    /// The levels of the hierarchy.
    pub fn hierarchy(&self) -> (h: &Vec<CommunityLevel>)
        ensures
            h@ == self.levels(),
    {
        &self.hierarchy
    }

    /// The summaries of the communities.
    pub fn summaries(&self) -> (s: &Vec<CommunitySummary>)
        ensures
            s@ == self.summary_list(),
    {
        &self.summaries
    }
}

/// Whether `top` lists the most central nodes of `ranks`: the best tenth of
/// the nodes by rank, rounded up and at least one, highest rank first and
/// lowest id first among equal ranks.
pub open spec fn is_top_of(ranks: Seq<(u64, u64)>, top: Seq<u64>) -> bool {
    &&& ranks.len() == 0 ==> top.len() == 0
    &&& ranks.len() > 0 ==> top.len() == (if top_count(ranks.len() as int) < ranks.len() {
        top_count(ranks.len() as int)
    } else {
        ranks.len() as int
    })
    &&& stable_sort(keyed_ranks(ranks)).len() == ranks.len()
    &&& forall|i: int|
        0 <= i < top.len() ==> top[i] == (#[trigger] stable_sort(keyed_ranks(ranks))[i]).0.id
}

} // verus!
