//! The pieces of query execution: filters, anchors, graph expansion, ranking,
//! pruning and the assembly of the response.
//!
//! Scores, weights and confidences are single-precision numbers by bit
//! pattern. The engine orders them and carries them; the caller computes
//! them.

use vstd::prelude::*;
use crate::dsl::{parse_ymd, ymd_day_number, QueryMode, QueryRequest, SearchMode};
use crate::planner::{steps_of, QueryPlan};
use crate::text::{decimal_of, texts_of, u64_to_decimal};
use crate::graph::{
    is_traversal, relation_allowed, visit_ok, walk_hop, walk_node, AdjacencyGraph, GraphEdgeView,
    Visit,
};
use crate::scalar::RankKey;
use crate::seqs::{lemma_filter_bounds, lemma_filter_step};
use crate::sorted_map::SortedMap;
use crate::sorting::{
    key_sorted, lemma_sort_keeps_keys_apart, lemma_sort_same_items, lemma_stable_sort,
    sort_by_key, stable_sort, with_payloads,
};
use crate::state::EdgeMetaKey;
use crate::text::{lemma_lex_lt_irreflexive, lemma_lex_lt_total, lemma_lex_lt_transitive, lex_lt, same_text, str_less};
use crate::model::{Node, NodeView};
use crate::ordered::{Duplicate, Ordered, Ranked};
use crate::error::{AlayasikiError, ErrorCode};
use crate::repo::RepoError;
use crate::sorted_map::SortedSet;
use crate::state::MaterializedState;
use crate::text::{join_strs, joined, parse_decimal, parse_u64};
use crate::tokens::{lexical_overlap, lower_chars, overlap_of, token_set, tokenize, Overlap};

verus! {

/// The embedding model of a query that names none.
pub const DEFAULT_EMBEDDING_MODEL_ID: &'static str = "embedding-default-v1";

/// Where a piece of evidence comes from.
#[derive(Debug, PartialEq, Eq)]
pub struct Provenance {
    pub source: Option<String>,
    pub extraction_model_id: Option<String>,
    pub snapshot_id: Option<String>,
    pub ingested_at: Option<String>,
}

impl Default for Provenance {
    fn default() -> (p: Self)
        ensures
            p == (Provenance {
                source: None,
                extraction_model_id: None,
                snapshot_id: None,
                ingested_at: None,
            }),
    {
        Provenance { source: None, extraction_model_id: None, snapshot_id: None, ingested_at: None }
    }
}

/// A copy of an optional string.
pub fn copy_opt(s: &Option<String>) -> (r: Option<String>)
    ensures
        r == *s,
{
    match s {
        Some(t) => Some(t.clone()),
        None => None,
    }
}

impl Clone for Provenance {
    fn clone(&self) -> (r: Self)
        ensures
            r == *self,
    {
        Provenance {
            source: copy_opt(&self.source),
            extraction_model_id: copy_opt(&self.extraction_model_id),
            snapshot_id: copy_opt(&self.snapshot_id),
            ingested_at: copy_opt(&self.ingested_at),
        }
    }
}

/// A node of the evidence.
#[derive(Debug, PartialEq, Eq)]
pub struct EvidenceNode {
    pub id: u64,
    pub data: String,
    pub score: u32,
    pub hop: u8,
    pub provenance: Provenance,
    pub confidence: u32,
}

/// An edge of the evidence.
#[derive(Debug, PartialEq, Eq)]
pub struct EvidenceEdge {
    pub source: u64,
    pub target: u64,
    pub relation: String,
    pub weight: u32,
    pub provenance: Provenance,
    pub confidence: u32,
}

/// The evidence of a response: nodes and the edges among them.
#[derive(Debug, PartialEq, Eq)]
pub struct EvidenceSubgraph {
    pub nodes: Vec<EvidenceNode>,
    pub edges: Vec<EvidenceEdge>,
}

/// A reference to a source, with the span of the node's text that it covers.
#[derive(Debug, PartialEq, Eq)]
pub struct Citation {
    pub source: String,
    pub span: (usize, usize),
    pub node_id: u64,
    pub confidence: u32,
}

/// A node that vector search chose as an entry point.
#[derive(Debug, Clone, Copy, PartialEq, Eq)]
pub struct Anchor {
    pub node_id: u64,
    pub score: u32,
}

/// A path of the graph expansion, from an anchor to a node that it reached.
#[derive(Debug, PartialEq, Eq)]
pub struct ExpansionPath {
    pub anchor_id: u64,
    pub target_id: u64,
    pub path: Vec<u64>,
}

/// Why a node, or something else, was left out of the evidence.
#[derive(Debug, PartialEq, Eq)]
pub struct ExclusionReason {
    pub node_id: Option<u64>,
    pub reason: String,
}

/// How a response came about.
#[derive(Debug, PartialEq, Eq)]
pub struct ExplainPlan {
    pub steps: Vec<String>,
    pub effective_search_mode: SearchMode,
    pub anchors: Vec<Anchor>,
    pub expansion_paths: Vec<ExpansionPath>,
    pub exclusions: Vec<ExclusionReason>,
}

/// The response to a query.
#[derive(Debug, PartialEq, Eq)]
pub struct QueryResponse {
    pub answer: Option<String>,
    pub evidence: EvidenceSubgraph,
    pub citations: Vec<Citation>,
    pub groundedness: u32,
    pub explain: ExplainPlan,
    pub model_id: Option<String>,
    pub snapshot_id: Option<String>,
    pub time_travel: Option<String>,
    pub latency_ms: u64,
}

/// A node with its score, as the engine ranks it.
#[derive(Debug, PartialEq, Eq)]
pub struct RankedNode {
    pub id: u64,
    pub data: String,
    pub score: u32,
    pub hop: u8,
    pub source: Option<String>,
    pub extraction_model_id: Option<String>,
    pub node_snapshot_id: Option<String>,
    pub ingested_at: Option<String>,
    pub confidence: u32,
}

/// An edge that the expansion walked, before it becomes evidence.
#[derive(Debug, PartialEq, Eq)]
pub struct InternalEdge {
    pub source: u64,
    pub target: u64,
    pub relation: String,
    pub weight: u32,
    pub provenance: Provenance,
    pub confidence: u32,
}

impl View for InternalEdge {
    type V = InternalEdge;

    open spec fn view(&self) -> InternalEdge {
        *self
    }
}

impl Duplicate for InternalEdge {
    fn duplicate(&self) -> (r: Self) {
        InternalEdge {
            source: self.source,
            target: self.target,
            relation: self.relation.clone(),
            weight: self.weight,
            provenance: self.provenance.clone(),
            confidence: self.confidence,
        }
    }
}

/// What one run of the execution pipeline found.
#[derive(Debug, PartialEq, Eq)]
pub struct ExecutionState {
    pub anchors: Vec<Anchor>,
    pub expansion_paths: Vec<ExpansionPath>,
    pub exclusions: Vec<ExclusionReason>,
    pub nodes: Vec<RankedNode>,
    pub edges: Vec<InternalEdge>,
}

/// The embedding model of `request`: the one it names, or the default.
pub fn effective_query_model_id(request: &QueryRequest) -> (id: String)
    ensures
        id@ == match request.model_id {
            Some(m) => m@,
            None => DEFAULT_EMBEDDING_MODEL_ID@,
        },
{
    match &request.model_id {
        Some(m) => m.clone(),
        None => DEFAULT_EMBEDDING_MODEL_ID.to_owned(),
    }
}

/// The texts of `values`, as a set.
pub open spec fn text_set(values: Seq<String>) -> Set<Seq<char>> {
    Set::new(|t: Seq<char>| exists|i: int| 0 <= i < values.len() && (#[trigger] values[i])@ == t)
}

/// The set of the texts of `values`.
pub fn string_set(values: &Vec<String>) -> (out: SortedSet<String>)
    ensures
        out@ == text_set(values@),
{
    let mut out: SortedSet<String> = SortedSet::new();
    let mut i: usize = 0;
    assert(out@ =~= text_set(values@.take(0)));
    while i < values.len()
        invariant
            i <= values.len(),
            out@ == text_set(values@.take(i as int)),
        decreases values.len() - i,
    {
        let ghost before = values@.take(i as int);
        let ghost after = values@.take(i + 1);
        let ghost ob = out@;
        out.insert(values[i].clone());
        proof {
            assert(after[i as int] == values@[i as int]);
            assert forall|t: Seq<char>| out@.contains(t) <==> text_set(after).contains(t) by {
                if ob.contains(t) {
                    let j = choose|j: int| 0 <= j < before.len() && (#[trigger] before[j])@ == t;
                    assert(after[j]@ == t);
                }
                if text_set(after).contains(t) {
                    let j = choose|j: int| 0 <= j < after.len() && (#[trigger] after[j])@ == t;
                    if j < i {
                        assert(before[j]@ == t);
                    }
                }
            }
            assert(out@ =~= text_set(after));
        }
        i += 1;
    }
    assert(values@.take(values.len() as int) =~= values@);
    out
}

/// The relations that `request` allows: those of its relation filter and
/// those of its traversal. The empty set allows every relation.
pub fn collect_relation_filter(request: &QueryRequest) -> (out: SortedSet<String>)
    ensures
        out@ == text_set(request.filters.relation_type@).union(
            text_set(request.traversal.relation_types@),
        ),
{
    let mut out = string_set(&request.filters.relation_type);
    let ghost first = out@;
    let more = &request.traversal.relation_types;
    let mut i: usize = 0;
    assert(out@ =~= first.union(text_set(more@.take(0))));
    while i < more.len()
        invariant
            i <= more.len(),
            out@ == first.union(text_set(more@.take(i as int))),
        decreases more.len() - i,
    {
        let ghost before = more@.take(i as int);
        let ghost after = more@.take(i + 1);
        out.insert(more[i].clone());
        proof {
            assert(after[i as int] == more@[i as int]);
            assert forall|t: Seq<char>| out@.contains(t) <==> first.union(
                text_set(after),
            ).contains(t) by {
                if text_set(before).contains(t) {
                    let j = choose|j: int| 0 <= j < before.len() && (#[trigger] before[j])@ == t;
                    assert(after[j]@ == t);
                }
                if text_set(after).contains(t) {
                    let j = choose|j: int| 0 <= j < after.len() && (#[trigger] after[j])@ == t;
                    if j < i {
                        assert(before[j]@ == t);
                    }
                }
            }
            assert(out@ =~= first.union(text_set(after)));
        }
        i += 1;
    }
    assert(more@.take(more.len() as int) =~= more@);
    out
}

/// Whether `relation` may be followed under `relation_filter`.
pub fn relation_is_allowed(relation: &str, relation_filter: &SortedSet<String>) -> (r: bool)
    ensures
        r == relation_allowed(relation_filter@, relation@),
{
    if relation_filter.is_empty() {
        return true;
    }
    let key = relation.to_owned();
    relation_filter.contains(&key)
}

/// Why a query failed.
#[derive(Debug, PartialEq, Eq)]
pub enum QueryError {
    InvalidQuery(String),
    Repository(RepoError),
    Unauthorized(crate::auth::AuthzError),
}

impl QueryError {
    /// The message of the error, as characters.
    pub open spec fn message_text(&self) -> Seq<char> {
        match self {
            QueryError::InvalidQuery(m) => "invalid query: "@ + m@,
            QueryError::Repository(e) => "repository error: "@ + e.message_text(),
            QueryError::Unauthorized(e) => "authorization error: "@ + e.message_text(),
        }
    }

    /// The message of the error.
    pub fn message(&self) -> (s: String)
        ensures
            s@ == self.message_text(),
    {
        match self {
            QueryError::InvalidQuery(m) => {
                let mut s = "invalid query: ".to_owned();
                s.append(m.as_str());
                s
            },
            QueryError::Repository(e) => {
                let mut s = "repository error: ".to_owned();
                s.append(e.message().as_str());
                s
            },
            QueryError::Unauthorized(e) => {
                let mut s = "authorization error: ".to_owned();
                s.append(e.message().as_str());
                s
            },
        }
    }
}

impl AlayasikiError for QueryError {
    /// An invalid query is an invalid argument, a denial is a denied
    /// permission, and an error of the repository keeps its code.
    open spec fn code(&self) -> ErrorCode {
        match self {
            QueryError::InvalidQuery(_) => ErrorCode::InvalidArgument,
            QueryError::Repository(e) => e.code(),
            QueryError::Unauthorized(_) => ErrorCode::PermissionDenied,
        }
    }

    fn error_code(&self) -> (c: ErrorCode) {
        match self {
            QueryError::InvalidQuery(_) => ErrorCode::InvalidArgument,
            QueryError::Repository(e) => e.error_code(),
            QueryError::Unauthorized(_) => ErrorCode::PermissionDenied,
        }
    }
}

/// The days of the time range of `request`, as day numbers, where it has a
/// time range.
pub fn parse_time_range(request: &QueryRequest) -> (r: Result<Option<(i32, i32)>, QueryError>)
    ensures
        match request.filters.time_range {
            None => r == Ok::<Option<(i32, i32)>, QueryError>(None),
            Some(range) => match (ymd_day_number(range.from@), ymd_day_number(range.to@)) {
                (Some(from), Some(to)) => r == Ok::<Option<(i32, i32)>, QueryError>(
                    Some((from, to)),
                ),
                _ => r matches Err(QueryError::InvalidQuery(m)) && m@
                    == "filters.time_range.from/to must be YYYY-MM-DD"@,
            },
        },
{
    match &request.filters.time_range {
        None => Ok(None),
        Some(range) => {
            let from = parse_ymd(range.from.as_str());
            let to = parse_ymd(range.to.as_str());
            match (from, to) {
                (Some(f), Some(t)) => Ok(Some((f, t))),
                _ => Err(
                    QueryError::InvalidQuery(
                        "filters.time_range.from/to must be YYYY-MM-DD".to_owned(),
                    ),
                ),
            }
        },
    }
}

/// Whether the retention of a node with metadata `m` has run out at `now`:
/// whether `retention_until_unix` holds a number that `now` has reached.
pub open spec fn retention_expired(m: Map<Seq<char>, Seq<char>>, now: u64) -> bool {
    m.contains_key("retention_until_unix"@) && parse_decimal(m["retention_until_unix"@]) is Some
        && now >= parse_decimal(m["retention_until_unix"@])->0
}

/// Whether the retention of `node` has run out at `now_unix`.
pub fn node_is_retention_expired(node: &Node, now_unix: u64) -> (r: bool)
    ensures
        r == retention_expired(node@.metadata, now_unix),
{
    let key = "retention_until_unix".to_owned();
    match node.metadata.get(&key) {
        None => false,
        Some(raw) => match parse_u64(raw.as_str()) {
            None => false,
            Some(deadline) => now_unix >= deadline,
        },
    }
}

/// Whether `day` is a day within `range`, both ends included.
pub open spec fn in_range(day: Option<i32>, range: (i32, i32)) -> bool {
    day is Some && range.0 <= day->0 <= range.1
}

/// Why the filters leave out a node with metadata `m`, if they do: its
/// retention has run out; or an entity filter is set and the node's
/// `entity_type` is not in it; or a time range is set and the node's
/// `timestamp` is no date within it.
pub open spec fn exclusion_of(
    m: Map<Seq<char>, Seq<char>>,
    entity_filter: Set<Seq<char>>,
    time_range: Option<(i32, i32)>,
    now: u64,
) -> Option<Seq<char>> {
    if retention_expired(m, now) {
        Some("retention_expired"@)
    } else if entity_filter != Set::<Seq<char>>::empty() && !(m.contains_key("entity_type"@)
        && entity_filter.contains(m["entity_type"@])) {
        Some("entity_type_filtered"@)
    } else if time_range is Some && !(m.contains_key("timestamp"@) && in_range(
        ymd_day_number(m["timestamp"@]),
        time_range->0,
    )) {
        Some("time_range_filtered"@)
    } else {
        None
    }
}

/// Why the filters leave out `node`, if they do.
pub fn node_filter_exclusion_reason(
    node: &Node,
    entity_filter: &SortedSet<String>,
    time_range: Option<(i32, i32)>,
    now_unix: u64,
) -> (r: Option<String>)
    ensures
        match r {
            Some(reason) => exclusion_of(node@.metadata, entity_filter@, time_range, now_unix)
                == Some(reason@),
            None => exclusion_of(node@.metadata, entity_filter@, time_range, now_unix) is None,
        },
{
    if node_is_retention_expired(node, now_unix) {
        return Some("retention_expired".to_owned());
    }
    if !entity_filter.is_empty() {
        let key = "entity_type".to_owned();
        let passes = match node.metadata.get(&key) {
            Some(value) => entity_filter.contains(value),
            None => false,
        };
        if !passes {
            return Some("entity_type_filtered".to_owned());
        }
    }
    if let Some((from, to)) = time_range {
        let key = "timestamp".to_owned();
        let passes = match node.metadata.get(&key) {
            Some(value) => match parse_ymd(value.as_str()) {
                Some(day) => from <= day && day <= to,
                None => false,
            },
            None => false,
        };
        if !passes {
            return Some("time_range_filtered".to_owned());
        }
    }
    None
}

/// Whether `node` passes the filters.
pub fn node_passes_filters(
    node: &Node,
    entity_filter: &SortedSet<String>,
    time_range: Option<(i32, i32)>,
    now_unix: u64,
) -> (r: bool)
    ensures
        r == (exclusion_of(node@.metadata, entity_filter@, time_range, now_unix) is None),
{
    node_filter_exclusion_reason(node, entity_filter, time_range, now_unix).is_none()
}

/// The hits that anchors are taken from: the vector hits, or, where there are
/// none, the first node of the repository with a score of zero.
pub open spec fn anchor_hits(hits: Seq<(u64, u32)>, first_node: Option<u64>) -> Seq<(u64, u32)> {
    if hits.len() > 0 {
        hits
    } else {
        match first_node {
            Some(id) => seq![(id, 0u32)],
            None => Seq::empty(),
        }
    }
}

/// The number of anchors to take from `n` hits: at most `vector_top_k`, and at
/// least one.
pub open spec fn anchor_limit(vector_top_k: usize, n: int) -> int {
    let m = if vector_top_k < n {
        vector_top_k as int
    } else {
        n
    };
    if m < 1 {
        1
    } else {
        m
    }
}

/// Chooses the anchors: the best vector hits, at most `vector_top_k` of them
/// and at least one where there is a hit. Without hits the first node of the
/// repository is the only anchor, with a score of zero; without nodes there is
/// no anchor.
pub fn select_anchors(vector_hits: &Vec<(u64, u32)>, first_node: Option<u64>, vector_top_k: usize) -> (anchors: Vec<Anchor>)
    ensures
        ({
            let hits = anchor_hits(vector_hits@, first_node);
            let limit = anchor_limit(vector_top_k, hits.len() as int);
            &&& anchors@.len() == (if hits.len() < limit {
                hits.len() as int
            } else {
                limit
            })
            &&& forall|i: int|
                0 <= i < anchors@.len() ==> (#[trigger] anchors@[i]).node_id == hits[i].0
                    && anchors@[i].score == hits[i].1
        }),
{
    let mut anchors: Vec<Anchor> = Vec::new();
    if vector_hits.len() == 0 {
        match first_node {
            Some(id) => {
                anchors.push(Anchor { node_id: id, score: 0 });
            },
            None => {},
        }
        return anchors;
    }
    let n = vector_hits.len();
    let m = if vector_top_k < n {
        vector_top_k
    } else {
        n
    };
    let limit = if m < 1 {
        1
    } else {
        m
    };
    let mut i: usize = 0;
    while i < limit && i < n
        invariant
            i <= limit,
            i <= n,
            n == vector_hits@.len(),
            anchors@.len() == i,
            forall|j: int|
                0 <= j < i ==> (#[trigger] anchors@[j]).node_id == vector_hits@[j].0
                    && anchors@[j].score == vector_hits@[j].1,
        decreases n - i,
    {
        anchors.push(Anchor { node_id: vector_hits[i].0, score: vector_hits[i].1 });
        i += 1;
    }
    anchors
}

/// The nodes from `start` to the node at place `pos` of the walk `v`, along
/// the parents of the walk.
pub open spec fn path_of(start: u64, v: Seq<Visit>, pos: int) -> Seq<u64>
    decreases pos,
{
    if pos <= 0 || pos > v.len() || v[pos - 1].parent >= pos {
        seq![start]
    } else {
        path_of(start, v, v[pos - 1].parent as int).push(v[pos - 1].node)
    }
}

/// The path from the start of a walk to the node at place `pos`, where `pos`
/// is 0 for the start and `i + 1` for the `i`-th visit.
pub fn reconstruct_path(start: u64, visits: &Vec<Visit>, pos: usize) -> (path: Vec<u64>)
    requires
        pos <= visits@.len(),
    ensures
        path@ == path_of(start, visits@, pos as int),
    decreases pos,
{
    if pos == 0 || visits[pos - 1].parent >= pos {
        let mut path: Vec<u64> = Vec::new();
        path.push(start);
        return path;
    }
    let mut path = reconstruct_path(start, visits, visits[pos - 1].parent);
    path.push(visits[pos - 1].node);
    path
}

/// In a breadth-first walk the path to a place starts at the start, ends at
/// the node of the place, and has one node more than the place has hops.
pub proof fn lemma_path_of(
    edges: Seq<GraphEdgeView>,
    filter: Set<Seq<char>>,
    start: u64,
    max_hops: u8,
    v: Seq<Visit>,
    pos: int,
)
    requires
        is_traversal(edges, filter, start, max_hops, v),
        0 <= pos <= v.len(),
    ensures
        path_of(start, v, pos).len() == walk_hop(v, pos) + 1,
        path_of(start, v, pos)[0] == start,
        path_of(start, v, pos).last() == walk_node(start, v, pos),
    decreases pos,
{
    if pos > 0 {
        assert(visit_ok(edges, filter, start, max_hops, v, pos - 1));
        lemma_path_of(edges, filter, start, max_hops, v, v[pos - 1].parent as int);
    }
}

/// The hop counts after a node was reached at `hop`: the least count stays.
pub open spec fn with_hop(m: Map<u64, u8>, id: u64, hop: u8) -> Map<u64, u8> {
    if m.contains_key(id) && m[id] <= hop {
        m
    } else {
        m.insert(id, hop)
    }
}

/// The hop counts after the visits of a walk were noted.
pub open spec fn with_walk(m: Map<u64, u8>, v: Seq<Visit>) -> Map<u64, u8>
    decreases v.len(),
{
    if v.len() == 0 {
        m
    } else {
        with_hop(with_walk(m, v.drop_last()), v.last().node, v.last().hop)
    }
}

/// Whether `e` is the record of the graph edge `g`, as the expansion walked
/// it: the weight is the confidence, and the provenance is empty.
pub open spec fn records_edge(e: InternalEdge, g: GraphEdgeView) -> bool {
    &&& e.source == g.source
    &&& e.target == g.target
    &&& e.relation@ == g.relation
    &&& e.weight == g.weight
    &&& e.confidence == g.weight
    &&& e.provenance == (Provenance {
        source: None,
        extraction_model_id: None,
        snapshot_id: None,
        ingested_at: None,
    })
}

/// Whether the walk `v` from `start` expanded the node `id`: whether `id` is
/// in the walk at less than `depth` hops.
pub open spec fn expanded(start: u64, v: Seq<Visit>, depth: u8, id: u64) -> bool {
    exists|q: int| 0 <= q <= v.len() && #[trigger] walk_node(start, v, q) == id && walk_hop(v, q) < depth
}

/// The text of the exclusion for an edge whose relation is not allowed.
pub open spec fn relation_filtered(relation: Seq<char>) -> Seq<char> {
    "relation_filtered:"@ + relation
}

/// What the expansion of one anchor found.
#[derive(Debug, PartialEq, Eq)]
pub struct AnchorExpansion {
    pub visits: Vec<Visit>,
    pub paths: Vec<ExpansionPath>,
    pub edges: Vec<InternalEdge>,
    pub exclusions: Vec<ExclusionReason>,
}

/// Whether `x` is what the expansion of `anchor` over `graph` finds: the
/// breadth-first walk, a path for each visit, a record of every allowed edge
/// that leaves an expanded node, and an exclusion for every such edge that is
/// not allowed.
pub open spec fn is_anchor_expansion(
    graph: Seq<GraphEdgeView>,
    filter: Set<Seq<char>>,
    anchor: u64,
    depth: u8,
    x: AnchorExpansion,
) -> bool {
    &&& is_traversal(graph, filter, anchor, depth, x.visits@)
    &&& x.paths@.len() == x.visits@.len()
    &&& forall|i: int|
        0 <= i < x.paths@.len() ==> (#[trigger] x.paths@[i]).anchor_id == anchor
            && x.paths@[i].target_id == x.visits@[i].node && x.paths@[i].path@ == path_of(
            anchor,
            x.visits@,
            i + 1,
        )
    &&& edges_sound(graph, filter, anchor, depth, x.visits@, x.edges@, x.exclusions@)
    &&& forall|k: int|
        0 <= k < graph.len() && expanded(anchor, x.visits@, depth, (#[trigger] graph[k]).source)
            ==> covered(graph[k], filter, x.edges@, x.exclusions@)
}

/// Expands one anchor: walks the graph breadth-first from it over at most
/// `depth` hops along the allowed relations, and records the paths, the edges
/// and the relations that were not followed.
pub fn expand_anchor(
    graph: &AdjacencyGraph,
    anchor: u64,
    depth: u8,
    filter: &SortedSet<String>,
) -> (x: AnchorExpansion)
    ensures
        is_anchor_expansion(graph@, filter@, anchor, depth, x),
{
    let visits = graph.traverse(anchor, depth, filter);
    let mut paths: Vec<ExpansionPath> = Vec::new();
    let mut i: usize = 0;
    while i < visits.len()
        invariant
            i <= visits.len(),
            paths@.len() == i,
            forall|j: int|
                0 <= j < i ==> (#[trigger] paths@[j]).anchor_id == anchor && paths@[j].target_id
                    == visits@[j].node && paths@[j].path@ == path_of(anchor, visits@, j + 1),
        decreases visits.len() - i,
    {
        let path = reconstruct_path(anchor, &visits, i + 1);
        paths.push(ExpansionPath { anchor_id: anchor, target_id: visits[i].node, path });
        i += 1;
    }
    let mut edges: Vec<InternalEdge> = Vec::new();
    let mut exclusions: Vec<ExclusionReason> = Vec::new();
    let n = graph.edge_count();
    let mut q: usize = 0;
    let total = visits.len();
    loop
        invariant
            q <= total,
            total == visits@.len(),
            n == graph@.len(),
            edges_cover(graph@, filter@, anchor, depth, visits@, edges@, exclusions@, q as int, 0),
            edges_sound(graph@, filter@, anchor, depth, visits@, edges@, exclusions@),
        ensures
            edges_cover(
                graph@,
                filter@,
                anchor,
                depth,
                visits@,
                edges@,
                exclusions@,
                total + 1,
                0,
            ),
            edges_sound(graph@, filter@, anchor, depth, visits@, edges@, exclusions@),
        decreases total - q,
    {
        let node = if q == 0 {
            anchor
        } else {
            visits[q - 1].node
        };
        let hop: u8 = if q == 0 {
            0
        } else {
            visits[q - 1].hop
        };
        if hop < depth {
            let mut k: usize = 0;
            assert(expanded(anchor, visits@, depth, node)) by {
                assert(walk_node(anchor, visits@, q as int) == node);
            }
            while k < n
                invariant
                    k <= n,
                    n == graph@.len(),
                    q <= visits@.len(),
                    node == walk_node(anchor, visits@, q as int),
                    hop == walk_hop(visits@, q as int),
                    hop < depth,
                    expanded(anchor, visits@, depth, node),
                    edges_cover(
                        graph@,
                        filter@,
                        anchor,
                        depth,
                        visits@,
                        edges@,
                        exclusions@,
                        q as int,
                        k as int,
                    ),
                    edges_sound(graph@, filter@, anchor, depth, visits@, edges@, exclusions@),
                decreases n - k,
            {
                let e = graph.edge_at(k);
                let ghost eb = edges@;
                let ghost xb = exclusions@;
                if e.source == node {
                    if relation_is_allowed(e.relation.as_str(), filter) {
                        edges.push(
                            InternalEdge {
                                source: node,
                                target: e.target,
                                relation: e.relation.clone(),
                                weight: e.weight,
                                provenance: Provenance::default(),
                                confidence: e.weight,
                            },
                        );
                        proof {
                            assert(records_edge(edges@[eb.len() as int], graph@[k as int]));
                        }
                    } else {
                        let mut reason = "relation_filtered:".to_owned();
                        reason.append(e.relation.as_str());
                        exclusions.push(ExclusionReason { node_id: Some(e.target), reason });
                        proof {
                            assert(exclusions@[xb.len() as int].node_id == Some(
                                graph@[k as int].target,
                            ));
                        }
                    }
                }
                proof {
                    assert(edges@.take(eb.len() as int) =~= eb);
                    assert(exclusions@.take(xb.len() as int) =~= xb);
                    lemma_cover_step(
                        graph@,
                        filter@,
                        anchor,
                        depth,
                        visits@,
                        eb,
                        xb,
                        edges@,
                        exclusions@,
                        q as int,
                        k as int,
                    );
                }
                k += 1;
            }
        }
        proof {
            lemma_cover_next(
                graph@,
                filter@,
                anchor,
                depth,
                visits@,
                edges@,
                exclusions@,
                q as int,
            );
        }
        if q == total {
            break ;
        }
        q += 1;
    }
    let x = AnchorExpansion { visits, paths, edges, exclusions };
    proof {
        lemma_cover_all(graph@, filter@, anchor, depth, x.visits@, x.edges@, x.exclusions@);
    }
    x
}

/// Whether the edges and exclusions cover the graph edges `k` that leave the
/// place `p` of the walk, for the places before `q` and, at place `q`, for the
/// graph edges before `kn`.
pub open spec fn edges_cover(
    graph: Seq<GraphEdgeView>,
    filter: Set<Seq<char>>,
    anchor: u64,
    depth: u8,
    v: Seq<Visit>,
    edges: Seq<InternalEdge>,
    exclusions: Seq<ExclusionReason>,
    q: int,
    kn: int,
) -> bool {
    forall|p: int, k: int|
        0 <= p <= v.len() && 0 <= k < graph.len() && (p < q || (p == q && k < kn)) && walk_hop(
            v,
            p,
        ) < depth && (#[trigger] graph[k]).source == #[trigger] walk_node(anchor, v, p)
            ==> covered(graph[k], filter, edges, exclusions)
}

/// Whether the graph edge `g` has its record among `edges`, where its
/// relation is allowed, or its exclusion among `exclusions`, where it is not.
pub open spec fn covered(
    g: GraphEdgeView,
    filter: Set<Seq<char>>,
    edges: Seq<InternalEdge>,
    exclusions: Seq<ExclusionReason>,
) -> bool {
    if relation_allowed(filter, g.relation) {
        exists|i: int| 0 <= i < edges.len() && records_edge(#[trigger] edges[i], g)
    } else {
        exists|i: int|
            0 <= i < exclusions.len() && (#[trigger] exclusions[i]).node_id == Some(g.target)
                && exclusions[i].reason@ == relation_filtered(g.relation)
    }
}

/// Whether `e` records an allowed graph edge that leaves an expanded node.
pub open spec fn edge_justified(
    graph: Seq<GraphEdgeView>,
    filter: Set<Seq<char>>,
    anchor: u64,
    depth: u8,
    v: Seq<Visit>,
    e: InternalEdge,
) -> bool {
    exists|k: int|
        0 <= k < graph.len() && records_edge(e, #[trigger] graph[k]) && relation_allowed(
            filter,
            graph[k].relation,
        ) && expanded(anchor, v, depth, graph[k].source)
}

/// Whether `x` excludes the target of a graph edge that leaves an expanded
/// node and whose relation is not allowed.
pub open spec fn exclusion_justified(
    graph: Seq<GraphEdgeView>,
    filter: Set<Seq<char>>,
    anchor: u64,
    depth: u8,
    v: Seq<Visit>,
    x: ExclusionReason,
) -> bool {
    exists|k: int|
        0 <= k < graph.len() && !relation_allowed(filter, (#[trigger] graph[k]).relation)
            && expanded(anchor, v, depth, graph[k].source) && x.node_id == Some(graph[k].target)
            && x.reason@ == relation_filtered(graph[k].relation)
}

/// Whether every edge record and every exclusion stands for a graph edge that
/// leaves an expanded node.
pub open spec fn edges_sound(
    graph: Seq<GraphEdgeView>,
    filter: Set<Seq<char>>,
    anchor: u64,
    depth: u8,
    v: Seq<Visit>,
    edges: Seq<InternalEdge>,
    exclusions: Seq<ExclusionReason>,
) -> bool {
    &&& forall|i: int|
        0 <= i < edges.len() ==> edge_justified(graph, filter, anchor, depth, v, #[trigger] edges[i])
    &&& forall|i: int|
        0 <= i < exclusions.len() ==> exclusion_justified(
            graph,
            filter,
            anchor,
            depth,
            v,
            #[trigger] exclusions[i],
        )
}

/// One step of the edge pass keeps what was covered and covers the edge at
/// hand.
proof fn lemma_cover_step(
    graph: Seq<GraphEdgeView>,
    filter: Set<Seq<char>>,
    anchor: u64,
    depth: u8,
    v: Seq<Visit>,
    eb: Seq<InternalEdge>,
    xb: Seq<ExclusionReason>,
    ea: Seq<InternalEdge>,
    xa: Seq<ExclusionReason>,
    q: int,
    k: int,
)
    requires
        0 <= q <= v.len(),
        0 <= k < graph.len(),
        walk_hop(v, q) < depth,
        edges_cover(graph, filter, anchor, depth, v, eb, xb, q, k),
        edges_sound(graph, filter, anchor, depth, v, eb, xb),
        eb.len() <= ea.len() <= eb.len() + 1,
        xb.len() <= xa.len() <= xb.len() + 1,
        ea.take(eb.len() as int) == eb,
        xa.take(xb.len() as int) == xb,
        graph[k].source == walk_node(anchor, v, q) ==> (if relation_allowed(
            filter,
            graph[k].relation,
        ) {
            ea.len() == eb.len() + 1 && xa == xb && records_edge(ea[eb.len() as int], graph[k])
        } else {
            xa.len() == xb.len() + 1 && ea == eb && xa[xb.len() as int].node_id == Some(
                graph[k].target,
            ) && xa[xb.len() as int].reason@ == relation_filtered(graph[k].relation)
        }),
        graph[k].source != walk_node(anchor, v, q) ==> ea == eb && xa == xb,
    ensures
        edges_cover(graph, filter, anchor, depth, v, ea, xa, q, k + 1),
        edges_sound(graph, filter, anchor, depth, v, ea, xa),
{
    assert forall|g: GraphEdgeView| covered(g, filter, eb, xb) implies covered(
        g,
        filter,
        ea,
        xa,
    ) by {
        if relation_allowed(filter, g.relation) {
            let i = choose|i: int| 0 <= i < eb.len() && records_edge(#[trigger] eb[i], g);
            assert(ea.take(eb.len() as int)[i] == ea[i]);
            assert(records_edge(ea[i], g));
        } else {
            let i = choose|i: int|
                0 <= i < xb.len() && (#[trigger] xb[i]).node_id == Some(g.target) && xb[i].reason@
                    == relation_filtered(g.relation);
            assert(xa.take(xb.len() as int)[i] == xa[i]);
            assert(xa[i].node_id == Some(g.target));
        }
    }
    assert forall|p: int, j: int|
        0 <= p <= v.len() && 0 <= j < graph.len() && (p < q || (p == q && j < k + 1)) && walk_hop(
            v,
            p,
        ) < depth && (#[trigger] graph[j]).source == #[trigger] walk_node(
            anchor,
            v,
            p,
        ) implies covered(graph[j], filter, ea, xa) by {
        if p == q && j == k {
            if relation_allowed(filter, graph[k].relation) {
                assert(records_edge(ea[eb.len() as int], graph[k]));
            } else {
                assert(xa[xb.len() as int].node_id == Some(graph[k].target));
            }
        } else {
            assert(covered(graph[j], filter, eb, xb));
        }
    }
    assert(expanded(anchor, v, depth, walk_node(anchor, v, q)));
    assert forall|i: int| 0 <= i < ea.len() implies edge_justified(
        graph,
        filter,
        anchor,
        depth,
        v,
        #[trigger] ea[i],
    ) by {
        if i < eb.len() {
            assert(ea.take(eb.len() as int)[i] == ea[i]);
            assert(edge_justified(graph, filter, anchor, depth, v, eb[i]));
        } else {
            assert(records_edge(ea[i], graph[k]));
        }
    }
    assert forall|i: int| 0 <= i < xa.len() implies exclusion_justified(
        graph,
        filter,
        anchor,
        depth,
        v,
        #[trigger] xa[i],
    ) by {
        if i < xb.len() {
            assert(xa.take(xb.len() as int)[i] == xa[i]);
            assert(exclusion_justified(graph, filter, anchor, depth, v, xb[i]));
        } else {
            assert(xa[i].node_id == Some(graph[k].target));
        }
    }
}

/// A place whose edges are all covered, or that is not expanded, is done.
proof fn lemma_cover_next(
    graph: Seq<GraphEdgeView>,
    filter: Set<Seq<char>>,
    anchor: u64,
    depth: u8,
    v: Seq<Visit>,
    edges: Seq<InternalEdge>,
    exclusions: Seq<ExclusionReason>,
    q: int,
)
    requires
        0 <= q <= v.len(),
        walk_hop(v, q) < depth ==> edges_cover(
            graph,
            filter,
            anchor,
            depth,
            v,
            edges,
            exclusions,
            q,
            graph.len() as int,
        ),
        walk_hop(v, q) >= depth ==> edges_cover(
            graph,
            filter,
            anchor,
            depth,
            v,
            edges,
            exclusions,
            q,
            0,
        ),
    ensures
        edges_cover(graph, filter, anchor, depth, v, edges, exclusions, q + 1, 0),
{
}

/// Edges that are sound and cover every place make an anchor expansion.
proof fn lemma_cover_all(
    graph: Seq<GraphEdgeView>,
    filter: Set<Seq<char>>,
    anchor: u64,
    depth: u8,
    v: Seq<Visit>,
    edges: Seq<InternalEdge>,
    exclusions: Seq<ExclusionReason>,
)
    requires
        edges_cover(graph, filter, anchor, depth, v, edges, exclusions, v.len() as int + 1, 0),
        edges_sound(graph, filter, anchor, depth, v, edges, exclusions),
    ensures
        forall|k: int|
            0 <= k < graph.len() && expanded(anchor, v, depth, (#[trigger] graph[k]).source)
                ==> covered(graph[k], filter, edges, exclusions),
{
    assert forall|k: int|
        0 <= k < graph.len() && expanded(
            anchor,
            v,
            depth,
            (#[trigger] graph[k]).source,
        ) implies covered(graph[k], filter, edges, exclusions) by {
        let p = choose|p: int|
            0 <= p <= v.len() && #[trigger] walk_node(anchor, v, p) == graph[k].source && walk_hop(
                v,
                p,
            ) < depth;
        assert(graph[k].source == walk_node(anchor, v, p));
    }
}

/// The hop counts of the candidates: each anchor at 0 unless it is there
/// already, and each node that a walk reached at the least number of hops.
pub open spec fn candidate_hops_of(anchors: Seq<Anchor>, xs: Seq<AnchorExpansion>) -> Map<u64, u8>
    decreases anchors.len(),
{
    if anchors.len() == 0 || xs.len() != anchors.len() {
        Map::empty()
    } else {
        let prev = candidate_hops_of(anchors.drop_last(), xs.drop_last());
        let base = if prev.contains_key(anchors.last().node_id) {
            prev
        } else {
            prev.insert(anchors.last().node_id, 0)
        };
        with_walk(base, xs.last().visits@)
    }
}

/// What the expansion of the anchors found.
#[derive(Debug, PartialEq, Eq)]
pub struct Expansion {
    /// The expansion of each anchor, in the order of the anchors.
    pub per_anchor: Vec<AnchorExpansion>,
    /// The least number of hops at which each candidate was reached.
    pub candidate_hops: SortedMap<u64, u8>,
}

/// Notes that `id` was reached at `hop`: the least hop count stays.
pub fn note_hop(hops: &mut SortedMap<u64, u8>, id: u64, hop: u8)
    ensures
        final(hops)@ == with_hop(old(hops)@, id, hop),
{
    let keep = match hops.get(&id) {
        Some(h) => *h <= hop,
        None => false,
    };
    if !keep {
        hops.insert(id, hop);
    }
}

/// Expands every anchor, and notes for every node that was reached the least
/// number of hops at which it was.
pub fn expand_anchors(
    graph: &AdjacencyGraph,
    anchors: &Vec<Anchor>,
    depth: u8,
    filter: &SortedSet<String>,
) -> (x: Expansion)
    ensures
        x.per_anchor@.len() == anchors@.len(),
        forall|j: int|
            0 <= j < anchors@.len() ==> is_anchor_expansion(
                graph@,
                filter@,
                anchors@[j].node_id,
                depth,
                #[trigger] x.per_anchor@[j],
            ),
        x.candidate_hops@ == candidate_hops_of(anchors@, x.per_anchor@),
{
    let mut per_anchor: Vec<AnchorExpansion> = Vec::new();
    let mut hops: SortedMap<u64, u8> = SortedMap::new();
    let mut j: usize = 0;
    proof {
        assert(anchors@.take(0) =~= Seq::<Anchor>::empty());
    }
    while j < anchors.len()
        invariant
            j <= anchors.len(),
            per_anchor@.len() == j,
            forall|i: int|
                0 <= i < j ==> is_anchor_expansion(
                    graph@,
                    filter@,
                    anchors@[i].node_id,
                    depth,
                    #[trigger] per_anchor@[i],
                ),
            hops@ == candidate_hops_of(anchors@.take(j as int), per_anchor@),
        decreases anchors.len() - j,
    {
        let anchor = anchors[j].node_id;
        let ghost prev = per_anchor@;
        let ghost hops_before = hops@;
        if !hops.contains_key(&anchor) {
            hops.insert(anchor, 0);
        }
        let ghost base = hops@;
        let one = expand_anchor(graph, anchor, depth, filter);
        let mut k: usize = 0;
        assert(one.visits@.take(0) =~= Seq::<Visit>::empty());
        while k < one.visits.len()
            invariant
                k <= one.visits.len(),
                hops@ == with_walk(base, one.visits@.take(k as int)),
            decreases one.visits.len() - k,
        {
            proof {
                let t = one.visits@.take(k + 1);
                assert(t.drop_last() =~= one.visits@.take(k as int));
                assert(t.last() == one.visits@[k as int]);
            }
            note_hop(&mut hops, one.visits[k].node, one.visits[k].hop);
            k += 1;
        }
        per_anchor.push(one);
        proof {
            assert(one.visits@.take(one.visits@.len() as int) =~= one.visits@);
            let a1 = anchors@.take(j + 1);
            assert(a1.drop_last() =~= anchors@.take(j as int));
            assert(a1.last() == anchors@[j as int]);
            assert(per_anchor@.drop_last() =~= prev);
            assert forall|i: int| 0 <= i < j + 1 implies is_anchor_expansion(
                graph@,
                filter@,
                anchors@[i].node_id,
                depth,
                #[trigger] per_anchor@[i],
            ) by {
                if i < j {
                    assert(per_anchor@[i] == prev[i]);
                }
            }
        }
        j += 1;
    }
    assert(anchors@.take(anchors.len() as int) =~= anchors@);
    Expansion { per_anchor, candidate_hops: hops }
}

/// The values of the pairs `pairs`, in order.
pub open spec fn values_of(pairs: Seq<(Seq<char>, Seq<char>)>) -> Seq<Seq<char>> {
    pairs.map_values(|p: (Seq<char>, Seq<char>)| p.1)
}

/// The text of a node that queries are matched against: its data, a blank,
/// and its metadata values in the order of their keys with blanks between
/// them.
pub open spec fn lexical_text_of(node: Node) -> Seq<char> {
    node.data@ + " "@ + joined(values_of(node.metadata.pairs()), " "@)
}

/// The text of `node` that queries are matched against.
pub fn node_lexical_text(node: &Node) -> (text: String)
    ensures
        text@ == lexical_text_of(*node),
{
    let n = node.metadata.len();
    let mut values: Vec<String> = Vec::new();
    let mut i: usize = 0;
    while i < n
        invariant
            n == node.metadata.pairs().len(),
            i <= n,
            values@.len() == i,
            forall|j: int| 0 <= j < i ==> (#[trigger] values@[j])@ == node.metadata.pairs()[j].1,
        decreases n - i,
    {
        values.push(node.metadata.value_at(i).clone());
        i += 1;
    }
    assert(crate::text::texts_of(values@) =~= values_of(node.metadata.pairs()));
    let mut text = node.data.clone();
    text.append(" ");
    text.append(join_strs(&values, " ").as_str());
    text
}

/// The score of the anchor `id`: that of the last anchor with that id, or
/// zero where `id` is no anchor.
pub open spec fn anchor_score_of(anchors: Seq<Anchor>, id: u64) -> u32
    decreases anchors.len(),
{
    if anchors.len() == 0 {
        0
    } else if anchors.last().node_id == id {
        anchors.last().score
    } else {
        anchor_score_of(anchors.drop_last(), id)
    }
}

/// The score of the anchor `id`, or zero where `id` is no anchor.
pub fn anchor_score(anchors: &Vec<Anchor>, id: u64) -> (score: u32)
    ensures
        score == anchor_score_of(anchors@, id),
{
    let mut i: usize = anchors.len();
    assert(anchors@.take(i as int) =~= anchors@);
    while i > 0
        invariant
            i <= anchors.len(),
            anchor_score_of(anchors@, id) == anchor_score_of(anchors@.take(i as int), id),
        decreases i,
    {
        proof {
            let t = anchors@.take(i as int);
            assert(t.last() == anchors@[i - 1]);
            assert(t.drop_last() =~= anchors@.take(i - 1));
        }
        if anchors[i - 1].node_id == id {
            return anchors[i - 1].score;
        }
        i -= 1;
    }
    0
}

/// A node that passed the filters, with what its score is computed from.
#[derive(Debug, PartialEq, Eq)]
pub struct Candidate {
    pub id: u64,
    /// The least number of hops from an anchor.
    pub hop: u8,
    /// The vector score of the node where it is an anchor, else zero.
    pub anchor_score: u32,
    /// How far the tokens of the query and of the node overlap.
    pub overlap: Overlap,
    pub node: Node,
}

/// Whether `c` is the candidate for an entry of `hops`: its node is stored,
/// passes the filters, and carries the anchor score and the overlap with the
/// query.
pub open spec fn candidate_ok(
    nodes: Map<u64, NodeView>,
    query: Seq<char>,
    anchors: Seq<Anchor>,
    hops: Map<u64, u8>,
    entity_filter: Set<Seq<char>>,
    time_range: Option<(i32, i32)>,
    now: u64,
    c: Candidate,
) -> bool {
    &&& hops.contains_key(c.id)
    &&& c.hop == hops[c.id]
    &&& nodes.contains_key(c.id)
    &&& c.node@ == nodes[c.id]
    &&& exclusion_of(nodes[c.id].metadata, entity_filter, time_range, now) is None
    &&& c.anchor_score == anchor_score_of(anchors, c.id)
    &&& (c.overlap.shared as int, c.overlap.total as int) == overlap_of(
        token_set(lower_chars(query)),
        token_set(lower_chars(lexical_text_of(c.node))),
    )
}

/// The reason for which the entry `id` of the hops is no candidate, if it is
/// none: its node is missing, or the filters leave it out.
pub open spec fn rejection_of(
    nodes: Map<u64, NodeView>,
    entity_filter: Set<Seq<char>>,
    time_range: Option<(i32, i32)>,
    now: u64,
    id: u64,
) -> Option<Seq<char>> {
    if !nodes.contains_key(id) {
        Some("missing_node"@)
    } else {
        exclusion_of(nodes[id].metadata, entity_filter, time_range, now)
    }
}

/// Whether `x` excludes an entry of the hops for the reason that it is no
/// candidate.
pub open spec fn rejection_justified(
    nodes: Map<u64, NodeView>,
    hops: Map<u64, u8>,
    entity_filter: Set<Seq<char>>,
    time_range: Option<(i32, i32)>,
    now: u64,
    x: ExclusionReason,
) -> bool {
    x.node_id matches Some(id) && hops.contains_key(id) && rejection_of(
        nodes,
        entity_filter,
        time_range,
        now,
        id,
    ) == Some(x.reason@)
}

/// Whether `id` is among the candidates `cs`.
pub open spec fn has_candidate(cs: Seq<Candidate>, id: u64) -> bool {
    exists|i: int| 0 <= i < cs.len() && (#[trigger] cs[i]).id == id
}

/// Whether `id` is excluded in `xs` for the reason `reason`.
pub open spec fn has_exclusion(xs: Seq<ExclusionReason>, id: Option<u64>, reason: Seq<char>) -> bool {
    exists|i: int| 0 <= i < xs.len() && (#[trigger] xs[i]).node_id == id && xs[i].reason@ == reason
}

/// Fetches the nodes of the candidates and applies the filters: every entry of
/// the hops becomes a candidate, in increasing order of id, or an exclusion
/// with the reason for which it is none.
pub fn gather_candidates(
    state: &MaterializedState,
    query: &str,
    anchors: &Vec<Anchor>,
    candidate_hops: &SortedMap<u64, u8>,
    entity_filter: &SortedSet<String>,
    time_range: Option<(i32, i32)>,
    now_unix: u64,
) -> (r: (Vec<Candidate>, Vec<ExclusionReason>))
    ensures
        forall|i: int, j: int|
            0 <= i < j < r.0@.len() ==> (#[trigger] r.0@[i]).id < (#[trigger] r.0@[j]).id,
        forall|i: int|
            0 <= i < r.0@.len() ==> candidate_ok(
                state@.nodes,
                query@,
                anchors@,
                candidate_hops@,
                entity_filter@,
                time_range,
                now_unix,
                #[trigger] r.0@[i],
            ),
        forall|i: int|
            0 <= i < r.1@.len() ==> rejection_justified(
                state@.nodes,
                candidate_hops@,
                entity_filter@,
                time_range,
                now_unix,
                #[trigger] r.1@[i],
            ),
        forall|id: u64| #[trigger]
            candidate_hops@.contains_key(id) ==> match rejection_of(
                state@.nodes,
                entity_filter@,
                time_range,
                now_unix,
                id,
            ) {
                Some(reason) => has_exclusion(r.1@, Some(id), reason),
                None => has_candidate(r.0@, id),
            },
{
    let query_tokens = tokenize(query);
    let n = candidate_hops.len();
    let ghost pairs = candidate_hops.pairs();
    let mut cands: Vec<Candidate> = Vec::new();
    let mut exclusions: Vec<ExclusionReason> = Vec::new();
    let mut i: usize = 0;
    while i < n
        invariant
            n == pairs.len(),
            pairs == candidate_hops.pairs(),
            crate::sorted_map::sorted_keys::<u64, u8>(pairs),
            candidate_hops@ == crate::sorted_map::pairs_map(pairs),
            query_tokens@ == token_set(lower_chars(query@)),
            i <= n,
            forall|a: int| 0 <= a < cands@.len() ==> exists|j: int|
                0 <= j < i && (#[trigger] cands@[a]).id == (#[trigger] pairs[j]).0,
            forall|a: int, b: int|
                0 <= a < b < cands@.len() ==> (#[trigger] cands@[a]).id < (#[trigger] cands@[b]).id,
            forall|a: int|
                0 <= a < cands@.len() ==> candidate_ok(
                    state@.nodes,
                    query@,
                    anchors@,
                    candidate_hops@,
                    entity_filter@,
                    time_range,
                    now_unix,
                    #[trigger] cands@[a],
                ),
            forall|a: int|
                0 <= a < exclusions@.len() ==> rejection_justified(
                    state@.nodes,
                    candidate_hops@,
                    entity_filter@,
                    time_range,
                    now_unix,
                    #[trigger] exclusions@[a],
                ),
            forall|j: int|
                0 <= j < i ==> match rejection_of(
                    state@.nodes,
                    entity_filter@,
                    time_range,
                    now_unix,
                    (#[trigger] pairs[j]).0,
                ) {
                    Some(reason) => has_exclusion(exclusions@, Some(pairs[j].0), reason),
                    None => has_candidate(cands@, pairs[j].0),
                },
        decreases n - i,
    {
        let id = *candidate_hops.key_at(i);
        let hop = *candidate_hops.value_at(i);
        let ghost cb = cands@;
        let ghost xb = exclusions@;
        proof {
            crate::sorted_map::lemma_pairs_map_at::<u64, u8>(pairs, i as int);
        }
        match state.get_node(id) {
            None => {
                exclusions.push(
                    ExclusionReason { node_id: Some(id), reason: "missing_node".to_owned() },
                );
            },
            Some(node) => {
                match node_filter_exclusion_reason(&node, entity_filter, time_range, now_unix) {
                    Some(reason) => {
                        exclusions.push(ExclusionReason { node_id: Some(id), reason });
                    },
                    None => {
                        let text = node_lexical_text(&node);
                        let tokens = tokenize(text.as_str());
                        let overlap = lexical_overlap(&query_tokens, &tokens);
                        let score = anchor_score(anchors, id);
                        proof {
                            if cb.len() > 0 {
                                let last = cb.len() - 1;
                                let j = choose|j: int|
                                    0 <= j < i && (#[trigger] cb[last]).id == (#[trigger] pairs[j]).0;
                                assert(<u64 as Ranked>::key_lt(pairs[j].0, pairs[i as int].0));
                            }
                        }
                        cands.push(Candidate { id, hop, anchor_score: score, overlap, node });
                    },
                }
            },
        }
        proof {
            assert forall|a: int| 0 <= a < cb.len() implies cands@[a] == cb[a] by {}
            assert forall|a: int| 0 <= a < xb.len() implies exclusions@[a] == xb[a] by {}
            assert forall|a: int| 0 <= a < cands@.len() implies exists|j: int|
                0 <= j < i + 1 && (#[trigger] cands@[a]).id == (#[trigger] pairs[j]).0 by {
                if a < cb.len() {
                    let j = choose|j: int|
                        0 <= j < i && (#[trigger] cb[a]).id == (#[trigger] pairs[j]).0;
                    assert(cands@[a].id == pairs[j].0);
                } else {
                    assert(cands@[a].id == pairs[i as int].0);
                }
            }
            assert forall|a: int, b: int| 0 <= a < b < cands@.len() implies (#[trigger] cands@[a]).id
                < (#[trigger] cands@[b]).id by {
                if b >= cb.len() {
                    let j = choose|j: int|
                        0 <= j < i && (#[trigger] cb[a]).id == (#[trigger] pairs[j]).0;
                    assert(<u64 as Ranked>::key_lt(pairs[j].0, pairs[i as int].0));
                }
            }
            assert forall|j: int| 0 <= j < i + 1 implies match rejection_of(
                state@.nodes,
                entity_filter@,
                time_range,
                now_unix,
                (#[trigger] pairs[j]).0,
            ) {
                Some(reason) => has_exclusion(exclusions@, Some(pairs[j].0), reason),
                None => has_candidate(cands@, pairs[j].0),
            } by {
                let rej = rejection_of(
                    state@.nodes,
                    entity_filter@,
                    time_range,
                    now_unix,
                    pairs[j].0,
                );
                if j < i {
                    match rej {
                        Some(reason) => {
                            let a = choose|a: int|
                                0 <= a < xb.len() && (#[trigger] xb[a]).node_id == Some(pairs[j].0)
                                    && xb[a].reason@ == reason;
                            assert(exclusions@[a] == xb[a]);
                        },
                        None => {
                            let a = choose|a: int|
                                0 <= a < cb.len() && (#[trigger] cb[a]).id == pairs[j].0;
                            assert(cands@[a] == cb[a]);
                        },
                    }
                } else {
                    match rej {
                        Some(reason) => {
                            assert(exclusions@[xb.len() as int].node_id == Some(pairs[j].0));
                        },
                        None => {
                            assert(cands@[cb.len() as int].id == pairs[j].0);
                        },
                    }
                }
            }
        }
        i += 1;
    }
    proof {
        assert forall|id: u64| #[trigger] candidate_hops@.contains_key(id) implies match rejection_of(
            state@.nodes,
            entity_filter@,
            time_range,
            now_unix,
            id,
        ) {
            Some(reason) => has_exclusion(exclusions@, Some(id), reason),
            None => has_candidate(cands@, id),
        } by {
            let j = crate::sorted_map::key_index(pairs, id);
            assert(pairs[j].0 == id);
        }
    }
    (cands, exclusions)
}

/// The scored nodes `s` as items to sort: higher scores first, then lower
/// ids.
pub open spec fn keyed_nodes(s: Seq<RankedNode>) -> Seq<(RankKey, RankedNode)> {
    s.map_values(|n: RankedNode| (RankKey { score: n.score, id: n.id }, n))
}

/// The scored nodes `s` in ranking order: by score, highest first, and by id,
/// lowest first, among equal scores.
pub open spec fn ranking(s: Seq<RankedNode>) -> Seq<(RankKey, RankedNode)> {
    stable_sort(keyed_nodes(s))
}

/// Whether no two of the scored nodes `s` have the same id.
pub open spec fn ids_apart(s: Seq<RankedNode>) -> bool {
    forall|i: int, j: int| 0 <= i < j < s.len() ==> (#[trigger] s[i]).id != (#[trigger] s[j]).id
}

/// Ranking keeps ids apart: where no two scored nodes share an id, no two
/// places of the ranking do.
pub proof fn lemma_ranking_keeps_ids_apart(s: Seq<RankedNode>)
    requires
        ids_apart(s),
    ensures
        ranking(s).len() == s.len(),
        forall|i: int, j: int|
            0 <= i < j < ranking(s).len() ==> (#[trigger] ranking(s)[i]).1.id != (
            #[trigger] ranking(s)[j]).1.id,
{
    let items = keyed_nodes(s);
    let order = ranking(s);
    lemma_stable_sort(items);
    lemma_sort_same_items(items);
    assert forall|a: int, b: int| 0 <= a < b < items.len() implies (#[trigger] items[a]).0@ != (
    #[trigger] items[b]).0@ by {
        assert(s[a].id != s[b].id);
    }
    lemma_sort_keeps_keys_apart(items);
    assert forall|i: int, j: int| 0 <= i < j < order.len() implies (#[trigger] order[i]).1.id != (
    #[trigger] order[j]).1.id by {
        assert(order.contains(order[i]));
        assert(order.contains(order[j]));
        assert(items.contains(order[i]));
        assert(items.contains(order[j]));
        let a = choose|a: int| 0 <= a < items.len() && items[a] == order[i];
        let b = choose|b: int| 0 <= b < items.len() && items[b] == order[j];
        assert(order[i].0.id == s[a].id && order[i].1.id == s[a].id);
        assert(order[j].0.id == s[b].id && order[j].1.id == s[b].id);
        if order[i].1.id == order[j].1.id {
            if a < b {
                assert(s[a].id != s[b].id);
            } else if b < a {
                assert(s[b].id != s[a].id);
            }
            assert(order[i].0@ != order[j].0@);
        }
    }
}

/// Every place of a ranking is keyed by the score and the id of its node.
pub proof fn lemma_ranking_keys(s: Seq<RankedNode>)
    ensures
        ranking(s).len() == s.len(),
        forall|i: int|
            0 <= i < ranking(s).len() ==> (#[trigger] ranking(s)[i]).0 == (RankKey {
                score: ranking(s)[i].1.score,
                id: ranking(s)[i].1.id,
            }),
{
    let items = keyed_nodes(s);
    let order = ranking(s);
    lemma_stable_sort(items);
    lemma_sort_same_items(items);
    assert forall|i: int| 0 <= i < order.len() implies (#[trigger] order[i]).0 == (RankKey {
        score: order[i].1.score,
        id: order[i].1.id,
    }) by {
        assert(order.contains(order[i]));
        assert(items.contains(order[i]));
        let a = choose|a: int| 0 <= a < items.len() && items[a] == order[i];
        assert(items[a] == (RankKey { score: s[a].score, id: s[a].id }, s[a]));
    }
}

/// The number of nodes that are kept of `n` for a limit of `top_k`.
pub open spec fn kept_count(n: int, top_k: usize) -> int {
    if n < top_k {
        n
    } else {
        top_k as int
    }
}

/// Ranks the scored nodes and keeps the best `top_k`. The others are pruned,
/// each with an exclusion that says so.
pub fn rank_and_prune(scored: Vec<RankedNode>, top_k: usize) -> (r: (
    Vec<RankedNode>,
    Vec<ExclusionReason>,
))
    ensures
        r.0@.len() == kept_count(scored@.len() as int, top_k),
        r.0@.len() <= top_k,
        r.0@.len() + r.1@.len() == scored@.len(),
        ranking(scored@).len() == scored@.len(),
        forall|i: int| 0 <= i < r.0@.len() ==> (#[trigger] r.0@[i]) == ranking(scored@)[i].1,
        forall|j: int|
            0 <= j < r.1@.len() ==> (#[trigger] r.1@[j]).node_id == Some(
                ranking(scored@)[r.0@.len() + j].1.id,
            ) && r.1@[j].reason@ == "pruned_by_top_k"@,
{
    let ghost all = scored@;
    let ghost n = all.len() as int;
    let mut rest = scored;
    let mut items: Vec<(RankKey, RankedNode)> = Vec::new();
    assert(keyed_nodes(all).take(0) =~= Seq::<(RankKey, RankedNode)>::empty());
    assert(all.skip(0) =~= all);
    while rest.len() > 0
        invariant
            n == all.len(),
            rest@.len() <= n,
            rest@ == all.skip(n - rest@.len()),
            items@ == keyed_nodes(all).take(n - rest@.len()),
        decreases rest.len(),
    {
        let ghost done = n - rest@.len();
        let node = rest.remove(0);
        assert(node == all[done]);
        items.push((RankKey { score: node.score, id: node.id }, node));
        proof {
            assert(rest@ =~= all.skip(done + 1));
            assert(items@ =~= keyed_nodes(all).take(done + 1));
        }
    }
    assert(keyed_nodes(all).take(n) =~= keyed_nodes(all));
    proof {
        lemma_stable_sort(keyed_nodes(all));
    }
    let mut sorted = sort_by_key(items);
    let ghost order = sorted@;
    let m = if sorted.len() < top_k {
        sorted.len()
    } else {
        top_k
    };
    let mut kept: Vec<RankedNode> = Vec::new();
    let mut pruned: Vec<ExclusionReason> = Vec::new();
    assert(order.skip(0) =~= order);
    while sorted.len() > 0
        invariant
            n == order.len(),
            m == kept_count(n, top_k),
            m <= n,
            sorted@.len() <= n,
            sorted@ == order.skip(n - sorted@.len()),
            kept@.len() + pruned@.len() == n - sorted@.len(),
            kept@.len() == (if n - sorted@.len() < m {
                n - sorted@.len()
            } else {
                m as int
            }),
            forall|i: int| 0 <= i < kept@.len() ==> (#[trigger] kept@[i]) == order[i].1,
            forall|j: int|
                0 <= j < pruned@.len() ==> (#[trigger] pruned@[j]).node_id == Some(
                    order[m + j].1.id,
                ) && pruned@[j].reason@ == "pruned_by_top_k"@,
        decreases sorted.len(),
    {
        let ghost done = n - sorted@.len();
        let item = sorted.remove(0);
        assert(item == order[done]);
        assert(sorted@ =~= order.skip(done + 1));
        if kept.len() < m {
            kept.push(item.1);
        } else {
            pruned.push(
                ExclusionReason { node_id: Some(item.1.id), reason: "pruned_by_top_k".to_owned() },
            );
        }
    }
    (kept, pruned)
}

/// The ids of the nodes `nodes`, as a set.
pub open spec fn node_id_set(nodes: Seq<RankedNode>) -> Set<u64> {
    Set::new(|id: u64| exists|i: int| 0 <= i < nodes.len() && (#[trigger] nodes[i]).id == id)
}

/// The set of the ids of `nodes`.
pub fn selected_ids(nodes: &Vec<RankedNode>) -> (out: SortedSet<u64>)
    ensures
        out@ == node_id_set(nodes@),
{
    let mut out: SortedSet<u64> = SortedSet::new();
    let mut i: usize = 0;
    assert(out@ =~= node_id_set(nodes@.take(0)));
    while i < nodes.len()
        invariant
            i <= nodes.len(),
            out@ == node_id_set(nodes@.take(i as int)),
        decreases nodes.len() - i,
    {
        let ghost before = nodes@.take(i as int);
        let ghost after = nodes@.take(i + 1);
        let ghost ob = out@;
        out.insert(nodes[i].id);
        proof {
            assert(after[i as int] == nodes@[i as int]);
            assert forall|id: u64| out@.contains(id) <==> node_id_set(after).contains(id) by {
                if ob.contains(id) {
                    let j = choose|j: int| 0 <= j < before.len() && (#[trigger] before[j]).id == id;
                    assert(after[j].id == id);
                }
                if node_id_set(after).contains(id) {
                    let j = choose|j: int| 0 <= j < after.len() && (#[trigger] after[j]).id == id;
                    if j < i {
                        assert(before[j].id == id);
                    }
                }
            }
            assert(out@ =~= node_id_set(after));
        }
        i += 1;
    }
    assert(nodes@.take(nodes.len() as int) =~= nodes@);
    out
}

/// Whether the edge `e` stays in the evidence: both its endpoints were
/// selected and its relation is allowed.
pub open spec fn edge_stays(e: InternalEdge, selected: Set<u64>, filter: Set<Seq<char>>) -> bool {
    selected.contains(e.source) && selected.contains(e.target) && relation_allowed(
        filter,
        e.relation@,
    )
}

/// The edges whose endpoints were both selected and whose relation is
/// allowed, in order.
pub fn retain_edges(
    edges: &Vec<InternalEdge>,
    selected: &SortedSet<u64>,
    relation_filter: &SortedSet<String>,
) -> (out: Vec<InternalEdge>)
    ensures
        out@ == edges@.filter(|e: InternalEdge| edge_stays(e, selected@, relation_filter@)),
{
    let ghost pred = |e: InternalEdge| edge_stays(e, selected@, relation_filter@);
    let mut out: Vec<InternalEdge> = Vec::new();
    let mut i: usize = 0;
    proof {
        lemma_filter_bounds(edges@, pred);
    }
    while i < edges.len()
        invariant
            i <= edges.len(),
            pred == (|e: InternalEdge| edge_stays(e, selected@, relation_filter@)),
            out@ == edges@.take(i as int).filter(pred),
        decreases edges.len() - i,
    {
        let e = &edges[i];
        proof {
            lemma_filter_step(edges@, pred, i as int);
        }
        if selected.contains(&e.source) && selected.contains(&e.target) && relation_is_allowed(
            e.relation.as_str(),
            relation_filter,
        ) {
            out.push(e.duplicate());
        }
        i += 1;
    }
    proof {
        lemma_filter_bounds(edges@, pred);
    }
    out
}

/// The value of `m` under `key`, if any.
pub open spec fn lookup(m: Map<Seq<char>, Seq<char>>, key: Seq<char>) -> Option<Seq<char>> {
    if m.contains_key(key) {
        Some(m[key])
    } else {
        None
    }
}

/// The text of an optional string.
pub open spec fn opt_text(s: Option<String>) -> Option<Seq<char>> {
    match s {
        Some(t) => Some(t@),
        None => None,
    }
}

/// Whether `p` is the provenance that the metadata `m` gives.
pub open spec fn provenance_from(p: Provenance, m: Map<Seq<char>, Seq<char>>) -> bool {
    &&& opt_text(p.source) == lookup(m, "source"@)
    &&& opt_text(p.extraction_model_id) == lookup(m, "extraction_model_id"@)
    &&& opt_text(p.snapshot_id) == lookup(m, "snapshot_id"@)
    &&& opt_text(p.ingested_at) == lookup(m, "ingested_at"@)
}

/// The value of `m` under `key`, copied.
pub fn metadata_value(m: &crate::sorted_map::Metadata, key: &str) -> (r: Option<String>)
    ensures
        opt_text(r) == lookup(m@, key@),
{
    let k = key.to_owned();
    match m.get(&k) {
        Some(v) => Some(v.clone()),
        None => None,
    }
}

/// The provenance that the metadata `m` gives.
pub fn provenance_of(m: &crate::sorted_map::Metadata) -> (p: Provenance)
    ensures
        provenance_from(p, m@),
{
    Provenance {
        source: metadata_value(m, "source"),
        extraction_model_id: metadata_value(m, "extraction_model_id"),
        snapshot_id: metadata_value(m, "snapshot_id"),
        ingested_at: metadata_value(m, "ingested_at"),
    }
}

/// Whether `after` is `before` with the provenance that the stored edge
/// metadata `meta` gives it; an edge without stored metadata stays as it is.
pub open spec fn enriched(
    meta: Map<(u64, u64, Seq<char>), Map<Seq<char>, Seq<char>>>,
    before: InternalEdge,
    after: InternalEdge,
) -> bool {
    &&& after.source == before.source
    &&& after.target == before.target
    &&& after.relation == before.relation
    &&& after.weight == before.weight
    &&& after.confidence == before.confidence
    &&& if meta.contains_key((before.source, before.target, before.relation@)) {
        provenance_from(after.provenance, meta[(before.source, before.target, before.relation@)])
    } else {
        after.provenance == before.provenance
    }
}

/// Gives each edge the provenance that its stored metadata holds.
pub fn enrich_edges(state: &MaterializedState, edges: &Vec<InternalEdge>) -> (out: Vec<InternalEdge>)
    ensures
        out@.len() == edges@.len(),
        forall|i: int|
            0 <= i < out@.len() ==> enriched(state@.edge_metadata, edges@[i], #[trigger] out@[i]),
{
    let mut out: Vec<InternalEdge> = Vec::new();
    let mut i: usize = 0;
    while i < edges.len()
        invariant
            i <= edges.len(),
            out@.len() == i,
            forall|j: int|
                0 <= j < i ==> enriched(state@.edge_metadata, edges@[j], #[trigger] out@[j]),
        decreases edges.len() - i,
    {
        let e = &edges[i];
        let key = (e.source, e.target, e.relation.clone());
        let provenance = match state.edge_metadata().get(&key) {
            Some(m) => provenance_of(m),
            None => e.provenance.clone(),
        };
        out.push(
            InternalEdge {
                source: e.source,
                target: e.target,
                relation: e.relation.clone(),
                weight: e.weight,
                provenance,
                confidence: e.confidence,
            },
        );
        i += 1;
    }
    out
}

/// The logical key of an edge.
pub open spec fn edge_key(e: InternalEdge) -> (u64, u64, Seq<char>) {
    (e.source, e.target, e.relation@)
}

/// Whether an edge with the logical key `k` is among `edges`.
pub open spec fn has_edge_keyed(edges: Seq<InternalEdge>, k: (u64, u64, Seq<char>)) -> bool {
    exists|i: int| 0 <= i < edges.len() && edge_key(#[trigger] edges[i]) == k
}

/// The edges of `s` by logical key; of edges with the same key the last one
/// stays.
pub open spec fn last_by_key(s: Seq<InternalEdge>) -> Map<(u64, u64, Seq<char>), InternalEdge>
    decreases s.len(),
{
    if s.len() == 0 {
        Map::empty()
    } else {
        last_by_key(s.drop_last()).insert(edge_key(s.last()), s.last())
    }
}

/// Removes repeated edges: of the edges with one logical key the last one
/// stays. The result is ordered by logical key.
pub fn dedup_edges(edges: Vec<InternalEdge>) -> (out: Vec<InternalEdge>)
    ensures
        forall|i: int, j: int|
            0 <= i < j < out@.len() ==> <EdgeMetaKey as Ranked>::key_lt(
                edge_key(#[trigger] out@[i]),
                edge_key(#[trigger] out@[j]),
            ),
        forall|i: int|
            0 <= i < out@.len() ==> last_by_key(edges@).contains_key(edge_key(#[trigger] out@[i]))
                && last_by_key(edges@)[edge_key(out@[i])] == out@[i],
        forall|k: (u64, u64, Seq<char>)|
            last_by_key(edges@).contains_key(k) ==> has_edge_keyed(out@, k),
{
    let mut map: SortedMap<EdgeMetaKey, InternalEdge> = SortedMap::new();
    let mut i: usize = 0;
    assert(edges@.take(0) =~= Seq::<InternalEdge>::empty());
    while i < edges.len()
        invariant
            i <= edges.len(),
            map@ == last_by_key(edges@.take(i as int)),
        decreases edges.len() - i,
    {
        let e = &edges[i];
        proof {
            let t = edges@.take(i + 1);
            assert(t.drop_last() =~= edges@.take(i as int));
            assert(t.last() == edges@[i as int]);
        }
        map.insert((e.source, e.target, e.relation.clone()), e.duplicate());
        i += 1;
    }
    assert(edges@.take(edges.len() as int) =~= edges@);
    let n = map.len();
    let ghost pairs = map.pairs();
    let mut out: Vec<InternalEdge> = Vec::new();
    let mut k: usize = 0;
    proof {
        lemma_keys_agree(edges@);
    }
    while k < n
        invariant
            n == pairs.len(),
            pairs == map.pairs(),
            k <= n,
            out@.len() == k,
            forall|j: int| 0 <= j < k ==> (#[trigger] out@[j]) == pairs[j].1,
        decreases n - k,
    {
        out.push(map.value_at(k).duplicate());
        k += 1;
    }
    proof {
        assert forall|j: int| 0 <= j < n implies edge_key(pairs[j].1) == (#[trigger] pairs[j]).0
            && map@.contains_key(pairs[j].0) && map@[pairs[j].0] == pairs[j].1 by {
            crate::sorted_map::lemma_pairs_map_at::<EdgeMetaKey, InternalEdge>(pairs, j);
        }
        assert forall|a: int, b: int| 0 <= a < b < out@.len() implies <EdgeMetaKey as Ranked>::key_lt(
            edge_key(#[trigger] out@[a]),
            edge_key(#[trigger] out@[b]),
        ) by {
            assert(<EdgeMetaKey as Ranked>::key_lt(pairs[a].0, pairs[b].0));
        }
        assert forall|key: (u64, u64, Seq<char>)|
            last_by_key(edges@).contains_key(key) implies has_edge_keyed(out@, key) by {
            let j = crate::sorted_map::key_index(pairs, key);
            assert(pairs[j].0 == key);
            assert(edge_key(out@[j]) == key);
        }
    }
    out
}

/// Every edge of `last_by_key` is stored under its own logical key, and is an
/// edge of the sequence.
pub proof fn lemma_keys_agree(s: Seq<InternalEdge>)
    ensures
        forall|k: (u64, u64, Seq<char>)|
            last_by_key(s).contains_key(k) ==> edge_key(#[trigger] last_by_key(s)[k]) == k
                && s.contains(last_by_key(s)[k]),
        forall|i: int| 0 <= i < s.len() ==> last_by_key(s).contains_key(edge_key(#[trigger] s[i])),
    decreases s.len(),
{
    if s.len() > 0 {
        let head = s.drop_last();
        lemma_keys_agree(head);
        assert forall|k: (u64, u64, Seq<char>)| last_by_key(s).contains_key(k) implies edge_key(
            #[trigger] last_by_key(s)[k],
        ) == k && s.contains(last_by_key(s)[k]) by {
            if k == edge_key(s.last()) {
                assert(s[s.len() - 1] == s.last());
            } else {
                let e = last_by_key(head)[k];
                let j = choose|j: int| 0 <= j < head.len() && head[j] == e;
                assert(s[j] == e);
            }
        }
        assert forall|i: int| 0 <= i < s.len() implies last_by_key(s).contains_key(
            edge_key(#[trigger] s[i]),
        ) by {
            if i < head.len() {
                assert(head[i] == s[i]);
            }
        }
    }
}

/// The key of an exclusion: the node, if any, and the reason. Exclusions
/// without a node come first.
#[derive(Debug, PartialEq, Eq)]
pub struct ExclusionKey {
    pub node_id: Option<u64>,
    pub reason: String,
}

impl View for ExclusionKey {
    type V = (Option<u64>, Seq<char>);

    open spec fn view(&self) -> (Option<u64>, Seq<char>) {
        (self.node_id, self.reason@)
    }
}

impl Duplicate for ExclusionKey {
    fn duplicate(&self) -> (r: Self) {
        ExclusionKey { node_id: self.node_id, reason: self.reason.clone() }
    }
}

/// Whether the optional id `a` comes before `b`: none comes before any id.
pub open spec fn opt_lt(a: Option<u64>, b: Option<u64>) -> bool {
    match (a, b) {
        (None, Some(_)) => true,
        (Some(x), Some(y)) => x < y,
        _ => false,
    }
}

impl Ranked for ExclusionKey {
    open spec fn key_lt(a: (Option<u64>, Seq<char>), b: (Option<u64>, Seq<char>)) -> bool {
        opt_lt(a.0, b.0) || (a.0 == b.0 && lex_lt(a.1, b.1))
    }

    proof fn lemma_irreflexive(a: (Option<u64>, Seq<char>)) {
        lemma_lex_lt_irreflexive(a.1);
    }

    proof fn lemma_transitive(
        a: (Option<u64>, Seq<char>),
        b: (Option<u64>, Seq<char>),
        c: (Option<u64>, Seq<char>),
    ) {
        if a.0 == b.0 && b.0 == c.0 {
            lemma_lex_lt_transitive(a.1, b.1, c.1);
        }
    }

    fn less(&self, other: &Self) -> (r: bool) {
        let first = match (self.node_id, other.node_id) {
            (None, Some(_)) => true,
            (Some(x), Some(y)) => x < y,
            _ => false,
        };
        let same_node = match (self.node_id, other.node_id) {
            (None, None) => true,
            (Some(x), Some(y)) => x == y,
            _ => false,
        };
        first || (same_node && str_less(self.reason.as_str(), other.reason.as_str()))
    }
}

impl Ordered for ExclusionKey {
    proof fn lemma_total(a: (Option<u64>, Seq<char>), b: (Option<u64>, Seq<char>)) {
        lemma_lex_lt_total(a.1, b.1);
    }

    fn same(&self, other: &Self) -> (r: bool) {
        let same_node = match (self.node_id, other.node_id) {
            (None, None) => true,
            (Some(x), Some(y)) => x == y,
            _ => false,
        };
        same_node && same_text(self.reason.as_str(), other.reason.as_str())
    }
}

/// The key of the exclusion `x`.
pub open spec fn exclusion_key(x: ExclusionReason) -> (Option<u64>, Seq<char>) {
    (x.node_id, x.reason@)
}

/// Removes repeated exclusions and orders the rest by node, exclusions
/// without a node first, and then by reason. Every exclusion stays once.
pub fn dedup_exclusions(exclusions: Vec<ExclusionReason>) -> (out: Vec<ExclusionReason>)
    ensures
        forall|i: int, j: int|
            0 <= i < j < out@.len() ==> <ExclusionKey as Ranked>::key_lt(
                exclusion_key(#[trigger] out@[i]),
                exclusion_key(#[trigger] out@[j]),
            ),
        forall|i: int|
            0 <= i < out@.len() ==> has_exclusion(
                exclusions@,
                (#[trigger] out@[i]).node_id,
                out@[i].reason@,
            ),
        forall|j: int|
            0 <= j < exclusions@.len() ==> has_exclusion(
                out@,
                (#[trigger] exclusions@[j]).node_id,
                exclusions@[j].reason@,
            ),
{
    let mut set: SortedSet<ExclusionKey> = SortedSet::new();
    let mut i: usize = 0;
    while i < exclusions.len()
        invariant
            i <= exclusions.len(),
            forall|k: (Option<u64>, Seq<char>)|
                set@.contains(k) <==> exists|j: int|
                    0 <= j < i && exclusion_key(#[trigger] exclusions@[j]) == k,
        decreases exclusions.len() - i,
    {
        let x = &exclusions[i];
        let ghost before = set@;
        set.insert(ExclusionKey { node_id: x.node_id, reason: x.reason.clone() });
        proof {
            assert forall|k: (Option<u64>, Seq<char>)|
                set@.contains(k) <==> exists|j: int|
                    0 <= j < i + 1 && exclusion_key(#[trigger] exclusions@[j]) == k by {
                if before.contains(k) {
                    let j = choose|j: int|
                        0 <= j < i && exclusion_key(#[trigger] exclusions@[j]) == k;
                    assert(0 <= j < i + 1);
                }
                if exists|j: int| 0 <= j < i + 1 && exclusion_key(#[trigger] exclusions@[j]) == k {
                    let j = choose|j: int|
                        0 <= j < i + 1 && exclusion_key(#[trigger] exclusions@[j]) == k;
                    if j < i {
                        assert(before.contains(k));
                    }
                }
                if k == exclusion_key(exclusions@[i as int]) {
                    assert(exclusion_key(exclusions@[i as int]) == k);
                }
            }
        }
        i += 1;
    }
    let n = set.len();
    let ghost elems = set.elems();
    let mut out: Vec<ExclusionReason> = Vec::new();
    let mut k: usize = 0;
    while k < n
        invariant
            n == elems.len(),
            elems == set.elems(),
            k <= n,
            out@.len() == k,
            forall|j: int| 0 <= j < k ==> exclusion_key(#[trigger] out@[j]) == elems[j],
        decreases n - k,
    {
        let key = set.key_at(k);
        out.push(ExclusionReason { node_id: key.node_id, reason: key.reason.clone() });
        k += 1;
    }
    proof {
        assert forall|a: int, b: int| 0 <= a < b < out@.len() implies <ExclusionKey as Ranked>::key_lt(
            exclusion_key(#[trigger] out@[a]),
            exclusion_key(#[trigger] out@[b]),
        ) by {
            assert(<ExclusionKey as Ranked>::key_lt(elems[a], elems[b]));
        }
        assert forall|a: int| 0 <= a < out@.len() implies has_exclusion(
            exclusions@,
            (#[trigger] out@[a]).node_id,
            out@[a].reason@,
        ) by {
            assert(elems.contains(elems[a]));
            assert(set@.contains(elems[a]));
            let j = choose|j: int|
                0 <= j < exclusions@.len() && exclusion_key(#[trigger] exclusions@[j]) == elems[a];
            assert(exclusions@[j].node_id == out@[a].node_id);
        }
        assert forall|j: int| 0 <= j < exclusions@.len() implies has_exclusion(
            out@,
            (#[trigger] exclusions@[j]).node_id,
            exclusions@[j].reason@,
        ) by {
            let key = exclusion_key(exclusions@[j]);
            assert(set@.contains(key));
            assert(elems.contains(key));
            let a = choose|a: int| 0 <= a < elems.len() && elems[a] == key;
            assert(exclusion_key(out@[a]) == key);
            assert(out@[a].node_id == exclusions@[j].node_id);
        }
    }
    out
}

/// What identifies a path: its anchor, its target and its nodes.
pub open spec fn path_triple(p: ExpansionPath) -> (u64, u64, Seq<u64>) {
    (p.anchor_id, p.target_id, p.path@)
}

/// Whether a path with the triple `t` is among `paths`.
pub open spec fn has_path(paths: Seq<ExpansionPath>, t: (u64, u64, Seq<u64>)) -> bool {
    exists|i: int| 0 <= i < paths.len() && path_triple(#[trigger] paths[i]) == t
}

/// A path as an item to sort: its anchor and its target as the key, and its
/// nodes.
pub open spec fn path_item(p: ExpansionPath) -> ((u64, u64), Seq<u64>) {
    ((p.anchor_id, p.target_id), p.path@)
}

/// Whether the item `x` is among `items`.
pub open spec fn holds_item(items: Seq<((u64, u64), Seq<u64>)>, x: ((u64, u64), Seq<u64>)) -> bool {
    exists|i: int| 0 <= i < items.len() && #[trigger] items[i] == x
}

/// The first `n` of `paths` as items, each once: a path that repeats an
/// earlier one is left out.
pub open spec fn first_paths(paths: Seq<ExpansionPath>, n: int) -> Seq<((u64, u64), Seq<u64>)>
    decreases n,
{
    if n <= 0 {
        Seq::empty()
    } else {
        let before = first_paths(paths, n - 1);
        if holds_item(before, path_item(paths[n - 1])) {
            before
        } else {
            before.push(path_item(paths[n - 1]))
        }
    }
}

/// Paths that agree item by item give the same first paths.
pub proof fn lemma_first_paths_agree(a: Seq<ExpansionPath>, b: Seq<ExpansionPath>, n: int)
    requires
        0 <= n <= a.len(),
        n <= b.len(),
        forall|i: int| 0 <= i < n ==> path_item(#[trigger] a[i]) == path_item(b[i]),
    ensures
        first_paths(a, n) == first_paths(b, n),
    decreases n,
{
    if n > 0 {
        lemma_first_paths_agree(a, b, n - 1);
        assert(path_item(a[n - 1]) == path_item(b[n - 1]));
    }
}

/// The paths `paths`, each once, ordered by anchor and target; paths with the
/// same anchor and target keep the order in which they first occur.
pub open spec fn deduped_paths(paths: Seq<ExpansionPath>) -> Seq<((u64, u64), Seq<u64>)> {
    stable_sort(first_paths(paths, paths.len() as int))
}

/// Whether two lists of ids hold the same ids in the same order.
pub fn same_ids(a: &Vec<u64>, b: &Vec<u64>) -> (r: bool)
    ensures
        r == (a@ == b@),
{
    if a.len() != b.len() {
        return false;
    }
    let mut i: usize = 0;
    while i < a.len()
        invariant
            i <= a.len(),
            a.len() == b.len(),
            forall|j: int| 0 <= j < i ==> a@[j] == b@[j],
        decreases a.len() - i,
    {
        if a[i] != b[i] {
            return false;
        }
        i += 1;
    }
    assert(a@ =~= b@);
    true
}

/// Removes repeated paths and orders the rest by anchor and then by target.
/// Paths with the same anchor and target keep the order of their first
/// occurrence.
pub fn dedup_paths(paths: Vec<ExpansionPath>) -> (out: Vec<ExpansionPath>)
    ensures
        out@.len() == deduped_paths(paths@).len(),
        forall|i: int| 0 <= i < out@.len() ==> path_item(#[trigger] out@[i]) == deduped_paths(paths@)[i],
        forall|i: int, j: int|
            0 <= i < j < out@.len() ==> !<(u64, u64) as Ranked>::key_lt(
                ((#[trigger] out@[j]).anchor_id, out@[j].target_id),
                ((#[trigger] out@[i]).anchor_id, out@[i].target_id),
            ),
        forall|i: int, j: int|
            0 <= i < j < out@.len() ==> path_triple(#[trigger] out@[i]) != path_triple(
                #[trigger] out@[j],
            ),
        forall|i: int| 0 <= i < out@.len() ==> has_path(paths@, path_triple(#[trigger] out@[i])),
        forall|j: int| 0 <= j < paths@.len() ==> has_path(out@, path_triple(#[trigger] paths@[j])),
{
    let mut items: Vec<((u64, u64), Vec<u64>)> = Vec::new();
    let mut i: usize = 0;
    assert(with_payloads(items@, |v: Vec<u64>| v@) =~= first_paths(paths@, 0));
    while i < paths.len()
        invariant
            i <= paths.len(),
            with_payloads(items@, |v: Vec<u64>| v@) == first_paths(paths@, i as int),
            forall|a: int, b: int|
                0 <= a < b < items@.len() ==> item_triple(#[trigger] items@[a]) != item_triple(
                    #[trigger] items@[b],
                ),
            forall|a: int|
                0 <= a < items@.len() ==> has_path(paths@, item_triple(#[trigger] items@[a])),
            forall|j: int|
                0 <= j < i ==> has_item(items@, path_triple(#[trigger] paths@[j])),
        decreases paths.len() - i,
    {
        let p = &paths[i];
        let mut seen = false;
        let mut k: usize = 0;
        while k < items.len()
            invariant
                k <= items.len(),
                !seen ==> forall|a: int|
                    0 <= a < k ==> item_triple(#[trigger] items@[a]) != path_triple(*p),
                seen ==> has_item(items@, path_triple(*p)),
            decreases items.len() - k,
        {
            if items[k].0.0 == p.anchor_id && items[k].0.1 == p.target_id && same_ids(
                &items[k].1,
                &p.path,
            ) {
                seen = true;
                assert(item_triple(items@[k as int]) == path_triple(*p));
            }
            k += 1;
        }
        let ghost before = items@;
        if !seen {
            items.push(((p.anchor_id, p.target_id), p.path.duplicate()));
            assert(item_triple(items@[before.len() as int]) == path_triple(*p));
        }
        proof {
            let view = |v: Vec<u64>| v@;
            let mapped = with_payloads(before, view);
            if seen {
                let a = choose|a: int|
                    0 <= a < before.len() && item_triple(#[trigger] before[a]) == path_triple(*p);
                assert(mapped[a] == path_item(*p));
                assert(holds_item(mapped, path_item(*p)));
            } else {
                if holds_item(mapped, path_item(*p)) {
                    let a = choose|a: int| 0 <= a < mapped.len() && #[trigger] mapped[a] == path_item(*p);
                    assert(item_triple(before[a]) == path_triple(*p));
                }
                assert(with_payloads(items@, view) =~= mapped.push(path_item(*p)));
            }
            assert(with_payloads(items@, view) == first_paths(paths@, i + 1));
            assert forall|a: int| 0 <= a < before.len() implies items@[a] == before[a] by {}
            assert forall|j: int| 0 <= j < i + 1 implies has_item(
                items@,
                path_triple(#[trigger] paths@[j]),
            ) by {
                if j < i {
                    let a = choose|a: int|
                        0 <= a < before.len() && item_triple(#[trigger] before[a]) == path_triple(
                            paths@[j],
                        );
                    assert(items@[a] == before[a]);
                } else if seen {
                    let a = choose|a: int|
                        0 <= a < before.len() && item_triple(#[trigger] before[a]) == path_triple(
                            *p,
                        );
                    assert(items@[a] == before[a]);
                }
            }
        }
        i += 1;
    }
    let ghost unsorted = items@;
    proof {
        lemma_stable_sort(unsorted);
        lemma_sort_same_items(unsorted);
        crate::sorting::lemma_sort_maps(unsorted, |v: Vec<u64>| v@);
    }
    let sorted = sort_by_key(items);
    let mut out: Vec<ExpansionPath> = Vec::new();
    let mut k: usize = 0;
    while k < sorted.len()
        invariant
            k <= sorted.len(),
            out@.len() == k,
            forall|j: int| 0 <= j < k ==> path_triple(#[trigger] out@[j]) == item_triple(sorted@[j]),
            forall|j: int|
                0 <= j < k ==> path_item(#[trigger] out@[j]) == (sorted@[j].0, sorted@[j].1@),
        decreases sorted.len() - k,
    {
        let item = &sorted[k];
        out.push(
            ExpansionPath { anchor_id: item.0.0, target_id: item.0.1, path: item.1.duplicate() },
        );
        k += 1;
    }
    proof {
        let view = |v: Vec<u64>| v@;
        assert(deduped_paths(paths@) == with_payloads(sorted@, view));
        assert forall|j: int| 0 <= j < out@.len() implies path_item(#[trigger] out@[j])
            == deduped_paths(paths@)[j] by {
            assert(with_payloads(sorted@, view)[j] == (sorted@[j].0, sorted@[j].1@));
        }
        assert forall|a: int, b: int| 0 <= a < b < out@.len() implies !<(u64, u64) as Ranked>::key_lt(
            ((#[trigger] out@[b]).anchor_id, out@[b].target_id),
            ((#[trigger] out@[a]).anchor_id, out@[a].target_id),
        ) by {
            assert(!<(u64, u64) as Ranked>::key_lt(sorted@[b].0@, sorted@[a].0@));
        }
        lemma_sorted_distinct(unsorted, sorted@);
        assert forall|a: int, b: int| 0 <= a < b < out@.len() implies path_triple(
            #[trigger] out@[a],
        ) != path_triple(#[trigger] out@[b]) by {
            assert(item_triple(sorted@[a]) != item_triple(sorted@[b]));
        }
        assert forall|a: int| 0 <= a < out@.len() implies has_path(
            paths@,
            path_triple(#[trigger] out@[a]),
        ) by {
            assert(sorted@.contains(sorted@[a]));
            assert(unsorted.contains(sorted@[a]));
            let b = choose|b: int| 0 <= b < unsorted.len() && unsorted[b] == sorted@[a];
            assert(has_path(paths@, item_triple(unsorted[b])));
        }
        assert forall|j: int| 0 <= j < paths@.len() implies has_path(
            out@,
            path_triple(#[trigger] paths@[j]),
        ) by {
            let b = choose|b: int|
                0 <= b < unsorted.len() && item_triple(#[trigger] unsorted[b]) == path_triple(
                    paths@[j],
                );
            assert(unsorted.contains(unsorted[b]));
            assert(sorted@.contains(unsorted[b]));
            let a = choose|a: int| 0 <= a < sorted@.len() && sorted@[a] == unsorted[b];
            assert(path_triple(out@[a]) == item_triple(sorted@[a]));
        }
    }
    out
}

/// What identifies the path that the item `x` stands for.
pub open spec fn item_triple(x: ((u64, u64), Vec<u64>)) -> (u64, u64, Seq<u64>) {
    (x.0.0, x.0.1, x.1@)
}

/// Whether an item with the triple `t` is among `items`.
pub open spec fn has_item(items: Seq<((u64, u64), Vec<u64>)>, t: (u64, u64, Seq<u64>)) -> bool {
    exists|i: int| 0 <= i < items.len() && item_triple(#[trigger] items[i]) == t
}

/// Sorting items whose triples differ gives items whose triples differ.
proof fn lemma_sorted_distinct(
    unsorted: Seq<((u64, u64), Vec<u64>)>,
    sorted: Seq<((u64, u64), Vec<u64>)>,
)
    requires
        sorted == stable_sort(unsorted),
        forall|a: int, b: int|
            0 <= a < b < unsorted.len() ==> item_triple(#[trigger] unsorted[a]) != item_triple(
                #[trigger] unsorted[b],
            ),
    ensures
        forall|a: int, b: int|
            0 <= a < b < sorted.len() ==> item_triple(#[trigger] sorted[a]) != item_triple(
                #[trigger] sorted[b],
            ),
{
    lemma_stable_sort(unsorted);
    assert forall|a: int, b: int| 0 <= a < b < sorted.len() implies item_triple(
        #[trigger] sorted[a],
    ) != item_triple(#[trigger] sorted[b]) by {
        if item_triple(sorted[a]) == item_triple(sorted[b]) {
            let x = sorted[a];
            let y = sorted[b];
            sorted.to_multiset_ensures();
            unsorted.to_multiset_ensures();
            assert(sorted.contains(x) && sorted.contains(y));
            assert(unsorted.to_multiset().count(x) == sorted.to_multiset().count(x));
            assert(unsorted.to_multiset().count(y) == sorted.to_multiset().count(y));
            let i = choose|i: int| 0 <= i < unsorted.len() && unsorted[i] == x;
            let j = choose|j: int| 0 <= j < unsorted.len() && unsorted[j] == y;
            if i != j {
                if i < j {
                    assert(item_triple(unsorted[i]) != item_triple(unsorted[j]));
                } else {
                    assert(item_triple(unsorted[j]) != item_triple(unsorted[i]));
                }
            } else {
                assert(x == y);
                lemma_no_repeat(unsorted, i);
                assert(sorted.to_multiset().count(x) == 1);
                lemma_count_two(sorted, a, b);
            }
        }
    }
}

/// An item whose triple no other item shares occurs once.
proof fn lemma_no_repeat(s: Seq<((u64, u64), Vec<u64>)>, i: int)
    requires
        0 <= i < s.len(),
        forall|a: int, b: int|
            0 <= a < b < s.len() ==> item_triple(#[trigger] s[a]) != item_triple(#[trigger] s[b]),
    ensures
        s.to_multiset().count(s[i]) == 1,
    decreases s.len(),
{
    let x = s[i];
    let head = s.drop_last();
    vstd::seq_lib::to_multiset_build(head, s.last());
    assert(s =~= head.push(s.last()));
    if i == s.len() - 1 {
        assert(!head.contains(x)) by {
            if head.contains(x) {
                let j = choose|j: int| 0 <= j < head.len() && head[j] == x;
                assert(item_triple(s[j]) != item_triple(s[i]));
            }
        }
        head.to_multiset_ensures();
        assert(head.to_multiset().count(x) == 0);
    } else {
        assert(head[i] == x);
        assert forall|a: int, b: int| 0 <= a < b < head.len() implies item_triple(
            #[trigger] head[a],
        ) != item_triple(#[trigger] head[b]) by {
            assert(head[a] == s[a] && head[b] == s[b]);
        }
        lemma_no_repeat(head, i);
        assert(item_triple(s[i]) != item_triple(s[s.len() - 1]));
    }
}

/// An item that stands at two places occurs at least twice.
proof fn lemma_count_two(s: Seq<((u64, u64), Vec<u64>)>, a: int, b: int)
    requires
        0 <= a < b < s.len(),
        s[a] == s[b],
    ensures
        s.to_multiset().count(s[a]) >= 2,
    decreases s.len(),
{
    let head = s.drop_last();
    vstd::seq_lib::to_multiset_build(head, s.last());
    assert(s =~= head.push(s.last()));
    if b == s.len() - 1 {
        head.to_multiset_ensures();
        assert(head[a] == s[a]);
        assert(head.contains(s[a]));
    } else {
        assert(head[a] == s[a] && head[b] == s[b]);
        lemma_count_two(head, a, b);
    }
}

/// The edges that the expansions `xs` walked, anchor after anchor.
pub open spec fn all_edges(xs: Seq<AnchorExpansion>) -> Seq<InternalEdge>
    decreases xs.len(),
{
    if xs.len() == 0 {
        Seq::empty()
    } else {
        all_edges(xs.drop_last()) + xs.last().edges@
    }
}

/// The exclusions of the expansions `xs`, anchor after anchor.
pub open spec fn all_exclusions(xs: Seq<AnchorExpansion>) -> Seq<ExclusionReason>
    decreases xs.len(),
{
    if xs.len() == 0 {
        Seq::empty()
    } else {
        all_exclusions(xs.drop_last()) + xs.last().exclusions@
    }
}

/// The paths of the expansions `xs`, anchor after anchor.
pub open spec fn all_paths(xs: Seq<AnchorExpansion>) -> Seq<ExpansionPath>
    decreases xs.len(),
{
    if xs.len() == 0 {
        Seq::empty()
    } else {
        all_paths(xs.drop_last()) + xs.last().paths@
    }
}

/// A copy of the exclusion `x`.
pub fn copy_exclusion(x: &ExclusionReason) -> (r: ExclusionReason)
    ensures
        r == *x,
{
    ExclusionReason { node_id: x.node_id, reason: x.reason.clone() }
}

/// The edges that the expansions walked, anchor after anchor.
pub fn collect_edges(xs: &Vec<AnchorExpansion>) -> (out: Vec<InternalEdge>)
    ensures
        out@ == all_edges(xs@),
{
    let mut out: Vec<InternalEdge> = Vec::new();
    let mut j: usize = 0;
    assert(xs@.take(0) =~= Seq::<AnchorExpansion>::empty());
    while j < xs.len()
        invariant
            j <= xs.len(),
            out@ == all_edges(xs@.take(j as int)),
        decreases xs.len() - j,
    {
        let ghost base = out@;
        let list = &xs[j].edges;
        let mut i: usize = 0;
        while i < list.len()
            invariant
                i <= list.len(),
                out@ == base + list@.take(i as int),
            decreases list.len() - i,
        {
            out.push(list[i].duplicate());
            i += 1;
            assert(out@ =~= base + list@.take(i as int));
        }
        proof {
            assert(list@.take(list.len() as int) =~= list@);
            let t = xs@.take(j + 1);
            assert(t.drop_last() =~= xs@.take(j as int));
            assert(t.last() == xs@[j as int]);
        }
        j += 1;
    }
    assert(xs@.take(xs.len() as int) =~= xs@);
    out
}

/// The exclusions of the expansions, anchor after anchor.
pub fn collect_exclusions(xs: &Vec<AnchorExpansion>) -> (out: Vec<ExclusionReason>)
    ensures
        out@ == all_exclusions(xs@),
{
    let mut out: Vec<ExclusionReason> = Vec::new();
    let mut j: usize = 0;
    assert(xs@.take(0) =~= Seq::<AnchorExpansion>::empty());
    while j < xs.len()
        invariant
            j <= xs.len(),
            out@ == all_exclusions(xs@.take(j as int)),
        decreases xs.len() - j,
    {
        let ghost base = out@;
        let list = &xs[j].exclusions;
        let mut i: usize = 0;
        while i < list.len()
            invariant
                i <= list.len(),
                out@ == base + list@.take(i as int),
            decreases list.len() - i,
        {
            out.push(copy_exclusion(&list[i]));
            i += 1;
            assert(out@ =~= base + list@.take(i as int));
        }
        proof {
            assert(list@.take(list.len() as int) =~= list@);
            let t = xs@.take(j + 1);
            assert(t.drop_last() =~= xs@.take(j as int));
            assert(t.last() == xs@[j as int]);
        }
        j += 1;
    }
    assert(xs@.take(xs.len() as int) =~= xs@);
    out
}

/// The paths of the expansions, anchor after anchor.
pub fn collect_paths(xs: &Vec<AnchorExpansion>) -> (out: Vec<ExpansionPath>)
    ensures
        out@.len() == all_paths(xs@).len(),
        forall|i: int|
            0 <= i < out@.len() ==> path_triple(#[trigger] out@[i]) == path_triple(
                all_paths(xs@)[i],
            ),
{
    let mut out: Vec<ExpansionPath> = Vec::new();
    let mut j: usize = 0;
    assert(xs@.take(0) =~= Seq::<AnchorExpansion>::empty());
    while j < xs.len()
        invariant
            j <= xs.len(),
            out@.len() == all_paths(xs@.take(j as int)).len(),
            forall|i: int|
                0 <= i < out@.len() ==> path_triple(#[trigger] out@[i]) == path_triple(
                    all_paths(xs@.take(j as int))[i],
                ),
        decreases xs.len() - j,
    {
        let ghost base = all_paths(xs@.take(j as int));
        let list = &xs[j].paths;
        let mut i: usize = 0;
        while i < list.len()
            invariant
                i <= list.len(),
                out@.len() == base.len() + i,
                forall|k: int|
                    0 <= k < out@.len() ==> path_triple(#[trigger] out@[k]) == path_triple(
                        (base + list@)[k],
                    ),
            decreases list.len() - i,
        {
            let p = &list[i];
            out.push(
                ExpansionPath {
                    anchor_id: p.anchor_id,
                    target_id: p.target_id,
                    path: p.path.duplicate(),
                },
            );
            i += 1;
        }
        proof {
            let t = xs@.take(j + 1);
            assert(t.drop_last() =~= xs@.take(j as int));
            assert(t.last() == xs@[j as int]);
        }
        j += 1;
    }
    assert(xs@.take(xs.len() as int) =~= xs@);
    out
}

/// The anchors `s` as items to sort.
pub open spec fn keyed_anchors(s: Seq<Anchor>) -> Seq<(RankKey, ())> {
    s.map_values(|a: Anchor| (RankKey { score: a.score, id: a.node_id }, ()))
}

/// Orders the anchors by score, highest first, and by id among equal scores.
pub fn sort_anchors(anchors: &Vec<Anchor>) -> (out: Vec<Anchor>)
    ensures
        out@.len() == anchors@.len(),
        stable_sort(keyed_anchors(anchors@)).len() == anchors@.len(),
        forall|i: int|
            0 <= i < out@.len() ==> (#[trigger] out@[i]).node_id == stable_sort(
                keyed_anchors(anchors@),
            )[i].0.id && out@[i].score == stable_sort(keyed_anchors(anchors@))[i].0.score,
{
    let mut items: Vec<(RankKey, ())> = Vec::new();
    let mut i: usize = 0;
    while i < anchors.len()
        invariant
            i <= anchors.len(),
            items@ == keyed_anchors(anchors@).take(i as int),
        decreases anchors.len() - i,
    {
        items.push((RankKey { score: anchors[i].score, id: anchors[i].node_id }, ()));
        i += 1;
        assert(items@ =~= keyed_anchors(anchors@).take(i as int));
    }
    assert(keyed_anchors(anchors@).take(anchors.len() as int) =~= keyed_anchors(anchors@));
    proof {
        lemma_stable_sort(keyed_anchors(anchors@));
    }
    let sorted = sort_by_key(items);
    let mut out: Vec<Anchor> = Vec::new();
    let mut k: usize = 0;
    while k < sorted.len()
        invariant
            k <= sorted.len(),
            out@.len() == k,
            forall|j: int|
                0 <= j < k ==> (#[trigger] out@[j]).node_id == sorted@[j].0.id && out@[j].score
                    == sorted@[j].0.score,
        decreases sorted.len() - k,
    {
        out.push(Anchor { node_id: sorted[k].0.id, score: sorted[k].0.score });
        k += 1;
    }
    out
}

/// Whether `e` is an edge of the evidence over the walked edges `walked`: a
/// walked edge that stays, with the provenance of its stored metadata.
pub open spec fn is_evidence_edge(
    meta: Map<(u64, u64, Seq<char>), Map<Seq<char>, Seq<char>>>,
    walked: Seq<InternalEdge>,
    selected: Set<u64>,
    filter: Set<Seq<char>>,
    e: InternalEdge,
) -> bool {
    exists|i: int|
        0 <= i < walked.len() && enriched(meta, #[trigger] walked[i], e) && edge_stays(
            walked[i],
            selected,
            filter,
        )
}

/// The second half of an execution: ranks the scored nodes and keeps the best
/// `top_k`; keeps the walked edges whose endpoints were both kept and whose
/// relation is allowed, with the provenance of their stored metadata, one per
/// logical key; and puts the paths, the exclusions and the anchors in order.
///
/// `scored` holds the candidates with the scores that the caller computed;
/// `rejected` holds the exclusions of the entries that were no candidates.
pub fn finish_execution(
    state: &MaterializedState,
    anchors: &Vec<Anchor>,
    expansion: &Expansion,
    rejected: Vec<ExclusionReason>,
    scored: Vec<RankedNode>,
    top_k: usize,
    relation_filter: &SortedSet<String>,
) -> (out: ExecutionState)
    ensures
        out.nodes@.len() <= top_k,
        out.nodes@.len() == kept_count(scored@.len() as int, top_k),
        ranking(scored@).len() == scored@.len(),
        forall|i: int| 0 <= i < out.nodes@.len() ==> (#[trigger] out.nodes@[i]) == ranking(scored@)[i].1,
        ids_apart(scored@) ==> ids_apart(out.nodes@),
        ids_apart(scored@) ==> forall|j: int|
            out.nodes@.len() <= j < scored@.len() ==> !node_id_set(out.nodes@).contains(
                (#[trigger] ranking(scored@)[j]).1.id,
            ),
        forall|j: int|
            out.nodes@.len() <= j < scored@.len() ==> has_exclusion(
                out.exclusions@,
                Some((#[trigger] ranking(scored@)[j]).1.id),
                "pruned_by_top_k"@,
            ),
        forall|i: int, j: int|
            0 <= i < j < out.exclusions@.len() ==> <ExclusionKey as Ranked>::key_lt(
                exclusion_key(#[trigger] out.exclusions@[i]),
                exclusion_key(#[trigger] out.exclusions@[j]),
            ),
        forall|j: int|
            0 <= j < rejected@.len() ==> has_exclusion(
                out.exclusions@,
                (#[trigger] rejected@[j]).node_id,
                rejected@[j].reason@,
            ),
        forall|j: int|
            0 <= j < all_exclusions(expansion.per_anchor@).len() ==> has_exclusion(
                out.exclusions@,
                (#[trigger] all_exclusions(expansion.per_anchor@)[j]).node_id,
                all_exclusions(expansion.per_anchor@)[j].reason@,
            ),
        forall|i: int|
            0 <= i < out.exclusions@.len() ==> {
                let x = #[trigger] out.exclusions@[i];
                ||| has_exclusion(rejected@, x.node_id, x.reason@)
                ||| has_exclusion(all_exclusions(expansion.per_anchor@), x.node_id, x.reason@)
                ||| (x.reason@ == "pruned_by_top_k"@ && exists|j: int|
                    out.nodes@.len() <= j < scored@.len() && x.node_id == Some(
                        (#[trigger] ranking(scored@)[j]).1.id,
                    ))
            },
        forall|i: int|
            0 <= i < out.edges@.len() ==> edge_stays(
                #[trigger] out.edges@[i],
                node_id_set(out.nodes@),
                relation_filter@,
            ),
        forall|i: int|
            0 <= i < out.edges@.len() ==> is_evidence_edge(
                state@.edge_metadata,
                all_edges(expansion.per_anchor@),
                node_id_set(out.nodes@),
                relation_filter@,
                #[trigger] out.edges@[i],
            ),
        forall|j: int|
            0 <= j < all_edges(expansion.per_anchor@).len() && edge_stays(
                #[trigger] all_edges(expansion.per_anchor@)[j],
                node_id_set(out.nodes@),
                relation_filter@,
            ) ==> has_edge_keyed(out.edges@, edge_key(all_edges(expansion.per_anchor@)[j])),
        forall|i: int, j: int|
            0 <= i < j < out.edges@.len() ==> <EdgeMetaKey as Ranked>::key_lt(
                edge_key(#[trigger] out.edges@[i]),
                edge_key(#[trigger] out.edges@[j]),
            ),
        out.anchors@.len() == anchors@.len(),
        stable_sort(keyed_anchors(anchors@)).len() == anchors@.len(),
        forall|i: int|
            0 <= i < out.anchors@.len() ==> (#[trigger] out.anchors@[i]).node_id == stable_sort(
                keyed_anchors(anchors@),
            )[i].0.id && out.anchors@[i].score == stable_sort(keyed_anchors(anchors@))[i].0.score,
        out.expansion_paths@.len() == deduped_paths(all_paths(expansion.per_anchor@)).len(),
        forall|i: int|
            0 <= i < out.expansion_paths@.len() ==> path_item(#[trigger] out.expansion_paths@[i])
                == deduped_paths(all_paths(expansion.per_anchor@))[i],
        forall|i: int|
            0 <= i < out.expansion_paths@.len() ==> has_path(
                all_paths(expansion.per_anchor@),
                path_triple(#[trigger] out.expansion_paths@[i]),
            ),
        forall|j: int|
            0 <= j < all_paths(expansion.per_anchor@).len() ==> has_path(
                out.expansion_paths@,
                path_triple(#[trigger] all_paths(expansion.per_anchor@)[j]),
            ),
{
    let ghost order = ranking(scored@);
    let ghost total = scored@.len() as int;
    let ghost apart = ids_apart(scored@);
    proof {
        if apart {
            lemma_ranking_keeps_ids_apart(scored@);
        }
    }
    let (nodes, pruned) = rank_and_prune(scored, top_k);
    proof {
        if apart {
            assert forall|j: int| nodes@.len() <= j < total implies !node_id_set(nodes@).contains(
                (#[trigger] order[j]).1.id,
            ) by {
                if node_id_set(nodes@).contains(order[j].1.id) {
                    let i = choose|i: int|
                        0 <= i < nodes@.len() && (#[trigger] nodes@[i]).id == order[j].1.id;
                    assert(nodes@[i] == order[i].1);
                    assert(order[i].1.id != order[j].1.id);
                }
            }
            assert forall|i: int, j: int| 0 <= i < j < nodes@.len() implies (#[trigger] nodes@[i]).id
                != (#[trigger] nodes@[j]).id by {
                assert(nodes@[i] == order[i].1 && nodes@[j] == order[j].1);
                assert(order[i].1.id != order[j].1.id);
            }
        }
    }
    let selected = selected_ids(&nodes);
    let walked = collect_edges(&expansion.per_anchor);
    let retained = retain_edges(&walked, &selected, relation_filter);
    let with_meta = enrich_edges(state, &retained);
    let ghost enriched_list = with_meta@;
    let edges = dedup_edges(with_meta);
    let ghost meta = state@.edge_metadata;
    let ghost stays = |e: InternalEdge| edge_stays(e, selected@, relation_filter@);
    proof {
        lemma_keys_agree(enriched_list);
        assert forall|i: int| 0 <= i < edges@.len() implies is_evidence_edge(
            meta,
            walked@,
            selected@,
            relation_filter@,
            #[trigger] edges@[i],
        ) && edge_stays(edges@[i], selected@, relation_filter@) by {
            let e = edges@[i];
            assert(enriched_list.contains(e));
            let m = choose|m: int| 0 <= m < enriched_list.len() && enriched_list[m] == e;
            assert(enriched(meta, retained@[m], enriched_list[m]));
            assert(retained@.contains(retained@[m]));
            crate::seqs::lemma_filter_contains_iff(walked@, stays, retained@[m]);
            let w = choose|w: int| 0 <= w < walked@.len() && walked@[w] == retained@[m];
            assert(enriched(meta, walked@[w], e));
        }
        assert forall|j: int|
            0 <= j < walked@.len() && edge_stays(
                #[trigger] walked@[j],
                selected@,
                relation_filter@,
            ) implies has_edge_keyed(edges@, edge_key(walked@[j])) by {
            assert(walked@.contains(walked@[j]));
            crate::seqs::lemma_filter_contains_iff(walked@, stays, walked@[j]);
            let m = choose|m: int| 0 <= m < retained@.len() && retained@[m] == walked@[j];
            assert(enriched(meta, retained@[m], enriched_list[m]));
            assert(edge_key(enriched_list[m]) == edge_key(walked@[j]));
            assert(last_by_key(enriched_list).contains_key(edge_key(enriched_list[m])));
        }
    }
    let mut exclusions = collect_exclusions(&expansion.per_anchor);
    let ghost from_walks = exclusions@;
    let ghost rej = rejected@;
    let ghost pr = pruned@;
    let mut rest = rejected;
    let mut pruned_rest = pruned;
    exclusions.append(&mut rest);
    exclusions.append(&mut pruned_rest);
    let ghost merged = exclusions@;
    assert(merged =~= from_walks + rej + pr);
    let exclusions = dedup_exclusions(exclusions);
    proof {
        assert forall|j: int| 0 <= j < rej.len() implies has_exclusion(
            exclusions@,
            (#[trigger] rej[j]).node_id,
            rej[j].reason@,
        ) by {
            assert(merged[from_walks.len() + j] == rej[j]);
        }
        assert forall|j: int| 0 <= j < from_walks.len() implies has_exclusion(
            exclusions@,
            (#[trigger] from_walks[j]).node_id,
            from_walks[j].reason@,
        ) by {
            assert(merged[j] == from_walks[j]);
        }
        assert forall|j: int| nodes@.len() <= j < total implies has_exclusion(
            exclusions@,
            Some((#[trigger] order[j]).1.id),
            "pruned_by_top_k"@,
        ) by {
            let q = j - nodes@.len();
            assert(pr[q].node_id == Some(order[nodes@.len() + q].1.id));
            assert(merged[from_walks.len() + rej.len() + q] == pr[q]);
        }
        assert forall|i: int| 0 <= i < exclusions@.len() implies {
            let x = #[trigger] exclusions@[i];
            ||| has_exclusion(rej, x.node_id, x.reason@)
            ||| has_exclusion(from_walks, x.node_id, x.reason@)
            ||| (x.reason@ == "pruned_by_top_k"@ && exists|j: int|
                nodes@.len() <= j < total && x.node_id == Some((#[trigger] order[j]).1.id))
        } by {
            let x = exclusions@[i];
            let m = choose|m: int|
                0 <= m < merged.len() && (#[trigger] merged[m]).node_id == x.node_id
                    && merged[m].reason@ == x.reason@;
            if m < from_walks.len() {
                assert(from_walks[m] == merged[m]);
            } else if m < from_walks.len() + rej.len() {
                assert(rej[m - from_walks.len()] == merged[m]);
            } else {
                let q = m - from_walks.len() - rej.len();
                assert(pr[q] == merged[m]);
                assert(x.node_id == Some(order[nodes@.len() + q].1.id));
            }
        }
    }
    let collected = collect_paths(&expansion.per_anchor);
    let ghost cp = collected@;
    let paths = dedup_paths(collected);
    proof {
        let ap = all_paths(expansion.per_anchor@);
        assert forall|i: int| 0 <= i < cp.len() implies path_item(#[trigger] cp[i]) == path_item(
            ap[i],
        ) by {
            assert(path_triple(cp[i]) == path_triple(ap[i]));
        }
        lemma_first_paths_agree(cp, ap, cp.len() as int);
        assert(deduped_paths(cp) == deduped_paths(ap));
        assert forall|i: int| 0 <= i < paths@.len() implies has_path(
            ap,
            path_triple(#[trigger] paths@[i]),
        ) by {
            let t = path_triple(paths@[i]);
            let j = choose|j: int| 0 <= j < cp.len() && path_triple(#[trigger] cp[j]) == t;
            assert(path_triple(ap[j]) == t);
        }
        assert forall|j: int| 0 <= j < ap.len() implies has_path(
            paths@,
            path_triple(#[trigger] ap[j]),
        ) by {
            assert(path_triple(cp[j]) == path_triple(ap[j]));
        }
    }
    let sorted_anchors = sort_anchors(anchors);
    ExecutionState {
        anchors: sorted_anchors,
        expansion_paths: paths,
        exclusions,
        nodes,
        edges,
    }
}

/// The number of vector hits to ask the index for under `plan`: twice the
/// planned number for a global search, at least one in any case.
pub fn vector_limit(plan: &QueryPlan) -> (k: usize)
    ensures
        k >= 1,
        k == ({
            let base: int = if plan.effective_search_mode == SearchMode::Global {
                if plan.vector_top_k * 2 > usize::MAX {
                    usize::MAX as int
                } else {
                    plan.vector_top_k * 2
                }
            } else {
                plan.vector_top_k as int
            };
            if base < 1 {
                1
            } else {
                base
            }
        }),
{
    let base = match plan.effective_search_mode {
        SearchMode::Global => if plan.vector_top_k > usize::MAX / 2 {
            usize::MAX
        } else {
            plan.vector_top_k * 2
        },
        _ => plan.vector_top_k,
    };
    if base < 1 {
        1
    } else {
        base
    }
}

/// What the first half of an execution found.
#[derive(Debug, PartialEq, Eq)]
pub struct Gathered {
    pub anchors: Vec<Anchor>,
    pub expansion: Expansion,
    /// The candidates in increasing order of id, to be scored.
    pub candidates: Vec<Candidate>,
    /// The exclusions of the entries that are no candidates.
    pub rejected: Vec<ExclusionReason>,
}

/// The outcome of the first half of an execution.
#[derive(Debug, PartialEq, Eq)]
pub enum Gathering {
    /// There is no node to start from: the execution is over.
    Empty(ExecutionState),
    /// Candidates were gathered and wait for their scores.
    Found(Gathered),
}

/// The state of an execution that found nothing, for the reason `reason`.
pub fn empty_state_for(reason: &str) -> (s: ExecutionState)
    ensures
        s.anchors@.len() == 0,
        s.expansion_paths@.len() == 0,
        s.nodes@.len() == 0,
        s.edges@.len() == 0,
        s.exclusions@.len() == 1,
        s.exclusions@[0].node_id is None,
        s.exclusions@[0].reason@ == reason@,
{
    let mut exclusions: Vec<ExclusionReason> = Vec::new();
    exclusions.push(ExclusionReason { node_id: None, reason: reason.to_owned() });
    ExecutionState {
        anchors: Vec::new(),
        expansion_paths: Vec::new(),
        exclusions,
        nodes: Vec::new(),
        edges: Vec::new(),
    }
}

/// The first half of an execution: chooses the anchors among the vector hits,
/// expands them over the graph, fetches the nodes that were reached and
/// applies the filters. The candidates that it returns wait for the scores
/// that the caller computes; `finish_execution` does the rest.
///
/// `vector_hits` are the hits of the vector search for the query, best first.
pub fn begin_execution(
    state: &MaterializedState,
    request: &QueryRequest,
    plan: &QueryPlan,
    vector_hits: &Vec<(u64, u32)>,
    time_range: Option<(i32, i32)>,
    now_unix: u64,
) -> (g: Gathering)
    ensures
        match g {
            Gathering::Empty(s) => vector_hits@.len() == 0 && state@.nodes
                =~= Map::<u64, NodeView>::empty() && s.nodes@.len() == 0 && s.edges@.len() == 0
                && s.exclusions@.len() == 1 && s.exclusions@[0].node_id is None
                && s.exclusions@[0].reason@ == "no_nodes_available"@,
            Gathering::Found(x) => {
                let filter = text_set(request.filters.relation_type@).union(
                    text_set(request.traversal.relation_types@),
                );
                let entity = text_set(request.filters.entity_type@);
                &&& x.anchors@.len() > 0
                &&& x.anchors@.len() <= (if plan.vector_top_k < 1 {
                    1
                } else {
                    plan.vector_top_k as int
                })
                &&& vector_hits@.len() > 0 ==> forall|i: int|
                    0 <= i < x.anchors@.len() ==> (#[trigger] x.anchors@[i]).node_id
                        == vector_hits@[i].0 && x.anchors@[i].score == vector_hits@[i].1
                &&& vector_hits@.len() == 0 ==> x.anchors@.len() == 1 && x.anchors@[0].score == 0
                    && state@.nodes.contains_key(x.anchors@[0].node_id) && forall|other: u64|
                    state@.nodes.contains_key(other) ==> x.anchors@[0].node_id <= other
                &&& x.expansion.per_anchor@.len() == x.anchors@.len()
                &&& forall|j: int|
                    0 <= j < x.anchors@.len() ==> is_anchor_expansion(
                        state@.index.edges,
                        filter,
                        x.anchors@[j].node_id,
                        plan.expansion_depth,
                        #[trigger] x.expansion.per_anchor@[j],
                    )
                &&& x.expansion.candidate_hops@ == candidate_hops_of(
                    x.anchors@,
                    x.expansion.per_anchor@,
                )
                &&& forall|i: int, j: int|
                    0 <= i < j < x.candidates@.len() ==> (#[trigger] x.candidates@[i]).id < (
                    #[trigger] x.candidates@[j]).id
                &&& forall|i: int|
                    0 <= i < x.candidates@.len() ==> candidate_ok(
                        state@.nodes,
                        request.query@,
                        x.anchors@,
                        x.expansion.candidate_hops@,
                        entity,
                        time_range,
                        now_unix,
                        #[trigger] x.candidates@[i],
                    )
                &&& forall|i: int|
                    0 <= i < x.rejected@.len() ==> rejection_justified(
                        state@.nodes,
                        x.expansion.candidate_hops@,
                        entity,
                        time_range,
                        now_unix,
                        #[trigger] x.rejected@[i],
                    )
                &&& forall|id: u64| #[trigger]
                    x.expansion.candidate_hops@.contains_key(id) ==> match rejection_of(
                        state@.nodes,
                        entity,
                        time_range,
                        now_unix,
                        id,
                    ) {
                        Some(reason) => has_exclusion(x.rejected@, Some(id), reason),
                        None => has_candidate(x.candidates@, id),
                    }
            },
        },
{
    let first_node = if vector_hits.len() == 0 {
        let ids = state.list_node_ids();
        if ids.len() > 0 {
            proof {
                assert(ids@.contains(ids@[0]));
                assert forall|other: u64| state@.nodes.contains_key(other) implies ids@[0]
                    <= other by {
                    assert(ids@.contains(other));
                    let j = choose|j: int| 0 <= j < ids@.len() && ids@[j] == other;
                    if j > 0 {
                        assert(<u64 as Ranked>::key_lt(ids@[0], ids@[j]));
                    }
                }
            }
            Some(ids[0])
        } else {
            proof {
                assert forall|id: u64| !state@.nodes.contains_key(id) by {
                    if state@.nodes.contains_key(id) {
                        assert(ids@.contains(id));
                    }
                }
            }
            None
        }
    } else {
        None
    };
    let anchors = select_anchors(vector_hits, first_node, plan.vector_top_k);
    if anchors.len() == 0 {
        return Gathering::Empty(empty_state_for("no_nodes_available"));
    }
    let relation_filter = collect_relation_filter(request);
    let expansion = expand_anchors(
        state.hyper_index().graph_index(),
        &anchors,
        plan.expansion_depth,
        &relation_filter,
    );
    let entity_filter = string_set(&request.filters.entity_type);
    let (candidates, rejected) = gather_candidates(
        state,
        request.query.as_str(),
        &anchors,
        &expansion.candidate_hops,
        &entity_filter,
        time_range,
        now_unix,
    );
    Gathering::Found(Gathered { anchors, expansion, candidates, rejected })
}

/// The confidence that a node states of itself: the text under `confidence`
/// in its metadata, to be read as a number.
pub fn stated_confidence(candidate: &Candidate) -> (r: Option<String>)
    ensures
        opt_text(r) == lookup(candidate.node@.metadata, "confidence"@),
{
    metadata_value(&candidate.node.metadata, "confidence")
}

/// Whether `n` is the ranked node of `candidate` under `score`: it has the id,
/// the distance and the data of the candidate, the score, the provenance that
/// the metadata of the node gives, and as its confidence `stated`, else the
/// score.
pub open spec fn is_ranked_node(
    candidate: Candidate,
    score: u32,
    stated: Option<u32>,
    n: RankedNode,
) -> bool {
    &&& n.id == candidate.id
    &&& n.hop == candidate.hop
    &&& n.score == score
    &&& n.confidence == (match stated {
        Some(c) => c,
        None => score,
    })
    &&& n.data@ == candidate.node.data@
    &&& opt_text(n.source) == lookup(candidate.node@.metadata, "source"@)
    &&& opt_text(n.extraction_model_id) == lookup(candidate.node@.metadata, "extraction_model_id"@)
    &&& opt_text(n.node_snapshot_id) == lookup(candidate.node@.metadata, "snapshot_id"@)
    &&& opt_text(n.ingested_at) == lookup(candidate.node@.metadata, "ingested_at"@)
}

/// The ranked node of a candidate with its score. `stated` is the confidence
/// that the node states of itself, where its metadata holds one that reads as
/// a number; the confidence of the node is that, else its score.
pub fn ranked_node_of(candidate: &Candidate, score: u32, stated: Option<u32>) -> (n: RankedNode)
    ensures
        is_ranked_node(*candidate, score, stated, n),
{
    let m = &candidate.node.metadata;
    let confidence = match stated {
        Some(c) => c,
        None => score,
    };
    RankedNode {
        id: candidate.id,
        data: candidate.node.data.clone(),
        score,
        hop: candidate.hop,
        source: metadata_value(m, "source"),
        extraction_model_id: metadata_value(m, "extraction_model_id"),
        node_snapshot_id: metadata_value(m, "snapshot_id"),
        ingested_at: metadata_value(m, "ingested_at"),
        confidence,
    }
}

/// The ranked nodes of the candidates, in their order. `scores` holds for each
/// candidate the score that the caller computed and the confidence that the
/// node states of itself, where there is one. The ranked nodes have the ids of
/// the candidates, so no two share an id where the candidates come by
/// increasing id.
pub fn rank_candidates(candidates: &Vec<Candidate>, scores: &Vec<(u32, Option<u32>)>) -> (out: Vec<
    RankedNode,
>)
    requires
        scores@.len() == candidates@.len(),
    ensures
        out@.len() == candidates@.len(),
        forall|i: int|
            0 <= i < out@.len() ==> is_ranked_node(
                candidates@[i],
                scores@[i].0,
                scores@[i].1,
                #[trigger] out@[i],
            ),
        (forall|i: int, j: int|
            0 <= i < j < candidates@.len() ==> (#[trigger] candidates@[i]).id < (
            #[trigger] candidates@[j]).id) ==> ids_apart(out@),
{
    let mut out: Vec<RankedNode> = Vec::new();
    let mut i: usize = 0;
    while i < candidates.len()
        invariant
            i <= candidates.len(),
            scores@.len() == candidates@.len(),
            out@.len() == i,
            forall|k: int|
                0 <= k < i ==> is_ranked_node(
                    candidates@[k],
                    scores@[k].0,
                    scores@[k].1,
                    #[trigger] out@[k],
                ),
        decreases candidates.len() - i,
    {
        out.push(ranked_node_of(&candidates[i], scores[i].0, scores[i].1));
        i += 1;
    }
    proof {
        if forall|i: int, j: int|
            0 <= i < j < candidates@.len() ==> (#[trigger] candidates@[i]).id < (
            #[trigger] candidates@[j]).id {
            assert forall|a: int, b: int| 0 <= a < b < out@.len() implies (#[trigger] out@[a]).id != (
            #[trigger] out@[b]).id by {
                assert(candidates@[a].id < candidates@[b].id);
            }
        }
    }
    out
}

/// The end of the span of a citation for a text of `len` bytes.
pub open spec fn span_end(len: int) -> int {
    if len < 80 {
        len
    } else {
        80
    }
}

/// The number of bytes of the text `s` in UTF-8.
pub open spec fn byte_len(s: Seq<char>) -> usize {
    vstd::utf8::encode_utf8(s).len() as usize
}

/// Whether the citation `c` cites the node `n`.
pub open spec fn cites(c: Citation, n: RankedNode) -> bool {
    &&& n.source matches Some(src)
    &&& c.source@ == src@
    &&& c.node_id == n.id
    &&& c.confidence == n.confidence
    &&& c.span == (0usize, span_end(byte_len(n.data@) as int) as usize)
}

/// Whether the node at `k` is the first of `nodes` with its source.
pub open spec fn first_of_source(nodes: Seq<RankedNode>, k: int) -> bool {
    &&& 0 <= k < nodes.len()
    &&& nodes[k].source is Some
    &&& forall|e: int|
        0 <= e < k ==> opt_text((#[trigger] nodes[e]).source) != opt_text(nodes[k].source)
}

/// Whether `c` cites the first node of its source among `nodes`.
pub open spec fn cites_first(nodes: Seq<RankedNode>, c: Citation) -> bool {
    exists|k: int| #[trigger] first_of_source(nodes, k) && cites(c, nodes[k])
}

/// Whether `places` gives, for each citation of `cs` in order, the place of
/// the node that it cites: the first node of its source, and a later node for
/// a later citation.
pub open spec fn citation_places(nodes: Seq<RankedNode>, cs: Seq<Citation>, places: Seq<int>) -> bool {
    &&& places.len() == cs.len()
    &&& forall|i: int|
        0 <= i < cs.len() ==> first_of_source(nodes, #[trigger] places[i]) && cites(
            cs[i],
            nodes[places[i]],
        )
    &&& forall|i: int, j: int| 0 <= i < j < cs.len() ==> #[trigger] places[i] < #[trigger] places[j]
}

/// The places of the nodes that are cited among the first `n` of `nodes`, in
/// order: every node that is the first of its source.
pub open spec fn cited_places(nodes: Seq<RankedNode>, n: int) -> Seq<int>
    decreases n,
{
    if n <= 0 {
        Seq::empty()
    } else if first_of_source(nodes, n - 1) {
        cited_places(nodes, n - 1).push(n - 1)
    } else {
        cited_places(nodes, n - 1)
    }
}

/// Whether a citation of the source `source` is among `cs`.
pub open spec fn has_citation(cs: Seq<Citation>, source: Seq<char>) -> bool {
    exists|i: int| 0 <= i < cs.len() && (#[trigger] cs[i]).source@ == source
}

/// The citations of the evidence: one for each source, in the order in which
/// the sources first occur among the nodes, each citing the first node of its
/// source. The span of a citation covers the start of the node's text, at
/// most 80 bytes of it.
pub fn build_citations(nodes: &Vec<RankedNode>) -> (out: Vec<Citation>)
    ensures
        forall|i: int, j: int|
            0 <= i < j < out@.len() ==> (#[trigger] out@[i]).source@ != (#[trigger] out@[j]).source@,
        forall|i: int| 0 <= i < out@.len() ==> cites_first(nodes@, #[trigger] out@[i]),
        forall|k: int|
            0 <= k < nodes@.len() && (#[trigger] nodes@[k]).source is Some ==> has_citation(
                out@,
                nodes@[k].source->0@,
            ),
        citation_places(nodes@, out@, cited_places(nodes@, nodes@.len() as int)),
{
    let mut out: Vec<Citation> = Vec::new();
    let mut k: usize = 0;
    let ghost mut places: Seq<int> = Seq::empty();
    while k < nodes.len()
        invariant
            k <= nodes.len(),
            citation_places(nodes@, out@, places),
            places == cited_places(nodes@, k as int),
            forall|i: int| 0 <= i < places.len() ==> #[trigger] places[i] < k,
            forall|i: int, j: int|
                0 <= i < j < out@.len() ==> (#[trigger] out@[i]).source@ != (
                #[trigger] out@[j]).source@,
            forall|i: int| 0 <= i < out@.len() ==> cites_first(nodes@, #[trigger] out@[i]),
            forall|q: int|
                0 <= q < k && (#[trigger] nodes@[q]).source is Some ==> has_citation(
                    out@,
                    nodes@[q].source->0@,
                ),
        decreases nodes.len() - k,
    {
        let node = &nodes[k];
        let ghost ob = out@;
        match &node.source {
            None => {},
            Some(source) => {
                let mut seen = false;
                let mut i: usize = 0;
                while i < out.len()
                    invariant
                        i <= out.len(),
                        seen ==> has_citation(out@, source@),
                        !seen ==> forall|j: int| 0 <= j < i ==> (#[trigger] out@[j]).source@ != source@,
                    decreases out.len() - i,
                {
                    if same_text(out[i].source.as_str(), source.as_str()) {
                        seen = true;
                    }
                    i += 1;
                }
                if !seen {
                    let len = node.data.as_str().len();
                    let end = if len < 80 {
                        len
                    } else {
                        80
                    };
                    proof {
                        assert(first_of_source(nodes@, k as int)) by {
                            assert forall|e: int| 0 <= e < k implies opt_text(
                                (#[trigger] nodes@[e]).source,
                            ) != opt_text(nodes@[k as int].source) by {
                                if nodes@[e].source is Some && nodes@[e].source->0@ == source@ {
                                    assert(has_citation(ob, nodes@[e].source->0@));
                                    let j = choose|j: int|
                                        0 <= j < ob.len() && (#[trigger] ob[j]).source@
                                            == nodes@[e].source->0@;
                                    assert(false);
                                }
                            }
                        }
                    }
                    out.push(
                        Citation {
                            source: source.clone(),
                            span: (0, end),
                            node_id: node.id,
                            confidence: node.confidence,
                        },
                    );
                    proof {
                        assert(cites(out@[ob.len() as int], nodes@[k as int]));
                        let before = places;
                        places = places.push(k as int);
                        assert forall|i: int| 0 <= i < out@.len() implies first_of_source(
                            nodes@,
                            #[trigger] places[i],
                        ) && cites(out@[i], nodes@[places[i]]) by {
                            if i < ob.len() {
                                assert(out@[i] == ob[i]);
                                assert(places[i] == before[i]);
                            }
                        }
                        assert forall|i: int, j: int| 0 <= i < j < out@.len() implies #[trigger] places[i]
                            < #[trigger] places[j] by {
                            assert(places[i] == before[i]);
                            if j < ob.len() {
                                assert(places[j] == before[j]);
                            }
                        }
                    }
                }
            },
        }
        proof {
            assert forall|i: int| 0 <= i < ob.len() implies out@[i] == ob[i] by {}
            if out@.len() == ob.len() {
                if nodes@[k as int].source is Some {
                    let i = choose|i: int|
                        0 <= i < ob.len() && (#[trigger] ob[i]).source@
                            == nodes@[k as int].source->0@;
                    let e = places[i];
                    assert(first_of_source(nodes@, e) && cites(ob[i], nodes@[e]));
                    assert(opt_text(nodes@[e].source) == opt_text(nodes@[k as int].source));
                }
                assert(!first_of_source(nodes@, k as int));
            }
            assert(places == cited_places(nodes@, k + 1));
            assert forall|q: int|
                0 <= q < k + 1 && (#[trigger] nodes@[q]).source is Some implies has_citation(
                out@,
                nodes@[q].source->0@,
            ) by {
                if q < k {
                    let i = choose|i: int|
                        0 <= i < ob.len() && (#[trigger] ob[i]).source@ == nodes@[q].source->0@;
                    assert(out@[i] == ob[i]);
                } else {
                    if out@.len() > ob.len() {
                        assert(out@[ob.len() as int].source@ == nodes@[q].source->0@);
                    } else {
                        let i = choose|i: int|
                            0 <= i < ob.len() && (#[trigger] ob[i]).source@
                                == nodes@[k as int].source->0@;
                        assert(out@[i] == ob[i]);
                    }
                }
            }
        }
        k += 1;
    }
    out
}

/// The evidence node of a ranked node.
pub fn evidence_node_of(node: &RankedNode) -> (e: EvidenceNode)
    ensures
        e.id == node.id,
        e.data == node.data,
        e.score == node.score,
        e.hop == node.hop,
        e.confidence == node.confidence,
        e.provenance == (Provenance {
            source: node.source,
            extraction_model_id: node.extraction_model_id,
            snapshot_id: node.node_snapshot_id,
            ingested_at: node.ingested_at,
        }),
{
    EvidenceNode {
        id: node.id,
        data: node.data.clone(),
        score: node.score,
        hop: node.hop,
        provenance: Provenance {
            source: copy_opt(&node.source),
            extraction_model_id: copy_opt(&node.extraction_model_id),
            snapshot_id: copy_opt(&node.node_snapshot_id),
            ingested_at: copy_opt(&node.ingested_at),
        },
        confidence: node.confidence,
    }
}

/// The evidence edge of a walked edge.
pub fn evidence_edge_of(edge: &InternalEdge) -> (e: EvidenceEdge)
    ensures
        e.source == edge.source,
        e.target == edge.target,
        e.relation == edge.relation,
        e.weight == edge.weight,
        e.provenance == edge.provenance,
        e.confidence == edge.confidence,
{
    EvidenceEdge {
        source: edge.source,
        target: edge.target,
        relation: edge.relation.clone(),
        weight: edge.weight,
        provenance: edge.provenance.clone(),
        confidence: edge.confidence,
    }
}

/// The texts of the first `n` of `nodes`, or of all where there are fewer.
pub open spec fn snippets_of(nodes: Seq<EvidenceNode>, n: int) -> Seq<Seq<char>> {
    let m = if nodes.len() < n {
        nodes.len() as int
    } else {
        n
    };
    Seq::new(m as nat, |i: int| nodes[i].data@)
}

/// The answer that is synthesized from the evidence `nodes` for `query`.
pub open spec fn answer_text(query: Seq<char>, nodes: Seq<EvidenceNode>) -> Seq<char> {
    if nodes.len() == 0 {
        "No evidence found for query: "@ + query
    } else {
        "Answer synthesized from "@ + decimal_of(nodes.len()) + " evidence nodes: "@ + joined(
            snippets_of(nodes, 3),
            " | "@,
        )
    }
}

/// A short answer from the best three pieces of evidence.
pub fn generate_answer(query: &str, nodes: &Vec<EvidenceNode>) -> (answer: String)
    ensures
        answer@ == answer_text(query@, nodes@),
{
    if nodes.len() == 0 {
        let mut answer = "No evidence found for query: ".to_owned();
        answer.append(query);
        return answer;
    }
    let m = if nodes.len() < 3 {
        nodes.len()
    } else {
        3
    };
    let mut snippets: Vec<String> = Vec::new();
    let mut i: usize = 0;
    while i < m
        invariant
            i <= m <= nodes.len(),
            snippets@.len() == i,
            forall|j: int| 0 <= j < i ==> (#[trigger] snippets@[j])@ == nodes@[j].data@,
        decreases m - i,
    {
        snippets.push(nodes[i].data.clone());
        i += 1;
    }
    assert(texts_of(snippets@) =~= snippets_of(nodes@, 3));
    let mut answer = "Answer synthesized from ".to_owned();
    answer.append(u64_to_decimal(nodes.len() as u64).as_str());
    answer.append(" evidence nodes: ");
    answer.append(join_strs(&snippets, " | ").as_str());
    answer
}

/// What groundedness is computed from.
#[derive(Debug, PartialEq, Eq)]
pub struct GroundednessInput {
    /// The scores of the evidence nodes, in order.
    pub evidence_scores: Vec<u32>,
    pub evidence_count: usize,
    /// The number of different sources among the evidence nodes.
    pub source_diversity: usize,
    pub has_graph_support: bool,
}

/// The sources of the nodes `nodes`, as a set.
pub open spec fn source_set(nodes: Seq<RankedNode>) -> Set<Seq<char>> {
    Set::new(
        |t: Seq<char>|
            exists|i: int| 0 <= i < nodes.len() && opt_text((#[trigger] nodes[i]).source) == Some(t),
    )
}

/// Collects what groundedness is computed from: the scores, the number of
/// nodes, the number of different sources, and whether there is an edge.
pub fn groundedness_input(state: &ExecutionState) -> (g: GroundednessInput)
    ensures
        g.evidence_count == state.nodes@.len(),
        g.evidence_scores@.len() == state.nodes@.len(),
        forall|i: int|
            0 <= i < state.nodes@.len() ==> g.evidence_scores@[i] == (#[trigger] state.nodes@[i]).score,
        g.source_diversity == source_set(state.nodes@).len(),
        g.has_graph_support == (state.edges@.len() > 0),
{
    let mut scores: Vec<u32> = Vec::new();
    let mut sources: SortedSet<String> = SortedSet::new();
    let mut i: usize = 0;
    assert(sources@ =~= source_set(state.nodes@.take(0)));
    while i < state.nodes.len()
        invariant
            i <= state.nodes.len(),
            scores@.len() == i,
            forall|j: int| 0 <= j < i ==> scores@[j] == (#[trigger] state.nodes@[j]).score,
            sources@ == source_set(state.nodes@.take(i as int)),
        decreases state.nodes.len() - i,
    {
        let node = &state.nodes[i];
        let ghost before = state.nodes@.take(i as int);
        let ghost after = state.nodes@.take(i + 1);
        let ghost sb = sources@;
        scores.push(node.score);
        match &node.source {
            Some(src) => {
                sources.insert(src.clone());
            },
            None => {},
        }
        proof {
            assert(after[i as int] == state.nodes@[i as int]);
            assert forall|t: Seq<char>| sources@.contains(t) <==> source_set(after).contains(t) by {
                if sb.contains(t) {
                    let j = choose|j: int|
                        0 <= j < before.len() && opt_text((#[trigger] before[j]).source) == Some(t);
                    assert(after[j] == before[j]);
                }
                if source_set(after).contains(t) {
                    let j = choose|j: int|
                        0 <= j < after.len() && opt_text((#[trigger] after[j]).source) == Some(t);
                    if j < i {
                        assert(before[j] == after[j]);
                    }
                }
            }
            assert(sources@ =~= source_set(after));
        }
        i += 1;
    }
    assert(state.nodes@.take(state.nodes.len() as int) =~= state.nodes@);
    GroundednessInput {
        evidence_scores: scores,
        evidence_count: state.nodes.len(),
        source_diversity: sources.len(),
        has_graph_support: state.edges.len() > 0,
    }
}

/// Assembles the response from the state of an execution.
///
/// A pinned snapshot id is echoed and hides `time_travel`; else the response
/// carries the snapshot id `current_snapshot_id` of the repository and echoes
/// `time_travel`. The answer is absent in evidence mode; in answer mode it is
/// the global answer where there is one, else the synthesized one.
pub fn build_response(
    request: &QueryRequest,
    plan: &QueryPlan,
    state: ExecutionState,
    global_answer: Option<String>,
    groundedness: u32,
    current_snapshot_id: String,
    latency_ms: u64,
) -> (r: QueryResponse)
    ensures
        r.evidence.nodes@.len() == state.nodes@.len(),
        forall|i: int|
            0 <= i < state.nodes@.len() ==> (#[trigger] r.evidence.nodes@[i]).id
                == state.nodes@[i].id && r.evidence.nodes@[i].data == state.nodes@[i].data
                && r.evidence.nodes@[i].score == state.nodes@[i].score
                && r.evidence.nodes@[i].hop == state.nodes@[i].hop
                && r.evidence.nodes@[i].confidence == state.nodes@[i].confidence
                && r.evidence.nodes@[i].provenance == (Provenance {
                source: state.nodes@[i].source,
                extraction_model_id: state.nodes@[i].extraction_model_id,
                snapshot_id: state.nodes@[i].node_snapshot_id,
                ingested_at: state.nodes@[i].ingested_at,
            }),
        r.evidence.edges@.len() == state.edges@.len(),
        forall|i: int|
            0 <= i < state.edges@.len() ==> (#[trigger] r.evidence.edges@[i]).source
                == state.edges@[i].source && r.evidence.edges@[i].target == state.edges@[i].target
                && r.evidence.edges@[i].relation == state.edges@[i].relation
                && r.evidence.edges@[i].weight == state.edges@[i].weight
                && r.evidence.edges@[i].provenance == state.edges@[i].provenance
                && r.evidence.edges@[i].confidence == state.edges@[i].confidence,
        forall|i: int, j: int|
            0 <= i < j < r.citations@.len() ==> (#[trigger] r.citations@[i]).source@ != (
            #[trigger] r.citations@[j]).source@,
        forall|i: int|
            0 <= i < r.citations@.len() ==> cites_first(state.nodes@, #[trigger] r.citations@[i]),
        forall|k: int|
            0 <= k < state.nodes@.len() && (#[trigger] state.nodes@[k]).source is Some
                ==> has_citation(r.citations@, state.nodes@[k].source->0@),
        citation_places(
            state.nodes@,
            r.citations@,
            cited_places(state.nodes@, state.nodes@.len() as int),
        ),
        r.groundedness == groundedness,
        r.latency_ms == latency_ms,
        r.explain.anchors == state.anchors,
        r.explain.expansion_paths == state.expansion_paths,
        r.explain.exclusions == state.exclusions,
        r.explain.effective_search_mode == plan.effective_search_mode,
        texts_of(r.explain.steps@) == texts_of(plan.steps@),
        opt_text(r.model_id) == Some(
            match request.model_id {
                Some(m) => m@,
                None => DEFAULT_EMBEDDING_MODEL_ID@,
            },
        ),
        opt_text(r.snapshot_id) == Some(
            match request.snapshot_id {
                Some(id) => id@,
                None => current_snapshot_id@,
            },
        ),
        opt_text(r.time_travel) == (if request.snapshot_id is None {
            opt_text(request.time_travel)
        } else {
            None
        }),
        opt_text(r.answer) == (match request.mode {
            QueryMode::Evidence => None,
            QueryMode::Answer => match global_answer {
                Some(a) => Some(a@),
                None => Some(answer_text(request.query@, r.evidence.nodes@)),
            },
        }),
{
    let mut nodes: Vec<EvidenceNode> = Vec::new();
    let mut i: usize = 0;
    while i < state.nodes.len()
        invariant
            i <= state.nodes.len(),
            nodes@.len() == i,
            forall|j: int|
                0 <= j < i ==> (#[trigger] nodes@[j]).id == state.nodes@[j].id && nodes@[j].data
                    == state.nodes@[j].data && nodes@[j].score == state.nodes@[j].score
                    && nodes@[j].hop == state.nodes@[j].hop && nodes@[j].confidence
                    == state.nodes@[j].confidence && nodes@[j].provenance == (Provenance {
                    source: state.nodes@[j].source,
                    extraction_model_id: state.nodes@[j].extraction_model_id,
                    snapshot_id: state.nodes@[j].node_snapshot_id,
                    ingested_at: state.nodes@[j].ingested_at,
                }),
        decreases state.nodes.len() - i,
    {
        nodes.push(evidence_node_of(&state.nodes[i]));
        i += 1;
    }
    let mut edges: Vec<EvidenceEdge> = Vec::new();
    let mut k: usize = 0;
    while k < state.edges.len()
        invariant
            k <= state.edges.len(),
            edges@.len() == k,
            forall|j: int|
                0 <= j < k ==> (#[trigger] edges@[j]).source == state.edges@[j].source
                    && edges@[j].target == state.edges@[j].target && edges@[j].relation
                    == state.edges@[j].relation && edges@[j].weight == state.edges@[j].weight
                    && edges@[j].provenance == state.edges@[j].provenance && edges@[j].confidence
                    == state.edges@[j].confidence,
        decreases state.edges.len() - k,
    {
        edges.push(evidence_edge_of(&state.edges[k]));
        k += 1;
    }
    let citations = build_citations(&state.nodes);
    let answer = match request.mode {
        QueryMode::Evidence => None,
        QueryMode::Answer => match global_answer {
            Some(a) => Some(a),
            None => Some(generate_answer(request.query.as_str(), &nodes)),
        },
    };
    let snapshot_id = match &request.snapshot_id {
        Some(id) => Some(id.clone()),
        None => Some(current_snapshot_id),
    };
    let time_travel = if request.snapshot_id.is_none() {
        copy_opt(&request.time_travel)
    } else {
        None
    };
    let mut steps: Vec<String> = Vec::new();
    let mut s: usize = 0;
    while s < plan.steps.len()
        invariant
            s <= plan.steps.len(),
            steps@.len() == s,
            forall|j: int| 0 <= j < s ==> (#[trigger] steps@[j])@ == plan.steps@[j]@,
        decreases plan.steps.len() - s,
    {
        steps.push(plan.steps[s].clone());
        s += 1;
    }
    assert(texts_of(steps@) =~= texts_of(plan.steps@));
    QueryResponse {
        answer,
        evidence: EvidenceSubgraph { nodes, edges },
        citations,
        groundedness,
        explain: ExplainPlan {
            steps,
            effective_search_mode: plan.effective_search_mode,
            anchors: state.anchors,
            expansion_paths: state.expansion_paths,
            exclusions: state.exclusions,
        },
        model_id: Some(effective_query_model_id(request)),
        snapshot_id,
        time_travel,
        latency_ms,
    }
}

/// The greatest number of rounds of a drift search.
pub const DRIFT_MAX_ITERATIONS: usize = 4;

/// The number of evidence nodes at which a drift search stops.
pub const DRIFT_EVIDENCE_THRESHOLD: usize = 3;

/// Appends the exclusion `reason`, which names no node, to the state.
pub fn note_exclusion(state: &mut ExecutionState, reason: &str)
    ensures
        final(state).exclusions@.len() == old(state).exclusions@.len() + 1,
        final(state).exclusions@.take(old(state).exclusions@.len() as int) == old(state).exclusions@,
        final(state).exclusions@.last().node_id is None,
        final(state).exclusions@.last().reason@ == reason@,
        final(state).nodes == old(state).nodes,
        final(state).edges == old(state).edges,
        final(state).anchors == old(state).anchors,
        final(state).expansion_paths == old(state).expansion_paths,
{
    let ghost before = state.exclusions@;
    state.exclusions.push(ExclusionReason { node_id: None, reason: reason.to_owned() });
    assert(state.exclusions@.take(before.len() as int) =~= before);
}

/// Notes on the result of the drift search that an auto search fell back to:
/// the local search had found too little.
pub fn note_auto_fallback(state: &mut ExecutionState)
    ensures
        final(state).exclusions@.len() == old(state).exclusions@.len() + 1,
        final(state).exclusions@.take(old(state).exclusions@.len() as int) == old(state).exclusions@,
        final(state).exclusions@.last().node_id is None,
        final(state).exclusions@.last().reason@
            == "auto_fallback_to_drift_due_to_insufficient_evidence"@,
        final(state).nodes == old(state).nodes,
        final(state).edges == old(state).edges,
        final(state).anchors == old(state).anchors,
        final(state).expansion_paths == old(state).expansion_paths,
{
    note_exclusion(state, "auto_fallback_to_drift_due_to_insufficient_evidence");
}

/// After a local run: notes that the answer rests on vector search alone
/// where there are nodes and no edge, and says whether the run falls back to a
/// drift search: in auto mode, when the local search found fewer than two
/// nodes.
pub fn after_local_run(request: &QueryRequest, plan: &QueryPlan, state: &mut ExecutionState) -> (fallback: bool)
    ensures
        fallback == (request.search_mode == SearchMode::Auto && plan.effective_search_mode
            == SearchMode::Local && old(state).nodes@.len() < 2),
        final(state).nodes == old(state).nodes,
        final(state).edges == old(state).edges,
        final(state).anchors == old(state).anchors,
        final(state).expansion_paths == old(state).expansion_paths,
        if old(state).edges@.len() == 0 && old(state).nodes@.len() > 0 {
            final(state).exclusions@.len() == old(state).exclusions@.len() + 1
                && final(state).exclusions@.take(old(state).exclusions@.len() as int)
                == old(state).exclusions@ && final(state).exclusions@.last().node_id is None
                && final(state).exclusions@.last().reason@
                == "no_graph_expansion_vector_only_fallback"@
        } else {
            final(state).exclusions == old(state).exclusions
        },
{
    if state.edges.len() == 0 && state.nodes.len() > 0 {
        note_exclusion(state, "no_graph_expansion_vector_only_fallback");
    }
    let auto = match request.search_mode {
        SearchMode::Auto => true,
        _ => false,
    };
    let local = match plan.effective_search_mode {
        SearchMode::Local => true,
        _ => false,
    };
    auto && local && state.nodes.len() < 2
}

/// The plan of round `iteration` of a drift search over the plan `plan`: the
/// depth grows by one with each round, up to 8, and the number of vector hits
/// by two, up to 50.
pub fn drift_round_plan(plan: &QueryPlan, initial_depth: u8, iteration: usize) -> (p: QueryPlan)
    requires
        iteration < DRIFT_MAX_ITERATIONS,
    ensures
        p.effective_search_mode == plan.effective_search_mode,
        p.expansion_depth == (if initial_depth + iteration > 8 {
            8
        } else {
            initial_depth + iteration
        }),
        p.vector_top_k == (if plan.vector_top_k + iteration * 2 > 50 {
            50
        } else {
            plan.vector_top_k + iteration * 2
        }),
        texts_of(p.steps@) == texts_of(plan.steps@),
{
    let depth: u8 = if initial_depth > 8 || (initial_depth as usize) + iteration > 8 {
        8
    } else {
        initial_depth + iteration as u8
    };
    let top_k: usize = if plan.vector_top_k > 50 || plan.vector_top_k + iteration * 2 > 50 {
        50
    } else {
        plan.vector_top_k + iteration * 2
    };
    let mut steps: Vec<String> = Vec::new();
    let mut s: usize = 0;
    while s < plan.steps.len()
        invariant
            s <= plan.steps.len(),
            steps@.len() == s,
            forall|j: int| 0 <= j < s ==> (#[trigger] steps@[j])@ == plan.steps@[j]@,
        decreases plan.steps.len() - s,
    {
        steps.push(plan.steps[s].clone());
        s += 1;
    }
    assert(texts_of(steps@) =~= texts_of(plan.steps@));
    QueryPlan {
        effective_search_mode: plan.effective_search_mode,
        vector_top_k: top_k,
        expansion_depth: depth,
        steps,
    }
}

/// The number of nodes of the best state so far, zero where there is none.
pub open spec fn best_count(best: Option<ExecutionState>) -> int {
    match best {
        Some(s) => s.nodes@.len() as int,
        None => 0,
    }
}

/// Takes in the state of round `iteration` of a drift search: the state
/// becomes the best where it has more nodes than the best so far. Says whether
/// the search stops here: the round found three nodes or more, or it is not
/// the first round and found no more than the best so far.
pub fn drift_absorb(best: &mut Option<ExecutionState>, state: ExecutionState, iteration: usize) -> (stop: bool)
    ensures
        stop == (state.nodes@.len() >= DRIFT_EVIDENCE_THRESHOLD || (iteration > 0 && *old(best) is Some && state.nodes@.len() <= best_count(*old(best)))),
        if state.nodes@.len() > best_count(*old(best)) {
            *final(best) == Some(state)
        } else {
            *final(best) == *old(best)
        },
{
    let count = state.nodes.len();
    let (has_best, prev) = match best {
        Some(b) => (true, b.nodes.len()),
        None => (false, 0),
    };
    let stop = count >= DRIFT_EVIDENCE_THRESHOLD || (iteration > 0 && has_best && count <= prev);
    if count > prev {
        *best = Some(state);
    }
    stop
}

/// The steps of a drift search.
pub open spec fn drift_steps() -> Seq<Seq<char>> {
    seq![
        "vector_search"@,
        "drift_iterative_expansion"@,
        "graph_expansion"@,
        "context_pruning"@,
    ]
}

/// Ends a drift search: the best state is the result, or an empty one that
/// says that no evidence was found; the plan gets the drift mode and the
/// drift steps; a result without nodes says that the search was exhausted.
pub fn drift_finish(best: Option<ExecutionState>, plan: &mut QueryPlan) -> (state: ExecutionState)
    ensures
        final(plan).effective_search_mode == SearchMode::Drift,
        final(plan).vector_top_k == old(plan).vector_top_k,
        final(plan).expansion_depth == old(plan).expansion_depth,
        texts_of(final(plan).steps@) == drift_steps(),
        match best {
            Some(b) => state.nodes == b.nodes && state.edges == b.edges && state.anchors
                == b.anchors && state.expansion_paths == b.expansion_paths && if b.nodes@.len()
                == 0 {
                state.exclusions@.len() == b.exclusions@.len() + 1 && state.exclusions@.take(
                    b.exclusions@.len() as int,
                ) == b.exclusions@ && state.exclusions@.last().node_id is None
                    && state.exclusions@.last().reason@ == "drift_exhausted_no_evidence"@
            } else {
                state.exclusions == b.exclusions
            },
            None => state.nodes@.len() == 0 && state.edges@.len() == 0 && state.anchors@.len() == 0
                && state.expansion_paths@.len() == 0 && state.exclusions@.len() == 2
                && state.exclusions@[0].node_id is None && state.exclusions@[0].reason@
                == "drift_no_evidence_found"@ && state.exclusions@[1].node_id is None
                && state.exclusions@[1].reason@ == "drift_exhausted_no_evidence"@,
        },
{
    let mut state = match best {
        Some(b) => b,
        None => empty_state_for("drift_no_evidence_found"),
    };
    plan.effective_search_mode = SearchMode::Drift;
    let mut names: Vec<&'static str> = Vec::new();
    names.push("vector_search");
    names.push("drift_iterative_expansion");
    names.push("graph_expansion");
    names.push("context_pruning");
    plan.steps = steps_of(&names);
    assert(texts_of(plan.steps@) =~= drift_steps());
    if state.nodes.len() == 0 {
        note_exclusion(&mut state, "drift_exhausted_no_evidence");
    }
    state
}

/// The audit event of a query.
pub fn build_query_audit_event(
    outcome: crate::audit::AuditOutcome,
    model_id: &str,
    actor: Option<String>,
    tenant: Option<String>,
    snapshot_id: Option<String>,
    error: Option<String>,
) -> (e: crate::audit::AuditEvent)
    ensures
        e.sequence == 0,
        e.operation == crate::audit::AuditOperation::Query,
        e.outcome == outcome,
        e.model_id matches Some(m) && m@ == model_id@,
        e.actor == actor,
        e.tenant == tenant,
        e.snapshot_id == snapshot_id,
        e.metadata@ == match error {
            Some(err) => Map::<Seq<char>, Seq<char>>::empty().insert("error"@, err@),
            None => Map::<Seq<char>, Seq<char>>::empty(),
        },
{
    let mut event = crate::audit::AuditEvent::new(crate::audit::AuditOperation::Query, outcome);
    event.model_id = Some(model_id.to_owned());
    event.actor = actor;
    event.tenant = tenant;
    event.snapshot_id = snapshot_id;
    match error {
        Some(err) => {
            event.metadata.insert("error".to_owned(), err);
        },
        None => {},
    }
    event
}

/// The steps of a global search over community summaries.
pub open spec fn global_steps() -> Seq<Seq<char>> {
    seq!["vector_search"@, "community_map_reduce"@, "graph_expansion"@, "context_pruning"@]
}

/// The steps of a global search that falls back to vector search for want of
/// community summaries.
pub open spec fn global_fallback_steps() -> Seq<Seq<char>> {
    seq![
        "vector_search"@,
        "graph_expansion"@,
        "context_pruning"@,
        "global_fallback_no_community_data"@,
    ]
}

/// Ends a global search. Without community summaries the state says that the
/// search fell back to vector search, and there is no global answer. With
/// summaries the synthesis gives the global answer, or the state says why
/// there is none. The plan gets the steps of what was done.
pub fn global_finish(
    has_summaries: bool,
    synthesis: Result<String, String>,
    state: &mut ExecutionState,
    plan: &mut QueryPlan,
) -> (answer: Option<String>)
    ensures
        final(state).nodes == old(state).nodes,
        final(state).edges == old(state).edges,
        final(state).anchors == old(state).anchors,
        final(state).expansion_paths == old(state).expansion_paths,
        final(plan).effective_search_mode == old(plan).effective_search_mode,
        final(plan).vector_top_k == old(plan).vector_top_k,
        final(plan).expansion_depth == old(plan).expansion_depth,
        if !has_summaries {
            answer is None && texts_of(final(plan).steps@) == global_fallback_steps()
                && final(state).exclusions@.len() == old(state).exclusions@.len() + 1
                && final(state).exclusions@.take(old(state).exclusions@.len() as int)
                == old(state).exclusions@ && final(state).exclusions@.last().node_id is None
                && final(state).exclusions@.last().reason@
                == "no_community_data_fallback_to_vector"@
        } else {
            texts_of(final(plan).steps@) == global_steps() && match synthesis {
                Ok(a) => answer == Some(a) && final(state).exclusions == old(state).exclusions,
                Err(reason) => answer is None && final(state).exclusions@.len()
                    == old(state).exclusions@.len() + 1 && final(state).exclusions@.take(
                    old(state).exclusions@.len() as int,
                ) == old(state).exclusions@ && final(state).exclusions@.last().node_id is None
                    && final(state).exclusions@.last().reason@ == reason@,
            }
        },
{
    let mut names: Vec<&'static str> = Vec::new();
    if !has_summaries {
        names.push("vector_search");
        names.push("graph_expansion");
        names.push("context_pruning");
        names.push("global_fallback_no_community_data");
        plan.steps = steps_of(&names);
        assert(texts_of(plan.steps@) =~= global_fallback_steps());
        note_exclusion(state, "no_community_data_fallback_to_vector");
        return None;
    }
    names.push("vector_search");
    names.push("community_map_reduce");
    names.push("graph_expansion");
    names.push("context_pruning");
    plan.steps = steps_of(&names);
    assert(texts_of(plan.steps@) =~= global_steps());
    match synthesis {
        Ok(a) => Some(a),
        Err(reason) => {
            note_exclusion(state, reason.as_str());
            None
        },
    }
}

} // verus!
