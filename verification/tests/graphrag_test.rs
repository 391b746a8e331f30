use std::collections::{BTreeMap, BTreeSet};

use alayasiki::community::{
    communities_from_assignment, singleton_communities, top_nodes_of, Community, CommunityEngine,
    CommunitySummary, DeterministicSummarizer, HierarchyBuilder,
};
use alayasiki::audit::{AuditOperation, AuditOutcome, AuditSink, InMemoryAuditSink};
use alayasiki::auth::{Action, Authorizer, AuthzError, Principal, ResourceContext};
use alayasiki::components::connected_components;
use alayasiki::crypto::NoOpCipher;
use alayasiki::engine::build_query_audit_event;
use alayasiki::error::{AlayasikiError, ErrorCode};
use alayasiki::repo::{RepoError, Repository};
use alayasiki::state::WalEntry;
use alayasiki::wal::Wal;
use alayasiki::dsl::{QueryMode, QueryRequest, SearchMode, TimeRange};
use alayasiki::embedding::deterministic_embedding;
use alayasiki::engine::{
    after_local_run, begin_execution, build_response, collect_relation_filter, drift_absorb,
    drift_finish, drift_round_plan, effective_query_model_id, finish_execution, global_finish,
    groundedness_input, note_auto_fallback, parse_time_range, rank_candidates, stated_confidence,
    vector_limit, Candidate, ExecutionState, Gathering, GroundednessInput, QueryError,
    QueryResponse, DRIFT_MAX_ITERATIONS,
};
use alayasiki::tokens::Overlap;
use alayasiki::graph::AdjacencyGraph;
use alayasiki::graphrag::{
    collect_global_node_ids, map_community_summaries, reduce_community_summaries,
    score_community_summary, synthesize_global,
};
use alayasiki::model::{Edge, Node};
use alayasiki::ordered::Duplicate;
use alayasiki::planner::{QueryPlan, QueryPlanner};
use alayasiki::sorted_map::{SortedMap, SortedSet};
use alayasiki::state::MaterializedState;

const DIMS: usize = 8;
const MODEL_ID: &str = "embedding-default-v1";
const NOW: u64 = 1_750_000_000;

fn embedding(text: &str, model_id: &str, dims: usize) -> Vec<u32> {
    deterministic_embedding(text, model_id, dims)
}

fn cosine(a: &[u32], b: &[u32]) -> f32 {
    if a.is_empty() || a.len() != b.len() {
        return 0.0;
    }
    let mut dot = 0.0f32;
    let mut na = 0.0f32;
    let mut nb = 0.0f32;
    for i in 0..a.len() {
        let x = f32::from_bits(a[i]);
        let y = f32::from_bits(b[i]);
        dot += x * y;
        na += x * x;
        nb += y * y;
    }
    let (na, nb) = (na.sqrt(), nb.sqrt());
    if na == 0.0 || nb == 0.0 {
        0.0
    } else {
        dot / (na * nb)
    }
}

fn groundedness(input: &GroundednessInput) -> f32 {
    if input.evidence_count == 0 || input.evidence_scores.is_empty() {
        return 0.0;
    }
    let sum: f32 = input.evidence_scores.iter().map(|s| f32::from_bits(*s)).sum();
    let avg = sum / input.evidence_scores.len() as f32;
    let similarity = avg.clamp(0.0, 1.0) * 0.5;
    let diversity = ((input.source_diversity as f32) / 3.0).min(1.0) * 0.2;
    let graph = if input.has_graph_support { 0.15 } else { 0.0 };
    let coverage = ((input.evidence_count as f32) / 3.0).min(1.0) * 0.15;
    (similarity + diversity + graph + coverage).clamp(0.0, 1.0)
}

fn vector_hits(
    state: &MaterializedState,
    request: &QueryRequest,
    plan: &QueryPlan,
    model_id: &str,
) -> Vec<(u64, u32)> {
    let Some(dim) = state.embedding_dimension() else {
        return Vec::new();
    };
    let query = embedding(&request.query, model_id, dim);
    let index = state.hyper_index().vector_index();
    let sims: Vec<u32> = (0..index.len())
        .map(|i| cosine(&query, index.embedding_at(i)).to_bits())
        .collect();
    state.search_vector(&query, &sims, vector_limit(plan))
}

fn execute_with_plan(
    state: &MaterializedState,
    request: &QueryRequest,
    plan: &QueryPlan,
    model_id: &str,
    time_range: Option<(i32, i32)>,
) -> ExecutionState {
    let hits = vector_hits(state, request, plan, model_id);
    match begin_execution(state, request, plan, &hits, time_range, NOW) {
        Gathering::Empty(s) => s,
        Gathering::Found(g) => {
            let scores: Vec<(u32, Option<u32>)> = g
                .candidates
                .iter()
                .map(|c| {
                    let lexical = c.overlap.shared as f32 / c.overlap.total as f32;
                    let anchor = f32::from_bits(c.anchor_score);
                    let base = ((anchor * 0.8) + (lexical * 0.2)).max(lexical).max(0.01);
                    let score = base / (c.hop as f32 + 1.0);
                    let stated = stated_confidence(c)
                        .and_then(|v| v.parse::<f32>().ok())
                        .map(|v| v.to_bits());
                    (score.to_bits(), stated)
                })
                .collect();
            let scored = rank_candidates(&g.candidates, &scores);
            let filter = collect_relation_filter(request);
            finish_execution(
                state,
                &g.anchors,
                &g.expansion,
                g.rejected,
                scored,
                request.top_k,
                &filter,
            )
        }
    }
}

fn execute_drift(
    state: &MaterializedState,
    request: &QueryRequest,
    plan: &mut QueryPlan,
    model_id: &str,
    time_range: Option<(i32, i32)>,
) -> ExecutionState {
    let initial_depth = plan.expansion_depth;
    let mut best = None;
    for iteration in 0..DRIFT_MAX_ITERATIONS {
        let round = drift_round_plan(plan, initial_depth, iteration);
        let found = execute_with_plan(state, request, &round, model_id, time_range);
        if drift_absorb(&mut best, found, iteration) {
            break;
        }
    }
    drift_finish(best, plan)
}

fn execute_at(
    state: &MaterializedState,
    summaries: &Vec<CommunitySummary>,
    request: &QueryRequest,
    current_snapshot_id: &str,
) -> Result<QueryResponse, QueryError> {
    request
        .validate()
        .map_err(|e| QueryError::InvalidQuery(e.message()))?;
    let model_id = effective_query_model_id(request);
    let mut plan = QueryPlanner::plan(request);
    let time_range = parse_time_range(request)?;
    let (found, global_answer) = match plan.effective_search_mode {
        SearchMode::Global => {
            let mut found = execute_with_plan(state, request, &plan, &model_id, time_range);
            let synthesis = if summaries.is_empty() {
                Err(String::new())
            } else {
                synthesize_global(state, request, summaries, time_range, NOW)
            };
            let answer = global_finish(!summaries.is_empty(), synthesis, &mut found, &mut plan);
            (found, answer)
        }
        SearchMode::Drift => (
            execute_drift(state, request, &mut plan, &model_id, time_range),
            None,
        ),
        SearchMode::Local | SearchMode::Auto => {
            let mut found = execute_with_plan(state, request, &plan, &model_id, time_range);
            if after_local_run(request, &plan, &mut found) {
                let mut drifted = execute_drift(state, request, &mut plan, &model_id, time_range);
                note_auto_fallback(&mut drifted);
                (drifted, None)
            } else {
                (found, None)
            }
        }
    };
    let score = groundedness(&groundedness_input(&found));
    Ok(build_response(
        request,
        &plan,
        found,
        global_answer,
        score.to_bits(),
        current_snapshot_id.to_string(),
        0,
    ))
}

fn execute(
    state: &MaterializedState,
    summaries: &Vec<CommunitySummary>,
    request: &QueryRequest,
) -> QueryResponse {
    execute_at(state, summaries, request, "wal-lsn-0").unwrap()
}

type Weights = BTreeMap<u64, BTreeMap<u64, f64>>;

fn undirected(graph: &AdjacencyGraph) -> Weights {
    let mut adj: Weights = BTreeMap::new();
    for id in graph.node_ids() {
        adj.entry(id).or_default();
    }
    for (source, target, weight) in graph.edges() {
        let w = f32::from_bits(weight) as f64;
        *adj.entry(source).or_default().entry(target).or_insert(0.0) += w;
        *adj.entry(target).or_default().entry(source).or_insert(0.0) += w;
    }
    adj
}

fn degree(adj: &Weights, id: u64) -> f64 {
    adj.get(&id).map(|n| n.values().sum()).unwrap_or(0.0)
}

fn affinity(id: u64, community: usize, adj: &Weights, of: &BTreeMap<u64, usize>, total: f64) -> f64 {
    let neighbors = &adj[&id];
    let k_i: f64 = neighbors.values().sum();
    if k_i <= f64::EPSILON {
        return 0.0;
    }
    let k_in: f64 = neighbors
        .iter()
        .filter(|(n, _)| of.get(n) == Some(&community))
        .map(|(_, w)| *w)
        .sum();
    let sum_tot: f64 = of
        .iter()
        .filter(|(_, c)| **c == community)
        .map(|(n, _)| degree(adj, *n))
        .sum();
    k_in - (k_i * sum_tot) / (2.0 * total)
}

fn detect_level(graph: &AdjacencyGraph) -> Vec<Community> {
    let nodes = graph.node_ids();
    if nodes.is_empty() {
        return Vec::new();
    }
    let adj = undirected(graph);
    let total: f64 = adj.values().map(|n| n.values().sum::<f64>()).sum::<f64>() / 2.0;
    if total <= f64::EPSILON {
        return singleton_communities(&nodes);
    }
    let mut of: BTreeMap<u64, usize> = nodes.iter().enumerate().map(|(i, n)| (*n, i)).collect();
    for _ in 0..20 {
        let mut moved = false;
        for id in &nodes {
            let current = of[id];
            let mut candidates = BTreeSet::new();
            candidates.insert(current);
            for n in adj[id].keys() {
                candidates.insert(of[n]);
            }
            let mut best = current;
            let mut best_score = affinity(*id, current, &adj, &of, total);
            for c in candidates {
                let s = affinity(*id, c, &adj, &of, total);
                if s > best_score + 1e-12 {
                    best_score = s;
                    best = c;
                }
            }
            if best != current {
                of.insert(*id, best);
                moved = true;
            }
        }
        if !moved {
            break;
        }
    }
    let mut assignment: SortedMap<u64, usize> = SortedMap::new();
    for (n, c) in of {
        assignment.insert(n, c);
    }
    communities_from_assignment(graph, &assignment)
}

fn pagerank(graph: &AdjacencyGraph, iterations: usize, damping: f64) -> Vec<(u64, u64)> {
    let nodes = graph.node_ids();
    let n = nodes.len();
    if n == 0 {
        return Vec::new();
    }
    let base = (1.0 - damping) / n as f64;
    let mut out: BTreeMap<u64, Vec<(u64, f64)>> = nodes.iter().map(|id| (*id, Vec::new())).collect();
    for (source, target, weight) in graph.edges() {
        out.get_mut(&source).unwrap().push((target, f32::from_bits(weight) as f64));
    }
    let mut rank: BTreeMap<u64, f64> = nodes.iter().map(|id| (*id, 1.0 / n as f64)).collect();
    for _ in 0..iterations {
        let mut next: BTreeMap<u64, f64> = nodes.iter().map(|id| (*id, base)).collect();
        let mut dangling = 0.0;
        for id in &nodes {
            let edges = &out[id];
            let sum: f64 = edges.iter().map(|e| e.1).sum();
            if sum <= f64::EPSILON {
                dangling += rank[id];
                continue;
            }
            for (target, w) in edges {
                *next.get_mut(target).unwrap() += damping * rank[id] * (w / sum);
            }
        }
        if dangling > 0.0 {
            for v in next.values_mut() {
                *v += damping * dangling / n as f64;
            }
        }
        rank = next;
    }
    rank.into_iter().map(|(id, r)| (id, r.to_bits())).collect()
}

fn rebuild(engine: &mut CommunityEngine, max_levels: usize) {
    let mut level0 = detect_level(engine.graph());
    if level0.is_empty() {
        level0 = singleton_communities(&engine.graph().node_ids());
    }
    let links = engine.graph().edges();
    let mut builder = HierarchyBuilder::new(max_levels, level0);
    while let Some(super_graph) = builder.super_graph(&links) {
        let partition = detect_level(&super_graph);
        if !builder.absorb(&partition) {
            break;
        }
    }
    let ranks = pagerank(engine.graph(), 30, 0.85);
    engine.rebuild_hierarchy(max_levels, builder.finish(), ranks, &DeterministicSummarizer);
}

fn refresh(engine: &mut CommunityEngine) {
    if engine.needs_refresh() {
        let max_levels = engine.max_levels();
        rebuild(engine, max_levels);
    }
}

fn sample_graph_two_clusters() -> AdjacencyGraph {
    let mut graph = AdjacencyGraph::new();
    graph.add_edge(1, 2, "links", 1.0f32.to_bits());
    graph.add_edge(2, 3, "links", 1.0f32.to_bits());
    graph.add_edge(1, 3, "links", 1.0f32.to_bits());
    graph.add_edge(10, 11, "links", 1.0f32.to_bits());
    graph.add_edge(11, 12, "links", 1.0f32.to_bits());
    graph.add_edge(10, 12, "links", 1.0f32.to_bits());
    graph.add_edge(3, 10, "bridge", 0.1f32.to_bits());
    graph
}

fn node_with(id: u64, embed_text: &str, data: &str, meta: &[(&str, &str)]) -> Node {
    let mut n = Node::new(id, embedding(embed_text, MODEL_ID, DIMS), data.to_string());
    for (k, v) in meta {
        n.metadata.insert(k.to_string(), v.to_string());
    }
    n
}

fn summaries_of(state: &MaterializedState) -> Vec<CommunitySummary> {
    let graph = state.hyper_index().graph_index().duplicate();
    let mut engine = CommunityEngine::new(graph);
    rebuild(&mut engine, 2);
    engine
        .summaries()
        .iter()
        .map(|s| CommunitySummary {
            level: s.level,
            community_id: s.community_id,
            top_nodes: s.top_nodes.clone(),
            summary: s.summary.clone(),
        })
        .collect()
}

fn graphrag_state() -> (MaterializedState, Vec<CommunitySummary>) {
    let mut state = MaterializedState::empty();
    let nodes = [
        (1, "EV production", "Toyota leads EV production with new battery technology", "Company", "report/toyota.pdf"),
        (2, "EV strategy", "Honda announces partnership for solid-state batteries", "Company", "report/honda.pdf"),
        (3, "EV market expansion", "BYD expands to European EV market with affordable models", "Company", "report/byd.pdf"),
        (4, "battery safety regulation", "FDA updates battery safety standards for consumer electronics", "Regulator", "gov/fda.pdf"),
        (5, "emission standards", "EPA tightens emission standards accelerating EV adoption", "Regulator", "gov/epa.pdf"),
        (6, "battery research", "MIT publishes breakthrough in lithium-sulfur battery research", "University", "acad/mit.pdf"),
        (7, "autonomous driving", "Stanford advances autonomous driving with new sensor fusion", "University", "acad/stanford.pdf"),
    ];
    for (id, text, data, kind, source) in nodes {
        state.put_node(node_with(id, text, data, &[("entity_type", kind), ("source", source)]));
    }
    let edges = [
        (1, 2, "competitor_of", 0.9f32),
        (1, 3, "competitor_of", 0.85),
        (2, 3, "competitor_of", 0.8),
        (4, 5, "collaborates_with", 0.7),
        (6, 7, "collaborates_with", 0.75),
        (5, 1, "regulates", 0.5),
        (6, 1, "supplies_research", 0.4),
    ];
    for (s, t, r, w) in edges {
        state.put_edge(Edge::new(s, t, r, w.to_bits()));
    }
    let summaries = summaries_of(&state);
    (state, summaries)
}

fn provenance_state() -> MaterializedState {
    let mut state = MaterializedState::empty();
    state.put_node(node_with(
        1,
        "EV production",
        "Toyota leads EV production with new battery technology",
        &[
            ("entity_type", "Company"),
            ("source", "report/toyota.pdf"),
            ("extraction_model_id", "slm-triplex-v1"),
            ("snapshot_id", "snap-2024-06-01"),
            ("ingested_at", "2024-06-01T10:00:00Z"),
            ("confidence", "0.92"),
        ],
    ));
    state.put_node(node_with(
        2,
        "EV strategy",
        "Honda announces partnership for solid-state batteries",
        &[
            ("entity_type", "Company"),
            ("source", "report/honda.pdf"),
            ("extraction_model_id", "slm-triplex-v1"),
        ],
    ));
    state.put_node(node_with(
        3,
        "EV market expansion",
        "BYD expands to European EV market with affordable models",
        &[("entity_type", "Company"), ("source", "report/byd.pdf")],
    ));
    let mut edge12 = Edge::new(1, 2, "competitor_of", 0.9f32.to_bits());
    edge12.metadata.insert("extraction_model_id".to_string(), "slm-triplex-v1".to_string());
    edge12.metadata.insert("snapshot_id".to_string(), "snap-2024-06-01".to_string());
    state.put_edge(edge12);
    state.put_edge(Edge::new(1, 3, "competitor_of", 0.85f32.to_bits()));
    state.put_edge(Edge::new(2, 3, "competitor_of", 0.8f32.to_bits()));
    state
}

fn seeded_state() -> MaterializedState {
    let mut state = MaterializedState::empty();
    let mut toyota = Node::new(
        1,
        vec![1.0f32.to_bits(), 0.0f32.to_bits()],
        "Toyota expands EV production and battery partnerships".to_string(),
    );
    let mut meta = Node::new(
        2,
        vec![0.92f32.to_bits(), 0.08f32.to_bits()],
        "Meta shifts strategy after EV headset market pressure".to_string(),
    );
    let mut policy = Node::new(
        3,
        vec![0.05f32.to_bits(), 0.95f32.to_bits()],
        "Government policy introduces battery recycling standards".to_string(),
    );
    for (n, kind, ts, source) in [
        (&mut toyota, "Company", "2024-02-10", "s3://corp/toyota"),
        (&mut meta, "Company", "2024-05-12", "s3://corp/meta"),
        (&mut policy, "Policy", "2022-07-01", "s3://policy/recycle"),
    ] {
        n.metadata.insert("entity_type".to_string(), kind.to_string());
        n.metadata.insert("timestamp".to_string(), ts.to_string());
        n.metadata.insert("source".to_string(), source.to_string());
    }
    state.put_node(toyota);
    state.put_node(meta);
    state.put_node(policy);
    state.put_edge(Edge::new(1, 2, "competitor_of", 0.9f32.to_bits()));
    state.put_edge(Edge::new(2, 3, "influenced_by", 0.6f32.to_bits()));
    state
}

fn request(query: &str, mode: QueryMode, search_mode: SearchMode, top_k: usize, depth: u8) -> QueryRequest {
    let mut r = QueryRequest::new(query);
    r.mode = mode;
    r.search_mode = search_mode;
    r.top_k = top_k;
    r.traversal.depth = depth;
    r
}

fn no_summaries() -> Vec<CommunitySummary> {
    Vec::new()
}

#[test]
fn test_leiden_detects_multiple_communities() {
    let mut engine = CommunityEngine::new(sample_graph_two_clusters());
    rebuild(&mut engine, 3);

    let level0 = &engine.hierarchy()[0];
    assert!(level0.communities.len() >= 2);
}

#[test]
fn test_hierarchical_levels_are_generated() {
    let mut engine = CommunityEngine::new(sample_graph_two_clusters());
    rebuild(&mut engine, 4);

    assert!(!engine.hierarchy().is_empty());
    assert!(!engine.summaries().is_empty());
}

#[test]
fn test_fastgraphrag_selects_top_10_percent_nodes() {
    let mut engine = CommunityEngine::new(sample_graph_two_clusters());
    rebuild(&mut engine, 3);

    let top_nodes = engine.fastgraphrag_top_nodes();
    assert!(!top_nodes.is_empty());
}

#[test]
fn test_incremental_update_refreshes_summaries() {
    let mut engine = CommunityEngine::new(sample_graph_two_clusters());
    rebuild(&mut engine, 3);

    engine.add_edge_incremental(12, 13, "links", 1.0f32.to_bits());
    assert!(engine.needs_refresh());
    refresh(&mut engine);
    assert!(!engine.needs_refresh());

    assert!(!engine.summaries().is_empty());
    let contains_new_node = engine
        .hierarchy()
        .iter()
        .flat_map(|level| level.communities.iter())
        .any(|community| community.node_ids.contains(&13));
    assert!(contains_new_node);
}

#[test]
fn first_level_is_a_partition_into_connected_parts() {
    let mut engine = CommunityEngine::new(sample_graph_two_clusters());
    rebuild(&mut engine, 1);
    assert_eq!(engine.hierarchy().len(), 1);
    let level0 = &engine.hierarchy()[0];
    assert_eq!(level0.level, 0);
    let mut seen: Vec<u64> = Vec::new();
    let mut members: SortedSet<u64> = SortedSet::new();
    for (i, c) in level0.communities.iter().enumerate() {
        assert_eq!(c.id, i);
        assert!(!c.node_ids.is_empty());
        assert!(c.node_ids.windows(2).all(|w| w[0] < w[1]));
        let mut own: SortedSet<u64> = SortedSet::new();
        for n in &c.node_ids {
            own.insert(*n);
            members.insert(*n);
        }
        assert_eq!(connected_components(engine.graph(), &own), vec![c.node_ids.clone()]);
        seen.extend(c.node_ids.iter());
    }
    let firsts: Vec<u64> = level0.communities.iter().map(|c| c.node_ids[0]).collect();
    assert!(firsts.windows(2).all(|w| w[0] < w[1]));
    seen.sort();
    assert_eq!(seen, vec![1, 2, 3, 10, 11, 12]);
    assert_eq!(engine.summaries().len(), level0.communities.len());
    assert_eq!(engine.fastgraphrag_top_nodes().len(), 1);
    let top = engine.fastgraphrag_top_nodes()[0];
    for (c, s) in level0.communities.iter().zip(engine.summaries().iter()) {
        assert_eq!((s.level, s.community_id), (0, c.id));
        let expected = if c.node_ids.contains(&top) { vec![top] } else { vec![c.node_ids[0]] };
        assert_eq!(s.top_nodes, expected);
    }
}

#[test]
fn top_nodes_are_the_best_tenth_by_rank() {
    let ranks: Vec<(u64, u64)> = (1..=11u64).map(|i| (i, (i as f64 / 100.0).to_bits())).collect();
    assert_eq!(top_nodes_of(&ranks), vec![11, 10]);
    let ten: Vec<(u64, u64)> = (1..=10u64).map(|i| (i, 0.5f64.to_bits())).collect();
    assert_eq!(top_nodes_of(&ten), vec![1]);
    assert!(top_nodes_of(&Vec::new()).is_empty());
    assert_eq!(top_nodes_of(&vec![(7, 0.0f64.to_bits())]), vec![7]);
}

#[test]
fn refinement_splits_a_community_that_is_not_connected() {
    let mut graph = AdjacencyGraph::new();
    graph.add_edge(1, 2, "r", 1.0f32.to_bits());
    graph.add_edge(3, 4, "r", 1.0f32.to_bits());
    graph.add_edge(6, 5, "r", 1.0f32.to_bits());
    let mut assignment: SortedMap<u64, usize> = SortedMap::new();
    for (n, c) in [(1, 0), (2, 0), (3, 0), (4, 0), (5, 1), (6, 1)] {
        assignment.insert(n, c);
    }
    let parts = communities_from_assignment(&graph, &assignment);
    let members: Vec<Vec<u64>> = parts.iter().map(|c| c.node_ids.clone()).collect();
    assert_eq!(members, vec![vec![1, 2], vec![3, 4], vec![5, 6]]);
    let ids: Vec<usize> = parts.iter().map(|c| c.id).collect();
    assert_eq!(ids, vec![0, 1, 2]);
}

#[test]
fn components_read_edges_as_undirected() {
    let mut graph = AdjacencyGraph::new();
    graph.add_edge(2, 1, "r", 0);
    graph.add_edge(3, 2, "r", 0);
    graph.add_edge(8, 9, "r", 0);
    graph.add_edge(9, 20, "r", 0);
    let mut members: SortedSet<u64> = SortedSet::new();
    for n in [1, 2, 3, 8, 9] {
        members.insert(n);
    }
    assert_eq!(connected_components(&graph, &members), vec![vec![1, 2, 3], vec![8, 9]]);
    assert!(connected_components(&graph, &SortedSet::new()).is_empty());
}

#[test]
fn graph_without_edges_has_no_levels_to_lift() {
    let mut engine = CommunityEngine::new(AdjacencyGraph::new());
    rebuild(&mut engine, 3);
    assert_eq!(engine.hierarchy().len(), 1);
    assert!(engine.hierarchy()[0].communities.is_empty());
    assert!(engine.summaries().is_empty());
    assert!(engine.fastgraphrag_top_nodes().is_empty());
    assert_eq!(engine.max_levels(), 3);
}

#[test]
fn deterministic_summary_names_level_community_and_nodes() {
    let mut engine = CommunityEngine::new(sample_graph_two_clusters());
    rebuild(&mut engine, 1);
    let first = &engine.summaries()[0];
    let size = engine.hierarchy()[0].communities[0].node_ids.len();
    assert_eq!(
        first.summary,
        format!("L0-C0: {} nodes, key [{}]", size, first.top_nodes[0])
    );
    let summarizer = DeterministicSummarizer;
    assert_eq!(
        alayasiki::community::CommunitySummarizer::summarize(&summarizer, 2, 7, &vec![4, 5, 6], &vec![5, 6]),
        "L2-C7: 3 nodes, key [5, 6]"
    );
}

#[test]
fn test_score_community_summary_lexical() {
    let summary = CommunitySummary {
        level: 0,
        community_id: 0,
        top_nodes: vec![1],
        summary: "EV production and battery technology advances".to_string(),
    };
    let score = score_community_summary("EV production", &summary);
    assert!(score.shared > 0, "matching terms should produce positive score");
    assert_eq!((score.shared, score.total), (2, 6));
}

#[test]
fn test_map_reduce_integration() {
    let summaries = vec![
        CommunitySummary {
            level: 0,
            community_id: 0,
            top_nodes: vec![1, 2],
            summary: "EV production and competition among automakers".to_string(),
        },
        CommunitySummary {
            level: 0,
            community_id: 1,
            top_nodes: vec![3, 4],
            summary: "Government regulation and emission standards".to_string(),
        },
    ];

    let ranked = map_community_summaries("EV production", &summaries);
    assert_eq!(
        summaries[ranked[0].index].community_id,
        0,
        "EV community should rank first"
    );

    let answer = reduce_community_summaries("EV production", &summaries, &ranked, 2);
    assert!(answer.contains("Global synthesis"));
    assert!(answer.contains("Community L0-C0"));
}

#[test]
fn summaries_rank_by_score_then_community_and_top_nodes_come_once() {
    let summaries = vec![
        CommunitySummary { level: 0, community_id: 4, top_nodes: vec![7, 1], summary: "solar power".to_string() },
        CommunitySummary { level: 0, community_id: 2, top_nodes: vec![1, 9], summary: "wind power".to_string() },
        CommunitySummary { level: 0, community_id: 9, top_nodes: vec![5], summary: "solar wind power grid".to_string() },
        CommunitySummary { level: 0, community_id: 1, top_nodes: vec![3], summary: "nothing alike".to_string() },
    ];
    let ranked = map_community_summaries("solar wind power", &summaries);
    let order: Vec<usize> = ranked.iter().map(|r| summaries[r.index].community_id).collect();
    assert_eq!(order, vec![9, 2, 4, 1]);
    assert_eq!((ranked[0].score.shared, ranked[0].score.total), (3, 4));
    assert_eq!((ranked[3].score.shared, ranked[3].score.total), (0, 5));
    assert_eq!(collect_global_node_ids(&summaries, &ranked, 3), vec![5, 1, 9, 7]);
    assert_eq!(collect_global_node_ids(&summaries, &ranked, 1), vec![5]);
}

#[test]
fn test_query_planner_auto_mode_chooses_global_for_theme_queries() {
    let mut r = QueryRequest::new("このデータセットの主要テーマを総括して");
    r.search_mode = SearchMode::Auto;

    let plan = QueryPlanner::plan(&r);
    assert_eq!(plan.effective_search_mode, SearchMode::Global);
    assert_eq!(
        plan.steps,
        vec!["vector_search", "graph_expansion", "context_pruning"]
    );
}

#[test]
fn test_query_mode_switch_between_answer_and_evidence() {
    let state = seeded_state();
    let answer_request = request("ToyotaとMetaの差分は?", QueryMode::Answer, SearchMode::Local, 5, 2);
    let answer_response = execute(&state, &no_summaries(), &answer_request);
    assert!(answer_response.answer.is_some());
    assert!(!answer_response.evidence.nodes.is_empty());

    let evidence_request = request("ToyotaとMetaの差分は?", QueryMode::Evidence, SearchMode::Local, 5, 2);
    let evidence_response = execute(&state, &no_summaries(), &evidence_request);
    assert!(evidence_response.answer.is_none());
    assert!(!evidence_response.evidence.nodes.is_empty());
}

#[test]
fn test_query_engine_returns_explain_plan_with_anchors_paths_and_exclusions() {
    let state = seeded_state();
    let mut r = request("トヨタの競合と背景要因", QueryMode::Evidence, SearchMode::Local, 3, 2);
    r.filters.relation_type = vec!["competitor_of".to_string()];

    let response = execute(&state, &no_summaries(), &r);
    assert_eq!(
        response.explain.steps,
        vec!["vector_search", "graph_expansion", "context_pruning"]
    );
    assert!(!response.explain.anchors.is_empty());
    assert!(!response.explain.expansion_paths.is_empty());
    assert!(!response.explain.exclusions.is_empty());

    assert!(!response.evidence.edges.is_empty());
    assert!(response
        .evidence
        .edges
        .iter()
        .all(|edge| edge.relation == "competitor_of"));
}

#[test]
fn test_query_engine_applies_entity_and_time_range_filters() {
    let state = seeded_state();
    let mut r = request("EV戦略の比較", QueryMode::Evidence, SearchMode::Local, 10, 3);
    r.filters.entity_type = vec!["Company".to_string()];
    r.filters.time_range = Some(TimeRange {
        from: "2024-01-01".to_string(),
        to: "2024-12-31".to_string(),
    });

    let response = execute(&state, &no_summaries(), &r);
    let node_ids: Vec<u64> = response.evidence.nodes.iter().map(|n| n.id).collect();

    assert!(node_ids.contains(&1));
    assert!(node_ids.contains(&2));
    assert!(!node_ids.contains(&3));
    assert!(response
        .explain
        .exclusions
        .iter()
        .any(|ex| ex.node_id == Some(3)));
    let reason = &response
        .explain
        .exclusions
        .iter()
        .find(|ex| ex.node_id == Some(3))
        .unwrap()
        .reason;
    assert!(reason == "entity_type_filtered" || reason == "time_range_filtered");
}

#[test]
fn test_vector_search_identifies_anchors_by_similarity() {
    let (state, summaries) = graphrag_state();
    let r = request("EV production", QueryMode::Evidence, SearchMode::Local, 3, 1);
    let response = execute(&state, &summaries, &r);

    assert!(!response.explain.anchors.is_empty());
    let scores: Vec<f32> = response
        .explain
        .anchors
        .iter()
        .map(|a| f32::from_bits(a.score))
        .collect();
    for w in scores.windows(2) {
        assert!(w[0] >= w[1], "anchors should be ordered by score desc");
    }
    assert_eq!(response.explain.anchors[0].node_id, 1);
}

#[test]
fn test_graph_expansion_discovers_multi_hop_nodes() {
    let (state, summaries) = graphrag_state();
    let r = request("EV production", QueryMode::Evidence, SearchMode::Local, 10, 2);
    let response = execute(&state, &summaries, &r);

    assert!(response.evidence.nodes.iter().any(|n| n.hop >= 1));
    assert!(!response.explain.expansion_paths.is_empty());
    for p in &response.explain.expansion_paths {
        assert_eq!(p.path.first(), Some(&p.anchor_id));
        assert_eq!(p.path.last(), Some(&p.target_id));
        assert!(p.path.len() <= 3);
    }
}

#[test]
fn test_context_pruning_removes_noise_nodes() {
    let (state, summaries) = graphrag_state();
    let r = request("EV production", QueryMode::Evidence, SearchMode::Local, 2, 3);
    let response = execute(&state, &summaries, &r);

    assert!(response.evidence.nodes.len() <= 2);
    assert!(response
        .explain
        .exclusions
        .iter()
        .any(|ex| ex.reason == "pruned_by_top_k"));
}

#[test]
fn pruned_nodes_are_excluded_exactly_once_and_never_returned() {
    let (state, summaries) = graphrag_state();
    for k in 1..=7usize {
        let r = request("EV production", QueryMode::Evidence, SearchMode::Local, k, 3);
        let response = execute(&state, &summaries, &r);
        assert!(response.evidence.nodes.len() <= k);
        let kept: BTreeSet<u64> = response.evidence.nodes.iter().map(|n| n.id).collect();
        let pruned: Vec<u64> = response
            .explain
            .exclusions
            .iter()
            .filter(|ex| ex.reason == "pruned_by_top_k")
            .map(|ex| ex.node_id.unwrap())
            .collect();
        let distinct: BTreeSet<u64> = pruned.iter().copied().collect();
        assert_eq!(distinct.len(), pruned.len());
        assert!(distinct.is_disjoint(&kept));
        let scores: Vec<f32> = response.evidence.nodes.iter().map(|n| f32::from_bits(n.score)).collect();
        for w in scores.windows(2) {
            assert!(w[0] >= w[1]);
        }
    }
}

#[test]
fn test_local_search_centers_on_entity_with_shallow_hops() {
    let (state, summaries) = graphrag_state();
    let r = request("Toyota battery partnerships", QueryMode::Answer, SearchMode::Local, 5, 2);
    let response = execute(&state, &summaries, &r);

    assert_eq!(response.explain.effective_search_mode, SearchMode::Local);
    assert!(response.answer.is_some());
    assert!(!response.evidence.nodes.is_empty());
    for node in &response.evidence.nodes {
        assert!(node.hop <= 2);
    }
}

#[test]
fn test_global_search_uses_community_summaries_for_answer() {
    let (state, summaries) = graphrag_state();
    assert!(!summaries.is_empty());
    let r = request(
        "What are the major themes in this dataset?",
        QueryMode::Answer,
        SearchMode::Global,
        10,
        2,
    );
    let response = execute(&state, &summaries, &r);

    assert_eq!(response.explain.effective_search_mode, SearchMode::Global);
    let answer = response.answer.unwrap();
    assert!(!answer.is_empty());
    assert!(response.explain.steps.iter().any(|s| s.contains("community")));
    assert_eq!(
        response.explain.steps,
        vec!["vector_search", "community_map_reduce", "graph_expansion", "context_pruning"]
    );
}

#[test]
fn test_global_search_without_community_data_falls_back_to_expanded_vector() {
    let (state, _) = graphrag_state();
    let r = request("What are the overall trends?", QueryMode::Answer, SearchMode::Global, 10, 1);
    let response = execute(&state, &no_summaries(), &r);

    assert!(response.answer.is_some());
    assert!(response
        .explain
        .exclusions
        .iter()
        .any(|ex| ex.reason.contains("no_community_data")));
    assert_eq!(
        response.explain.steps,
        vec![
            "vector_search",
            "graph_expansion",
            "context_pruning",
            "global_fallback_no_community_data"
        ]
    );
    assert_eq!(
        response.explain.exclusions.last().unwrap().reason,
        "no_community_data_fallback_to_vector"
    );
    assert!(!response.evidence.nodes.is_empty());
}

#[test]
fn global_search_with_relation_filter_gives_no_summary_answer() {
    let (state, summaries) = graphrag_state();
    let mut r = request("EV production", QueryMode::Evidence, SearchMode::Global, 10, 2);
    r.filters.relation_type = vec!["competitor_of".to_string()];
    let response = execute(&state, &summaries, &r);
    assert!(response
        .explain
        .exclusions
        .iter()
        .any(|ex| ex.reason == "global_summary_disabled_by_relation_filter"));
    assert!(response.answer.is_none());
}

#[test]
fn test_drift_search_expands_dynamically_when_evidence_insufficient() {
    let (state, summaries) = graphrag_state();
    let r = request(
        "How does university research influence EV regulation?",
        QueryMode::Answer,
        SearchMode::Drift,
        10,
        1,
    );
    let response = execute(&state, &summaries, &r);

    assert_eq!(response.explain.effective_search_mode, SearchMode::Drift);
    assert!(response.answer.is_some());
    assert!(response.explain.steps.iter().any(|s| s.contains("drift")));
    assert!(response.evidence.nodes.len() >= 2);
}

#[test]
fn test_drift_search_terminates_within_max_iterations() {
    let (state, summaries) = graphrag_state();
    let r = request(
        "nonexistent topic with no matching nodes",
        QueryMode::Evidence,
        SearchMode::Drift,
        5,
        1,
    );
    let response = execute(&state, &summaries, &r);
    assert_eq!(response.explain.effective_search_mode, SearchMode::Drift);
}

#[test]
fn drift_on_an_empty_store_says_that_nothing_was_found() {
    let state = MaterializedState::empty();
    let r = request("anything", QueryMode::Evidence, SearchMode::Drift, 5, 1);
    let response = execute(&state, &no_summaries(), &r);
    let reasons: Vec<&str> = response.explain.exclusions.iter().map(|e| e.reason.as_str()).collect();
    assert_eq!(reasons, vec!["drift_no_evidence_found", "drift_exhausted_no_evidence"]);
    assert!(response.evidence.nodes.is_empty());
    assert_eq!(f32::from_bits(response.groundedness), 0.0);
    assert_eq!(
        response.explain.steps,
        vec!["vector_search", "drift_iterative_expansion", "graph_expansion", "context_pruning"]
    );
}

#[test]
fn local_search_on_an_empty_store_has_no_nodes_available() {
    let state = MaterializedState::empty();
    let r = request("anything", QueryMode::Answer, SearchMode::Local, 5, 1);
    let response = execute(&state, &no_summaries(), &r);
    assert_eq!(response.explain.exclusions.len(), 1);
    assert_eq!(response.explain.exclusions[0].reason, "no_nodes_available");
    assert_eq!(response.explain.exclusions[0].node_id, None);
    assert!(response.citations.is_empty());
}

#[test]
fn auto_mode_falls_back_to_drift_on_thin_evidence() {
    let mut state = MaterializedState::empty();
    state.put_node(node_with(1, "EV production", "Toyota EV production analysis", &[]));
    let r = request("EV production", QueryMode::Evidence, SearchMode::Auto, 5, 1);
    let response = execute(&state, &no_summaries(), &r);
    assert_eq!(response.explain.effective_search_mode, SearchMode::Drift);
    assert_eq!(
        response.explain.exclusions.last().unwrap().reason,
        "auto_fallback_to_drift_due_to_insufficient_evidence"
    );
    assert_eq!(response.evidence.nodes.len(), 1);
}

#[test]
fn test_groundedness_score_reflects_evidence_quality() {
    let (state, summaries) = graphrag_state();
    let strong = execute(
        &state,
        &summaries,
        &request("EV production", QueryMode::Answer, SearchMode::Local, 5, 2),
    );
    let weak = execute(
        &state,
        &summaries,
        &request("quantum computing in healthcare", QueryMode::Answer, SearchMode::Local, 5, 1),
    );
    let (s, w) = (f32::from_bits(strong.groundedness), f32::from_bits(weak.groundedness));
    assert!(s > w, "strong {} weak {}", s, w);
    assert!(s > 0.0);
    assert!(s <= 1.0);
    assert!(w <= 1.0);
}

#[test]
fn test_graphrag_fallback_to_vector_only_when_graph_yields_nothing() {
    let mut state = MaterializedState::empty();
    state.put_node(node_with(1, "EV production", "Toyota EV production analysis", &[]));
    state.put_node(node_with(2, "EV market", "Global EV market report", &[]));
    let r = request("EV production", QueryMode::Answer, SearchMode::Local, 5, 2);
    let response = execute(&state, &no_summaries(), &r);

    assert!(response.answer.is_some());
    assert!(!response.evidence.nodes.is_empty());
    assert!(response
        .explain
        .exclusions
        .iter()
        .any(|ex| ex.reason == "no_graph_expansion_vector_only_fallback"));
}

#[test]
fn test_fallback_preserves_evidence_from_vector_search() {
    let mut state = MaterializedState::empty();
    state.put_node(node_with(
        1,
        "EV production",
        "Important EV production data",
        &[("source", "report/ev.pdf")],
    ));
    let mut r = request("EV production", QueryMode::Evidence, SearchMode::Local, 5, 1);
    r.model_id = Some("embedding-default-v1".to_string());
    let response = execute(&state, &no_summaries(), &r);

    assert_eq!(response.evidence.nodes.len(), 1);
    assert_eq!(response.evidence.nodes[0].id, 1);
    assert!(!response.citations.is_empty());
    assert!(f32::from_bits(response.groundedness) > 0.0);
    assert_eq!(response.citations[0].source, "report/ev.pdf");
    assert_eq!(response.citations[0].span, (0, 28));
    assert_eq!(response.citations[0].node_id, 1);
}

#[test]
fn test_evidence_nodes_include_provenance_and_confidence() {
    let state = provenance_state();
    let r = request("EV production", QueryMode::Evidence, SearchMode::Local, 5, 2);
    let response = execute(&state, &no_summaries(), &r);
    assert!(!response.evidence.nodes.is_empty());
    let toyota = response.evidence.nodes.iter().find(|n| n.id == 1).unwrap();
    assert_eq!(toyota.provenance.source.as_deref(), Some("report/toyota.pdf"));
    assert_eq!(toyota.provenance.extraction_model_id.as_deref(), Some("slm-triplex-v1"));
    assert_eq!(toyota.provenance.snapshot_id.as_deref(), Some("snap-2024-06-01"));
    assert_eq!(toyota.provenance.ingested_at.as_deref(), Some("2024-06-01T10:00:00Z"));
    for n in &response.evidence.nodes {
        let c = f32::from_bits(n.confidence);
        assert!(c >= 0.0 && c <= 1.0);
    }
}

#[test]
fn test_evidence_edges_include_provenance_and_confidence() {
    let state = provenance_state();
    let r = request("EV production", QueryMode::Evidence, SearchMode::Local, 10, 2);
    let response = execute(&state, &no_summaries(), &r);
    assert!(!response.evidence.edges.is_empty());
    for e in &response.evidence.edges {
        assert_eq!(e.confidence, e.weight);
    }
    let e12 = response
        .evidence
        .edges
        .iter()
        .find(|e| e.source == 1 && e.target == 2)
        .unwrap();
    assert_eq!(e12.provenance.extraction_model_id.as_deref(), Some("slm-triplex-v1"));
    assert_eq!(e12.provenance.snapshot_id.as_deref(), Some("snap-2024-06-01"));
    assert_eq!(e12.provenance.source, None);
}

#[test]
fn test_evidence_subgraph_is_self_consistent() {
    let state = provenance_state();
    let r = request("EV production", QueryMode::Evidence, SearchMode::Local, 10, 2);
    let response = execute(&state, &no_summaries(), &r);
    let node_ids: BTreeSet<u64> = response.evidence.nodes.iter().map(|n| n.id).collect();
    for edge in &response.evidence.edges {
        assert!(node_ids.contains(&edge.source));
        assert!(node_ids.contains(&edge.target));
    }
}

#[test]
fn evidence_edges_stay_inside_the_evidence_for_every_top_k_and_filter() {
    let (state, summaries) = graphrag_state();
    for k in 1..=7usize {
        for filter in [vec![], vec!["competitor_of".to_string()], vec!["regulates".to_string()]] {
            let mut r = request("EV production", QueryMode::Evidence, SearchMode::Local, k, 3);
            r.traversal.relation_types = filter.clone();
            let response = execute(&state, &summaries, &r);
            let ids: BTreeSet<u64> = response.evidence.nodes.iter().map(|n| n.id).collect();
            for e in &response.evidence.edges {
                assert!(ids.contains(&e.source) && ids.contains(&e.target));
                assert!(filter.is_empty() || filter.contains(&e.relation));
            }
        }
    }
}

#[test]
fn test_confidence_reflects_metadata_when_available() {
    let state = provenance_state();
    let r = request("EV production", QueryMode::Evidence, SearchMode::Local, 5, 2);
    let response = execute(&state, &no_summaries(), &r);

    let toyota = response.evidence.nodes.iter().find(|n| n.id == 1).unwrap();
    assert!((f32::from_bits(toyota.confidence) - 0.92).abs() < 0.01);
    let byd = response.evidence.nodes.iter().find(|n| n.id == 3).unwrap();
    assert!(f32::from_bits(byd.confidence) > 0.0);
    assert_eq!(byd.confidence, byd.score);
}

#[test]
fn test_citations_include_node_id_and_confidence() {
    let state = provenance_state();
    let r = request("EV production", QueryMode::Evidence, SearchMode::Local, 5, 2);
    let response = execute(&state, &no_summaries(), &r);

    assert!(!response.citations.is_empty());
    for citation in &response.citations {
        assert!(!citation.source.is_empty());
        assert!(citation.span.1 > citation.span.0);
        assert!(citation.node_id > 0);
        assert!(f32::from_bits(citation.confidence) > 0.0);
    }
}

#[test]
fn test_citations_span_covers_actual_data_range() {
    let state = provenance_state();
    let r = request("EV production", QueryMode::Evidence, SearchMode::Local, 5, 2);
    let response = execute(&state, &no_summaries(), &r);

    for citation in &response.citations {
        let node = response
            .evidence
            .nodes
            .iter()
            .find(|n| n.id == citation.node_id)
            .unwrap();
        assert!(citation.span.1 <= node.data.len());
        assert_eq!(citation.span, (0, node.data.len().min(80)));
    }
}

#[test]
fn test_time_travel_field_accepted_in_query_request() {
    let mut r = QueryRequest::new("EV production");
    r.time_travel = Some("2024-06-01".to_string());
    assert!(r.validate().is_ok());
    r.time_travel = Some("2024-06-01T10:00:00Z".to_string());
    assert!(r.validate().is_ok());
}

#[test]
fn test_time_travel_validation_rejects_invalid_format() {
    let mut r = QueryRequest::new("EV production");
    r.time_travel = Some("not-a-date".to_string());
    assert!(r.validate().is_err());
    let state = provenance_state();
    let result = execute_at(&state, &no_summaries(), &r, "wal-lsn-0");
    assert!(matches!(result, Err(QueryError::InvalidQuery(_))));
}

#[test]
fn test_snapshot_id_takes_priority_over_time_travel() {
    let state = provenance_state();
    let mut r = request("EV production", QueryMode::Evidence, SearchMode::Local, 3, 1);
    r.snapshot_id = Some("snap-explicit".to_string());
    r.time_travel = Some("2024-06-01".to_string());
    let response = execute(&state, &no_summaries(), &r);
    assert_eq!(response.snapshot_id.as_deref(), Some("snap-explicit"));
    assert_eq!(response.time_travel, None);
}

#[test]
fn test_time_travel_reflected_in_response_when_no_snapshot_id() {
    let state = provenance_state();
    let mut r = request("EV production", QueryMode::Evidence, SearchMode::Local, 3, 1);
    r.time_travel = Some("2024-06-01".to_string());
    let response = execute_at(&state, &no_summaries(), &r, "wal-lsn-6").unwrap();
    assert_eq!(response.time_travel.as_deref(), Some("2024-06-01"));
    assert_eq!(response.snapshot_id.as_deref(), Some("wal-lsn-6"));
    assert_eq!(response.model_id.as_deref(), Some(MODEL_ID));
}

#[test]
fn identical_requests_give_identical_evidence_and_citations() {
    let (state, summaries) = graphrag_state();
    let mut r = request("EV production", QueryMode::Answer, SearchMode::Local, 4, 2);
    r.model_id = Some("embedding-default-v1".to_string());
    r.snapshot_id = Some("wal-lsn-14".to_string());
    let a = execute(&state, &summaries, &r);
    let b = execute(&state, &summaries, &r);
    let ids = |x: &QueryResponse| x.evidence.nodes.iter().map(|n| n.id).collect::<Vec<_>>();
    assert_eq!(ids(&a), ids(&b));
    assert_eq!(a.citations, b.citations);
    assert_eq!(a.snapshot_id, b.snapshot_id);
    assert_eq!(a, b);
}

#[test]
fn query_excludes_retention_expired_nodes() {
    let mut state = MaterializedState::empty();
    state.put_node(node_with(
        1,
        "EV production",
        "Expired EV production note",
        &[("retention_until_unix", "1")],
    ));
    state.put_node(node_with(2, "EV production", "Current EV production note", &[]));
    let r = request("EV production", QueryMode::Evidence, SearchMode::Local, 5, 1);
    let response = execute(&state, &no_summaries(), &r);
    let ids: Vec<u64> = response.evidence.nodes.iter().map(|n| n.id).collect();
    assert_eq!(ids, vec![2]);
    assert!(response
        .explain
        .exclusions
        .iter()
        .any(|ex| ex.node_id == Some(1) && ex.reason == "retention_expired"));
}

#[test]
fn scores_follow_the_formula() {
    let mut state = MaterializedState::empty();
    state.put_node(Node::new(1, vec![1.0f32.to_bits(), 0.0f32.to_bits()], "alpha beta".to_string()));
    state.put_node(Node::new(2, vec![0.0f32.to_bits(), 1.0f32.to_bits()], "gamma".to_string()));
    state.put_edge(Edge::new(1, 2, "r", 0.5f32.to_bits()));
    let mut plan = QueryPlanner::plan(&request("alpha", QueryMode::Evidence, SearchMode::Local, 5, 1));
    plan.vector_top_k = 1;
    let r = request("alpha", QueryMode::Evidence, SearchMode::Local, 5, 1);
    let hits = vec![(1u64, 0.5f32.to_bits())];
    let g = match begin_execution(&state, &r, &plan, &hits, None, NOW) {
        Gathering::Found(g) => g,
        Gathering::Empty(_) => panic!("there are nodes"),
    };
    let seen: Vec<(u64, u8, u32)> = g.candidates.iter().map(|c| (c.id, c.hop, c.anchor_score)).collect();
    assert_eq!(seen, vec![(1, 0, 0.5f32.to_bits()), (2, 1, 0)]);
    let first = &g.candidates[0];
    assert!(first.overlap.shared >= 1);
    assert!(first.overlap.total >= first.overlap.shared);
    assert_eq!(g.candidates[1].overlap.shared, 0);
}

/// A repository in memory with the entries of its log.
struct Store {
    repo: Repository<NoOpCipher>,
    entries: Vec<(u64, WalEntry)>,
}

impl Store {
    fn new() -> Self {
        Store { repo: Repository::new(Wal::new(NoOpCipher)), entries: Vec::new() }
    }

    fn put(&mut self, n: Node) {
        let (lsn, _) = self.repo.put_node(n.clone(), b"node").unwrap();
        self.entries.push((lsn, WalEntry::Put(n)));
    }

    fn query(&self, r: &QueryRequest) -> Result<QueryResponse, QueryError> {
        match &r.snapshot_id {
            Some(id) => {
                r.validate().map_err(|e| QueryError::InvalidQuery(e.message()))?;
                let view = self
                    .repo
                    .load_snapshot_view(id, &None, &self.entries)
                    .map_err(QueryError::Repository)?;
                execute_at(view.materialized(), &no_summaries(), r, id)
            }
            None => execute_at(
                self.repo.materialized(),
                &no_summaries(),
                r,
                &self.repo.current_snapshot_id(),
            ),
        }
    }

    fn query_authorized(
        &self,
        sink: &mut InMemoryAuditSink,
        r: &QueryRequest,
        principal: &Principal,
        authorizer: &Authorizer,
        resource: &ResourceContext,
    ) -> Result<QueryResponse, QueryError> {
        let model_id = effective_query_model_id(r);
        if let Err(err) = authorizer.authorize(principal, Action::Query, resource) {
            let _ = sink.record(build_query_audit_event(
                AuditOutcome::Denied,
                &model_id,
                Some(principal.subject.clone()),
                Some(principal.tenant.clone()),
                r.snapshot_id.clone(),
                Some(err.message()),
            ));
            return Err(QueryError::Unauthorized(err));
        }
        let result = self.query(r);
        let (outcome, snapshot, error) = match &result {
            Ok(response) => (AuditOutcome::Succeeded, response.snapshot_id.clone(), None),
            Err(e) => (AuditOutcome::Failed, r.snapshot_id.clone(), Some(e.message())),
        };
        let _ = sink.record(build_query_audit_event(
            outcome,
            &model_id,
            Some(principal.subject.clone()),
            Some(principal.tenant.clone()),
            snapshot,
            error,
        ));
        result
    }
}

fn policy_store() -> Store {
    let mut store = Store::new();
    store.put(node_with(1, "energy policy baseline", "baseline evidence", &[]));
    store
}

#[test]
fn pinned_snapshot_uses_historical_state() {
    let mut store = policy_store();
    let snapshot_id = store.repo.current_snapshot_id();
    store.put(node_with(2, "energy policy updated", "new evidence after snapshot", &[]));

    let mut pinned = request("energy policy updated", QueryMode::Evidence, SearchMode::Local, 10, 1);
    pinned.snapshot_id = Some(snapshot_id.clone());
    let latest = request("energy policy updated", QueryMode::Evidence, SearchMode::Local, 10, 1);

    let pinned_response = store.query(&pinned).unwrap();
    let latest_response = store.query(&latest).unwrap();
    let pinned_ids: Vec<u64> = pinned_response.evidence.nodes.iter().map(|n| n.id).collect();
    let latest_ids: Vec<u64> = latest_response.evidence.nodes.iter().map(|n| n.id).collect();

    assert!(pinned_ids.contains(&1));
    assert!(!pinned_ids.contains(&2));
    assert!(latest_ids.contains(&2));
    assert_eq!(pinned_response.snapshot_id.as_deref(), Some(snapshot_id.as_str()));
    assert_eq!(latest_response.snapshot_id.as_deref(), Some("wal-lsn-2"));
}

#[test]
fn pinned_snapshot_is_not_touched_by_later_deletes() {
    let mut store = Store::new();
    store.put(node_with(1, "old only", "old-only evidence", &[]));
    let s1 = store.repo.current_snapshot_id();
    let (lsn, _) = store.repo.delete_node(1, b"delete").unwrap();
    store.entries.push((lsn, WalEntry::Delete(1)));
    store.put(node_with(2, "new only", "new-only evidence", &[]));

    let mut pinned = request("old only", QueryMode::Evidence, SearchMode::Local, 5, 1);
    pinned.snapshot_id = Some(s1);
    let ids: Vec<u64> = store.query(&pinned).unwrap().evidence.nodes.iter().map(|n| n.id).collect();
    assert_eq!(ids, vec![1]);
    let live = request("old only", QueryMode::Evidence, SearchMode::Local, 5, 1);
    let ids: Vec<u64> = store.query(&live).unwrap().evidence.nodes.iter().map(|n| n.id).collect();
    assert_eq!(ids, vec![2]);
}

#[test]
fn unknown_snapshot_id_returns_not_found() {
    let store = policy_store();
    let mut r = request("energy policy", QueryMode::Evidence, SearchMode::Local, 5, 1);
    r.snapshot_id = Some("wal-lsn-99".to_string());
    let err = store.query(&r).unwrap_err();
    assert_eq!(
        err,
        QueryError::Repository(RepoError::SnapshotNotFound("wal-lsn-99".to_string()))
    );
    assert_eq!(err.error_code(), ErrorCode::NotFound);
    r.snapshot_id = Some("snap-custom".to_string());
    let err = store.query(&r).unwrap_err();
    assert_eq!(err.error_code(), ErrorCode::InvalidArgument);
}

#[test]
fn test_error_mapping_standard_categories() {
    let store = policy_store();
    let mut bad = QueryRequest::new("test");
    bad.top_k = 0;
    let err = store.query(&bad).unwrap_err();
    assert_eq!(err.error_code(), ErrorCode::InvalidArgument);
    assert!(err.message().contains("invalid query"));

    let mut missing = QueryRequest::new("test");
    missing.snapshot_id = Some("wal-lsn-999999".to_string());
    let err = store.query(&missing).unwrap_err();
    assert_eq!(err.error_code(), ErrorCode::NotFound);
    assert!(err.message().contains("wal-lsn-999999"));
    let denied = QueryError::Unauthorized(AuthzError::MissingResourceTenant);
    assert_eq!(denied.error_code(), ErrorCode::PermissionDenied);
}

#[test]
fn execute_authorized_allows_reader_role() {
    let store = policy_store();
    let mut sink = InMemoryAuditSink::default();
    let principal = Principal::new("user-1", "acme").with_roles(vec!["reader".to_string()]);
    let r = request("EV strategy", QueryMode::Evidence, SearchMode::Local, 3, 1);
    let response = store
        .query_authorized(&mut sink, &r, &principal, &Authorizer::default(), &ResourceContext::new("acme"))
        .unwrap();
    assert!(!response.evidence.nodes.is_empty());
}

#[test]
fn execute_authorized_denies_ingestor_role() {
    let store = policy_store();
    let mut sink = InMemoryAuditSink::default();
    let principal = Principal::new("user-1", "acme").with_roles(vec!["ingestor".to_string()]);
    let r = request("EV strategy", QueryMode::Evidence, SearchMode::Local, 3, 1);
    let err = store
        .query_authorized(&mut sink, &r, &principal, &Authorizer::default(), &ResourceContext::new("acme"))
        .unwrap_err();
    assert!(matches!(err, QueryError::Unauthorized(AuthzError::PermissionDenied { .. })));
}

#[test]
fn execute_authorized_enforces_tenant_boundary() {
    let store = policy_store();
    let mut sink = InMemoryAuditSink::default();
    let principal = Principal::new("user-1", "acme").with_roles(vec!["reader".to_string()]);
    let r = request("EV strategy", QueryMode::Evidence, SearchMode::Local, 3, 1);
    let err = store
        .query_authorized(
            &mut sink,
            &r,
            &principal,
            &Authorizer::default(),
            &ResourceContext::new("other-tenant"),
        )
        .unwrap_err();
    assert!(matches!(err, QueryError::Unauthorized(AuthzError::TenantMismatch { .. })));
}

#[test]
fn query_records_audit_event_with_model_id() {
    let store = policy_store();
    let mut sink = InMemoryAuditSink::default();
    let principal = Principal::new("reader-1", "acme").with_roles(vec!["reader".to_string()]);
    let mut r = request("EV strategy", QueryMode::Evidence, SearchMode::Local, 1, 1);
    r.model_id = Some("embedding-default-v1".to_string());
    store
        .query_authorized(&mut sink, &r, &principal, &Authorizer::default(), &ResourceContext::new("acme"))
        .unwrap();

    let events = sink.events().unwrap();
    assert_eq!(events.len(), 1);
    assert_eq!(events[0].operation, AuditOperation::Query);
    assert_eq!(events[0].outcome, AuditOutcome::Succeeded);
    assert_eq!(events[0].model_id.as_deref(), Some("embedding-default-v1"));
    assert_eq!(events[0].snapshot_id.as_deref(), Some("wal-lsn-1"));
}

#[test]
fn query_authorized_records_denied_audit_event() {
    let store = policy_store();
    let mut sink = InMemoryAuditSink::default();
    let principal = Principal::new("ingestor-1", "acme").with_roles(vec!["ingestor".to_string()]);
    let r = request("EV strategy", QueryMode::Evidence, SearchMode::Local, 1, 1);
    let result = store.query_authorized(
        &mut sink,
        &r,
        &principal,
        &Authorizer::default(),
        &ResourceContext::new("acme"),
    );
    assert!(result.is_err());

    let events = sink.events().unwrap();
    assert_eq!(events.len(), 1);
    assert_eq!(events[0].operation, AuditOperation::Query);
    assert_eq!(events[0].outcome, AuditOutcome::Denied);
    assert_eq!(events[0].actor.as_deref(), Some("ingestor-1"));
    assert_eq!(events[0].tenant.as_deref(), Some("acme"));
    assert!(events[0].metadata.contains_key(&"error".to_string()));
}

#[test]
fn test_e2e_query_is_reproducible_with_fixed_model_and_snapshot() {
    let mut store = Store::new();
    for (id, text) in [(1u64, "EV battery supply"), (2, "EV charging network"), (3, "grid storage")] {
        store.put(node_with(id, text, text, &[("source", "doc")]));
    }
    let snapshot = store.repo.current_snapshot_id();
    let mut r = request("EV battery", QueryMode::Answer, SearchMode::Local, 2, 1);
    r.model_id = Some("embedding-default-v1".to_string());
    r.snapshot_id = Some(snapshot);
    let first = store.query(&r).unwrap();
    store.put(node_with(4, "EV battery", "a later node that matches exactly", &[]));
    let second = store.query(&r).unwrap();
    let ids = |x: &QueryResponse| x.evidence.nodes.iter().map(|n| n.id).collect::<Vec<_>>();
    assert_eq!(ids(&first), ids(&second));
    assert_eq!(first.citations, second.citations);
    assert_eq!(first.snapshot_id, second.snapshot_id);
    assert_eq!(first.model_id, second.model_id);
}

#[test]
fn test_response_includes_latency_ms() {
    let store = policy_store();
    let r = request("energy", QueryMode::Evidence, SearchMode::Local, 3, 1);
    let state = store.repo.materialized();
    let response = execute_at(state, &no_summaries(), &r, "wal-lsn-1").unwrap();
    assert_eq!(response.latency_ms, 0);
    assert_eq!(response.model_id.as_deref(), Some(MODEL_ID));
}

#[test]
fn filters_keep_the_company_and_say_why_the_policy_is_left_out() {
    let mut state = MaterializedState::empty();
    state.put_node(node_with(
        1,
        "EV strategy",
        "A company note on EV strategy",
        &[("entity_type", "Company"), ("timestamp", "2024-03-10")],
    ));
    state.put_node(node_with(
        2,
        "EV strategy",
        "A policy note on EV strategy",
        &[("entity_type", "Policy"), ("timestamp", "2022-07-01")],
    ));
    let mut r = request("EV strategy", QueryMode::Evidence, SearchMode::Local, 10, 1);
    r.filters.entity_type = vec!["Company".to_string()];
    r.filters.time_range = Some(TimeRange {
        from: "2024-01-01".to_string(),
        to: "2024-12-31".to_string(),
    });
    let response = execute(&state, &no_summaries(), &r);
    let ids: Vec<u64> = response.evidence.nodes.iter().map(|n| n.id).collect();
    assert_eq!(ids, vec![1]);
    let reasons: Vec<&str> = response
        .explain
        .exclusions
        .iter()
        .filter(|x| x.node_id == Some(2))
        .map(|x| x.reason.as_str())
        .collect();
    assert_eq!(reasons, vec!["entity_type_filtered"]);
}

fn community(id: usize, node_ids: &[u64]) -> Community {
    Community { id, node_ids: node_ids.to_vec() }
}

fn three_communities() -> Vec<Community> {
    vec![community(0, &[1, 2]), community(1, &[3]), community(2, &[4])]
}

#[test]
fn absorb_adds_a_level_for_a_smaller_partition_that_lifts_to_nodes() {
    let mut builder = HierarchyBuilder::new(3, three_communities());
    assert!(builder.absorb(&vec![community(0, &[0, 1]), community(1, &[2])]));
    let levels = builder.finish();
    assert_eq!(levels.len(), 2);
    assert_eq!(levels[1].level, 1);
    assert_eq!(
        levels[1].communities,
        vec![community(0, &[1, 2, 3]), community(1, &[4])]
    );
}

#[test]
fn absorb_adds_no_level_otherwise() {
    let mut same_count = HierarchyBuilder::new(3, three_communities());
    assert!(!same_count.absorb(&vec![
        community(0, &[0]),
        community(1, &[1]),
        community(2, &[2]),
    ]));
    assert_eq!(same_count.finish().len(), 1);

    let mut empty = HierarchyBuilder::new(3, three_communities());
    assert!(!empty.absorb(&Vec::new()));
    assert_eq!(empty.finish().len(), 1);

    let mut names_nothing = HierarchyBuilder::new(3, three_communities());
    assert!(!names_nothing.absorb(&vec![community(0, &[7]), community(1, &[])]));
    assert_eq!(names_nothing.finish().len(), 1);

    let mut closed = HierarchyBuilder::new(1, three_communities());
    assert!(!closed.absorb(&vec![community(0, &[0, 1]), community(1, &[2])]));
    assert_eq!(closed.finish().len(), 1);

    let mut done = HierarchyBuilder::new(3, three_communities());
    assert!(done.absorb(&vec![community(0, &[0, 1, 2])]));
    assert!(done.super_graph(&Vec::new()).is_none());
    assert!(!done.absorb(&vec![community(0, &[0])]));
    assert_eq!(done.finish().len(), 2);
}

fn candidate(id: u64, hop: u8, data: &str, confidence: Option<&str>) -> Candidate {
    let mut node = Node::new(id, Vec::new(), data.to_string());
    node.metadata.insert("source".to_string(), format!("doc-{id}"));
    if let Some(c) = confidence {
        node.metadata.insert("confidence".to_string(), c.to_string());
    }
    Candidate { id, hop, anchor_score: 0, overlap: Overlap { shared: 0, total: 1 }, node }
}

#[test]
fn rank_candidates_keeps_ids_and_takes_the_stated_confidence() {
    let candidates = vec![candidate(3, 0, "three", None), candidate(8, 2, "eight", Some("0.5"))];
    let scores = vec![(0.25f32.to_bits(), None), (0.75f32.to_bits(), Some(0.5f32.to_bits()))];
    let ranked = rank_candidates(&candidates, &scores);
    assert_eq!(ranked.len(), 2);
    assert_eq!((ranked[0].id, ranked[0].hop, ranked[0].data.as_str()), (3, 0, "three"));
    assert_eq!(ranked[0].score, 0.25f32.to_bits());
    assert_eq!(ranked[0].confidence, 0.25f32.to_bits());
    assert_eq!(ranked[0].source.as_deref(), Some("doc-3"));
    assert_eq!((ranked[1].id, ranked[1].hop, ranked[1].data.as_str()), (8, 2, "eight"));
    assert_eq!(ranked[1].score, 0.75f32.to_bits());
    assert_eq!(ranked[1].confidence, 0.5f32.to_bits());
    assert!(rank_candidates(&Vec::new(), &Vec::new()).is_empty());
}

#[test]
fn evidence_holds_no_node_twice_and_no_pruned_node() {
    let candidates: Vec<Candidate> =
        (1..=6u64).map(|id| candidate(id, 0, "text", None)).collect();
    let scores: Vec<(u32, Option<u32>)> = [0.5f32, 0.9, 0.5, 0.1, 0.9, 0.3]
        .iter()
        .map(|s| (s.to_bits(), None))
        .collect();
    let scored = rank_candidates(&candidates, &scores);
    let state = MaterializedState::empty();
    let out = finish_execution(
        &state,
        &Vec::new(),
        &alayasiki::engine::Expansion {
            per_anchor: Vec::new(),
            candidate_hops: SortedMap::new(),
        },
        Vec::new(),
        scored,
        3,
        &SortedSet::new(),
    );
    let kept: Vec<u64> = out.nodes.iter().map(|n| n.id).collect();
    assert_eq!(kept, vec![2, 5, 1]);
    let pruned: Vec<(Option<u64>, &str)> =
        out.exclusions.iter().map(|x| (x.node_id, x.reason.as_str())).collect();
    assert_eq!(
        pruned,
        vec![
            (Some(3), "pruned_by_top_k"),
            (Some(4), "pruned_by_top_k"),
            (Some(6), "pruned_by_top_k"),
        ]
    );
}
