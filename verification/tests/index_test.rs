use alayasiki::ann::{top_k, LinearAnnIndex};
use alayasiki::graph::AdjacencyGraph;
use alayasiki::hyper_index::HyperIndex;
use alayasiki::scalar::order_key_of;
use alayasiki::sorted_map::SortedSet;

fn bits(values: &[f32]) -> Vec<u32> {
    values.iter().map(|v| v.to_bits()).collect()
}

fn cosine(a: &[u32], b: &[u32]) -> f32 {
    if a.is_empty() || a.len() != b.len() {
        return 0.0;
    }
    let mut dot = 0.0f32;
    let mut na = 0.0f32;
    let mut nb = 0.0f32;
    for i in 0..a.len() {
        let x = f32::from_bits(a[i]);
        let y = f32::from_bits(b[i]);
        dot += x * y;
        na += x * x;
        nb += y * y;
    }
    if na == 0.0 || nb == 0.0 {
        0.0
    } else {
        dot / (na.sqrt() * nb.sqrt())
    }
}

fn similarities(index: &LinearAnnIndex, query: &[u32]) -> Vec<u32> {
    (0..index.len())
        .map(|i| cosine(query, index.embedding_at(i)).to_bits())
        .collect()
}

fn search(index: &LinearAnnIndex, query: &[f32], k: usize) -> Vec<(u64, u32)> {
    let q = bits(query);
    let sims = similarities(index, &q);
    index.search(&q, &sims, k)
}

#[test]
fn test_graph_1hop() {
    let mut graph = AdjacencyGraph::new();
    graph.add_edge(1, 2, "knows", 1.0f32.to_bits());
    graph.add_edge(1, 3, "likes", 0.8f32.to_bits());

    let neighbors = graph.neighbors(1);
    assert_eq!(neighbors.len(), 2);
}

#[test]
fn test_graph_2hop() {
    let mut graph = AdjacencyGraph::new();
    graph.add_edge(1, 2, "knows", 1.0f32.to_bits());
    graph.add_edge(2, 3, "knows", 1.0f32.to_bits());
    graph.add_edge(2, 4, "knows", 1.0f32.to_bits());

    let result = graph.neighbors_2hop(1);
    assert_eq!(result.len(), 3);

    let hop1: Vec<_> = result.iter().filter(|(_, h)| *h == 1).collect();
    let hop2: Vec<_> = result.iter().filter(|(_, h)| *h == 2).collect();

    assert_eq!(hop1.len(), 1);
    assert_eq!(hop2.len(), 2);
}

#[test]
fn test_graph_remove() {
    let mut graph = AdjacencyGraph::new();
    graph.add_edge(1, 2, "knows", 1.0f32.to_bits());
    graph.add_edge(2, 3, "knows", 1.0f32.to_bits());

    graph.remove_node(2);

    assert!(graph.neighbors(1).is_empty());
    assert!(graph.neighbors(2).is_empty());
}

#[test]
fn test_linear_ann_search() {
    let mut index = LinearAnnIndex::new();

    index.insert(1, bits(&[1.0, 0.0, 0.0]));
    index.insert(2, bits(&[0.0, 1.0, 0.0]));
    index.insert(3, bits(&[0.9, 0.1, 0.0]));

    let results = search(&index, &[1.0, 0.0, 0.0], 2);

    assert_eq!(results.len(), 2);
    assert_eq!(results[0].0, 1);
    assert_eq!(results[1].0, 3);
}

#[test]
fn test_linear_ann_delete() {
    let mut index = LinearAnnIndex::new();
    index.insert(1, bits(&[1.0, 0.0]));

    assert!(index.delete(1));
    assert!(!index.delete(1));
    assert!(index.is_empty());
}

#[test]
fn test_hyper_index_vector_graph() {
    let mut index = HyperIndex::new();

    index.insert_node(1, bits(&[1.0, 0.0]));
    index.insert_node(2, bits(&[0.0, 1.0]));
    index.insert_edge(1, 2, "related", 1.0f32.to_bits());

    let q = bits(&[1.0, 0.0]);
    let sims = similarities(index.vector_index(), &q);
    let results = index.search_vector(&q, &sims, 1);
    assert_eq!(results[0].0, 1);

    let neighbors = index.expand_graph(1, 1);
    assert_eq!(neighbors.len(), 1);
    assert_eq!(neighbors[0].0, 2);
}

#[test]
fn test_hyper_index_alias() {
    let mut index = HyperIndex::new();
    index.insert_node(1, bits(&[1.0]));
    index.register_alias("Alice", 1);

    assert_eq!(index.resolve_alias("Alice"), Some(1));
    assert_eq!(index.resolve_alias("Bob"), None);
}

#[test]
fn alias_is_replaced_by_a_later_registration() {
    let mut index = HyperIndex::new();
    index.register_alias("Alice", 1);
    index.register_alias("Alice", 9);
    assert_eq!(index.resolve_alias("Alice"), Some(9));
    assert_eq!(index.resolve_alias("alice"), None);
}

#[test]
fn search_breaks_ties_by_lower_id_and_honours_k() {
    let mut index = LinearAnnIndex::new();
    index.insert(7, bits(&[1.0, 0.0]));
    index.insert(3, bits(&[2.0, 0.0]));
    index.insert(5, bits(&[0.0, 1.0]));
    let all = search(&index, &[1.0, 0.0], 10);
    let ids: Vec<u64> = all.iter().map(|p| p.0).collect();
    assert_eq!(ids, vec![3, 7, 5]);
    assert_eq!(f32::from_bits(all[0].1), 1.0);
    assert_eq!(f32::from_bits(all[2].1), 0.0);
    assert!(search(&index, &[1.0, 0.0], 0).is_empty());
    assert_eq!(search(&index, &[1.0, 0.0], 1), vec![(3, 1.0f32.to_bits())]);
}

#[test]
fn search_scores_zero_on_dimension_mismatch_or_empty_query() {
    let mut index = LinearAnnIndex::new();
    index.insert(1, bits(&[1.0, 0.0]));
    index.insert(2, bits(&[1.0, 0.0, 0.0]));
    let q = bits(&[1.0, 0.0]);
    let handed = vec![0.5f32.to_bits(), 0.75f32.to_bits()];
    assert_eq!(
        index.search(&q, &handed, 5),
        vec![(1, 0.5f32.to_bits()), (2, 0)]
    );
    let empty: Vec<u32> = Vec::new();
    assert_eq!(index.search(&empty, &handed, 5), vec![(1, 0), (2, 0)]);
}

#[test]
fn insert_replaces_an_embedding() {
    let mut index = LinearAnnIndex::new();
    index.insert(1, bits(&[1.0]));
    index.insert(1, bits(&[2.0, 3.0]));
    assert_eq!(index.len(), 1);
    assert_eq!(index.get(1), Some(&bits(&[2.0, 3.0])));
    assert_eq!(index.get(2), None);
    assert_eq!(index.id_at(0), 1);
}

#[test]
fn top_k_orders_negative_scores_below_positive() {
    let scored = vec![
        (1, (-0.5f32).to_bits()),
        (2, 0.25f32.to_bits()),
        (3, (-0.75f32).to_bits()),
        (4, 0.25f32.to_bits()),
    ];
    let out = top_k(&scored, 3);
    let ids: Vec<u64> = out.iter().map(|p| p.0).collect();
    assert_eq!(ids, vec![2, 4, 1]);
}

#[test]
fn order_key_follows_the_numeric_order() {
    let values = [-2.0f32, -1.0, -0.0, 0.0, 0.5, 1.0, 3.5];
    for w in values.windows(2) {
        assert!(order_key_of(w[0].to_bits()) <= order_key_of(w[1].to_bits()));
    }
    assert!(order_key_of((-1.0f32).to_bits()) < order_key_of(1.0f32.to_bits()));
    assert!(order_key_of(0.5f32.to_bits()) < order_key_of(0.75f32.to_bits()));
}

#[test]
fn add_edge_keeps_parallel_edges_and_upsert_replaces_them() {
    let mut graph = AdjacencyGraph::new();
    graph.add_edge(1, 2, "knows", 1.0f32.to_bits());
    graph.add_edge(1, 2, "knows", 2.0f32.to_bits());
    assert_eq!(graph.neighbors(1).len(), 2);
    graph.upsert_edge(1, 2, "knows", 3.0f32.to_bits());
    assert_eq!(
        graph.neighbors(1),
        vec![(2, "knows".to_string(), 3.0f32.to_bits())]
    );
    graph.add_edge(1, 2, "likes", 4.0f32.to_bits());
    graph.upsert_edge(1, 2, "knows", 5.0f32.to_bits());
    assert_eq!(
        graph.neighbors(1),
        vec![
            (2, "likes".to_string(), 4.0f32.to_bits()),
            (2, "knows".to_string(), 5.0f32.to_bits()),
        ]
    );
    assert_eq!(graph.edge_count(), 2);
}

#[test]
fn remove_edge_drops_all_edges_between_two_nodes() {
    let mut graph = AdjacencyGraph::new();
    graph.add_edge(1, 2, "a", 0);
    graph.add_edge(1, 2, "b", 0);
    graph.add_edge(1, 3, "c", 0);
    assert!(graph.remove_edge(1, 2));
    assert!(!graph.remove_edge(1, 2));
    assert!(!graph.remove_edge(9, 2));
    assert_eq!(graph.neighbors(1), vec![(3, "c".to_string(), 0)]);
}

#[test]
fn node_ids_and_edges_are_sorted() {
    let mut graph = AdjacencyGraph::new();
    graph.add_edge(5, 1, "x", 10);
    graph.add_edge(2, 9, "y", 20);
    graph.add_edge(2, 3, "z", 30);
    assert_eq!(graph.node_ids(), vec![1, 2, 3, 5, 9]);
    assert_eq!(graph.node_count(), 5);
    assert_eq!(graph.edges(), vec![(2, 3, 30), (2, 9, 20), (5, 1, 10)]);
    assert!(graph.contains_node(9));
    assert!(!graph.contains_node(4));
}

#[test]
fn expand_visits_each_node_once_at_its_first_hop() {
    let mut graph = AdjacencyGraph::new();
    graph.add_edge(1, 2, "r", 0);
    graph.add_edge(1, 3, "r", 0);
    graph.add_edge(2, 3, "r", 0);
    graph.add_edge(3, 1, "r", 0);
    graph.add_edge(3, 4, "r", 0);
    graph.add_edge(4, 5, "r", 0);
    assert_eq!(graph.expand(1, 2), vec![(2, 1), (3, 1), (4, 2)]);
    assert_eq!(graph.expand(1, 3), vec![(2, 1), (3, 1), (4, 2), (5, 3)]);
    assert!(graph.expand(1, 0).is_empty());
    assert!(graph.expand(42, 3).is_empty());
}

#[test]
fn traverse_follows_only_allowed_relations() {
    let mut graph = AdjacencyGraph::new();
    graph.add_edge(1, 2, "knows", 0);
    graph.add_edge(1, 3, "likes", 0);
    graph.add_edge(2, 4, "knows", 0);
    graph.add_edge(3, 5, "knows", 0);
    let mut filter = SortedSet::new();
    filter.insert("knows".to_string());
    let visits = graph.traverse(1, 3, &filter);
    let seen: Vec<(u64, u8, usize)> = visits.iter().map(|v| (v.node, v.hop, v.parent)).collect();
    assert_eq!(seen, vec![(2, 1, 0), (4, 2, 1)]);
    let open = graph.traverse(1, 3, &SortedSet::new());
    assert_eq!(open.len(), 4);
}

#[test]
fn removing_a_node_from_the_index_drops_its_edges_and_embedding() {
    let mut index = HyperIndex::new();
    index.insert_node(1, bits(&[1.0]));
    index.insert_node(2, bits(&[1.0]));
    index.insert_edge(1, 2, "r", 0);
    index.insert_edge(2, 1, "r", 0);
    index.remove_node(2);
    assert_eq!(index.vector_index().len(), 1);
    assert_eq!(index.graph_index().edge_count(), 0);
    assert!(index.expand_graph(1, 2).is_empty());
}

#[test]
fn expand_lists_the_nodes_of_one_distance_by_parent_and_stored_edge() {
    let mut graph = AdjacencyGraph::new();
    graph.add_edge(1, 2, "r", 0);
    graph.add_edge(2, 3, "r", 0);
    graph.add_edge(2, 4, "r", 0);
    graph.add_edge(3, 1, "r", 0);
    assert_eq!(graph.expand(1, 2), vec![(2, 1), (3, 2), (4, 2)]);

    let mut stored = AdjacencyGraph::new();
    stored.add_edge(1, 2, "r", 0);
    stored.add_edge(2, 4, "r", 0);
    stored.add_edge(2, 3, "r", 0);
    assert_eq!(stored.expand(1, 2), vec![(2, 1), (4, 2), (3, 2)]);
}

#[test]
fn traverse_puts_a_node_under_the_first_place_that_reaches_it() {
    let mut graph = AdjacencyGraph::new();
    graph.add_edge(1, 3, "r", 0);
    graph.add_edge(1, 2, "r", 0);
    graph.add_edge(2, 5, "r", 0);
    graph.add_edge(3, 5, "r", 0);
    graph.add_edge(3, 4, "r", 0);
    graph.add_edge(2, 6, "r", 0);
    let visits = graph.traverse(1, 2, &SortedSet::new());
    let seen: Vec<(u64, u8, usize)> = visits.iter().map(|v| (v.node, v.hop, v.parent)).collect();
    assert_eq!(seen, vec![(3, 1, 0), (2, 1, 0), (5, 2, 1), (4, 2, 1), (6, 2, 2)]);
}
