//! Global search: ranking the community summaries against a query and
//! reducing the best of them to an answer.

use vstd::prelude::*;
use crate::community::CommunitySummary;
use crate::dsl::QueryRequest;
use crate::engine::{collect_relation_filter, exclusion_of, string_set, text_set};
use crate::model::NodeView;
use crate::ordered::Ranked;
use crate::sorted_map::SortedSet;
use crate::sorting::{lemma_stable_sort, sort_by_key, stable_sort};
use crate::state::MaterializedState;
use crate::text::{
    decimal_of, join_strs, joined, lowercased, str_to_lowercase, texts_of, u64_to_decimal,
};
use crate::tokens::{lexical_overlap, overlap_of, token_set, tokenize_simple, Overlap};

verus! {

/// The greatest number of community summaries in a global answer.
pub const MAX_GLOBAL_COMMUNITIES: usize = 5;

/// How well the summary text `summary` matches `query`: the overlap of the
/// tokens of their lower-case forms.
pub open spec fn summary_score(query: Seq<char>, summary: Seq<char>) -> (int, int) {
    overlap_of(token_set(lowercased(query)), token_set(lowercased(summary)))
}

/// Scores a community summary against a query by the words that they share:
/// the Jaccard overlap of their tokens.
pub fn score_community_summary(query: &str, summary: &CommunitySummary) -> (r: Overlap)
    ensures
        r.total >= 1,
        r.shared <= r.total,
        (r.shared as int, r.total as int) == summary_score(query@, summary.summary@),
{
    let query_lower = str_to_lowercase(query);
    let summary_lower = str_to_lowercase(summary.summary.as_str());
    let query_tokens = tokenize_simple(query_lower.as_str());
    let summary_tokens = tokenize_simple(summary_lower.as_str());
    lexical_overlap(&query_tokens, &summary_tokens)
}

/// The rank of a scored summary: the score as a fraction, and the number of
/// the community.
#[derive(Debug, Clone, Copy, PartialEq, Eq)]
pub struct SummaryKey {
    pub shared: usize,
    pub total: usize,
    pub community_id: usize,
}

impl View for SummaryKey {
    type V = SummaryKey;

    open spec fn view(&self) -> SummaryKey {
        *self
    }
}

/// The numerator of the score of `k`.
pub open spec fn score_num(k: SummaryKey) -> int {
    if k.total == 0 {
        0
    } else {
        k.shared as int
    }
}

/// The denominator of the score of `k`; never zero.
pub open spec fn score_den(k: SummaryKey) -> int {
    if k.total == 0 {
        1
    } else {
        k.total as int
    }
}

/// Whether the score of `a` is greater than that of `b`, as fractions.
pub open spec fn scores_above(a: SummaryKey, b: SummaryKey) -> bool {
    score_num(a) * score_den(b) > score_num(b) * score_den(a)
}

/// Whether the scores of `a` and `b` are equal, as fractions.
pub open spec fn scores_alike(a: SummaryKey, b: SummaryKey) -> bool {
    score_num(a) * score_den(b) == score_num(b) * score_den(a)
}

/// Comparing fractions with positive denominators chains.
proof fn lemma_fraction_order(an: int, ad: int, bn: int, bd: int, cn: int, cd: int)
    requires
        ad > 0,
        bd > 0,
        cd > 0,
        an >= 0,
        bn >= 0,
        cn >= 0,
    ensures
        an * bd > bn * ad && bn * cd >= cn * bd ==> an * cd > cn * ad,
        an * bd >= bn * ad && bn * cd > cn * bd ==> an * cd > cn * ad,
        an * bd == bn * ad && bn * cd == cn * bd ==> an * cd == cn * ad,
{
    assert(an * bd > bn * ad && bn * cd >= cn * bd ==> an * cd > cn * ad) by (nonlinear_arith)
        requires
            ad > 0,
            bd > 0,
            cd > 0,
            an >= 0,
            bn >= 0,
            cn >= 0,
    {
        if an * bd > bn * ad && bn * cd >= cn * bd {
            assert(an * bd * cd > bn * ad * cd);
            assert(bn * cd * ad >= cn * bd * ad);
            assert(an * cd * bd > cn * ad * bd);
        }
    }
    assert(an * bd >= bn * ad && bn * cd > cn * bd ==> an * cd > cn * ad) by (nonlinear_arith)
        requires
            ad > 0,
            bd > 0,
            cd > 0,
            an >= 0,
            bn >= 0,
            cn >= 0,
    {
        if an * bd >= bn * ad && bn * cd > cn * bd {
            assert(an * bd * cd >= bn * ad * cd);
            assert(bn * cd * ad > cn * bd * ad);
            assert(an * cd * bd > cn * ad * bd);
        }
    }
    assert(an * bd == bn * ad && bn * cd == cn * bd ==> an * cd == cn * ad) by (nonlinear_arith)
        requires
            ad > 0,
            bd > 0,
            cd > 0,
            an >= 0,
            bn >= 0,
            cn >= 0,
    {
        if an * bd == bn * ad && bn * cd == cn * bd {
            assert(an * bd * cd == bn * ad * cd);
            assert(bn * cd * ad == cn * bd * ad);
            assert(an * cd * bd == cn * ad * bd);
        }
    }
}

impl Ranked for SummaryKey {
    open spec fn key_lt(a: SummaryKey, b: SummaryKey) -> bool {
        scores_above(a, b) || (scores_alike(a, b) && a.community_id < b.community_id)
    }

    proof fn lemma_irreflexive(a: SummaryKey) {
    }

    proof fn lemma_transitive(a: SummaryKey, b: SummaryKey, c: SummaryKey) {
        lemma_fraction_order(
            score_num(a),
            score_den(a),
            score_num(b),
            score_den(b),
            score_num(c),
            score_den(c),
        );
    }

    fn less(&self, other: &Self) -> (r: bool) {
        let an: u128 = if self.total == 0 {
            0
        } else {
            self.shared as u128
        };
        let ad: u128 = if self.total == 0 {
            1
        } else {
            self.total as u128
        };
        let bn: u128 = if other.total == 0 {
            0
        } else {
            other.shared as u128
        };
        let bd: u128 = if other.total == 0 {
            1
        } else {
            other.total as u128
        };
        assert(an * bd <= u128::MAX && bn * ad <= u128::MAX) by (nonlinear_arith)
            requires
                an <= 0xffff_ffff_ffff_ffff,
                ad <= 0xffff_ffff_ffff_ffff,
                bn <= 0xffff_ffff_ffff_ffff,
                bd <= 0xffff_ffff_ffff_ffff,
        ;
        let left = an * bd;
        let right = bn * ad;
        left > right || (left == right && self.community_id < other.community_id)
    }
}

/// The scored summaries `s` as items to sort.
pub open spec fn keyed_summaries(query: Seq<char>, s: Seq<CommunitySummary>) -> Seq<
    (SummaryKey, usize),
> {
    Seq::new(
        s.len(),
        |i: int|
            (
                SummaryKey {
                    shared: summary_score(query, s[i].summary@).0 as usize,
                    total: summary_score(query, s[i].summary@).1 as usize,
                    community_id: s[i].community_id,
                },
                i as usize,
            ),
    )
}

/// A summary with its score, by its place among the summaries.
#[derive(Debug, Clone, Copy, PartialEq, Eq)]
pub struct RankedSummary {
    /// The place of the summary in the list that was ranked.
    pub index: usize,
    pub score: Overlap,
}

/// The summaries `s` ranked against the query: by score, highest first, then
/// by the number of the community; summaries that rank alike keep their order.
pub open spec fn ranking_of(query: Seq<char>, s: Seq<CommunitySummary>) -> Seq<RankedSummary> {
    let sorted = stable_sort(keyed_summaries(query, s));
    Seq::new(
        sorted.len(),
        |i: int|
            RankedSummary {
                index: sorted[i].1,
                score: Overlap { shared: sorted[i].0.shared, total: sorted[i].0.total },
            },
    )
}

/// Scores every summary against the query and ranks them: by score, highest
/// first, then by the number of the community; summaries that rank alike keep
/// their order.
pub fn map_community_summaries(query: &str, summaries: &Vec<CommunitySummary>) -> (ranked: Vec<
    RankedSummary,
>)
    ensures
        ranked@ == ranking_of(query@, summaries@),
        ranked@.len() == summaries@.len(),
        stable_sort(keyed_summaries(query@, summaries@)).len() == summaries@.len(),
        forall|i: int|
            0 <= i < ranked@.len() ==> {
                let item = #[trigger] stable_sort(keyed_summaries(query@, summaries@))[i];
                &&& ranked@[i].index == item.1
                &&& ranked@[i].index < summaries@.len()
                &&& ranked@[i].score.shared == item.0.shared
                &&& ranked@[i].score.total == item.0.total
                &&& (ranked@[i].score.shared as int, ranked@[i].score.total as int)
                    == summary_score(query@, summaries@[item.1 as int].summary@)
            },
{
    let mut items: Vec<(SummaryKey, usize)> = Vec::new();
    let mut i: usize = 0;
    while i < summaries.len()
        invariant
            i <= summaries.len(),
            items@ == keyed_summaries(query@, summaries@).take(i as int),
            forall|j: int|
                0 <= j < i ==> ((#[trigger] items@[j]).0.shared as int, items@[j].0.total as int)
                    == summary_score(query@, summaries@[j].summary@) && items@[j].1 == j,
        decreases summaries.len() - i,
    {
        let score = score_community_summary(query, &summaries[i]);
        items.push(
            (
                SummaryKey {
                    shared: score.shared,
                    total: score.total,
                    community_id: summaries[i].community_id,
                },
                i,
            ),
        );
        i += 1;
        assert(items@ =~= keyed_summaries(query@, summaries@).take(i as int));
    }
    let ghost unsorted = keyed_summaries(query@, summaries@);
    assert(unsorted.take(summaries.len() as int) =~= unsorted);
    assert(items@ == unsorted);
    proof {
        lemma_stable_sort(unsorted);
        crate::sorting::lemma_sort_same_items(unsorted);
    }
    let sorted = sort_by_key(items);
    let mut ranked: Vec<RankedSummary> = Vec::new();
    let mut k: usize = 0;
    while k < sorted.len()
        invariant
            k <= sorted.len(),
            ranked@.len() == k,
            forall|j: int|
                0 <= j < k ==> (#[trigger] ranked@[j]).index == sorted@[j].1
                    && ranked@[j].score.shared == sorted@[j].0.shared && ranked@[j].score.total
                    == sorted@[j].0.total,
        decreases sorted.len() - k,
    {
        let item = sorted[k];
        ranked.push(
            RankedSummary {
                index: item.1,
                score: Overlap { shared: item.0.shared, total: item.0.total },
            },
        );
        k += 1;
    }
    proof {
        assert forall|j: int| 0 <= j < ranked@.len() implies {
            let item = #[trigger] sorted@[j];
            &&& ranked@[j].index < summaries@.len()
            &&& (ranked@[j].score.shared as int, ranked@[j].score.total as int) == summary_score(
                query@,
                summaries@[item.1 as int].summary@,
            )
        } by {
            let item = sorted@[j];
            assert(sorted@.contains(item));
            assert(unsorted.contains(item));
            let q = choose|q: int| 0 <= q < unsorted.len() && unsorted[q] == item;
            assert(item.1 == q);
            assert((unsorted[q].0.shared as int, unsorted[q].0.total as int) == summary_score(
                query@,
                summaries@[q].summary@,
            ));
        }
        assert(ranked@ =~= ranking_of(query@, summaries@));
    }
    ranked
}

/// The line of a summary in a global answer.
pub open spec fn summary_line(s: CommunitySummary) -> Seq<char> {
    "[Community L"@ + decimal_of(s.level as nat) + "-C"@ + decimal_of(s.community_id as nat)
        + "] "@ + s.summary@
}

/// The lines of the first `n` of the ranked summaries, or of all where there
/// are fewer.
pub open spec fn top_lines(
    summaries: Seq<CommunitySummary>,
    ranked: Seq<RankedSummary>,
    n: int,
) -> Seq<Seq<char>> {
    let m = if ranked.len() < n {
        ranked.len() as int
    } else {
        n
    };
    Seq::new(m as nat, |i: int| summary_line(summaries[ranked[i].index as int]))
}

/// The global answer from the ranked summaries.
pub open spec fn global_answer_text(
    query: Seq<char>,
    summaries: Seq<CommunitySummary>,
    ranked: Seq<RankedSummary>,
    max_summaries: usize,
) -> Seq<char> {
    let lines = top_lines(summaries, ranked, max_summaries as int);
    if lines.len() == 0 {
        "No community-level evidence found for query: "@ + query
    } else {
        "Global synthesis from "@ + decimal_of(lines.len()) + " community summaries: "@ + joined(
            lines,
            " | "@,
        )
    }
}

/// Reduces the best of the ranked summaries to one answer: at most
/// `max_summaries` of them, each on a line that names its level and its
/// community.
pub fn reduce_community_summaries(
    query: &str,
    summaries: &Vec<CommunitySummary>,
    ranked: &Vec<RankedSummary>,
    max_summaries: usize,
) -> (answer: String)
    requires
        forall|i: int| 0 <= i < ranked@.len() ==> (#[trigger] ranked@[i]).index < summaries@.len(),
    ensures
        answer@ == global_answer_text(query@, summaries@, ranked@, max_summaries),
{
    let m = if ranked.len() < max_summaries {
        ranked.len()
    } else {
        max_summaries
    };
    if m == 0 {
        let mut answer = "No community-level evidence found for query: ".to_owned();
        answer.append(query);
        return answer;
    }
    let mut lines: Vec<String> = Vec::new();
    let mut i: usize = 0;
    while i < m
        invariant
            i <= m <= ranked.len(),
            forall|j: int| 0 <= j < ranked@.len() ==> (#[trigger] ranked@[j]).index < summaries@.len(),
            lines@.len() == i,
            forall|j: int|
                0 <= j < i ==> (#[trigger] lines@[j])@ == summary_line(
                    summaries@[ranked@[j].index as int],
                ),
        decreases m - i,
    {
        let s = &summaries[ranked[i].index];
        let mut line = "[Community L".to_owned();
        line.append(u64_to_decimal(s.level as u64).as_str());
        line.append("-C");
        line.append(u64_to_decimal(s.community_id as u64).as_str());
        line.append("] ");
        line.append(s.summary.as_str());
        lines.push(line);
        i += 1;
    }
    assert(texts_of(lines@) =~= top_lines(summaries@, ranked@, max_summaries as int));
    let mut answer = "Global synthesis from ".to_owned();
    answer.append(u64_to_decimal(m as u64).as_str());
    answer.append(" community summaries: ");
    answer.append(join_strs(&lines, " | ").as_str());
    answer
}

/// The top nodes of the first `n` ranked summaries, in order.
pub open spec fn ranked_top_nodes(
    summaries: Seq<CommunitySummary>,
    ranked: Seq<RankedSummary>,
    n: int,
) -> Seq<u64>
    decreases n,
{
    if n <= 0 || ranked.len() == 0 {
        Seq::empty()
    } else if n > ranked.len() {
        ranked_top_nodes(summaries, ranked, ranked.len() as int)
    } else {
        ranked_top_nodes(summaries, ranked, n - 1) + summaries[ranked[n - 1].index as int].top_nodes@
    }
}

/// The first occurrences of the ids of `s`, in order.
pub open spec fn first_occurrences(s: Seq<u64>) -> Seq<u64>
    decreases s.len(),
{
    if s.len() == 0 {
        Seq::empty()
    } else {
        let head = first_occurrences(s.drop_last());
        if head.contains(s.last()) {
            head
        } else {
            head.push(s.last())
        }
    }
}

/// The top nodes of the best `max_communities` ranked summaries, each once,
/// in the order in which they first occur.
pub fn collect_global_node_ids(
    summaries: &Vec<CommunitySummary>,
    ranked: &Vec<RankedSummary>,
    max_communities: usize,
) -> (ids: Vec<u64>)
    requires
        forall|i: int| 0 <= i < ranked@.len() ==> (#[trigger] ranked@[i]).index < summaries@.len(),
    ensures
        ids@ == first_occurrences(ranked_top_nodes(summaries@, ranked@, max_communities as int)),
{
    let m = if ranked.len() < max_communities {
        ranked.len()
    } else {
        max_communities
    };
    let mut ids: Vec<u64> = Vec::new();
    let mut seen: SortedSet<u64> = SortedSet::new();
    let mut i: usize = 0;
    let ghost mut all: Seq<u64> = Seq::empty();
    while i < m
        invariant
            i <= m <= ranked.len(),
            forall|j: int| 0 <= j < ranked@.len() ==> (#[trigger] ranked@[j]).index < summaries@.len(),
            all == ranked_top_nodes(summaries@, ranked@, i as int),
            ids@ == first_occurrences(all),
            forall|x: u64| seen@.contains(x) <==> ids@.contains(x),
        decreases m - i,
    {
        let list = &summaries[ranked[i].index].top_nodes;
        let ghost base = all;
        let mut k: usize = 0;
        assert(base + list@.take(0) =~= base);
        while k < list.len()
            invariant
                k <= list.len(),
                all == base + list@.take(k as int),
                ids@ == first_occurrences(all),
                forall|x: u64| seen@.contains(x) <==> ids@.contains(x),
            decreases list.len() - k,
        {
            let id = list[k];
            let ghost ib = ids@;
            proof {
                let next = base + list@.take(k + 1);
                assert(next.drop_last() =~= all);
                assert(next.last() == id);
                all = next;
            }
            if seen.insert(id) {
                ids.push(id);
                proof {
                    assert forall|x: u64| seen@.contains(x) <==> ids@.contains(x) by {
                        if ids@.contains(x) {
                            let j = choose|j: int| 0 <= j < ids@.len() && ids@[j] == x;
                            if j < ib.len() {
                                assert(ib[j] == x);
                                assert(ib.contains(x));
                            }
                        }
                        if ib.contains(x) {
                            let j = choose|j: int| 0 <= j < ib.len() && ib[j] == x;
                            assert(ids@[j] == x);
                        }
                        if x == id {
                            assert(ids@[ib.len() as int] == id);
                        }
                    }
                }
            }
            k += 1;
        }
        proof {
            assert(list@.take(list.len() as int) =~= list@);
        }
        i += 1;
    }
    proof {
        if max_communities > ranked@.len() && ranked@.len() > 0 {
            assert(ranked_top_nodes(summaries@, ranked@, max_communities as int)
                == ranked_top_nodes(summaries@, ranked@, ranked@.len() as int));
        }
    }
    ids
}

/// Whether a top node of the summary `s` is a stored node that passes the
/// filters.
pub open spec fn summary_passes(
    nodes: Map<u64, NodeView>,
    entity_filter: Set<Seq<char>>,
    time_range: Option<(i32, i32)>,
    now: u64,
    s: CommunitySummary,
) -> bool {
    exists|k: int|
        0 <= k < s.top_nodes@.len() && nodes.contains_key(#[trigger] s.top_nodes@[k])
            && exclusion_of(nodes[s.top_nodes@[k]].metadata, entity_filter, time_range, now)
            is None
}

/// Whether the ranked summary `r` is relevant: its score is above zero and one
/// of its top nodes passes the filters.
pub open spec fn is_relevant(
    nodes: Map<u64, NodeView>,
    summaries: Seq<CommunitySummary>,
    entity_filter: Set<Seq<char>>,
    time_range: Option<(i32, i32)>,
    now: u64,
    r: RankedSummary,
) -> bool {
    r.score.shared > 0 && summary_passes(
        nodes,
        entity_filter,
        time_range,
        now,
        summaries[r.index as int],
    )
}

/// The ranked summaries that are relevant, in order. With a relation filter no
/// summary is relevant: summaries say nothing of the relations of edges.
pub fn select_relevant_summaries(
    state: &MaterializedState,
    summaries: &Vec<CommunitySummary>,
    ranked: &Vec<RankedSummary>,
    entity_filter: &SortedSet<String>,
    time_range: Option<(i32, i32)>,
    now_unix: u64,
    relation_filter_empty: bool,
) -> (out: Vec<RankedSummary>)
    requires
        forall|i: int| 0 <= i < ranked@.len() ==> (#[trigger] ranked@[i]).index < summaries@.len(),
    ensures
        out@ == (if relation_filter_empty {
            ranked@.filter(
                |r: RankedSummary|
                    is_relevant(state@.nodes, summaries@, entity_filter@, time_range, now_unix, r),
            )
        } else {
            Seq::empty()
        }),
        forall|i: int| 0 <= i < out@.len() ==> (#[trigger] out@[i]).index < summaries@.len(),
{
    let mut out: Vec<RankedSummary> = Vec::new();
    if !relation_filter_empty {
        return out;
    }
    let ghost pred = |r: RankedSummary|
        is_relevant(state@.nodes, summaries@, entity_filter@, time_range, now_unix, r);
    let mut i: usize = 0;
    proof {
        crate::seqs::lemma_filter_bounds(ranked@, pred);
    }
    while i < ranked.len()
        invariant
            i <= ranked.len(),
            forall|j: int| 0 <= j < ranked@.len() ==> (#[trigger] ranked@[j]).index < summaries@.len(),
            pred == (|r: RankedSummary|
                is_relevant(state@.nodes, summaries@, entity_filter@, time_range, now_unix, r)),
            out@ == ranked@.take(i as int).filter(pred),
            forall|j: int| 0 <= j < out@.len() ==> (#[trigger] out@[j]).index < summaries@.len(),
        decreases ranked.len() - i,
    {
        let r = ranked[i];
        let s = &summaries[r.index];
        let mut passes = false;
        if r.score.shared > 0 {
            let mut k: usize = 0;
            while k < s.top_nodes.len()
                invariant
                    k <= s.top_nodes.len(),
                    passes ==> summary_passes(
                        state@.nodes,
                        entity_filter@,
                        time_range,
                        now_unix,
                        *s,
                    ),
                    !passes ==> forall|j: int|
                        0 <= j < k ==> !(state@.nodes.contains_key(#[trigger] s.top_nodes@[j])
                            && exclusion_of(
                            state@.nodes[s.top_nodes@[j]].metadata,
                            entity_filter@,
                            time_range,
                            now_unix,
                        ) is None),
                decreases s.top_nodes.len() - k,
            {
                match state.get_node(s.top_nodes[k]) {
                    Some(node) => {
                        if crate::engine::node_passes_filters(
                            &node,
                            entity_filter,
                            time_range,
                            now_unix,
                        ) {
                            passes = true;
                        }
                    },
                    None => {},
                }
                k += 1;
            }
        }
        proof {
            crate::seqs::lemma_filter_step(ranked@, pred, i as int);
        }
        if passes {
            out.push(r);
        }
        i += 1;
    }
    proof {
        crate::seqs::lemma_filter_bounds(ranked@, pred);
    }
    out
}

/// What the global synthesis gives: an answer from the relevant summaries, or
/// the reason for which there is none.
pub fn global_synthesis(
    query: &str,
    summaries: &Vec<CommunitySummary>,
    relevant: &Vec<RankedSummary>,
    relation_filter_empty: bool,
) -> (r: Result<String, String>)
    requires
        forall|i: int| 0 <= i < relevant@.len() ==> (#[trigger] relevant@[i]).index < summaries@.len(),
    ensures
        match r {
            Ok(answer) => relevant@.len() > 0 && answer@ == global_answer_text(
                query@,
                summaries@,
                relevant@,
                MAX_GLOBAL_COMMUNITIES,
            ),
            Err(reason) => relevant@.len() == 0 && reason@ == (if relation_filter_empty {
                "global_no_relevant_community_summary"@
            } else {
                "global_summary_disabled_by_relation_filter"@
            }),
        },
{
    if relevant.len() == 0 {
        if relation_filter_empty {
            return Err("global_no_relevant_community_summary".to_owned());
        }
        return Err("global_summary_disabled_by_relation_filter".to_owned());
    }
    Ok(reduce_community_summaries(query, summaries, relevant, MAX_GLOBAL_COMMUNITIES))
}

/// The ranked summaries of a global search that are relevant to the request.
pub open spec fn relevant_of(
    nodes: Map<u64, NodeView>,
    request: QueryRequest,
    summaries: Seq<CommunitySummary>,
    time_range: Option<(i32, i32)>,
    now: u64,
) -> Seq<RankedSummary> {
    if relation_filter_of(request) == Set::<Seq<char>>::empty() {
        ranking_of(request.query@, summaries).filter(
            |r: RankedSummary|
                is_relevant(
                    nodes,
                    summaries,
                    text_set(request.filters.entity_type@),
                    time_range,
                    now,
                    r,
                ),
        )
    } else {
        Seq::empty()
    }
}

/// The relations that the request allows, from its filters and its traversal.
pub open spec fn relation_filter_of(request: QueryRequest) -> Set<Seq<char>> {
    text_set(request.filters.relation_type@).union(text_set(request.traversal.relation_types@))
}

/// The map-reduce step of a global search over `state`: ranks the summaries
/// against the query, keeps the relevant ones and synthesizes the answer from
/// the best of them, or gives the reason for which there is no answer.
pub fn synthesize_global(
    state: &MaterializedState,
    request: &QueryRequest,
    summaries: &Vec<CommunitySummary>,
    time_range: Option<(i32, i32)>,
    now_unix: u64,
) -> (r: Result<String, String>)
    ensures
        match r {
            Ok(answer) => {
                let relevant = relevant_of(state@.nodes, *request, summaries@, time_range, now_unix);
                relevant.len() > 0 && answer@ == global_answer_text(
                    request.query@,
                    summaries@,
                    relevant,
                    MAX_GLOBAL_COMMUNITIES,
                )
            },
            Err(reason) => relevant_of(state@.nodes, *request, summaries@, time_range, now_unix).len()
                == 0 && reason@ == (if relation_filter_of(*request) == Set::<Seq<char>>::empty() {
                "global_no_relevant_community_summary"@
            } else {
                "global_summary_disabled_by_relation_filter"@
            }),
        },
{
    let ranked = map_community_summaries(request.query.as_str(), summaries);
    let entity_filter = string_set(&request.filters.entity_type);
    let relation_filter = collect_relation_filter(request);
    let open = relation_filter.is_empty();
    let relevant = select_relevant_summaries(
        state,
        summaries,
        &ranked,
        &entity_filter,
        time_range,
        now_unix,
        open,
    );
    global_synthesis(request.query.as_str(), summaries, &relevant, open)
}

} // verus!
