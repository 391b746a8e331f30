//! The query planner: the search mode, the breadth and the depth of a query.

use vstd::prelude::*;
use crate::dsl::{QueryRequest, SearchMode};
use crate::text::{contains_str, contains_text, lowercased, str_to_lowercase};

verus! {

/// The words that make a query ask for a global answer.
pub open spec fn global_keywords() -> Seq<Seq<char>> {
    seq![
        "全体"@,
        "主要テーマ"@,
        "総括"@,
        "包括"@,
        "俯瞰"@,
        "global"@,
        "overall"@,
        "theme"@,
        "themes"@,
        "summary"@,
    ]
}

/// The words that make a query ask for a global answer.
pub fn global_keyword_list() -> (v: Vec<&'static str>)
    ensures
        v@.len() == global_keywords().len(),
        forall|i: int| 0 <= i < v@.len() ==> (#[trigger] v@[i])@ == global_keywords()[i],
{
    let mut v: Vec<&'static str> = Vec::new();
    v.push("全体");
    v.push("主要テーマ");
    v.push("総括");
    v.push("包括");
    v.push("俯瞰");
    v.push("global");
    v.push("overall");
    v.push("theme");
    v.push("themes");
    v.push("summary");
    v
}

/// Whether the query text asks for a global answer: whether its lower-case
/// form holds the lower-case form of one of the global keywords.
pub open spec fn asks_global(query: Seq<char>) -> bool {
    exists|i: int|
        0 <= i < global_keywords().len() && contains_text(
            lowercased(query),
            lowercased(#[trigger] global_keywords()[i]),
        )
}

/// The search mode that `auto` stands for on `query`.
pub fn infer_auto_mode(query: &str) -> (m: SearchMode)
    ensures
        m == if asks_global(query@) {
            SearchMode::Global
        } else {
            SearchMode::Local
        },
{
    let normalized = str_to_lowercase(query);
    let keywords = global_keyword_list();
    let mut i: usize = 0;
    while i < keywords.len()
        invariant
            i <= keywords.len(),
            normalized@ == lowercased(query@),
            keywords@.len() == global_keywords().len(),
            forall|j: int| 0 <= j < keywords@.len() ==> (#[trigger] keywords@[j])@ == global_keywords()[j],
            forall|j: int|
                0 <= j < i ==> !contains_text(
                    lowercased(query@),
                    lowercased(#[trigger] global_keywords()[j]),
                ),
        decreases keywords.len() - i,
    {
        let keyword = str_to_lowercase(keywords[i]);
        if contains_str(normalized.as_str(), keyword.as_str()) {
            return SearchMode::Global;
        }
        i += 1;
    }
    SearchMode::Local
}

/// How a query is to be executed.
#[derive(Debug, Clone, PartialEq, Eq)]
pub struct QueryPlan {
    pub effective_search_mode: SearchMode,
    pub vector_top_k: usize,
    pub expansion_depth: u8,
    pub steps: Vec<String>,
}

/// The search mode that a request runs in: `auto` becomes global or local by
/// the words of the query.
pub open spec fn effective_mode(r: QueryRequest) -> SearchMode {
    match r.search_mode {
        SearchMode::Auto => if asks_global(r.query@) {
            SearchMode::Global
        } else {
            SearchMode::Local
        },
        mode => mode,
    }
}

/// The depth to which the graph is walked in mode `mode` for a requested depth
/// `depth`: at least 2 for global, one more than that and at most 8 for drift,
/// the requested depth (at least 1) otherwise.
pub open spec fn planned_depth(mode: SearchMode, depth: u8) -> int {
    let d = depth as int;
    match mode {
        SearchMode::Global => if d < 2 {
            2
        } else {
            d
        },
        SearchMode::Drift => {
            let base = if d < 2 {
                2
            } else {
                d
            };
            if base + 1 > 8 {
                8
            } else {
                base + 1
            }
        },
        _ => if d < 1 {
            1
        } else {
            d
        },
    }
}

/// The number of vector hits to fetch in mode `mode` for a requested `top_k`:
/// at least 10 for global, at least 5 for drift, at least 1 otherwise.
pub open spec fn planned_top_k(mode: SearchMode, top_k: usize) -> int {
    let least: int = match mode {
        SearchMode::Global => 10,
        SearchMode::Drift => 5,
        _ => 1,
    };
    if top_k < least {
        least
    } else {
        top_k as int
    }
}

/// The steps of the base plan.
pub open spec fn base_steps() -> Seq<Seq<char>> {
    seq!["vector_search"@, "graph_expansion"@, "context_pruning"@]
}

/// The step names of `steps`, as characters.
pub open spec fn step_texts(steps: Seq<String>) -> Seq<Seq<char>> {
    steps.map_values(|s: String| s@)
}

/// The step list made of the given names.
pub fn steps_of(names: &Vec<&'static str>) -> (steps: Vec<String>)
    ensures
        steps@.len() == names@.len(),
        forall|i: int| 0 <= i < steps@.len() ==> (#[trigger] steps@[i])@ == names@[i]@,
{
    let mut steps: Vec<String> = Vec::new();
    let mut i: usize = 0;
    while i < names.len()
        invariant
            i <= names.len(),
            steps@.len() == i,
            forall|j: int| 0 <= j < i ==> (#[trigger] steps@[j])@ == names@[j]@,
        decreases names.len() - i,
    {
        steps.push(names[i].to_owned());
        i += 1;
    }
    steps
}

/// The planner.
#[derive(Debug, Clone, Copy, PartialEq, Eq)]
pub struct QueryPlanner;

impl QueryPlanner {
    /// Plans the execution of `request`.
    pub fn plan(request: &QueryRequest) -> (p: QueryPlan)
        ensures
            p.effective_search_mode == effective_mode(*request),
            p.expansion_depth == planned_depth(
                effective_mode(*request),
                request.traversal.depth,
            ),
            p.vector_top_k == planned_top_k(effective_mode(*request), request.top_k),
            step_texts(p.steps@) == base_steps(),
    {
        let effective_search_mode = match request.search_mode {
            SearchMode::Auto => infer_auto_mode(request.query.as_str()),
            SearchMode::Local => SearchMode::Local,
            SearchMode::Global => SearchMode::Global,
            SearchMode::Drift => SearchMode::Drift,
        };
        let depth = request.traversal.depth;
        let expansion_depth: u8 = match effective_search_mode {
            SearchMode::Global => if depth < 2 {
                2
            } else {
                depth
            },
            SearchMode::Drift => {
                let base: u8 = if depth < 2 {
                    2
                } else {
                    depth
                };
                if base >= 8 {
                    8
                } else {
                    base + 1
                }
            },
            _ => if depth < 1 {
                1
            } else {
                depth
            },
        };
        let least: usize = match effective_search_mode {
            SearchMode::Global => 10,
            SearchMode::Drift => 5,
            _ => 1,
        };
        let vector_top_k = if request.top_k < least {
            least
        } else {
            request.top_k
        };
        let mut names: Vec<&'static str> = Vec::new();
        names.push("vector_search");
        names.push("graph_expansion");
        names.push("context_pruning");
        let steps = steps_of(&names);
        assert(step_texts(steps@) =~= base_steps());
        QueryPlan { effective_search_mode, vector_top_k, expansion_depth, steps }
    }
}

} // verus!
