//! The semantic cache: answers are kept by the settings of their query and
//! found again under a query that is alike.

use vstd::prelude::*;
use crate::dsl::{QueryMode, QueryRequest, SearchMode};
use crate::engine::{byte_len, copy_opt, opt_text, string_set, text_set};
use crate::scalar::{order_key, order_key_of};
use crate::sorted_map::{strictly_sorted, SortedSet};
use crate::text::{
    fields, join_strs, joined, lowercased, same_text, split_whitespace, str_to_lowercase, texts_of,
};
use crate::tokens::{lexical_overlap, lower_chars, overlap_of, token_set, tokenize, Overlap};

verus! {

/// Which entry leaves a full cache.
#[derive(Debug, Clone, Copy, PartialEq, Eq, Structural)]
pub enum EvictionPolicy {
    /// The entry that was used longest ago.
    Lru,
    /// The entry that was used least often.
    Lfu,
}

impl Default for EvictionPolicy {
    fn default() -> (p: Self)
        ensures
            p == EvictionPolicy::Lru,
    {
        EvictionPolicy::Lru
    }
}

/// What two queries must share to share a cache entry.
#[derive(Debug, PartialEq, Eq)]
pub struct SemanticCacheKey {
    pub model_id: String,
    pub snapshot_id: String,
    pub mode: QueryMode,
    pub search_mode: SearchMode,
    pub effective_search_mode: SearchMode,
    pub top_k: usize,
    pub traversal_depth: u8,
    pub entity_type: Vec<String>,
    pub relation_type: Vec<String>,
    pub traversal_relation_types: Vec<String>,
    pub time_range_from: Option<String>,
    pub time_range_to: Option<String>,
    pub time_travel: Option<String>,
}

/// The texts of `values`, each once, in increasing order.
pub fn sorted_unique(values: &Vec<String>) -> (out: Vec<String>)
    ensures
        strictly_sorted::<String>(texts_of(out@)),
        texts_of(out@).to_set() == text_set(values@),
{
    let set = string_set(values);
    let n = set.len();
    let out = set.to_vec();
    proof {
        assert(texts_of(out@) =~= set.elems());
    }
    out
}

impl SemanticCacheKey {
    /// The cache key of `request` under the given model, snapshot and
    /// effective search mode: the filters of the request count as sets.
    pub fn from_request(
        request: &QueryRequest,
        model_id: &str,
        snapshot_id: &str,
        effective_search_mode: SearchMode,
    ) -> (k: Self)
        ensures
            k.model_id@ == model_id@,
            k.snapshot_id@ == snapshot_id@,
            k.mode == request.mode,
            k.search_mode == request.search_mode,
            k.effective_search_mode == effective_search_mode,
            k.top_k == request.top_k,
            k.traversal_depth == request.traversal.depth,
            strictly_sorted::<String>(texts_of(k.entity_type@)),
            texts_of(k.entity_type@).to_set() == text_set(request.filters.entity_type@),
            strictly_sorted::<String>(texts_of(k.relation_type@)),
            texts_of(k.relation_type@).to_set() == text_set(request.filters.relation_type@),
            strictly_sorted::<String>(texts_of(k.traversal_relation_types@)),
            texts_of(k.traversal_relation_types@).to_set() == text_set(
                request.traversal.relation_types@,
            ),
            opt_text(k.time_range_from) == (match request.filters.time_range {
                Some(r) => Some(r.from@),
                None => None,
            }),
            opt_text(k.time_range_to) == (match request.filters.time_range {
                Some(r) => Some(r.to@),
                None => None,
            }),
            k.time_travel == request.time_travel,
    {
        let (from, to) = match &request.filters.time_range {
            Some(r) => (Some(r.from.clone()), Some(r.to.clone())),
            None => (None, None),
        };
        SemanticCacheKey {
            model_id: model_id.to_owned(),
            snapshot_id: snapshot_id.to_owned(),
            mode: request.mode,
            search_mode: request.search_mode,
            effective_search_mode,
            top_k: request.top_k,
            traversal_depth: request.traversal.depth,
            entity_type: sorted_unique(&request.filters.entity_type),
            relation_type: sorted_unique(&request.filters.relation_type),
            traversal_relation_types: sorted_unique(&request.traversal.relation_types),
            time_range_from: from,
            time_range_to: to,
            time_travel: copy_opt(&request.time_travel),
        }
    }
}

/// The normal form of a query: its words with single blanks between them, in
/// lower case.
pub open spec fn normal_form(query: Seq<char>) -> Seq<char> {
    lowercased(joined(fields(query), " "@))
}

/// The normal form of `query`.
pub fn normalize_query(query: &str) -> (out: String)
    ensures
        out@ == normal_form(query@),
{
    let words = split_whitespace(query);
    let joined_words = join_strs(&words, " ");
    str_to_lowercase(joined_words.as_str())
}

/// How alike two normalised queries with the token sets `a` and `b` are:
/// identical queries are fully alike; else their tokens are compared by
/// Jaccard.
pub open spec fn similarity_of(
    lhs: Seq<char>,
    a: Set<Seq<char>>,
    rhs: Seq<char>,
    b: Set<Seq<char>>,
) -> (int, int) {
    if lhs == rhs {
        (1, 1)
    } else {
        overlap_of(a, b)
    }
}

/// How alike two normalised queries are, as a fraction.
pub fn query_similarity(
    lhs_query: &str,
    lhs_tokens: &SortedSet<String>,
    rhs_query: &str,
    rhs_tokens: &SortedSet<String>,
) -> (r: Overlap)
    ensures
        r.total >= 1,
        (r.shared as int, r.total as int) == similarity_of(
            lhs_query@,
            lhs_tokens@,
            rhs_query@,
            rhs_tokens@,
        ),
{
    if same_text(lhs_query, rhs_query) {
        return Overlap { shared: 1, total: 1 };
    }
    lexical_overlap(lhs_tokens, rhs_tokens)
}

/// The bit pattern of the similarity 0.6 in single precision, at which two
/// queries share an entry unless the settings say otherwise.
pub const DEFAULT_SIMILARITY_THRESHOLD: u32 = 0x3f19_999a;

/// The settings of a semantic cache. The similarity threshold is a
/// single-precision number by bit pattern.
#[derive(Debug, Clone, Copy, PartialEq, Eq)]
pub struct SemanticCacheConfig {
    pub max_entries: usize,
    pub similarity_threshold: u32,
    /// How long an entry lives, in seconds; for ever where there is none.
    pub ttl_seconds: Option<u64>,
    /// The least length of a query that is cached, in bytes.
    pub min_query_length: usize,
    pub enabled: bool,
    pub eviction_policy: EvictionPolicy,
}

impl Default for SemanticCacheConfig {
    fn default() -> (c: Self)
        ensures
            c == (SemanticCacheConfig {
                max_entries: 256,
                similarity_threshold: DEFAULT_SIMILARITY_THRESHOLD,
                ttl_seconds: None,
                min_query_length: 3,
                enabled: true,
                eviction_policy: EvictionPolicy::Lru,
            }),
    {
        SemanticCacheConfig {
            max_entries: 256,
            similarity_threshold: DEFAULT_SIMILARITY_THRESHOLD,
            ttl_seconds: None,
            min_query_length: 3,
            enabled: true,
            eviction_policy: EvictionPolicy::Lru,
        }
    }
}

/// A cache key, as mathematical values.
pub struct KeyView {
    pub model_id: Seq<char>,
    pub snapshot_id: Seq<char>,
    pub mode: QueryMode,
    pub search_mode: SearchMode,
    pub effective_search_mode: SearchMode,
    pub top_k: usize,
    pub traversal_depth: u8,
    pub entity_type: Seq<Seq<char>>,
    pub relation_type: Seq<Seq<char>>,
    pub traversal_relation_types: Seq<Seq<char>>,
    pub time_range_from: Option<Seq<char>>,
    pub time_range_to: Option<Seq<char>>,
    pub time_travel: Option<Seq<char>>,
}

impl View for SemanticCacheKey {
    type V = KeyView;

    open spec fn view(&self) -> KeyView {
        KeyView {
            model_id: self.model_id@,
            snapshot_id: self.snapshot_id@,
            mode: self.mode,
            search_mode: self.search_mode,
            effective_search_mode: self.effective_search_mode,
            top_k: self.top_k,
            traversal_depth: self.traversal_depth,
            entity_type: texts_of(self.entity_type@),
            relation_type: texts_of(self.relation_type@),
            traversal_relation_types: texts_of(self.traversal_relation_types@),
            time_range_from: opt_text(self.time_range_from),
            time_range_to: opt_text(self.time_range_to),
            time_travel: opt_text(self.time_travel),
        }
    }
}

/// Whether two lists hold the same texts in the same order.
fn same_texts(a: &Vec<String>, b: &Vec<String>) -> (r: bool)
    ensures
        r == (texts_of(a@) == texts_of(b@)),
{
    if a.len() != b.len() {
        assert(texts_of(a@).len() != texts_of(b@).len());
        return false;
    }
    let mut i: usize = 0;
    while i < a.len()
        invariant
            i <= a.len(),
            a@.len() == b@.len(),
            forall|j: int| 0 <= j < i ==> (#[trigger] a@[j])@ == b@[j]@,
        decreases a.len() - i,
    {
        if !same_text(a[i].as_str(), b[i].as_str()) {
            assert(texts_of(a@)[i as int] != texts_of(b@)[i as int]);
            return false;
        }
        i += 1;
    }
    assert(texts_of(a@) =~= texts_of(b@));
    true
}

/// Whether two optional strings hold the same text, or both none.
fn same_opt_text(a: &Option<String>, b: &Option<String>) -> (r: bool)
    ensures
        r == (opt_text(*a) == opt_text(*b)),
{
    match (a, b) {
        (None, None) => true,
        (Some(x), Some(y)) => same_text(x.as_str(), y.as_str()),
        _ => false,
    }
}

/// Whether two query modes are the same.
fn same_query_mode(a: QueryMode, b: QueryMode) -> (r: bool)
    ensures
        r == (a == b),
{
    match (a, b) {
        (QueryMode::Answer, QueryMode::Answer) => true,
        (QueryMode::Evidence, QueryMode::Evidence) => true,
        _ => false,
    }
}

/// Whether two search modes are the same.
fn same_search_mode(a: SearchMode, b: SearchMode) -> (r: bool)
    ensures
        r == (a == b),
{
    match (a, b) {
        (SearchMode::Local, SearchMode::Local) => true,
        (SearchMode::Global, SearchMode::Global) => true,
        (SearchMode::Drift, SearchMode::Drift) => true,
        (SearchMode::Auto, SearchMode::Auto) => true,
        _ => false,
    }
}

impl SemanticCacheKey {
    /// Whether two keys are the same in every part.
    pub fn same(&self, other: &SemanticCacheKey) -> (r: bool)
        ensures
            r == (self@ == other@),
    {
        same_text(self.model_id.as_str(), other.model_id.as_str()) && same_text(
            self.snapshot_id.as_str(),
            other.snapshot_id.as_str(),
        ) && same_query_mode(self.mode, other.mode) && same_search_mode(
            self.search_mode,
            other.search_mode,
        ) && same_search_mode(self.effective_search_mode, other.effective_search_mode)
            && self.top_k == other.top_k && self.traversal_depth == other.traversal_depth
            && same_texts(&self.entity_type, &other.entity_type) && same_texts(
            &self.relation_type,
            &other.relation_type,
        ) && same_texts(&self.traversal_relation_types, &other.traversal_relation_types)
            && same_opt_text(&self.time_range_from, &other.time_range_from) && same_opt_text(
            &self.time_range_to,
            &other.time_range_to,
        ) && same_opt_text(&self.time_travel, &other.time_travel)
    }
}

/// One cached answer: the key and the normal form of its query with its
/// tokens, the answer, and when and how often it was used. Times are
/// milliseconds on a clock that never runs backwards.
pub struct CacheEntry<T> {
    pub key: SemanticCacheKey,
    pub normalized_query: String,
    pub query_tokens: SortedSet<String>,
    pub value: T,
    pub created_at: u64,
    pub access_count: usize,
    pub last_accessed: u64,
}

/// A cache entry, as mathematical values.
pub struct EntryView<T> {
    pub key: KeyView,
    pub normalized_query: Seq<char>,
    pub query_tokens: Set<Seq<char>>,
    pub value: T,
    pub created_at: u64,
    pub access_count: usize,
    pub last_accessed: u64,
}

impl<T> View for CacheEntry<T> {
    type V = EntryView<T>;

    open spec fn view(&self) -> EntryView<T> {
        EntryView {
            key: self.key@,
            normalized_query: self.normalized_query@,
            query_tokens: self.query_tokens@,
            value: self.value,
            created_at: self.created_at,
            access_count: self.access_count,
            last_accessed: self.last_accessed,
        }
    }
}

/// The entries `entries`, as mathematical values.
pub open spec fn entry_views<T>(entries: Seq<CacheEntry<T>>) -> Seq<EntryView<T>> {
    Seq::new(entries.len(), |i: int| entries[i]@)
}

/// Whether an entry that was made at `created_at` has outlived `ttl` seconds
/// at the time `now`.
pub open spec fn is_expired(created_at: u64, now: u64, ttl: Option<u64>) -> bool {
    match ttl {
        None => false,
        Some(seconds) => now >= created_at && now - created_at > seconds * 1000,
    }
}

/// Whether the entry `e` may answer a query with the key `key` at the time
/// `now`, where the query is alike to the query of the entry by `score`: the
/// keys are the same, the entry has not expired, and the score is not below
/// the threshold.
pub open spec fn may_answer<T>(
    e: EntryView<T>,
    key: KeyView,
    now: u64,
    config: SemanticCacheConfig,
    score: u32,
) -> bool {
    e.key == key && !is_expired(e.created_at, now, config.ttl_seconds) && order_key(score)
        >= order_key(config.similarity_threshold)
}

/// The entry among the first `n` that answers: the one with the highest
/// score among those that may answer, the latest of them among equals.
pub open spec fn best_match<T>(
    entries: Seq<EntryView<T>>,
    key: KeyView,
    scores: Seq<u32>,
    now: u64,
    config: SemanticCacheConfig,
    n: int,
) -> Option<int>
    decreases n,
{
    if n <= 0 {
        None
    } else {
        let before = best_match(entries, key, scores, now, config, n - 1);
        if may_answer(entries[n - 1], key, now, config, scores[n - 1]) && (before is None
            || order_key(scores[n - 1]) >= order_key(scores[before->0])) {
            Some(n - 1)
        } else {
            before
        }
    }
}

/// The entries after the entry at `i` was used at the time `now`: it is used
/// once more and stands last.
pub open spec fn touched<T>(entries: Seq<EntryView<T>>, i: int, now: u64) -> Seq<EntryView<T>> {
    entries.remove(i).push(
        EntryView {
            access_count: if entries[i].access_count < usize::MAX {
                (entries[i].access_count + 1) as usize
            } else {
                usize::MAX
            },
            last_accessed: now,
            ..entries[i]
        },
    )
}

/// The first entry among the first `n` with the key `key` and the query
/// `normalized`.
pub open spec fn first_slot<T>(
    entries: Seq<EntryView<T>>,
    key: KeyView,
    normalized: Seq<char>,
    n: int,
) -> Option<int>
    decreases n,
{
    if n <= 0 {
        None
    } else {
        match first_slot(entries, key, normalized, n - 1) {
            Some(i) => Some(i),
            None => if entries[n - 1].key == key && entries[n - 1].normalized_query == normalized {
                Some(n - 1)
            } else {
                None
            },
        }
    }
}

/// What an entry weighs when one has to leave: the time of its last use, or
/// the number of its uses.
pub open spec fn weight_of<T>(e: EntryView<T>, policy: EvictionPolicy) -> int {
    match policy {
        EvictionPolicy::Lru => e.last_accessed as int,
        EvictionPolicy::Lfu => e.access_count as int,
    }
}

/// The entry among the first `n` that leaves first: the first of those that
/// weigh least.
pub open spec fn least_slot<T>(entries: Seq<EntryView<T>>, policy: EvictionPolicy, n: int) -> int
    decreases n,
{
    if n <= 1 {
        0
    } else {
        let before = least_slot(entries, policy, n - 1);
        if weight_of(entries[n - 1], policy) < weight_of(entries[before], policy) {
            n - 1
        } else {
            before
        }
    }
}

/// The entries after as many left as it takes to make room for one more
/// under the limit `max`.
pub open spec fn evicted<T>(entries: Seq<EntryView<T>>, policy: EvictionPolicy, max: usize) -> Seq<
    EntryView<T>,
>
    decreases entries.len(),
{
    let leaves = least_slot(entries, policy, entries.len() as int);
    if entries.len() >= max && 0 <= leaves < entries.len() {
        evicted(entries.remove(leaves), policy, max)
    } else {
        entries
    }
}

/// The entries after an answer was put in: an entry with the same key and
/// query leaves, room is made, and the new entry stands last.
pub open spec fn inserted<T>(
    entries: Seq<EntryView<T>>,
    config: SemanticCacheConfig,
    fresh: EntryView<T>,
) -> Seq<EntryView<T>> {
    let cleared = match first_slot(
        entries,
        fresh.key,
        fresh.normalized_query,
        entries.len() as int,
    ) {
        Some(i) => entries.remove(i),
        None => entries,
    };
    evicted(cleared, config.eviction_policy, config.max_entries).push(fresh)
}

/// Whether the cache takes or answers the query `query` at all.
pub open spec fn is_cacheable(config: SemanticCacheConfig, query: Seq<char>) -> bool {
    config.enabled && byte_len(query) >= config.min_query_length
}

/// A cache of answers of type `T`.
pub struct SemanticCache<T> {
    config: SemanticCacheConfig,
    entries: Vec<CacheEntry<T>>,
}

impl<T> SemanticCache<T> {
    /// The settings of the cache.
    pub closed spec fn settings(&self) -> SemanticCacheConfig {
        self.config
    }

    /// The entries of the cache, the one that was used last at the end.
    pub closed spec fn entries(&self) -> Seq<EntryView<T>> {
        entry_views(self.entries@)
    }

    /// An empty cache with the settings `config`.
    pub fn with_config(config: SemanticCacheConfig) -> (c: Self)
        ensures
            c.settings() == config,
            c.entries() == Seq::<EntryView<T>>::empty(),
    {
        let c = SemanticCache { config, entries: Vec::new() };
        assert(c.entries() =~= Seq::<EntryView<T>>::empty());
        c
    }

    /// The number of entries.
    pub fn len(&self) -> (n: usize)
        ensures
            n == self.entries().len(),
    {
        self.entries.len()
    }

    /// The answer of the entry that was put in or used last.
    pub fn latest(&self) -> (r: Option<&T>)
        ensures
            match r {
                Some(v) => self.entries().len() > 0 && *v == self.entries().last().value,
                None => self.entries().len() == 0,
            },
    {
        let n = self.entries.len();
        if n == 0 {
            None
        } else {
            assert(self.entries()[n - 1] == self.entries@[n - 1]@);
            Some(&self.entries[n - 1].value)
        }
    }

    /// How alike `query` is to the query of every entry, in order.
    pub fn similarities(&self, query: &str) -> (out: Vec<Overlap>)
        ensures
            out@.len() == self.entries().len(),
            forall|i: int|
                0 <= i < out@.len() ==> (#[trigger] out@[i]).total >= 1 && (
                    out@[i].shared as int,
                    out@[i].total as int,
                ) == similarity_of(
                    self.entries()[i].normalized_query,
                    self.entries()[i].query_tokens,
                    normal_form(query@),
                    token_set(lower_chars(normal_form(query@))),
                ),
    {
        let normalized = normalize_query(query);
        let tokens = tokenize(normalized.as_str());
        let mut out: Vec<Overlap> = Vec::new();
        let mut i: usize = 0;
        while i < self.entries.len()
            invariant
                i <= self.entries.len(),
                out@.len() == i,
                normalized@ == normal_form(query@),
                tokens@ == token_set(lower_chars(normal_form(query@))),
                forall|j: int|
                    0 <= j < i ==> (#[trigger] out@[j]).total >= 1 && (
                        out@[j].shared as int,
                        out@[j].total as int,
                    ) == similarity_of(
                        self.entries()[j].normalized_query,
                        self.entries()[j].query_tokens,
                        normal_form(query@),
                        token_set(lower_chars(normal_form(query@))),
                    ),
            decreases self.entries.len() - i,
        {
            let e = &self.entries[i];
            assert(self.entries()[i as int] == self.entries@[i as int]@);
            out.push(
                query_similarity(
                    e.normalized_query.as_str(),
                    &e.query_tokens,
                    normalized.as_str(),
                    &tokens,
                ),
            );
            i += 1;
        }
        out
    }

    /// Looks for an answer to `query` under the key `key` at the time `now`.
    /// `scores[i]` is how alike the query is to the query of the `i`-th
    /// entry, a single-precision number by bit pattern, as the caller
    /// computed it from `similarities`. The entry that answers is used once
    /// more and moves to the end, where `latest` finds its answer.
    pub fn lookup(&mut self, key: &SemanticCacheKey, query: &str, scores: &Vec<u32>, now: u64) -> (hit:
        bool)
        requires
            scores@.len() == old(self).entries().len(),
        ensures
            final(self).settings() == old(self).settings(),
            ({
                let found = if is_cacheable(old(self).settings(), query@) {
                    best_match(
                        old(self).entries(),
                        key@,
                        scores@,
                        now,
                        old(self).settings(),
                        old(self).entries().len() as int,
                    )
                } else {
                    None
                };
                match found {
                    Some(i) => hit && 0 <= i < old(self).entries().len() && final(self).entries()
                        == touched(old(self).entries(), i, now),
                    None => !hit && final(self).entries() == old(self).entries(),
                }
            }),
    {
        let ghost before = self.entries();
        if !self.config.enabled || self.entries.len() == 0 {
            return false;
        }
        if query.len() < self.config.min_query_length {
            return false;
        }
        let threshold = order_key_of(self.config.similarity_threshold);
        let mut best: Option<usize> = None;
        let mut i: usize = 0;
        while i < self.entries.len()
            invariant
                i <= self.entries.len(),
                scores@.len() == self.entries@.len(),
                before == self.entries(),
                threshold == order_key(self.config.similarity_threshold),
                match best {
                    Some(b) => b < i && best_match(before, key@, scores@, now, self.config, i as int)
                        == Some(b as int),
                    None => best_match(before, key@, scores@, now, self.config, i as int) is None,
                },
            decreases self.entries.len() - i,
        {
            let e = &self.entries[i];
            assert(before[i as int] == self.entries@[i as int]@);
            let expired = match self.config.ttl_seconds {
                None => false,
                Some(seconds) => now >= e.created_at && (now - e.created_at) as u128 > (
                seconds as u128) * 1000,
            };
            let score = order_key_of(scores[i]);
            let answers = e.key.same(key) && !expired && score >= threshold;
            let better = match best {
                None => true,
                Some(b) => score >= order_key_of(scores[b]),
            };
            if answers && better {
                best = Some(i);
            }
            i += 1;
        }
        match best {
            None => false,
            Some(b) => {
                let mut matched = self.entries.remove(b);
                if matched.access_count < usize::MAX {
                    matched.access_count = matched.access_count + 1;
                }
                matched.last_accessed = now;
                self.entries.push(matched);
                assert(self.entries() =~= touched(before, b as int, now));
                true
            },
        }
    }

    /// Puts the answer `value` to `query` in under the key `key` at the time
    /// `now`. Nothing is put in where the cache is switched off, holds
    /// nothing, or the query is too short. An entry with the same key and
    /// the same query in normal form is replaced, and the entries that leave
    /// to make room are chosen by the eviction policy.
    pub fn insert(&mut self, key: SemanticCacheKey, query: &str, value: T, now: u64)
        ensures
            final(self).settings() == old(self).settings(),
            final(self).entries() == (if is_cacheable(old(self).settings(), query@) && old(self).settings().max_entries > 0 {
                inserted(
                    old(self).entries(),
                    old(self).settings(),
                    EntryView {
                        key: key@,
                        normalized_query: normal_form(query@),
                        query_tokens: token_set(lower_chars(normal_form(query@))),
                        value,
                        created_at: now,
                        access_count: 0,
                        last_accessed: now,
                    },
                )
            } else {
                old(self).entries()
            }),
    {
        if !self.config.enabled {
            return ;
        }
        if query.len() < self.config.min_query_length {
            return ;
        }
        if self.config.max_entries == 0 {
            return ;
        }
        let ghost before = self.entries();
        let normalized = normalize_query(query);
        let tokens = tokenize(normalized.as_str());
        let mut found: Option<usize> = None;
        let mut i: usize = 0;
        while i < self.entries.len()
            invariant
                i <= self.entries.len(),
                before == self.entries(),
                match found {
                    Some(f) => f < i && first_slot(before, key@, normalized@, i as int) == Some(
                        f as int,
                    ),
                    None => first_slot(before, key@, normalized@, i as int) is None,
                },
            decreases self.entries.len() - i,
        {
            assert(before[i as int] == self.entries@[i as int]@);
            if found.is_none() {
                let e = &self.entries[i];
                if e.key.same(&key) && same_text(e.normalized_query.as_str(), normalized.as_str()) {
                    found = Some(i);
                }
            }
            i += 1;
        }
        match found {
            Some(f) => {
                self.entries.remove(f);
                assert(self.entries() =~= before.remove(f as int));
            },
            None => {},
        }
        let ghost cleared = self.entries();
        while self.entries.len() >= self.config.max_entries
            invariant
                self.config == old(self).config,
                self.config.max_entries > 0,
                evicted(self.entries(), self.config.eviction_policy, self.config.max_entries)
                    == evicted(cleared, self.config.eviction_policy, self.config.max_entries),
            decreases self.entries.len(),
        {
            let ghost now_entries = self.entries();
            let n = self.entries.len();
            let mut least: usize = 0;
            let mut j: usize = 1;
            while j < n
                invariant
                    1 <= j <= n,
                    n == self.entries.len(),
                    now_entries == self.entries(),
                    least < j,
                    least == least_slot(now_entries, self.config.eviction_policy, j as int),
                decreases n - j,
            {
                assert(now_entries[j as int] == self.entries@[j as int]@);
                assert(now_entries[least as int] == self.entries@[least as int]@);
                let lighter = match self.config.eviction_policy {
                    EvictionPolicy::Lru => self.entries[j].last_accessed
                        < self.entries[least].last_accessed,
                    EvictionPolicy::Lfu => self.entries[j].access_count
                        < self.entries[least].access_count,
                };
                if lighter {
                    least = j;
                }
                j += 1;
            }
            self.entries.remove(least);
            assert(self.entries() =~= now_entries.remove(least as int));
        }
        self.entries.push(
            CacheEntry {
                key,
                normalized_query: normalized,
                query_tokens: tokens,
                value,
                created_at: now,
                access_count: 0,
                last_accessed: now,
            },
        );
        proof {
            let fresh = EntryView {
                key: key@,
                normalized_query: normal_form(query@),
                query_tokens: token_set(lower_chars(normal_form(query@))),
                value,
                created_at: now,
                access_count: 0,
                last_accessed: now,
            };
            assert(self.entries() =~= inserted(before, self.config, fresh));
        }
    }
}

} // verus!
