//! The vector index: embeddings by id, and the ranking of scored ids.

use vstd::prelude::*;
use crate::ordered::Duplicate;
use crate::scalar::RankKey;
use crate::sorted_map::{pairs_map, sorted_keys, SortedMap};
use crate::sorting::{lemma_stable_sort, sort_by_key, stable_sort};

verus! {

/// The scored ids of `s` as items to sort: higher scores first, then lower
/// ids.
pub open spec fn rank_items(s: Seq<(u64, u32)>) -> Seq<(RankKey, ())> {
    s.map_values(|p: (u64, u32)| (RankKey { score: p.1, id: p.0 }, ()))
}

/// The `k` best of the scored ids `s`: ordered by score, highest first, and by
/// id, lowest first, among equal scores.
pub open spec fn top_ranked(s: Seq<(u64, u32)>, k: int) -> Seq<(u64, u32)> {
    let sorted = stable_sort(rank_items(s));
    let n = if k < sorted.len() {
        k
    } else {
        sorted.len() as int
    };
    sorted.take(n).map_values(|item: (RankKey, ())| (item.0.id, item.0.score))
}

/// Ranks scored ids and keeps the `k` best. Scores are single-precision
/// numbers by bit pattern.
pub fn top_k(scored: &Vec<(u64, u32)>, k: usize) -> (out: Vec<(u64, u32)>)
    ensures
        out@ == top_ranked(scored@, k as int),
        out@.len() <= k,
        out@.len() <= scored@.len(),
{
    let mut items: Vec<(RankKey, ())> = Vec::new();
    let mut i: usize = 0;
    while i < scored.len()
        invariant
            i <= scored.len(),
            items@ == rank_items(scored@).take(i as int),
        decreases scored.len() - i,
    {
        items.push((RankKey { score: scored[i].1, id: scored[i].0 }, ()));
        i += 1;
        assert(items@ =~= rank_items(scored@).take(i as int));
    }
    assert(rank_items(scored@).take(scored@.len() as int) =~= rank_items(scored@));
    proof {
        lemma_stable_sort(rank_items(scored@));
    }
    let sorted = sort_by_key(items);
    let n = if k < sorted.len() {
        k
    } else {
        sorted.len()
    };
    let mut out: Vec<(u64, u32)> = Vec::new();
    let mut j: usize = 0;
    while j < n
        invariant
            j <= n <= sorted.len(),
            out@ == sorted@.take(j as int).map_values(
                |item: (RankKey, ())| (item.0.id, item.0.score),
            ),
        decreases n - j,
    {
        out.push((sorted[j].0.id, sorted[j].0.score));
        j += 1;
        assert(out@ =~= sorted@.take(j as int).map_values(
            |item: (RankKey, ())| (item.0.id, item.0.score),
        ));
    }
    out
}

/// The score that an entry gets in a search: the similarity that the caller
/// computed where the dimensions agree and are not zero, else zero.
pub open spec fn entry_score(query: Seq<u32>, embedding: Seq<u32>, similarity: u32) -> u32 {
    if query.len() > 0 && query.len() == embedding.len() {
        similarity
    } else {
        0
    }
}

/// The entries `pairs` scored against `query` with the similarities `sims`.
pub open spec fn scored_entries(
    pairs: Seq<(u64, Seq<u32>)>,
    query: Seq<u32>,
    sims: Seq<u32>,
) -> Seq<(u64, u32)> {
    Seq::new(pairs.len(), |i: int| (pairs[i].0, entry_score(query, pairs[i].1, sims[i])))
}

/// Whether `pairs` lists the entries of `m` in increasing order of id, each
/// once. A map has one such list.
pub open spec fn lists_entries(pairs: Seq<(u64, Seq<u32>)>, m: Map<u64, Seq<u32>>) -> bool {
    sorted_keys::<u64, Seq<u32>>(pairs) && pairs_map(pairs) == m
}

/// A linear-scan index from id to embedding. Embeddings hold single-precision
/// numbers by bit pattern.
#[derive(Debug, PartialEq, Eq)]
pub struct LinearAnnIndex {
    embeddings: SortedMap<u64, Vec<u32>>,
}

impl View for LinearAnnIndex {
    type V = Map<u64, Seq<u32>>;

    closed spec fn view(&self) -> Map<u64, Seq<u32>> {
        self.embeddings@
    }
}

impl LinearAnnIndex {
    /// The entries in increasing order of id: the list of the view.
    pub closed spec fn pairs(&self) -> Seq<(u64, Seq<u32>)> {
        self.embeddings.pairs()
    }

    /// The empty index.
    pub fn new() -> (r: Self)
        ensures
            r@ == Map::<u64, Seq<u32>>::empty(),
            r.pairs() == Seq::<(u64, Seq<u32>)>::empty(),
    {
        LinearAnnIndex { embeddings: SortedMap::new() }
    }

    /// Stores `embedding` under `id`, in place of what was stored there.
    pub fn insert(&mut self, id: u64, embedding: Vec<u32>)
        ensures
            final(self)@ == old(self)@.insert(id, embedding@),
    {
        self.embeddings.insert(id, embedding);
    }

    /// Removes the embedding of `id`. Returns whether there was one.
    pub fn delete(&mut self, id: u64) -> (was: bool)
        ensures
            final(self)@ == old(self)@.remove(id),
            was == old(self)@.contains_key(id),
    {
        self.embeddings.remove(&id).is_some()
    }

    /// The embedding of `id`, if any.
    pub fn get(&self, id: u64) -> (r: Option<&Vec<u32>>)
        ensures
            match r {
                Some(e) => self@.contains_key(id) && e@ == self@[id],
                None => !self@.contains_key(id),
            },
    {
        self.embeddings.get(&id)
    }

    /// The number of entries.
    pub fn len(&self) -> (n: usize)
        ensures
            n == self.pairs().len(),
            lists_entries(self.pairs(), self@),
            n == 0 <==> self@ == Map::<u64, Seq<u32>>::empty(),
    {
        let e = self.embeddings.is_empty();
        self.embeddings.len()
    }

    /// Whether the index has no entry.
    pub fn is_empty(&self) -> (b: bool)
        ensures
            b == (self@ == Map::<u64, Seq<u32>>::empty()),
    {
        self.embeddings.is_empty()
    }

    /// The id of the `i`-th entry in increasing order of id.
    pub fn id_at(&self, i: usize) -> (id: u64)
        requires
            i < self.pairs().len(),
        ensures
            id == self.pairs()[i as int].0,
            self@.contains_key(id),
    {
        *self.embeddings.key_at(i)
    }

    /// The embedding of the `i`-th entry in increasing order of id.
    pub fn embedding_at(&self, i: usize) -> (e: &Vec<u32>)
        requires
            i < self.pairs().len(),
        ensures
            e@ == self.pairs()[i as int].1,
            self@.contains_key(self.pairs()[i as int].0),
            self@[self.pairs()[i as int].0] == e@,
    {
        self.embeddings.value_at(i)
    }

    /// The `k` entries most similar to `query`. `similarities[i]` is the cosine
    /// similarity of `query` and the `i`-th entry in increasing order of id, as
    /// the caller computed it; it counts where the two have the same, non-zero
    /// dimension, and the entry scores zero otherwise.
    pub fn search(&self, query: &Vec<u32>, similarities: &Vec<u32>, k: usize) -> (out: Vec<
        (u64, u32),
    >)
        requires
            similarities@.len() == self.pairs().len(),
        ensures
            lists_entries(self.pairs(), self@),
            out@ == top_ranked(scored_entries(self.pairs(), query@, similarities@), k as int),
            out@.len() <= k,
    {
        let n = self.embeddings.len();
        let mut scored: Vec<(u64, u32)> = Vec::new();
        let mut i: usize = 0;
        while i < n
            invariant
                n == self.pairs().len(),
                n == similarities@.len(),
                i <= n,
                scored@ == scored_entries(self.pairs(), query@, similarities@).take(i as int),
            decreases n - i,
        {
            let e = self.embeddings.value_at(i);
            let score = if query.len() > 0 && query.len() == e.len() {
                similarities[i]
            } else {
                0
            };
            scored.push((*self.embeddings.key_at(i), score));
            i += 1;
            assert(scored@ =~= scored_entries(self.pairs(), query@, similarities@).take(i as int));
        }
        assert(scored_entries(self.pairs(), query@, similarities@).take(n as int)
            =~= scored_entries(self.pairs(), query@, similarities@));
        top_k(&scored, k)
    }
}

impl Duplicate for LinearAnnIndex {
    fn duplicate(&self) -> (r: Self) {
        LinearAnnIndex { embeddings: self.embeddings.duplicate() }
    }
}

} // verus!
