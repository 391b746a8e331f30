//! Maps kept as key-sorted vectors: one layout per map, walked in key order.

use vstd::prelude::*;
use crate::ordered::{Duplicate, Ordered};

verus! {

/// The pairs of `v`, key and value each taken by its view.
pub open spec fn pair_views<K: View, V: View>(v: Seq<(K, V)>) -> Seq<(K::V, V::V)> {
    v.map_values(|e: (K, V)| (e.0@, e.1@))
}

/// Whether the keys of `s` strictly increase.
pub open spec fn sorted_keys<K: Ordered, W>(s: Seq<(K::V, W)>) -> bool {
    forall|i: int, j: int| 0 <= i < j < s.len() ==> K::key_lt(#[trigger] s[i].0, #[trigger] s[j].0)
}

/// Whether some pair of `s` has key `k`.
pub open spec fn has_key<A, W>(s: Seq<(A, W)>, k: A) -> bool {
    exists|i: int| 0 <= i < s.len() && (#[trigger] s[i]).0 == k
}

/// A position of `s` that holds key `k`, where there is one.
pub open spec fn key_index<A, W>(s: Seq<(A, W)>, k: A) -> int {
    choose|i: int| 0 <= i < s.len() && (#[trigger] s[i]).0 == k
}

/// The map that the pairs of `s` describe.
pub open spec fn pairs_map<A, W>(s: Seq<(A, W)>) -> Map<A, W> {
    Map::new(|k: A| has_key(s, k), |k: A| s[key_index(s, k)].1)
}

/// In a key-sorted sequence a key occurs at one position only.
pub proof fn lemma_sorted_keys_unique<K: Ordered, W>(s: Seq<(K::V, W)>, i: int, j: int)
    requires
        sorted_keys::<K, W>(s),
        0 <= i < s.len(),
        0 <= j < s.len(),
        s[i].0 == s[j].0,
    ensures
        i == j,
{
    K::lemma_irreflexive(s[i].0);
}

/// The pair at position `i` of a key-sorted sequence is an entry of its map.
pub proof fn lemma_pairs_map_at<K: Ordered, W>(s: Seq<(K::V, W)>, i: int)
    requires
        sorted_keys::<K, W>(s),
        0 <= i < s.len(),
    ensures
        pairs_map(s).contains_key(s[i].0),
        pairs_map(s)[s[i].0] == s[i].1,
{
    let k = s[i].0;
    assert(has_key(s, k));
    lemma_sorted_keys_unique::<K, W>(s, i, key_index(s, k));
}

/// Two key-sorted sequences that describe the same map agree in the pairs
/// that both have.
proof fn lemma_sorted_pairs_agree<K: Ordered, W>(a: Seq<(K::V, W)>, b: Seq<(K::V, W)>, n: int)
    requires
        sorted_keys::<K, W>(a),
        sorted_keys::<K, W>(b),
        pairs_map(a) == pairs_map(b),
        0 <= n <= a.len(),
        n <= b.len(),
    ensures
        forall|i: int| 0 <= i < n ==> a[i] == b[i],
    decreases n,
{
    if n > 0 {
        let k = n - 1;
        lemma_sorted_pairs_agree::<K, W>(a, b, k);
        lemma_pairs_map_at::<K, W>(a, k);
        lemma_pairs_map_at::<K, W>(b, k);
        assert(pairs_map(b).contains_key(a[k].0));
        assert(pairs_map(a).contains_key(b[k].0));
        let m = key_index(b, a[k].0);
        let l = key_index(a, b[k].0);
        assert(has_key(b, a[k].0));
        assert(has_key(a, b[k].0));
        if m < k {
            assert(a[m] == b[m]);
            lemma_sorted_keys_unique::<K, W>(a, m, k);
        }
        if l < k {
            assert(a[l] == b[l]);
            lemma_sorted_keys_unique::<K, W>(b, l, k);
        }
        if m > k && l > k {
            assert(K::key_lt(b[k].0, b[m].0));
            assert(K::key_lt(a[k].0, a[l].0));
            K::lemma_transitive(a[k].0, b[k].0, a[k].0);
            K::lemma_irreflexive(a[k].0);
        }
        assert(a[k].0 == b[k].0);
        assert(a[k].1 == b[k].1);
    }
}

/// A map has one key-sorted sequence of pairs: two key-sorted sequences that
/// describe the same map are equal.
pub proof fn lemma_sorted_pairs_unique<K: Ordered, W>(a: Seq<(K::V, W)>, b: Seq<(K::V, W)>)
    requires
        sorted_keys::<K, W>(a),
        sorted_keys::<K, W>(b),
        pairs_map(a) == pairs_map(b),
    ensures
        a == b,
{
    let n = if a.len() <= b.len() {
        a.len() as int
    } else {
        b.len() as int
    };
    lemma_sorted_pairs_agree::<K, W>(a, b, n);
    if n < b.len() {
        lemma_pairs_map_at::<K, W>(b, n);
        assert(has_key(a, b[n].0));
        let l = key_index(a, b[n].0);
        assert(a[l] == b[l]);
        lemma_sorted_keys_unique::<K, W>(b, l, n);
    }
    if n < a.len() {
        lemma_pairs_map_at::<K, W>(a, n);
        assert(has_key(b, a[n].0));
        let m = key_index(b, a[n].0);
        assert(a[m] == b[m]);
        lemma_sorted_keys_unique::<K, W>(a, m, n);
    }
    assert(a =~= b);
}

/// Replacing the pair at `p` by one with the same key updates the map at that
/// key.
pub proof fn lemma_update_map<K: Ordered, W>(
    before: Seq<(K::V, W)>,
    after: Seq<(K::V, W)>,
    p: int,
    k: K::V,
    v: W,
)
    requires
        sorted_keys::<K, W>(before),
        sorted_keys::<K, W>(after),
        0 <= p < before.len(),
        before[p].0 == k,
        after == before.update(p, (k, v)),
    ensures
        pairs_map(after) =~= pairs_map(before).insert(k, v),
{
    let m1 = pairs_map(after);
    let m2 = pairs_map(before).insert(k, v);
    assert forall|x: K::V| m1.contains_key(x) <==> m2.contains_key(x) by {
        if has_key(after, x) {
            let i = key_index(after, x);
            assert(before[i].0 == x);
        }
        if has_key(before, x) {
            let i = key_index(before, x);
            assert(after[i].0 == x);
        }
        if x == k {
            assert(after[p].0 == k);
        }
    }
    assert forall|x: K::V| m1.contains_key(x) implies m1[x] == m2[x] by {
        let i = key_index(after, x);
        lemma_pairs_map_at::<K, W>(after, i);
        if x != k {
            assert(before[i].0 == x);
            lemma_pairs_map_at::<K, W>(before, i);
        } else {
            lemma_sorted_keys_unique::<K, W>(after, i, p);
        }
    }
}

/// Inserting a pair with a new key at `p` adds that entry to the map.
pub proof fn lemma_insert_map<K: Ordered, W>(
    before: Seq<(K::V, W)>,
    after: Seq<(K::V, W)>,
    p: int,
    k: K::V,
    v: W,
)
    requires
        sorted_keys::<K, W>(before),
        sorted_keys::<K, W>(after),
        0 <= p <= before.len(),
        after == before.insert(p, (k, v)),
    ensures
        pairs_map(after) =~= pairs_map(before).insert(k, v),
        !has_key(before, k),
{
    let m1 = pairs_map(after);
    let m2 = pairs_map(before).insert(k, v);
    assert(after[p] == (k, v));
    assert forall|x: K::V| m1.contains_key(x) <==> m2.contains_key(x) by {
        if has_key(after, x) {
            let i = key_index(after, x);
            if i < p {
                assert(before[i].0 == x);
            } else if i > p {
                assert(before[i - 1].0 == x);
            }
        }
        if has_key(before, x) {
            let i = key_index(before, x);
            if i < p {
                assert(after[i].0 == x);
            } else {
                assert(after[i + 1].0 == x);
            }
        }
        if x == k {
            assert(after[p].0 == k);
        }
    }
    assert forall|x: K::V| m1.contains_key(x) implies m1[x] == m2[x] by {
        let i = key_index(after, x);
        lemma_pairs_map_at::<K, W>(after, i);
        if i < p {
            assert(before[i] == after[i]);
            lemma_pairs_map_at::<K, W>(before, i);
            if x == k {
                lemma_sorted_keys_unique::<K, W>(after, i, p);
            }
        } else if i > p {
            assert(before[i - 1] == after[i]);
            lemma_pairs_map_at::<K, W>(before, i - 1);
            if x == k {
                lemma_sorted_keys_unique::<K, W>(after, i, p);
            }
        }
    }
    if has_key(before, k) {
        let i = key_index(before, k);
        if i < p {
            assert(after[i].0 == k);
            lemma_sorted_keys_unique::<K, W>(after, i, p);
        } else {
            assert(after[i + 1].0 == k);
            lemma_sorted_keys_unique::<K, W>(after, i + 1, p);
        }
    }
}

/// A map from `K` to `V`, kept sorted by key.
///
/// Two maps with the same entries have the same layout, and the entries are
/// walked in key order.
#[derive(Debug, PartialEq, Eq)]
pub struct SortedMap<K: Ordered, V: View> {
    entries: Vec<(K, V)>,
}

impl<K: Ordered, V: View> View for SortedMap<K, V> {
    type V = Map<K::V, V::V>;

    closed spec fn view(&self) -> Map<K::V, V::V> {
        pairs_map(self.pairs())
    }
}

impl<K: Ordered, V: View> SortedMap<K, V> {
    /// The entries in key order, key and value each taken by its view.
    pub closed spec fn pairs(&self) -> Seq<(K::V, V::V)> {
        pair_views(self.entries@)
    }

    #[verifier::type_invariant]
    spec fn inv(&self) -> bool {
        sorted_keys::<K, V::V>(self.pairs())
    }

    /// The empty map.
    pub fn new() -> (m: Self)
        ensures
            m@ == Map::<K::V, V::V>::empty(),
            m.pairs().len() == 0,
    {
        let m = SortedMap { entries: Vec::new() };
        assert(m@ =~= Map::<K::V, V::V>::empty());
        m
    }

    /// The number of entries. The entries are sorted by key and describe the
    /// map.
    pub fn len(&self) -> (n: usize)
        ensures
            n == self.pairs().len(),
            sorted_keys::<K, V::V>(self.pairs()),
            self@ == pairs_map(self.pairs()),
    {
        proof {
            use_type_invariant(self);
        }
        self.entries.len()
    }

    /// Whether the map has no entry.
    pub fn is_empty(&self) -> (b: bool)
        ensures
            b == (self.pairs().len() == 0),
            b == (self@ == Map::<K::V, V::V>::empty()),
    {
        proof {
            use_type_invariant(self);
            if self.pairs().len() > 0 {
                lemma_pairs_map_at::<K, V::V>(self.pairs(), 0);
            } else {
                assert(self@ =~= Map::<K::V, V::V>::empty());
            }
        }
        self.entries.len() == 0
    }

    /// The key of the `i`-th entry in key order.
    pub fn key_at(&self, i: usize) -> (k: &K)
        requires
            i < self.pairs().len(),
        ensures
            k@ == self.pairs()[i as int].0,
            self@.contains_key(k@),
    {
        proof {
            use_type_invariant(self);
            lemma_pairs_map_at::<K, V::V>(self.pairs(), i as int);
        }
        &self.entries[i].0
    }

    /// The value of the `i`-th entry in key order.
    pub fn value_at(&self, i: usize) -> (v: &V)
        requires
            i < self.pairs().len(),
        ensures
            v@ == self.pairs()[i as int].1,
            self@.contains_key(self.pairs()[i as int].0),
            self@[self.pairs()[i as int].0] == v@,
    {
        proof {
            use_type_invariant(self);
            lemma_pairs_map_at::<K, V::V>(self.pairs(), i as int);
        }
        &self.entries[i].1
    }

    /// The position of `key` among the entries, if it is present.
    pub fn position(&self, key: &K) -> (r: Option<usize>)
        ensures
            match r {
                Some(i) => i < self.pairs().len() && self.pairs()[i as int].0 == key@
                    && self@.contains_key(key@),
                None => !has_key(self.pairs(), key@) && !self@.contains_key(key@),
            },
    {
        let mut i: usize = 0;
        while i < self.entries.len()
            invariant
                i <= self.entries.len(),
                forall|j: int| 0 <= j < i ==> (#[trigger] self.pairs()[j]).0 != key@,
            decreases self.entries.len() - i,
        {
            assert(self.pairs()[i as int].0 == self.entries@[i as int].0@);
            if self.entries[i].0.same(key) {
                proof {
                    use_type_invariant(self);
                    lemma_pairs_map_at::<K, V::V>(self.pairs(), i as int);
                }
                return Some(i);
            }
            i += 1;
        }
        None
    }

    /// The value stored under `key`, if any.
    pub fn get(&self, key: &K) -> (r: Option<&V>)
        ensures
            match r {
                Some(v) => self@.contains_key(key@) && v@ == self@[key@],
                None => !self@.contains_key(key@),
            },
    {
        match self.position(key) {
            Some(i) => {
                proof {
                    use_type_invariant(self);
                    lemma_pairs_map_at::<K, V::V>(self.pairs(), i as int);
                }
                Some(&self.entries[i].1)
            },
            None => None,
        }
    }

    /// Whether an entry is stored under `key`.
    pub fn contains_key(&self, key: &K) -> (b: bool)
        ensures
            b == self@.contains_key(key@),
    {
        self.position(key).is_some()
    }

    /// The first position whose key is not before `key`.
    fn lower_bound(&self, key: &K) -> (p: usize)
        ensures
            p <= self.pairs().len(),
            forall|j: int| 0 <= j < p ==> K::key_lt((#[trigger] self.pairs()[j]).0, key@),
            p < self.pairs().len() ==> !K::key_lt(self.pairs()[p as int].0, key@),
    {
        let mut p: usize = 0;
        while p < self.entries.len()
            invariant
                p <= self.entries.len(),
                forall|j: int| 0 <= j < p ==> K::key_lt((#[trigger] self.pairs()[j]).0, key@),
            decreases self.entries.len() - p,
        {
            assert(self.pairs()[p as int].0 == self.entries@[p as int].0@);
            if !self.entries[p].0.less(key) {
                return p;
            }
            p += 1;
        }
        p
    }

    /// Stores `value` under `key`, in place of what was stored there.
    pub fn insert(&mut self, key: K, value: V)
        ensures
            final(self)@ == old(self)@.insert(key@, value@),
    {
        proof {
            use_type_invariant(&*self);
        }
        let p = self.lower_bound(&key);
        let ghost before = self.pairs();
        let ghost k = key@;
        let ghost v = value@;
        let replace = p < self.entries.len() && self.entries[p].0.same(&key);
        assert(p < before.len() ==> before[p as int].0 == self.entries@[p as int].0@);
        let mut entries: Vec<(K, V)> = Vec::new();
        core::mem::swap(&mut entries, &mut self.entries);
        if replace {
            entries.set(p, (key, value));
        } else {
            entries.insert(p, (key, value));
        }
        proof {
            let after = pair_views(entries@);
            if replace {
                assert(after =~= before.update(p as int, (k, v)));
                assert(sorted_keys::<K, V::V>(after)) by {
                    assert forall|i: int, j: int| 0 <= i < j < after.len() implies K::key_lt(
                        #[trigger] after[i].0,
                        #[trigger] after[j].0,
                    ) by {
                        assert(K::key_lt(before[i].0, before[j].0));
                    }
                }
                lemma_update_map::<K, V::V>(before, after, p as int, k, v);
            } else {
                assert(after =~= before.insert(p as int, (k, v)));
                if p < before.len() {
                    K::lemma_total(before[p as int].0, k);
                }
                assert(sorted_keys::<K, V::V>(after)) by {
                    assert forall|i: int, j: int| 0 <= i < j < after.len() implies K::key_lt(
                        #[trigger] after[i].0,
                        #[trigger] after[j].0,
                    ) by {
                        if j < p {
                            assert(K::key_lt(before[i].0, before[j].0));
                        } else if j == p {
                            assert(K::key_lt(before[i].0, k));
                        } else if i < p {
                            assert(K::key_lt(before[i].0, k));
                            if j - 1 > p {
                                assert(K::key_lt(before[p as int].0, before[j - 1].0));
                                K::lemma_transitive(k, before[p as int].0, before[j - 1].0);
                            }
                            K::lemma_transitive(before[i].0, k, before[j - 1].0);
                        } else if i == p {
                            if j - 1 > p {
                                assert(K::key_lt(before[p as int].0, before[j - 1].0));
                                K::lemma_transitive(k, before[p as int].0, before[j - 1].0);
                            }
                        } else {
                            assert(K::key_lt(before[i - 1].0, before[j - 1].0));
                        }
                    }
                }
                lemma_insert_map::<K, V::V>(before, after, p as int, k, v);
            }
        }
        self.entries = entries;
    }

    /// Removes the entry stored under `key`, if any, and returns its value.
    pub fn remove(&mut self, key: &K) -> (r: Option<V>)
        ensures
            final(self)@ == old(self)@.remove(key@),
            match r {
                Some(v) => old(self)@.contains_key(key@) && v@ == old(self)@[key@],
                None => !old(self)@.contains_key(key@),
            },
    {
        proof {
            use_type_invariant(&*self);
        }
        let ghost before = self.pairs();
        match self.position(key) {
            Some(p) => {
                let mut entries: Vec<(K, V)> = Vec::new();
                core::mem::swap(&mut entries, &mut self.entries);
                let removed = entries.remove(p);
                proof {
                    let after = pair_views(entries@);
                    assert(after =~= before.remove(p as int));
                    assert(before =~= after.insert(p as int, before[p as int]));
                    assert(sorted_keys::<K, V::V>(after)) by {
                        assert forall|i: int, j: int| 0 <= i < j < after.len() implies K::key_lt(
                            #[trigger] after[i].0,
                            #[trigger] after[j].0,
                        ) by {
                            let bi = if i < p { i } else { i + 1 };
                            let bj = if j < p { j } else { j + 1 };
                            assert(K::key_lt(before[bi].0, before[bj].0));
                        }
                    }
                    lemma_insert_map::<K, V::V>(
                        after,
                        before,
                        p as int,
                        before[p as int].0,
                        before[p as int].1,
                    );
                    lemma_pairs_map_at::<K, V::V>(before, p as int);
                    assert(pairs_map(after) =~= pairs_map(before).remove(key@));
                }
                self.entries = entries;
                Some(removed.1)
            },
            None => {
                assert(self@ =~= self@.remove(key@));
                None
            },
        }
    }
}

impl<K: Ordered, V: Duplicate> SortedMap<K, V> {
    /// The entries whose flag in `keep` is set, copied: `keep[i]` goes with the
    /// `i`-th entry in key order.
    pub fn restrict(&self, keep: &Vec<bool>) -> (out: Self)
        requires
            keep@.len() == self.pairs().len(),
        ensures
            forall|k: K::V|
                out@.contains_key(k) <==> (exists|j: int|
                    0 <= j < keep@.len() && (#[trigger] self.pairs()[j]).0 == k && keep@[j]),
            forall|k: K::V| out@.contains_key(k) ==> self@.contains_key(k) && out@[k] == self@[k],
    {
        proof {
            use_type_invariant(self);
        }
        let n = self.entries.len();
        let ghost pairs = self.pairs();
        let mut out: SortedMap<K, V> = SortedMap::new();
        let mut i: usize = 0;
        while i < n
            invariant
                n == pairs.len(),
                n == self.entries@.len(),
                n == keep@.len(),
                i <= n,
                pairs == self.pairs(),
                sorted_keys::<K, V::V>(pairs),
                self@ == pairs_map(pairs),
                forall|k: K::V|
                    out@.contains_key(k) <==> (exists|j: int|
                        0 <= j < i && (#[trigger] pairs[j]).0 == k && keep@[j]),
                forall|k: K::V| out@.contains_key(k) ==> self@.contains_key(k) && out@[k] == self@[k],
            decreases n - i,
        {
            let ghost ob = out@;
            assert(pairs[i as int] == (self.entries@[i as int].0@, self.entries@[i as int].1@));
            if keep[i] {
                out.insert(self.entries[i].0.duplicate(), self.entries[i].1.duplicate());
            }
            proof {
                lemma_pairs_map_at::<K, V::V>(pairs, i as int);
                assert forall|k: K::V|
                    out@.contains_key(k) <==> (exists|j: int|
                        0 <= j < i + 1 && (#[trigger] pairs[j]).0 == k && keep@[j]) by {
                    if ob.contains_key(k) {
                        let j = choose|j: int| 0 <= j < i && (#[trigger] pairs[j]).0 == k && keep@[j];
                        assert(0 <= j < i + 1 && pairs[j].0 == k && keep@[j]);
                    }
                    if exists|j: int| 0 <= j < i + 1 && (#[trigger] pairs[j]).0 == k && keep@[j] {
                        let j = choose|j: int|
                            0 <= j < i + 1 && (#[trigger] pairs[j]).0 == k && keep@[j];
                        if j < i {
                            assert(ob.contains_key(k));
                        }
                    }
                    if keep@[i as int] && k == pairs[i as int].0 {
                        assert(pairs[i as int].0 == k && keep@[i as int]);
                    }
                }
            }
            i += 1;
        }
        out
    }
}

impl<K: Ordered, V: Duplicate> Duplicate for SortedMap<K, V> {
    fn duplicate(&self) -> (m: Self)
        ensures
            m.pairs() == self.pairs(),
    {
        proof {
            use_type_invariant(self);
        }
        let mut entries: Vec<(K, V)> = Vec::new();
        let mut i: usize = 0;
        while i < self.entries.len()
            invariant
                i <= self.entries.len(),
                entries@.len() == i,
                pair_views(entries@) == self.pairs().subrange(0, i as int),
            decreases self.entries.len() - i,
        {
            let ghost prev = entries@;
            assert(self.pairs()[i as int] == (self.entries@[i as int].0@, self.entries@[i as int].1@));
            entries.push((self.entries[i].0.duplicate(), self.entries[i].1.duplicate()));
            i += 1;
            assert forall|j: int| 0 <= j < i implies pair_views(entries@)[j] == self.pairs()[j] by {
                if j < i - 1 {
                    assert(entries@[j] == prev[j]);
                    assert(pair_views(prev)[j] == self.pairs().subrange(0, i - 1)[j]);
                }
            }
            assert(pair_views(entries@) =~= self.pairs().subrange(0, i as int));
        }
        assert(self.pairs().subrange(0, self.entries.len() as int) =~= self.pairs());
        SortedMap { entries }
    }
}

/// Whether `s` strictly increases.
pub open spec fn strictly_sorted<K: Ordered>(s: Seq<K::V>) -> bool {
    forall|i: int, j: int| 0 <= i < j < s.len() ==> K::key_lt(#[trigger] s[i], #[trigger] s[j])
}

/// A set of keys, kept sorted.
#[derive(Debug, PartialEq, Eq)]
pub struct SortedSet<K: Ordered> {
    map: SortedMap<K, ()>,
}

impl<K: Ordered> View for SortedSet<K> {
    type V = Set<K::V>;

    closed spec fn view(&self) -> Set<K::V> {
        self.map@.dom()
    }
}

impl<K: Ordered> SortedSet<K> {
    /// The members in increasing order.
    pub closed spec fn elems(&self) -> Seq<K::V> {
        self.map.pairs().map_values(|p: (K::V, ())| p.0)
    }

    /// The empty set.
    pub fn new() -> (s: Self)
        ensures
            s@ == Set::<K::V>::empty(),
            s.elems().len() == 0,
    {
        let s = SortedSet { map: SortedMap::new() };
        assert(s@ =~= Set::<K::V>::empty());
        s
    }

    /// The number of members. The members are listed in strictly increasing
    /// order, each once.
    pub fn len(&self) -> (n: usize)
        ensures
            n == self.elems().len(),
            strictly_sorted::<K>(self.elems()),
            forall|k: K::V| self@.contains(k) <==> self.elems().contains(k),
            self@.finite(),
            self@.len() == n,
            self.elems().no_duplicates(),
            self.elems().to_set() == self@,
    {
        let n = self.map.len();
        proof {
            let pairs = self.map.pairs();
            let elems = self.elems();
            assert forall|i: int, j: int|
                0 <= i < elems.len() && 0 <= j < elems.len() && i != j implies elems[i]
                != elems[j] by {
                if elems[i] == elems[j] {
                    assert(pairs[i].0 == pairs[j].0);
                    lemma_sorted_keys_unique::<K, ()>(pairs, i, j);
                }
            }
            assert(elems.to_set() =~= self@) by {
                assert forall|k: K::V| elems.to_set().contains(k) <==> self@.contains(k) by {
                    if elems.contains(k) {
                        let i = choose|i: int| 0 <= i < elems.len() && elems[i] == k;
                        assert(pairs[i].0 == k);
                        assert(has_key(pairs, k));
                    }
                    if self@.contains(k) {
                        assert(has_key(pairs, k));
                        let i = key_index(pairs, k);
                        assert(elems[i] == k);
                    }
                }
            }
            elems.unique_seq_to_set();
            vstd::seq_lib::seq_to_set_is_finite(elems);
            assert forall|k: K::V| self@.contains(k) <==> elems.contains(k) by {
                if self@.contains(k) {
                    assert(has_key(pairs, k));
                    let i = key_index(pairs, k);
                    assert(elems[i] == k);
                }
                if elems.contains(k) {
                    let i = choose|i: int| 0 <= i < elems.len() && elems[i] == k;
                    assert(pairs[i].0 == k);
                    assert(has_key(pairs, k));
                }
            }
            assert forall|i: int, j: int| 0 <= i < j < elems.len() implies K::key_lt(
                #[trigger] elems[i],
                #[trigger] elems[j],
            ) by {
                assert(K::key_lt(pairs[i].0, pairs[j].0));
            }
        }
        n
    }

    /// Whether the set has no member.
    pub fn is_empty(&self) -> (b: bool)
        ensures
            b == (self@ == Set::<K::V>::empty()),
            b == (self.elems().len() == 0),
    {
        let b = self.map.is_empty();
        proof {
            if b {
                assert(self@ =~= Set::<K::V>::empty());
            } else {
                assert(self.map@.dom() != Set::<K::V>::empty()) by {
                    if self.map@.dom() == Set::<K::V>::empty() {
                        assert(self.map@ =~= Map::<K::V, ()>::empty());
                    }
                }
            }
        }
        b
    }

    /// Whether `key` is a member.
    pub fn contains(&self, key: &K) -> (b: bool)
        ensures
            b == self@.contains(key@),
    {
        self.map.contains_key(key)
    }

    /// Adds `key`. Returns whether it was not a member before.
    pub fn insert(&mut self, key: K) -> (fresh: bool)
        ensures
            final(self)@ == old(self)@.insert(key@),
            fresh == !old(self)@.contains(key@),
    {
        let fresh = !self.map.contains_key(&key);
        self.map.insert(key, ());
        assert(self@ =~= old(self)@.insert(key@));
        fresh
    }

    /// Removes `key`. Returns whether it was a member.
    pub fn remove(&mut self, key: &K) -> (was: bool)
        ensures
            final(self)@ == old(self)@.remove(key@),
            was == old(self)@.contains(key@),
    {
        let r = self.map.remove(key);
        assert(self@ =~= old(self)@.remove(key@));
        r.is_some()
    }

    /// The `i`-th member in increasing order.
    pub fn key_at(&self, i: usize) -> (k: &K)
        requires
            i < self.elems().len(),
        ensures
            k@ == self.elems()[i as int],
            self@.contains(k@),
    {
        self.map.key_at(i)
    }

    /// The members in increasing order.
    pub fn to_vec(&self) -> (out: Vec<K>)
        ensures
            out@.len() == self.elems().len(),
            forall|i: int| 0 <= i < out@.len() ==> (#[trigger] out@[i])@ == self.elems()[i],
    {
        let n = self.len();
        let mut out: Vec<K> = Vec::new();
        let mut i: usize = 0;
        while i < n
            invariant
                n == self.elems().len(),
                i <= n,
                out@.len() == i,
                forall|j: int| 0 <= j < i ==> (#[trigger] out@[j])@ == self.elems()[j],
            decreases n - i,
        {
            out.push(self.key_at(i).duplicate());
            i += 1;
        }
        out
    }
}

impl<K: Ordered> Duplicate for SortedSet<K> {
    fn duplicate(&self) -> (r: Self)
        ensures
            r.elems() == self.elems(),
    {
        SortedSet { map: self.map.duplicate() }
    }
}

impl Duplicate for () {
    fn duplicate(&self) -> (r: Self) {
        ()
    }
}

/// An open string-to-string map, such as the metadata of a node or an edge.
pub type Metadata = SortedMap<String, String>;

} // verus!
