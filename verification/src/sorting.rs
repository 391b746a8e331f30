//! Stable sorting of keyed items.

use vstd::prelude::*;
use vstd::seq_lib::{to_multiset_insert, to_multiset_remove};
use crate::ordered::Ranked;

verus! {

/// Whether no item of `s` has a key that comes before the key of an earlier
/// item.
pub open spec fn key_sorted<K: Ranked, P>(s: Seq<(K, P)>) -> bool {
    forall|i: int, j: int|
        0 <= i < j < s.len() ==> !K::key_lt((#[trigger] s[j]).0@, (#[trigger] s[i]).0@)
}

/// Where an item with key `k` goes into the sorted sequence `s`: before the
/// first item whose key comes after `k`, so after every item with the same key.
pub open spec fn insert_pos<K: Ranked, P>(s: Seq<(K, P)>, k: K::V) -> int
    decreases s.len(),
{
    if s.len() == 0 {
        0
    } else if K::key_lt(k, s[0].0@) {
        0
    } else {
        1 + insert_pos(s.drop_first(), k)
    }
}

/// The items of `s` ordered by key; items with equal keys keep their order.
pub open spec fn stable_sort<K: Ranked, P>(s: Seq<(K, P)>) -> Seq<(K, P)>
    decreases s.len(),
{
    if s.len() == 0 {
        s
    } else {
        let rest = stable_sort(s.drop_last());
        rest.insert(insert_pos(rest, s.last().0@), s.last())
    }
}

/// `insert_pos` lies within the sequence, has no later key before it and is
/// followed by a later key where anything follows.
pub proof fn lemma_insert_pos<K: Ranked, P>(s: Seq<(K, P)>, k: K::V)
    ensures
        0 <= insert_pos(s, k) <= s.len(),
        forall|j: int| 0 <= j < insert_pos(s, k) ==> !K::key_lt(k, (#[trigger] s[j]).0@),
        insert_pos(s, k) < s.len() ==> K::key_lt(k, s[insert_pos(s, k)].0@),
    decreases s.len(),
{
    if s.len() > 0 && !K::key_lt(k, s[0].0@) {
        let t = s.drop_first();
        lemma_insert_pos(t, k);
        assert forall|j: int| 0 <= j < insert_pos(s, k) implies !K::key_lt(
            k,
            (#[trigger] s[j]).0@,
        ) by {
            if j > 0 {
                assert(s[j] == t[j - 1]);
            }
        }
    }
}

/// The position that the two properties of `lemma_insert_pos` describe is
/// `insert_pos`.
pub proof fn lemma_insert_pos_unique<K: Ranked, P>(s: Seq<(K, P)>, k: K::V, p: int)
    requires
        0 <= p <= s.len(),
        forall|j: int| 0 <= j < p ==> !K::key_lt(k, (#[trigger] s[j]).0@),
        p < s.len() ==> K::key_lt(k, s[p].0@),
    ensures
        p == insert_pos(s, k),
    decreases s.len(),
{
    if s.len() > 0 {
        if p == 0 {
        } else {
            assert(!K::key_lt(k, s[0].0@));
            let t = s.drop_first();
            assert forall|j: int| 0 <= j < p - 1 implies !K::key_lt(k, (#[trigger] t[j]).0@) by {
                assert(t[j] == s[j + 1]);
            }
            lemma_insert_pos_unique(t, k, p - 1);
        }
    }
}

/// Inserting at `insert_pos` keeps a sorted sequence sorted.
pub proof fn lemma_insert_keeps_sorted<K: Ranked, P>(s: Seq<(K, P)>, x: (K, P))
    requires
        key_sorted(s),
    ensures
        key_sorted(s.insert(insert_pos(s, x.0@), x)),
{
    let k = x.0@;
    let p = insert_pos(s, k);
    lemma_insert_pos(s, k);
    let t = s.insert(p, x);
    assert forall|i: int, j: int| 0 <= i < j < t.len() implies !K::key_lt(
        (#[trigger] t[j]).0@,
        (#[trigger] t[i]).0@,
    ) by {
        if j < p {
            assert(t[i] == s[i] && t[j] == s[j]);
        } else if j == p {
            assert(t[i] == s[i]);
        } else if i < p {
            assert(t[i] == s[i] && t[j] == s[j - 1]);
        } else if i == p {
            assert(t[j] == s[j - 1]);
            if K::key_lt(s[j - 1].0@, k) {
                if j - 1 > p {
                    K::lemma_transitive(s[j - 1].0@, k, s[p].0@);
                    assert(!K::key_lt(s[j - 1].0@, s[p].0@));
                } else {
                    K::lemma_transitive(k, s[p].0@, k);
                    K::lemma_irreflexive(k);
                }
            }
        } else {
            assert(t[i] == s[i - 1] && t[j] == s[j - 1]);
        }
    }
}

/// A stable sort is sorted and holds the items of its input, each as often.
pub proof fn lemma_stable_sort<K: Ranked, P>(s: Seq<(K, P)>)
    ensures
        key_sorted(stable_sort(s)),
        stable_sort(s).len() == s.len(),
        stable_sort(s).to_multiset() =~= s.to_multiset(),
    decreases s.len(),
{
    if s.len() > 0 {
        let head = s.drop_last();
        let rest = stable_sort(head);
        lemma_stable_sort(head);
        lemma_insert_pos(rest, s.last().0@);
        lemma_insert_keeps_sorted(rest, s.last());
        to_multiset_insert(rest, insert_pos(rest, s.last().0@), s.last());
        assert(s =~= head.insert(head.len() as int, s.last()));
        to_multiset_insert(head, head.len() as int, s.last());
    }
}

/// A stable sort holds exactly the items of its input.
pub proof fn lemma_sort_same_items<K: Ranked, P>(s: Seq<(K, P)>)
    ensures
        forall|x: (K, P)| stable_sort(s).contains(x) <==> s.contains(x),
{
    let sorted = stable_sort(s);
    lemma_stable_sort(s);
    assert forall|x: (K, P)| sorted.contains(x) <==> s.contains(x) by {
        sorted.to_multiset_ensures();
        s.to_multiset_ensures();
        assert(sorted.to_multiset().count(x) == s.to_multiset().count(x));
    }
}

/// A stable sort holds the items of its input, each as often, however the
/// items are looked at: what `f` makes of the sorted items is what it makes of
/// the items, each as often.
pub proof fn lemma_sort_keeps_counts<K: Ranked, P, B>(s: Seq<(K, P)>, f: spec_fn((K, P)) -> B)
    ensures
        stable_sort(s).map_values(f).to_multiset() =~= s.map_values(f).to_multiset(),
    decreases s.len(),
{
    if s.len() == 0 {
        assert(stable_sort(s).map_values(f) =~= s.map_values(f));
    } else {
        let head = s.drop_last();
        let rest = stable_sort(head);
        let x = s.last();
        let pos = insert_pos(rest, x.0@);
        lemma_sort_keeps_counts(head, f);
        lemma_stable_sort(head);
        lemma_insert_pos(rest, x.0@);
        assert(stable_sort(s).map_values(f) =~= rest.map_values(f).insert(pos, f(x)));
        to_multiset_insert(rest.map_values(f), pos, f(x));
        assert(s.map_values(f) =~= head.map_values(f).insert(head.len() as int, f(x)));
        to_multiset_insert(head.map_values(f), head.len() as int, f(x));
    }
}

/// The items of `s` whose key is `k`, in their order.
pub open spec fn keyed_by<K: Ranked, P>(s: Seq<(K, P)>, k: K::V) -> Seq<(K, P)>
    decreases s.len(),
{
    if s.len() == 0 {
        s
    } else if s.last().0@ == k {
        keyed_by(s.drop_last(), k).push(s.last())
    } else {
        keyed_by(s.drop_last(), k)
    }
}

/// An item that goes in behind every item with its key joins the items with
/// its key at their end, and leaves the items with another key as they were.
proof fn lemma_keyed_insert<K: Ranked, P>(s: Seq<(K, P)>, x: (K, P), pos: int, k: K::V)
    requires
        0 <= pos <= s.len(),
        forall|j: int| pos <= j < s.len() ==> (#[trigger] s[j]).0@ != x.0@,
    ensures
        keyed_by(s.insert(pos, x), k) == (if x.0@ == k {
            keyed_by(s, k).push(x)
        } else {
            keyed_by(s, k)
        }),
    decreases s.len() - pos,
{
    let t = s.insert(pos, x);
    if pos == s.len() {
        assert(t.drop_last() =~= s);
        assert(t.last() == x);
    } else {
        let head = s.drop_last();
        assert(t.last() == s.last());
        assert(t.drop_last() =~= head.insert(pos, x));
        assert forall|j: int| pos <= j < head.len() implies (#[trigger] head[j]).0@ != x.0@ by {
            assert(head[j] == s[j]);
        }
        lemma_keyed_insert(head, x, pos, k);
        assert(s[s.len() - 1].0@ != x.0@);
    }
}

/// A stable sort is stable: the items with one key stand in the sorted
/// sequence in the order in which they stood before.
pub proof fn lemma_sort_is_stable<K: Ranked, P>(s: Seq<(K, P)>, k: K::V)
    ensures
        keyed_by(stable_sort(s), k) == keyed_by(s, k),
    decreases s.len(),
{
    if s.len() > 0 {
        let head = s.drop_last();
        let rest = stable_sort(head);
        let x = s.last();
        let pos = insert_pos(rest, x.0@);
        lemma_sort_is_stable(head, k);
        lemma_stable_sort(head);
        lemma_insert_pos(rest, x.0@);
        assert forall|j: int| pos <= j < rest.len() implies (#[trigger] rest[j]).0@ != x.0@ by {
            if pos < j {
                assert(!K::key_lt(rest[j].0@, rest[pos].0@));
            }
            K::lemma_irreflexive(x.0@);
        }
        lemma_keyed_insert(rest, x, pos, k);
    }
}

/// Sorts the items by key. Items with equal keys keep their order.
pub fn sort_by_key<K: Ranked, P>(v: Vec<(K, P)>) -> (out: Vec<(K, P)>)
    ensures
        out@ == stable_sort(v@),
        key_sorted(out@),
        out@.len() == v@.len(),
        out@.to_multiset() =~= v@.to_multiset(),
{
    let ghost orig = v@;
    let mut rest = v;
    let mut out: Vec<(K, P)> = Vec::new();
    let ghost n = orig.len() as int;
    assert(orig.subrange(0, 0) =~= Seq::<(K, P)>::empty());
    assert(orig.subrange(0, n) =~= orig);
    while rest.len() > 0
        invariant
            n == orig.len(),
            rest@.len() <= n,
            out@ == stable_sort(orig.subrange(0, n - rest@.len())),
            rest@ == orig.subrange(n - rest@.len(), n),
        decreases rest.len(),
    {
        let ghost done = n - rest@.len();
        let x = rest.remove(0);
        assert(x == orig[done]);
        assert(rest@ =~= orig.subrange(done + 1, n));
        let mut p: usize = 0;
        proof {
            lemma_stable_sort(orig.subrange(0, done));
        }
        while p < out.len() && !x.0.less(&out[p].0)
            invariant
                p <= out.len(),
                forall|j: int| 0 <= j < p ==> !K::key_lt(x.0@, (#[trigger] out@[j]).0@),
            decreases out.len() - p,
        {
            p += 1;
        }
        proof {
            lemma_insert_pos_unique(out@, x.0@, p as int);
            let next = orig.subrange(0, done + 1);
            assert(next.drop_last() =~= orig.subrange(0, done));
            assert(next.last() == x);
        }
        out.insert(p, x);
    }
    proof {
        assert(orig.subrange(0, n) =~= orig);
        lemma_stable_sort(orig);
    }
    out
}

/// The items of `s` with their payloads mapped by `f`.
pub open spec fn with_payloads<K, P, Q>(s: Seq<(K, P)>, f: spec_fn(P) -> Q) -> Seq<(K, Q)> {
    Seq::new(s.len(), |i: int| (s[i].0, f(s[i].1)))
}

/// Where an item goes depends on the keys alone.
pub proof fn lemma_insert_pos_by_keys<K: Ranked, P, Q>(a: Seq<(K, P)>, b: Seq<(K, Q)>, k: K::V)
    requires
        a.len() == b.len(),
        forall|i: int| 0 <= i < a.len() ==> (#[trigger] a[i]).0@ == b[i].0@,
    ensures
        insert_pos(a, k) == insert_pos(b, k),
    decreases a.len(),
{
    if a.len() > 0 {
        assert(a[0].0@ == b[0].0@);
        if !K::key_lt(k, a[0].0@) {
            let ta = a.drop_first();
            let tb = b.drop_first();
            assert forall|i: int| 0 <= i < ta.len() implies (#[trigger] ta[i]).0@ == tb[i].0@ by {
                assert(ta[i] == a[i + 1]);
                assert(tb[i] == b[i + 1]);
            }
            lemma_insert_pos_by_keys(ta, tb, k);
        }
    }
}

/// Sorting looks at the keys alone: to sort and then map the payloads is to
/// map the payloads and then sort.
pub proof fn lemma_sort_maps<K: Ranked, P, Q>(s: Seq<(K, P)>, f: spec_fn(P) -> Q)
    ensures
        stable_sort(with_payloads(s, f)) == with_payloads(stable_sort(s), f),
    decreases s.len(),
{
    let m = with_payloads(s, f);
    if s.len() == 0 {
        assert(stable_sort(m) =~= with_payloads(stable_sort(s), f));
    } else {
        let head = s.drop_last();
        let rest = stable_sort(head);
        lemma_sort_maps(head, f);
        assert(m.drop_last() =~= with_payloads(head, f));
        let rest_m = stable_sort(m.drop_last());
        assert(rest_m == with_payloads(rest, f));
        let k = s.last().0@;
        assert(m.last().0@ == k);
        lemma_insert_pos_by_keys(rest_m, rest, k);
        lemma_insert_pos(rest, k);
        let pos = insert_pos(rest, k);
        assert(rest_m.insert(pos, m.last()) =~= with_payloads(rest.insert(pos, s.last()), f));
    }
}

/// Sorting keeps keys apart: where no two items share a key, no two items of
/// the sorted sequence do.
pub proof fn lemma_sort_keeps_keys_apart<K: Ranked, P>(s: Seq<(K, P)>)
    requires
        forall|a: int, b: int| 0 <= a < b < s.len() ==> (#[trigger] s[a]).0@ != (#[trigger] s[b]).0@,
    ensures
        forall|a: int, b: int|
            0 <= a < b < stable_sort(s).len() ==> (#[trigger] stable_sort(s)[a]).0@ != (
            #[trigger] stable_sort(s)[b]).0@,
{
    let t = stable_sort(s);
    lemma_stable_sort(s);
    lemma_sort_same_items(s);
    assert(s.no_duplicates()) by {
        assert forall|i: int, j: int| 0 <= i < s.len() && 0 <= j < s.len() && i != j implies s[i]
            != s[j] by {
            if i < j {
                assert(s[i].0@ != s[j].0@);
            } else {
                assert(s[j].0@ != s[i].0@);
            }
        }
    }
    s.lemma_multiset_has_no_duplicates();
    t.lemma_multiset_has_no_duplicates_conv();
    assert forall|a: int, b: int| 0 <= a < b < t.len() implies (#[trigger] t[a]).0@ != (
    #[trigger] t[b]).0@ by {
        assert(t.contains(t[a]) && t.contains(t[b]));
        assert(s.contains(t[a]) && s.contains(t[b]));
        let i = choose|i: int| 0 <= i < s.len() && s[i] == t[a];
        let j = choose|j: int| 0 <= j < s.len() && s[j] == t[b];
        assert(t[a] != t[b]);
        if i < j {
            assert(s[i].0@ != s[j].0@);
        } else {
            assert(s[j].0@ != s[i].0@);
        }
    }
}

/// The numbers of `s` as items to sort.
pub open spec fn id_items(s: Seq<u64>) -> Seq<(u64, ())> {
    s.map_values(|x: u64| (x, ()))
}

/// The numbers of `s` in increasing order, each as often as in `s`.
pub open spec fn sorted_ids(s: Seq<u64>) -> Seq<u64> {
    stable_sort(id_items(s)).map_values(|p: (u64, ())| p.0)
}

/// `sorted_ids` never decreases and holds the numbers of its input, each as
/// often.
pub proof fn lemma_sorted_ids(s: Seq<u64>)
    ensures
        sorted_ids(s).len() == s.len(),
        forall|i: int, j: int|
            0 <= i < j < s.len() ==> (#[trigger] sorted_ids(s)[i]) <= #[trigger] sorted_ids(s)[j],
        forall|x: u64| sorted_ids(s).contains(x) <==> s.contains(x),
{
    let items = id_items(s);
    let sorted = stable_sort(items);
    lemma_stable_sort(items);
    let out = sorted_ids(s);
    assert forall|i: int, j: int| 0 <= i < j < s.len() implies (#[trigger] out[i])
        <= #[trigger] out[j] by {
        assert(!<u64 as Ranked>::key_lt(sorted[j].0@, sorted[i].0@));
    }
    assert forall|x: u64| out.contains(x) <==> s.contains(x) by {
        if out.contains(x) {
            let i = choose|i: int| 0 <= i < out.len() && out[i] == x;
            assert(sorted[i] == (x, ()));
            assert(sorted.to_multiset().count((x, ())) > 0) by {
                sorted.to_multiset_ensures();
                assert(sorted.contains((x, ())));
            }
            assert(sorted.to_multiset().count((x, ())) == items.to_multiset().count((x, ())));
            items.to_multiset_ensures();
            assert(items.contains((x, ())));
            let k = choose|k: int| 0 <= k < items.len() && items[k] == (x, ());
            assert(s[k] == x);
        }
        if s.contains(x) {
            let k = choose|k: int| 0 <= k < s.len() && s[k] == x;
            assert(items[k] == (x, ()));
            items.to_multiset_ensures();
            assert(items.contains((x, ())));
            assert(items.to_multiset().count((x, ())) > 0);
            assert(sorted.to_multiset().count((x, ())) == items.to_multiset().count((x, ())));
            sorted.to_multiset_ensures();
            assert(sorted.contains((x, ())));
            let i = choose|i: int| 0 <= i < sorted.len() && sorted[i] == (x, ());
            assert(out[i] == x);
        }
    }
}

/// Sorts numbers into increasing order.
pub fn sort_ids(v: &Vec<u64>) -> (out: Vec<u64>)
    ensures
        out@ == sorted_ids(v@),
{
    let mut items: Vec<(u64, ())> = Vec::new();
    let mut i: usize = 0;
    while i < v.len()
        invariant
            i <= v.len(),
            items@ == id_items(v@).take(i as int),
        decreases v.len() - i,
    {
        items.push((v[i], ()));
        i += 1;
        assert(items@ =~= id_items(v@).take(i as int));
    }
    assert(id_items(v@).take(v.len() as int) =~= id_items(v@));
    let sorted = sort_by_key(items);
    let mut out: Vec<u64> = Vec::new();
    let mut j: usize = 0;
    while j < sorted.len()
        invariant
            j <= sorted.len(),
            out@ == sorted@.take(j as int).map_values(|p: (u64, ())| p.0),
        decreases sorted.len() - j,
    {
        out.push(sorted[j].0);
        j += 1;
        assert(out@ =~= sorted@.take(j as int).map_values(|p: (u64, ())| p.0));
    }
    assert(sorted@.take(sorted.len() as int) =~= sorted@);
    out
}

} // verus!
