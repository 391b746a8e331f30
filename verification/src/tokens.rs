//! Word tokens of a text, and how far two token sets overlap.

use vstd::prelude::*;
use vstd::utf8::is_ascii_chars;
use crate::ordered::Duplicate;
use crate::sorted_map::SortedSet;
use crate::text::{
    char_is_alphanumeric, char_to_lowercase, chars_of, is_alphanumeric_char, lowercase_of,
    slice_chars, string_of,
};

verus! {

/// Whether `c` can stand in a word: a letter, a number or an underscore.
pub open spec fn is_word_char(c: char) -> bool {
    is_alphanumeric_char(c) || c == '_'
}

/// Whether the characters of `l` from `a` up to `b` are a word: one or more
/// word characters with no word character next to them on either side.
pub open spec fn is_run(l: Seq<char>, a: int, b: int) -> bool {
    &&& 0 <= a < b <= l.len()
    &&& forall|k: int| a <= k < b ==> is_word_char(#[trigger] l[k])
    &&& (a == 0 || !is_word_char(l[a - 1]))
    &&& (b == l.len() || !is_word_char(l[b]))
}

/// Whether `t` is a word of `l`.
pub open spec fn is_word(l: Seq<char>, t: Seq<char>) -> bool {
    exists|a: int, b: int| #[trigger] is_run(l, a, b) && t == l.subrange(a, b)
}

/// Whether `g` is a piece of the word `t`: two characters of `t` that stand
/// next to each other, or `t` itself where it has at most two characters.
pub open spec fn is_gram(t: Seq<char>, g: Seq<char>) -> bool {
    if t.len() <= 2 {
        g == t
    } else {
        exists|k: int| 0 <= k <= t.len() - 2 && g == #[trigger] t.subrange(k, k + 2)
    }
}

/// Whether `t` is a token of `l`: a word of `l`, or a piece of a word of `l`
/// that is not plain ASCII.
pub open spec fn is_token(l: Seq<char>, t: Seq<char>) -> bool {
    is_word(l, t) || exists|w: Seq<char>|
        #[trigger] is_word(l, w) && !is_ascii_chars(w) && is_gram(w, t)
}

/// The tokens of `l`.
pub open spec fn token_set(l: Seq<char>) -> Set<Seq<char>> {
    Set::new(|t: Seq<char>| is_token(l, t))
}

/// The words of `l` that end before position `i`.
pub open spec fn words_before(l: Seq<char>, i: int) -> Set<Seq<char>> {
    Set::new(
        |t: Seq<char>| exists|a: int, b: int| #[trigger] is_run(l, a, b) && b < i && t == l.subrange(a, b),
    )
}

/// The pieces of the first `m` of `words` that are not plain ASCII.
pub open spec fn grams_upto(words: Seq<Seq<char>>, m: int) -> Set<Seq<char>> {
    Set::new(
        |g: Seq<char>|
            exists|j: int|
                0 <= j < m && !is_ascii_chars(#[trigger] words[j]) && is_gram(words[j], g),
    )
}

/// The first `k` two-character pieces of `t`.
pub open spec fn pairs_upto(t: Seq<char>, k: int) -> Set<Seq<char>> {
    Set::new(|g: Seq<char>| exists|j: int| 0 <= j < k && g == #[trigger] t.subrange(j, j + 2))
}

/// The words of `l`, each once.
fn words_of(l: &Vec<char>) -> (out: SortedSet<String>)
    ensures
        forall|t: Seq<char>| out@.contains(t) <==> is_word(l@, t),
{
    let mut out: SortedSet<String> = SortedSet::new();
    let n = l.len();
    let mut start: usize = 0;
    let mut i: usize = 0;
    assert(out@ =~= words_before(l@, 0));
    while i < n
        invariant
            n == l@.len(),
            start <= i <= n,
            forall|k: int| start <= k < i ==> is_word_char(#[trigger] l@[k]),
            start == 0 || !is_word_char(l@[start - 1]),
            out@ == words_before(l@, i as int),
        decreases n - i,
    {
        let c = l[i];
        let word = char_is_alphanumeric(c) || c == '_';
        let ghost before = out@;
        if !word {
            if start < i {
                let token = string_of(&slice_chars(l, start, i));
                out.insert(token);
                assert(is_run(l@, start as int, i as int));
            }
            proof {
                assert forall|t: Seq<char>| out@.contains(t) <==> words_before(
                    l@,
                    i + 1,
                ).contains(t) by {
                    if words_before(l@, i + 1).contains(t) {
                        let (a, b) = choose|a: int, b: int| #[trigger]
                            is_run(l@, a, b) && b < i + 1 && t == l@.subrange(a, b);
                        if b == i {
                            if a < start {
                                assert(is_word_char(l@[start - 1]));
                            } else if a > start {
                                assert(is_word_char(l@[a - 1]));
                            }
                            assert(a == start);
                        } else {
                            assert(words_before(l@, i as int).contains(t));
                        }
                    }
                    if before.contains(t) {
                        let (a, b) = choose|a: int, b: int| #[trigger]
                            is_run(l@, a, b) && b < i && t == l@.subrange(a, b);
                        assert(is_run(l@, a, b) && b < i + 1);
                    }
                }
                assert(out@ =~= words_before(l@, i + 1));
            }
            start = i + 1;
        } else {
            proof {
                assert forall|t: Seq<char>| before.contains(t) <==> words_before(
                    l@,
                    i + 1,
                ).contains(t) by {
                    if words_before(l@, i + 1).contains(t) {
                        let (a, b) = choose|a: int, b: int| #[trigger]
                            is_run(l@, a, b) && b < i + 1 && t == l@.subrange(a, b);
                        assert(b != i);
                        assert(words_before(l@, i as int).contains(t));
                    }
                    if before.contains(t) {
                        let (a, b) = choose|a: int, b: int| #[trigger]
                            is_run(l@, a, b) && b < i && t == l@.subrange(a, b);
                        assert(is_run(l@, a, b) && b < i + 1);
                    }
                }
                assert(out@ =~= words_before(l@, i + 1));
            }
        }
        i += 1;
    }
    let ghost before = out@;
    if start < n {
        let token = string_of(&slice_chars(l, start, n));
        out.insert(token);
        assert(is_run(l@, start as int, n as int));
    }
    proof {
        assert forall|t: Seq<char>| out@.contains(t) <==> is_word(l@, t) by {
            if is_word(l@, t) {
                let (a, b) = choose|a: int, b: int| #[trigger] is_run(l@, a, b) && t == l@.subrange(a, b);
                if b == n {
                    if a < start {
                        assert(is_word_char(l@[start - 1]));
                    } else if a > start {
                        assert(is_word_char(l@[a - 1]));
                    }
                    assert(a == start);
                } else {
                    assert(words_before(l@, n as int).contains(t));
                }
            }
            if before.contains(t) {
                let (a, b) = choose|a: int, b: int| #[trigger]
                    is_run(l@, a, b) && b < n && t == l@.subrange(a, b);
                assert(is_run(l@, a, b));
            }
        }
    }
    out
}

/// The tokens of the characters `l`: the words of `l`, and for each word that
/// is not plain ASCII its pieces of two characters.
pub fn word_tokens(l: &Vec<char>) -> (out: SortedSet<String>)
    ensures
        out@ == token_set(l@),
{
    let words = words_of(l);
    let list = words.to_vec();
    let ghost texts = list@.map_values(|s: String| s@);
    let wn = words.len();
    let mut out = words.duplicate();
    proof {
        assert(texts =~= words.elems());
        assert(out@ =~= words@.union(grams_upto(texts, 0)));
    }
    let mut m: usize = 0;
    while m < list.len()
        invariant
            m <= list.len(),
            texts == list@.map_values(|s: String| s@),
            out@ == words@.union(grams_upto(texts, m as int)),
        decreases list.len() - m,
    {
        let w = &list[m];
        let ghost t = w@;
        assert(texts[m as int] == t);
        let ghost base = out@;
        if !w.is_ascii() {
            let cs = chars_of(w.as_str());
            if cs.len() <= 2 {
                out.insert(w.clone());
                proof {
                    assert forall|g: Seq<char>| out@.contains(g) <==> words@.union(
                        grams_upto(texts, m + 1),
                    ).contains(g) by {
                        if grams_upto(texts, m + 1).contains(g) {
                            let j = choose|j: int|
                                0 <= j < m + 1 && !is_ascii_chars(#[trigger] texts[j]) && is_gram(
                                    texts[j],
                                    g,
                                );
                            if j < m {
                                assert(grams_upto(texts, m as int).contains(g));
                            }
                        }
                        if grams_upto(texts, m as int).contains(g) {
                            let j = choose|j: int|
                                0 <= j < m && !is_ascii_chars(#[trigger] texts[j]) && is_gram(
                                    texts[j],
                                    g,
                                );
                            assert(0 <= j < m + 1);
                        }
                        if g == t {
                            assert(is_gram(texts[m as int], g));
                        }
                    }
                    assert(out@ =~= words@.union(grams_upto(texts, m + 1)));
                }
            } else {
                let count = cs.len() - 1;
                let ghost last = cs@.len() - 2;
                let mut k: usize = 0;
                assert(out@ =~= base.union(pairs_upto(t, 0)));
                while k < count
                    invariant
                        k <= count,
                        count == cs@.len() - 1,
                        cs@.len() <= usize::MAX,
                        last == cs@.len() - 2,
                        cs@ == t,
                        cs@.len() > 2,
                        out@ == base.union(pairs_upto(t, k as int)),
                    decreases count - k,
                {
                    let gram = string_of(&slice_chars(&cs, k, k + 2));
                    let ghost ob = out@;
                    out.insert(gram);
                    proof {
                        assert forall|g: Seq<char>| out@.contains(g) <==> base.union(
                            pairs_upto(t, k + 1),
                        ).contains(g) by {
                            if pairs_upto(t, k + 1).contains(g) {
                                let j = choose|j: int|
                                    0 <= j < k + 1 && g == #[trigger] t.subrange(j, j + 2);
                                if j < k {
                                    assert(pairs_upto(t, k as int).contains(g));
                                }
                            }
                            if pairs_upto(t, k as int).contains(g) {
                                let j = choose|j: int|
                                    0 <= j < k && g == #[trigger] t.subrange(j, j + 2);
                                assert(0 <= j < k + 1);
                            }
                            if g == t.subrange(k as int, k + 2) {
                                assert(pairs_upto(t, k + 1).contains(g));
                            }
                        }
                        assert(out@ =~= base.union(pairs_upto(t, k + 1)));
                    }
                    k += 1;
                }
                proof {
                    assert forall|g: Seq<char>| out@.contains(g) <==> words@.union(
                        grams_upto(texts, m + 1),
                    ).contains(g) by {
                        if grams_upto(texts, m + 1).contains(g) {
                            let j = choose|j: int|
                                0 <= j < m + 1 && !is_ascii_chars(#[trigger] texts[j]) && is_gram(
                                    texts[j],
                                    g,
                                );
                            if j < m {
                                assert(grams_upto(texts, m as int).contains(g));
                            } else {
                                let q = choose|q: int|
                                    0 <= q <= t.len() - 2 && g == #[trigger] t.subrange(q, q + 2);
                                assert(pairs_upto(t, last + 1).contains(g));
                            }
                        }
                        if grams_upto(texts, m as int).contains(g) {
                            let j = choose|j: int|
                                0 <= j < m && !is_ascii_chars(#[trigger] texts[j]) && is_gram(
                                    texts[j],
                                    g,
                                );
                            assert(0 <= j < m + 1);
                        }
                        if pairs_upto(t, last + 1).contains(g) {
                            let q = choose|q: int|
                                0 <= q < last + 1 && g == #[trigger] t.subrange(q, q + 2);
                            assert(is_gram(texts[m as int], g));
                        }
                    }
                    assert(out@ =~= words@.union(grams_upto(texts, m + 1)));
                }
            }
        } else {
            proof {
                assert forall|g: Seq<char>| grams_upto(texts, m as int).contains(g)
                    <==> grams_upto(texts, m + 1).contains(g) by {
                    if grams_upto(texts, m + 1).contains(g) {
                        let j = choose|j: int|
                            0 <= j < m + 1 && !is_ascii_chars(#[trigger] texts[j]) && is_gram(
                                texts[j],
                                g,
                            );
                        assert(j < m);
                    }
                    if grams_upto(texts, m as int).contains(g) {
                        let j = choose|j: int|
                            0 <= j < m && !is_ascii_chars(#[trigger] texts[j]) && is_gram(
                                texts[j],
                                g,
                            );
                        assert(0 <= j < m + 1);
                    }
                }
                assert(grams_upto(texts, m as int) =~= grams_upto(texts, m + 1));
            }
        }
        m += 1;
    }
    proof {
        assert forall|g: Seq<char>| out@.contains(g) <==> is_token(l@, g) by {
            if grams_upto(texts, list@.len() as int).contains(g) {
                let j = choose|j: int|
                    0 <= j < list@.len() && !is_ascii_chars(#[trigger] texts[j]) && is_gram(
                        texts[j],
                        g,
                    );
                assert(words.elems().contains(texts[j]));
                assert(is_word(l@, texts[j]));
            }
            if is_token(l@, g) && !is_word(l@, g) {
                let w = choose|w: Seq<char>| #[trigger]
                    is_word(l@, w) && !is_ascii_chars(w) && is_gram(w, g);
                assert(words@.contains(w));
                let j = choose|j: int| 0 <= j < texts.len() && texts[j] == w;
                assert(grams_upto(texts, list@.len() as int).contains(g));
            }
        }
        assert(out@ =~= token_set(l@));
    }
    out
}

/// The lower-case form of the characters `s`, character by character.
pub open spec fn lower_chars(s: Seq<char>) -> Seq<char>
    decreases s.len(),
{
    if s.len() == 0 {
        Seq::empty()
    } else {
        lower_chars(s.drop_last()) + lowercase_of(s.last())
    }
}

/// The lower-case form of `text`, character by character.
pub fn lower_chars_of(text: &str) -> (out: Vec<char>)
    ensures
        out@ == lower_chars(text@),
{
    let cs = chars_of(text);
    let mut out: Vec<char> = Vec::new();
    let mut i: usize = 0;
    assert(cs@.take(0) =~= Seq::<char>::empty());
    while i < cs.len()
        invariant
            i <= cs.len(),
            out@ == lower_chars(cs@.take(i as int)),
        decreases cs.len() - i,
    {
        let low = char_to_lowercase(cs[i]);
        let ghost before = out@;
        let mut j: usize = 0;
        while j < low.len()
            invariant
                j <= low.len(),
                out@ == before + low@.take(j as int),
            decreases low.len() - j,
        {
            out.push(low[j]);
            j += 1;
            assert(out@ =~= before + low@.take(j as int));
        }
        proof {
            assert(low@.take(low.len() as int) =~= low@);
            let t = cs@.take(i + 1);
            assert(t.drop_last() =~= cs@.take(i as int));
            assert(t.last() == cs@[i as int]);
        }
        i += 1;
    }
    assert(cs@.take(cs.len() as int) =~= cs@);
    out
}

/// The tokens of `text`, lower-cased character by character.
pub fn tokenize(text: &str) -> (out: SortedSet<String>)
    ensures
        out@ == token_set(lower_chars(text@)),
{
    let low = lower_chars_of(text);
    word_tokens(&low)
}

/// The tokens of `text` as it stands.
pub fn tokenize_simple(text: &str) -> (out: SortedSet<String>)
    ensures
        out@ == token_set(text@),
{
    let cs = chars_of(text);
    word_tokens(&cs)
}

/// The pieces of `n` characters of `token`: `token` itself where it has at
/// most `n` characters, none for an empty token or for `n == 0`.
pub fn char_ngrams(token: &str, n: usize) -> (out: Vec<String>)
    ensures
        (token@.len() == 0 || n == 0) ==> out@.len() == 0,
        (0 < token@.len() <= n) ==> out@.len() == 1 && out@[0]@ == token@,
        (0 < n < token@.len()) ==> out@.len() == token@.len() - n + 1 && forall|k: int|
            0 <= k < out@.len() ==> (#[trigger] out@[k])@ == token@.subrange(k, k + n),
{
    let cs = chars_of(token);
    let mut out: Vec<String> = Vec::new();
    if cs.len() == 0 || n == 0 {
        return out;
    }
    if cs.len() <= n {
        out.push(token.to_owned());
        return out;
    }
    let count = cs.len() - n + 1;
    let mut k: usize = 0;
    while k < count
        invariant
            k <= count,
            0 < n < cs@.len(),
            cs@.len() <= usize::MAX,
            count == cs@.len() - n + 1,
            cs@ == token@,
            out@.len() == k,
            forall|j: int| 0 <= j < k ==> (#[trigger] out@[j])@ == token@.subrange(j, j + n),
        decreases count - k,
    {
        out.push(string_of(&slice_chars(&cs, k, k + n)));
        k += 1;
    }
    out
}

/// How far two token sets overlap, as a fraction: the number of tokens in
/// both over the number of tokens in either. Zero over one where either set is
/// empty.
#[derive(Debug, Clone, Copy, PartialEq, Eq)]
pub struct Overlap {
    pub shared: usize,
    pub total: usize,
}

/// The number of tokens of `a` that are in `b` too.
pub fn shared_count(a: &SortedSet<String>, b: &SortedSet<String>) -> (n: usize)
    ensures
        n == a@.intersect(b@).len(),
        n <= a@.len(),
{
    let na = a.len();
    let ghost elems = a.elems();
    let mut n: usize = 0;
    let mut i: usize = 0;
    proof {
        assert(elems.take(0) =~= Seq::<Seq<char>>::empty());
        assert(elems.take(0).to_set() =~= Set::<Seq<char>>::empty());
        assert(elems.take(0).to_set().intersect(b@) =~= Set::<Seq<char>>::empty());
    }
    while i < na
        invariant
            na == elems.len(),
            elems == a.elems(),
            elems.no_duplicates(),
            i <= na,
            n <= i,
            n == elems.take(i as int).to_set().intersect(b@).len(),
            elems.take(i as int).to_set().intersect(b@).finite(),
        decreases na - i,
    {
        let key = a.key_at(i);
        let ghost x = elems[i as int];
        let ghost prev = elems.take(i as int).to_set();
        let ghost next = elems.take(i + 1).to_set();
        proof {
            assert(elems.take(i + 1) =~= elems.take(i as int).push(x));
            assert forall|y: Seq<char>| next.contains(y) <==> prev.insert(x).contains(y) by {
                if elems.take(i + 1).contains(y) {
                    let big = elems.take(i + 1);
                    let j = choose|j: int| 0 <= j < big.len() && big[j] == y;
                    if j < i {
                        assert(elems.take(i as int)[j] == y);
                    }
                }
                if elems.take(i as int).contains(y) {
                    let small = elems.take(i as int);
                    let j = choose|j: int| 0 <= j < small.len() && small[j] == y;
                    assert(elems.take(i + 1)[j] == y);
                }
                if y == x {
                    assert(elems.take(i + 1)[i as int] == y);
                }
            }
            assert(next =~= prev.insert(x));
            assert(!prev.contains(x)) by {
                if prev.contains(x) {
                    let small = elems.take(i as int);
                    let j = choose|j: int| 0 <= j < small.len() && small[j] == x;
                    assert(elems[j] == elems[i as int]);
                }
            }
        }
        if b.contains(key) {
            proof {
                assert(next.intersect(b@) =~= prev.intersect(b@).insert(x));
            }
            n += 1;
        } else {
            proof {
                assert(next.intersect(b@) =~= prev.intersect(b@));
            }
        }
        i += 1;
    }
    proof {
        assert(elems.take(na as int) =~= elems);
    }
    n
}

/// How far the finite sets `a` and `b` overlap, by Jaccard: the number of
/// common members over the number of members of their union; zero over one
/// where either is empty. The size of the union is capped at the greatest
/// machine number.
pub open spec fn overlap_of(a: Set<Seq<char>>, b: Set<Seq<char>>) -> (int, int) {
    if a.len() == 0 || b.len() == 0 {
        (0, 1)
    } else {
        (
            a.intersect(b).len() as int,
            if a.len() + b.len() - a.intersect(b).len() > usize::MAX {
                usize::MAX as int
            } else {
                a.len() + b.len() - a.intersect(b).len()
            },
        )
    }
}

/// How far two token sets overlap.
pub fn lexical_overlap(a: &SortedSet<String>, b: &SortedSet<String>) -> (r: Overlap)
    ensures
        r.total >= 1,
        r.shared <= r.total,
        (r.shared as int, r.total as int) == overlap_of(a@, b@),
{
    let na = a.len();
    let nb = b.len();
    if na == 0 || nb == 0 {
        return Overlap { shared: 0, total: 1 };
    }
    let shared = shared_count(a, b);
    proof {
        vstd::set_lib::lemma_len_subset(a@.intersect(b@), b@);
    }
    let rest = na - shared;
    let total = if rest > usize::MAX - nb {
        usize::MAX
    } else {
        rest + nb
    };
    Overlap { shared, total }
}

} // verus!
